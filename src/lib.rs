//! A small Lisp: a value model, a chain of scope frames, an evaluator with
//! curried lambdas, a reader from text, and a printer.

pub mod value;
pub mod env;
pub mod text;
pub mod builtin;
pub mod eval;
pub mod laws;
pub mod parser;
pub mod print;

pub use builtin::{add_builtin, init_builtins};
pub use env::{init_env, Lenv, Lookup};
pub use value::{to_err, to_lambda, to_num, to_qexpr, to_sym, Lerr, LerrType, Lfun, Llambda, Lval};
pub use parser::{parse, SyntaxError};
pub use print::{lisp, Prompt, Reply, Sample};
