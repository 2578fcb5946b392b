use lisp::eval::eval;
use lisp::{init_env, lisp, Lfun, Llambda, Lval, Prompt, Reply, Sample};

#[test]
fn values_print_as_text() {
    assert_eq!(Lval::Num(-42).to_text(), "-42");
    assert_eq!(Lval::Num(0).to_text(), "0");
    assert_eq!(
        Lval::Qexpr(vec![Lval::Num(1), Lval::Sexpr(vec![Lval::Sym(String::from("a"))])]).to_text(),
        "{1 (a)}"
    );
    assert_eq!(Lval::Fun(Lfun::Add).to_text(), "<builtin>");
    let f = Llambda::new(
        vec![String::from("a"), String::from("b")],
        vec![Lval::Sym(String::from("+")), Lval::Sym(String::from("a"))],
    );
    assert_eq!(Lval::Lambda(f).to_text(), "(\\ {a b} {+ a})");
}

#[test]
fn lisp_answers_lines() {
    let env = &mut init_env();
    assert_eq!(lisp(env, "(+ 1 2)"), "3");
    assert_eq!(lisp(env, "{1 (a b)}"), "{1 (a b)}");
    assert_eq!(lisp(env, "("), "<Parsing Error>");
    assert_eq!(
        lisp(env, "(head {})"),
        "Error: Empty List passed to function: Function head was given empty list"
    );
    assert_eq!(lisp(env, "(def {x} 7)"), "()");
    assert_eq!(lisp(env, "x"), "7");
    let mut small = lisp::Lenv::new();
    small.push(lisp::Lookup::new());
    small.insert("a", Lval::Num(1));
    small.insert("b", Lval::Qexpr(vec![]));
    assert_eq!(lisp(&mut small, "env"), "{a: 1, b: {}}");
    assert_eq!(lisp(&mut lisp::Lenv::new(), "env"), "{}");
}

#[test]
fn prompt_stops_on_exit() {
    let env = &mut init_env();
    let prompt = Prompt {};
    assert_eq!(prompt.respond(env, "exit"), Reply::Stop);
    assert_eq!(prompt.respond(env, "(* 2 3)"), Reply::Show(String::from("6")));
    assert_eq!(
        prompt.respond(env, "(die 1)"),
        Reply::ShowAndStop(String::from(
            "Error: User defined Error: The thread of execution has been interrupted"
        ))
    );
    assert_eq!(prompt.respond(env, "(1"), Reply::Show(String::from("<Parsing Error>")));
    assert_eq!(eval(env, Lval::Num(1)), Lval::Num(1));
}

#[test]
fn sample_evaluates_its_line() {
    assert_eq!(Sample {}.run(), Lval::Num(81));
}
