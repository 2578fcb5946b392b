//! Text of values, and the read-evaluate-print step.

use vstd::prelude::*;
use crate::env::{init_env, Lenv, Lookup};
use crate::eval::{eval, eval_spec, EVAL_DEPTH};
use crate::parser::{parse, parse_text};
use crate::text::{concat, decimal, i64_text, signed_decimal};
use crate::value::{details_of, details_text, LerrType, lemma_models, models, names, Lval, Value};

verus! {

/// The text of a value: numbers in decimal, symbols by name, s-expressions
/// in `( )`, quoted lists in `{ }`, builtins as `<builtin>`, lambdas as the
/// `\` form that builds them, errors by the description of their kind.
pub open spec fn show(v: Value) -> Seq<char>
    decreases v,
{
    match v {
        Value::Sym(s) => s,
        Value::Num(n) => signed_decimal(n as int),
        Value::Sexpr(xs) => "("@ + show_all(xs) + ")"@,
        Value::Qexpr(xs) => "{"@ + show_all(xs) + "}"@,
        Value::Fun(_) => "<builtin>"@,
        Value::Lambda(ps, body, _) => "(\\ {"@ + spaced(ps) + "} {"@ + show_all(body) + "})"@,
        Value::Error(k) => "Error: "@ + details_text(k),
    }
}

/// The texts of `xs`, separated by single spaces.
pub open spec fn show_all(xs: Seq<Value>) -> Seq<char>
    decreases xs,
{
    if xs.len() == 0 {
        Seq::empty()
    } else if xs.len() == 1 {
        show(xs[0])
    } else {
        show_all(xs.drop_last()) + " "@ + show(xs.last())
    }
}

/// The names `ns`, separated by single spaces.
pub open spec fn spaced(ns: Seq<Seq<char>>) -> Seq<char>
    decreases ns.len(),
{
    if ns.len() == 0 {
        Seq::empty()
    } else if ns.len() == 1 {
        ns[0]
    } else {
        spaced(ns.drop_last()) + " "@ + ns.last()
    }
}

impl Lval {
    /// The text of this value.
    pub fn to_text(&self) -> (r: String)
        ensures
            r@ == show(self@),
        decreases self,
    {
        match self {
            Lval::Sym(s) => s.clone(),
            Lval::Num(n) => i64_text(*n),
            Lval::Sexpr(xs) => {
                let inner = text_all(xs);
                concat(concat("(".to_string(), inner.as_str()), ")")
            },
            Lval::Qexpr(xs) => {
                let inner = text_all(xs);
                concat(concat("{".to_string(), inner.as_str()), "}")
            },
            Lval::Fun(_) => "<builtin>".to_string(),
            Lval::Lambda(l) => {
                let ps = spaced_text(&l.args);
                let body = text_all(&l.body);
                let m = concat("(\\ {".to_string(), ps.as_str());
                let m = concat(m, "} {");
                let m = concat(m, body.as_str());
                concat(m, "})")
            },
            Lval::Error(e) => concat("Error: ".to_string(), details_of(e.etype)),
        }
    }
}

/// The texts of the values of `xs`, separated by single spaces.
fn text_all(xs: &Vec<Lval>) -> (r: String)
    ensures
        r@ == show_all(models(xs@)),
    decreases xs,
{
    proof {
        lemma_models(xs@);
    }
    let ghost ms = models(xs@);
    let mut r = String::new();
    let mut i: usize = 0;
    while i < xs.len()
        invariant
            i <= xs@.len(),
            ms == models(xs@),
            ms.len() == xs@.len(),
            forall|j: int| 0 <= j < xs@.len() ==> #[trigger] ms[j] == xs@[j]@,
            r@ == show_all(ms.take(i as int)),
        decreases xs@.len() - i,
    {
        proof {
            vstd::std_specs::vec::axiom_vec_index_decreases(*xs, i as int);
            assert(ms.take(i + 1).drop_last() =~= ms.take(i as int));
            assert(ms.take(i + 1).last() == ms[i as int]);
        }
        let item = xs[i].to_text();
        if i == 0 {
            assert(ms.take(1) =~= seq![ms[0]]);
            r = item;
        } else {
            r = concat(concat(r, " "), item.as_str());
        }
        i = i + 1;
    }
    proof {
        assert(ms.take(i as int) =~= ms);
    }
    r
}

/// The strings of `ns`, separated by single spaces.
fn spaced_text(ns: &Vec<String>) -> (r: String)
    ensures
        r@ == spaced(names(ns@)),
{
    let ghost nm = names(ns@);
    let mut r = String::new();
    let mut i: usize = 0;
    while i < ns.len()
        invariant
            i <= ns@.len(),
            nm == names(ns@),
            r@ == spaced(nm.take(i as int)),
        decreases ns@.len() - i,
    {
        proof {
            assert(nm.take(i + 1).drop_last() =~= nm.take(i as int));
            assert(nm.take(i + 1).last() == ns@[i as int]@);
        }
        if i == 0 {
            assert(nm.take(1) =~= seq![nm[0]]);
            r = ns[i].clone();
        } else {
            r = concat(concat(r, " "), ns[i].as_str());
        }
        i = i + 1;
    }
    proof {
        assert(nm.take(i as int) =~= nm);
    }
    r
}

/// The text of a frame's bindings, in the order they were made:
/// `{name: value, ...}`.
pub open spec fn frame_text(entries: Seq<(String, Lval)>) -> Seq<char> {
    "{"@ + bindings_text(entries) + "}"@
}

/// The bindings `entries` as `name: value`, separated by `, `.
pub open spec fn bindings_text(entries: Seq<(String, Lval)>) -> Seq<char>
    decreases entries.len(),
{
    if entries.len() == 0 {
        Seq::empty()
    } else if entries.len() == 1 {
        entries[0].0@ + ": "@ + show(entries[0].1@)
    } else {
        bindings_text(entries.drop_last()) + ", "@ + entries.last().0@ + ": "@ + show(
            entries.last().1@,
        )
    }
}

impl Lookup {
    /// The text of this frame's bindings.
    pub fn to_text(&self) -> (r: String)
        ensures
            r@ == frame_text(self.entries@),
    {
        let ghost es = self.entries@;
        let mut r = String::new();
        let mut i: usize = 0;
        while i < self.entries.len()
            invariant
                i <= es.len(),
                es == self.entries@,
                r@ == bindings_text(es.take(i as int)),
            decreases es.len() - i,
        {
            proof {
                assert(es.take(i + 1).drop_last() =~= es.take(i as int));
                assert(es.take(i + 1).last() == es[i as int]);
            }
            let entry = &self.entries[i];
            let value = entry.1.to_text();
            if i == 0 {
                assert(es.take(1) =~= seq![es[0]]);
                r = concat(concat(entry.0.clone(), ": "), value.as_str());
            } else {
                r = concat(concat(concat(concat(r, ", "), entry.0.as_str()), ": "), value.as_str());
            }
            i = i + 1;
        }
        proof {
            assert(es.take(i as int) =~= es);
        }
        concat(concat("{".to_string(), r.as_str()), "}")
    }
}

/// What `lisp` answers to `input` in the chain `before`, leaving the chain
/// `after`: for `env`, the innermost frame's bindings; for text that cannot
/// be read, `<Parsing Error>`; otherwise the text of its value, followed
/// for an error by the error's message.
pub open spec fn lisp_reply(before: Lenv, after: Seq<Map<Seq<char>, Value>>, input: Seq<char>, r: Seq<char>) -> bool {
    if input == "env"@ {
        &&& after == before@
        &&& r == if before.frames@.len() == 0 {
            "{}"@
        } else {
            frame_text(before.frames@.last().entries@)
        }
    } else {
        match parse_text(input) {
            Err(_) => after == before@ && r == "<Parsing Error>"@,
            Ok(v) => {
                let (e, res) = eval_spec(EVAL_DEPTH as nat, before@, v);
                &&& after == e
                &&& exists|m: Seq<char>| r == show(res) + m && (res !is Error ==> m.len() == 0)
            },
        }
    }
}

/// The text of a value, followed for an error by `: ` and its message.
fn reply_text(v: &Lval) -> (r: String)
    ensures
        exists|m: Seq<char>| r@ == show(v@) + m && (v@ !is Error ==> m.len() == 0),
{
    let t = v.to_text();
    match v {
        Lval::Error(e) => {
            let r = concat(concat(t, ": "), e.message.as_str());
            assert(r@ == show(v@) + (": "@ + e.message@));
            r
        },
        _ => {
            assert(t@ == show(v@) + Seq::<char>::empty());
            t
        },
    }
}

/// Whether evaluating `input` in `before` ends in an `Interrupt` error.
pub open spec fn interrupted(before: Lenv, input: Seq<char>) -> bool {
    input != "env"@ && match parse_text(input) {
        Ok(v) => eval_spec(EVAL_DEPTH as nat, before@, v).1 == Value::Error(LerrType::Interrupt),
        Err(_) => false,
    }
}

/// The answer to `input`, and whether its evaluation was interrupted.
fn answer(env: &mut Lenv, input: &str) -> (r: (String, bool))
    ensures
        lisp_reply(*old(env), final(env)@, input@, r.0@),
        r.1 == interrupted(*old(env), input@),
{
    if input.to_string() == "env".to_string() {
        let text = match env.peek() {
            Some(frame) => frame.to_text(),
            None => "{}".to_string(),
        };
        return (text, false);
    }
    match parse(input) {
        Ok(tree) => {
            let v = eval(env, tree);
            let stop = match &v {
                Lval::Error(e) => e.etype == LerrType::Interrupt,
                _ => false,
            };
            (reply_text(&v), stop)
        },
        Err(_) => ("<Parsing Error>".to_string(), false),
    }
}

/// Answers one line of input: `env` shows the innermost frame; anything
/// else is read, evaluated in `env`, and the value's text is the answer.
pub fn lisp(env: &mut Lenv, input: &str) -> (r: String)
    ensures
        lisp_reply(*old(env), final(env)@, input@, r@),
{
    answer(env, input).0
}

/// What the session does after a line.
#[derive(Debug, PartialEq, Eq)]
pub enum Reply {
    /// Shows the answer and reads on.
    Show(String),
    /// Shows the answer, an interrupt, and ends the session.
    ShowAndStop(String),
    /// Ends the session.
    Stop,
}

/// The interactive session.
pub struct Prompt {}

impl Prompt {
    /// The session's step on one input line: `exit` ends it; any other line
    /// is answered as `lisp` answers it, and ends it where its evaluation
    /// was interrupted.
    pub fn respond(&self, env: &mut Lenv, line: &str) -> (r: Reply)
        ensures
            line@ == "exit"@ <==> r is Stop,
            r is Stop ==> final(env)@ == old(env)@,
            match r {
                Reply::Show(t) => lisp_reply(*old(env), final(env)@, line@, t@) && !interrupted(
                    *old(env),
                    line@,
                ),
                Reply::ShowAndStop(t) => lisp_reply(*old(env), final(env)@, line@, t@)
                    && interrupted(*old(env), line@),
                Reply::Stop => true,
            },
    {
        if line.to_string() == "exit".to_string() {
            return Reply::Stop;
        }
        let (text, stop) = answer(env, line);
        if stop {
            Reply::ShowAndStop(text)
        } else {
            Reply::Show(text)
        }
    }
}

/// The sample run: evaluates a fixed line in a fresh environment.
pub struct Sample {}

/// The line the sample run evaluates.
pub const SAMPLE_LINE: &'static str = "* 9 9";

impl Sample {
    /// Reads and evaluates `SAMPLE_LINE` in a fresh environment; a line
    /// that cannot be read stands for the number `0`.
    pub fn run(self) -> (r: Lval)
        ensures
            match parse_text(SAMPLE_LINE@) {
                Ok(v) => r@ == eval_spec(
                    EVAL_DEPTH as nat,
                    crate::builtin::with_builtins(seq![Map::<Seq<char>, Value>::empty()]),
                    v,
                ).1,
                Err(_) => r@ == Value::Num(0),
            },
    {
        let mut env = init_env();
        match parse(SAMPLE_LINE) {
            Ok(tree) => eval(&mut env, tree),
            Err(_) => Lval::Num(0),
        }
    }
}

} // verus!
