//! The evaluator: symbol lookup, evaluation of s-expressions, builtin
//! dispatch, and lambda application with currying.
//!
//! Evaluation is bounded by a nesting budget: each s-expression evaluated
//! inside another spends one level, and a budget spent out yields an
//! `Interrupt` error instead of exhausting the native stack.
//!
//! Scoping follows the chain the caller has active: a saturated lambda call
//! pushes the lambda's own frame onto the caller's chain, so names the body
//! does not bind as parameters resolve in the caller's scopes.

use vstd::prelude::*;
use crate::builtin::{
    arith, builtin_add, builtin_def, builtin_div, builtin_exit, builtin_head, builtin_join,
    builtin_lambda, builtin_list, builtin_mul, builtin_sub, builtin_tail, def_spec, head_spec,
    join_spec, lambda_spec, tail_spec,
};
use crate::env::{drop_inner, env_get, Lenv};
use crate::text::{call_message, concat, count_message};
use crate::value::{
    copy_all, copy_from, error, kind_name, lemma_models, models, names, LerrType, Lfun, Llambda,
    Lval, Value,
};

verus! {

/// A chain of frames as the evaluator sees it: the outermost first.
pub type Scopes = Seq<Map<Seq<char>, Value>>;

/// How many s-expressions may be evaluated one inside another.
pub const EVAL_DEPTH: u64 = 256;

/// The value of `v` in `e` with `fuel` levels of nesting left, and the
/// chain after it.
pub open spec fn eval_spec(fuel: nat, e: Scopes, v: Value) -> (Scopes, Value)
    decreases fuel, 0nat, 0nat,
{
    match v {
        Value::Sym(s) => (
            e,
            match env_get(e, s) {
                Some(x) => x,
                None => Value::Error(LerrType::UnboundSymbol),
            },
        ),
        Value::Sexpr(items) => if fuel == 0 {
            (e, Value::Error(LerrType::Interrupt))
        } else {
            eval_sexpr_spec((fuel - 1) as nat, e, items)
        },
        _ => (e, v),
    }
}

/// The values of `items` from left to right, or the first error among them.
pub open spec fn eval_items_spec(fuel: nat, e: Scopes, items: Seq<Value>) -> (
    Scopes,
    Result<Seq<Value>, Value>,
)
    decreases fuel, 1nat, items.len(),
{
    if items.len() == 0 {
        (e, Ok(Seq::empty()))
    } else {
        let (e1, r) = eval_spec(fuel, e, items[0]);
        if r is Error {
            (e1, Err(r))
        } else {
            let (e2, rest) = eval_items_spec(fuel, e1, items.drop_first());
            (
                e2,
                match rest {
                    Ok(vs) => Ok(seq![r] + vs),
                    Err(x) => Err(x),
                },
            )
        }
    }
}

/// What applying the builtin `f` to `ops` gives.
pub open spec fn builtin_spec(fuel: nat, e: Scopes, f: Lfun, ops: Seq<Value>) -> (Scopes, Value)
    decreases fuel, 1nat, 0nat,
{
    match f {
        Lfun::Head => (e, head_spec(ops)),
        Lfun::Tail => (e, tail_spec(ops)),
        Lfun::List => (e, Value::Qexpr(ops)),
        Lfun::Join => (e, join_spec(ops)),
        Lfun::Lambda => (e, lambda_spec(ops)),
        Lfun::Def => def_spec(e, ops),
        Lfun::Exit => (e, Value::Error(LerrType::Interrupt)),
        Lfun::Eval => if ops.len() != 1 {
            (e, Value::Error(LerrType::IncorrectParamCount))
        } else {
            match ops[0] {
                Value::Qexpr(q) => eval_spec(fuel, e, Value::Sexpr(q)),
                x => eval_spec(fuel, e, x),
            }
        },
        _ => (e, arith(f, ops)),
    }
}

/// The marker after which one parameter takes all remaining arguments.
pub open spec fn variadic_marker() -> Seq<char> {
    ":"@
}

/// Binds `args` to the parameters `ps` in `fr`, from left to right: the
/// parameters left and the frame, or `None` for too many arguments or a
/// marker not followed by exactly one parameter.
pub open spec fn bind_spec(ps: Seq<Seq<char>>, fr: Map<Seq<char>, Value>, args: Seq<Value>) -> Option<
    (Seq<Seq<char>>, Map<Seq<char>, Value>),
>
    decreases args.len(),
{
    if args.len() == 0 {
        Some((ps, fr))
    } else if ps.len() == 0 {
        None
    } else if ps[0] == variadic_marker() {
        if ps.len() != 2 {
            None
        } else {
            Some((Seq::empty(), fr.insert(ps[1], Value::Qexpr(args))))
        }
    } else {
        bind_spec(ps.drop_first(), fr.insert(ps[0], args[0]), args.drop_first())
    }
}

/// What calling the lambda (`ps`, `body`, `fr`) on `args` gives: the body's
/// value once every parameter is bound, else the lambda with the rest.
pub open spec fn call_spec(
    fuel: nat,
    e: Scopes,
    ps: Seq<Seq<char>>,
    body: Seq<Value>,
    fr: Map<Seq<char>, Value>,
    args: Seq<Value>,
) -> (Scopes, Value)
    decreases fuel, 1nat, 0nat,
{
    match bind_spec(ps, fr, args) {
        None => (e, Value::Error(LerrType::IncorrectParamCount)),
        Some((ps2, fr2)) => if ps2.len() == 0 {
            let (e2, r) = eval_spec(fuel, e.push(fr2), Value::Sexpr(body));
            (drop_inner(e2), r)
        } else {
            (e, Value::Lambda(ps2, body, fr2))
        },
    }
}

/// What applying the first of the evaluated values `vs` to the others
/// gives: nothing for no value, the value itself for one, else a call of
/// the builtin or lambda in front, or a `BadOp` error.
pub open spec fn apply_spec(fuel: nat, e: Scopes, vs: Seq<Value>) -> (Scopes, Value)
    decreases fuel, 1nat, 2nat,
{
    if vs.len() == 0 {
        (e, Value::Sexpr(Seq::empty()))
    } else if vs.len() == 1 {
        (e, vs[0])
    } else {
        match vs[0] {
            Value::Fun(f) => builtin_spec(fuel, e, f, vs.drop_first()),
            Value::Lambda(ps, body, fr) => call_spec(fuel, e, ps, body, fr, vs.drop_first()),
            _ => (e, Value::Error(LerrType::BadOp)),
        }
    }
}

/// What evaluating the s-expression `items` gives.
pub open spec fn eval_sexpr_spec(fuel: nat, e: Scopes, items: Seq<Value>) -> (Scopes, Value)
    decreases fuel, 2nat, 0nat,
{
    let (e1, r) = eval_items_spec(fuel, e, items);
    match r {
        Err(x) => (e1, x),
        Ok(vs) => apply_spec(fuel, e1, vs),
    }
}

/// `done` placed before the values of an evaluation of further items.
pub open spec fn prepend(done: Seq<Value>, x: (Scopes, Result<Seq<Value>, Value>)) -> (
    Scopes,
    Result<Seq<Value>, Value>,
) {
    (
        x.0,
        match x.1 {
            Ok(vs) => Ok(done + vs),
            Err(err) => Err(err),
        },
    )
}

/// Evaluates `expr` in `env` with the evaluator's full nesting budget.
pub fn eval(env: &mut Lenv, expr: Lval) -> (r: Lval)
    ensures
        (final(env)@, r@) == eval_spec(EVAL_DEPTH as nat, old(env)@, expr@),
{
    eval_in(env, &expr, EVAL_DEPTH)
}

/// The value bound to `s`, or an `UnboundSymbol` error.
fn eval_symbol(env: &mut Lenv, s: &String) -> (r: Lval)
    ensures
        final(env)@ == old(env)@,
        r@ == match env_get(old(env)@, s@) {
            Some(x) => x,
            None => Value::Error(LerrType::UnboundSymbol),
        },
{
    match env.get_name(s) {
        Some(v) => v,
        None => {
            let m = concat(s.clone(), " has not been defined");
            error(LerrType::UnboundSymbol, m)
        },
    }
}

/// Evaluates `expr` in `env` with `fuel` levels of nesting left.
pub fn eval_in(env: &mut Lenv, expr: &Lval, fuel: u64) -> (r: Lval)
    ensures
        (final(env)@, r@) == eval_spec(fuel as nat, old(env)@, expr@),
    decreases fuel, 0nat, 0nat,
{
    match expr {
        Lval::Sym(s) => eval_symbol(env, s),
        Lval::Sexpr(items) => {
            if fuel == 0 {
                error(LerrType::Interrupt, "Evaluation nested too deeply".to_string())
            } else {
                eval_sexpression(env, items, fuel - 1)
            }
        },
        _ => expr.copy(),
    }
}

/// Evaluates the items of an s-expression from left to right, stopping at
/// the first error, then applies the first value to the others.
fn eval_sexpression(env: &mut Lenv, items: &Vec<Lval>, fuel: u64) -> (r: Lval)
    ensures
        (final(env)@, r@) == eval_sexpr_spec(fuel as nat, old(env)@, models(items@)),
    decreases fuel, 2nat, 0nat,
{
    let ghost its = models(items@);
    let ghost e0 = env@;
    proof {
        lemma_models(items@);
    }
    let mut results: Vec<Lval> = Vec::new();
    let mut i: usize = 0;
    proof {
        assert(its.skip(0) =~= its);
        lemma_models(results@);
        assert(models(results@) + Seq::<Value>::empty() =~= Seq::<Value>::empty());
    }
    while i < items.len()
        invariant
            i <= items@.len(),
            e0 == old(env)@,
            its == models(items@),
            its.len() == items@.len(),
            forall|j: int| 0 <= j < its.len() ==> #[trigger] its[j] == items@[j]@,
            eval_items_spec(fuel as nat, e0, its) == prepend(
                models(results@),
                eval_items_spec(fuel as nat, env@, its.skip(i as int)),
            ),
        decreases items@.len() - i,
    {
        proof {
            vstd::std_specs::vec::axiom_vec_index_decreases(*items, i as int);
            assert(its.skip(i as int).drop_first() =~= its.skip(i + 1));
        }
        let v = eval_in(env, &items[i], fuel);
        proof {
            assert(its.skip(i as int)[0] == items@[i as int]@);
        }
        if let Lval::Error(_) = v {
            proof {
                assert(v@ is Error);
            }
            return v;
        }
        assert(v@ !is Error);
        let ghost done = models(results@);
        proof {
            lemma_models(results@);
        }
        results.push(v);
        proof {
            lemma_models(results@);
            assert(models(results@) =~= done.push(v@));
            assert forall|vs: Seq<Value>| #![auto] done + (seq![v@] + vs) =~= models(results@) + vs by {}
        }
        i = i + 1;
    }
    proof {
        assert(its.skip(i as int) =~= Seq::<Value>::empty());
        assert(models(results@) + Seq::<Value>::empty() =~= models(results@));
    }
    apply(env, results, fuel)
}

/// Applies the first of the evaluated `vals` to the others.
fn apply(env: &mut Lenv, vals: Vec<Lval>, fuel: u64) -> (r: Lval)
    ensures
        (final(env)@, r@) == apply_spec(fuel as nat, old(env)@, models(vals@)),
    decreases fuel, 1nat, 2nat,
{
    let mut vals = vals;
    proof {
        lemma_models(vals@);
    }
    if vals.len() == 0 {
        return Lval::Sexpr(vals);
    }
    if vals.len() == 1 {
        return vals.pop().unwrap();
    }
    let ghost all = vals@;
    let operands = vals.split_off(1);
    proof {
        lemma_models(operands@);
        assert(operands@ == all.skip(1));
        assert(models(operands@) =~= models(all).drop_first());
    }
    match &vals[0] {
        Lval::Fun(f) => apply_builtin(env, *f, operands, fuel),
        Lval::Lambda(l) => call_in(env, l.copy(), operands, fuel),
        other => error(LerrType::BadOp, concat(kind_name(other).to_string(), " is not a valid operator")),
    }
}

/// Applies the builtin `f` to `operands`.
fn apply_builtin(env: &mut Lenv, f: Lfun, operands: Vec<Lval>, fuel: u64) -> (r: Lval)
    ensures
        (final(env)@, r@) == builtin_spec(fuel as nat, old(env)@, f, models(operands@)),
    decreases fuel, 1nat, 1nat,
{
    match f {
        Lfun::Add => builtin_add(env, operands),
        Lfun::Sub => builtin_sub(env, operands),
        Lfun::Mul => builtin_mul(env, operands),
        Lfun::Div => builtin_div(env, operands),
        Lfun::Head => builtin_head(env, operands),
        Lfun::Tail => builtin_tail(env, operands),
        Lfun::List => builtin_list(env, operands),
        Lfun::Eval => eval_operand(env, operands, fuel),
        Lfun::Join => builtin_join(env, operands),
        Lfun::Lambda => builtin_lambda(env, operands),
        Lfun::Def => builtin_def(env, operands),
        Lfun::Exit => builtin_exit(env, operands),
    }
}

/// `eval` with `fuel` levels left: evaluates the one operand, a quoted list
/// as an s-expression.
fn eval_operand(env: &mut Lenv, operands: Vec<Lval>, fuel: u64) -> (r: Lval)
    ensures
        (final(env)@, r@) == builtin_spec(fuel as nat, old(env)@, Lfun::Eval, models(operands@)),
    decreases fuel, 1nat, 0nat,
{
    proof {
        lemma_models(operands@);
    }
    if operands.len() != 1 {
        return error(LerrType::IncorrectParamCount, count_message("eval", "1 arg", operands.len()));
    }
    match &operands[0] {
        Lval::Qexpr(q) => {
            let expr = Lval::Sexpr(copy_all(q));
            eval_in(env, &expr, fuel)
        },
        other => eval_in(env, other, fuel),
    }
}

/// `eval`: evaluates the one operand, a quoted list as an s-expression.
pub fn builtin_eval(env: &mut Lenv, operands: Vec<Lval>) -> (r: Lval)
    ensures
        (final(env)@, r@) == builtin_spec(EVAL_DEPTH as nat, old(env)@, Lfun::Eval, models(operands@)),
{
    eval_operand(env, operands, EVAL_DEPTH)
}

/// A copy of the strings of `v` from index `from` on.
fn names_from(v: &Vec<String>, from: usize) -> (r: Vec<String>)
    requires
        from <= v@.len(),
    ensures
        names(r@) == names(v@).skip(from as int),
{
    let mut r: Vec<String> = Vec::new();
    let mut i: usize = from;
    while i < v.len()
        invariant
            from <= i <= v@.len(),
            r@ == v@.subrange(from as int, i as int),
        decreases v@.len() - i,
    {
        r.push(v[i].clone());
        proof {
            assert(v@.subrange(from as int, i + 1) =~= v@.subrange(from as int, i as int).push(v@[i as int]));
        }
        i = i + 1;
    }
    proof {
        assert(names(r@) =~= names(v@).skip(from as int));
    }
    r
}

/// Calls `func` on `args` with `fuel` levels left.
fn call_in(env: &mut Lenv, func: Llambda, args: Vec<Lval>, fuel: u64) -> (r: Lval)
    ensures
        (final(env)@, r@) == call_spec(
            fuel as nat,
            old(env)@,
            names(func.args@),
            models(func.body@),
            func.env@,
            models(args@),
        ),
    decreases fuel, 1nat, 0nat,
{
    let ghost ps0 = names(func.args@);
    let ghost as0 = models(args@);
    let ghost fr0 = func.env@;
    proof {
        lemma_models(args@);
    }
    let given = args.len();
    let total = func.args.len();
    let params = func.args;
    let body = func.body;
    let mut frame = func.env;
    let marker = ":".to_string();
    let mut p: usize = 0;
    let mut a: usize = 0;
    proof {
        assert(ps0.skip(0) =~= ps0);
        assert(as0.skip(0) =~= as0);
    }
    while a < args.len()
        invariant
            p <= params@.len(),
            a <= args@.len(),
            env@ == old(env)@,
            ps0 == names(func.args@),
            fr0 == func.env@,
            ps0 == names(params@),
            as0 == models(args@),
            as0.len() == args@.len(),
            forall|j: int| 0 <= j < as0.len() ==> #[trigger] as0[j] == args@[j]@,
            marker@ == variadic_marker(),
            bind_spec(ps0, fr0, as0) == bind_spec(ps0.skip(p as int), frame@, as0.skip(a as int)),
        decreases args@.len() - a,
    {
        if p == params.len() {
            proof {
                assert(ps0.skip(p as int).len() == 0);
                assert(as0.skip(a as int).len() > 0);
            }
            return error(
                LerrType::IncorrectParamCount,
                count_message("lambda", "its params", given),
            );
        }
        proof {
            assert(ps0.skip(p as int)[0] == params@[p as int]@);
            assert(ps0.skip(p as int).drop_first() =~= ps0.skip(p + 1));
            assert(as0.skip(a as int).drop_first() =~= as0.skip(a + 1));
        }
        if params[p] == marker {
            if params.len() - p != 2 {
                proof {
                    assert(ps0.skip(p as int)[0] == variadic_marker());
                    assert(ps0.skip(p as int).len() != 2);
                }
                return error(
                    LerrType::IncorrectParamCount,
                    call_message("lambda", "needs one param after :"),
                );
            }
            let rest = copy_from(&args, a);
            proof {
                assert(ps0.skip(p as int)[1] == params@[p + 1]@);
            }
            frame.insert(params[p + 1].clone(), Lval::Qexpr(rest));
            p = params.len();
            a = args.len();
            proof {
                assert(ps0.skip(p as int) =~= Seq::<Seq<char>>::empty());
                assert(as0.skip(a as int) =~= Seq::<Value>::empty());
            }
        } else {
            frame.insert(params[p].clone(), args[a].copy());
            p = p + 1;
            a = a + 1;
        }
    }
    proof {
        assert(as0.skip(a as int) =~= Seq::<Value>::empty());
    }
    if p == params.len() {
        proof {
            assert(ps0.skip(p as int) =~= Seq::<Seq<char>>::empty());
        }
        let expr = Lval::Sexpr(body);
        env.push(frame);
        let r = eval_in(env, &expr, fuel);
        env.pop();
        r
    } else {
        let rest = names_from(&params, p);
        Lval::Lambda(Llambda { args: rest, body, env: frame })
    }
}

/// Calls the lambda `func` on `args` with the evaluator's full nesting
/// budget: binds them to its parameters in its frame; once every parameter
/// is bound, evaluates the body with that frame pushed onto `env`, else
/// gives the lambda with the parameters left.
pub fn call(env: &mut Lenv, func: Llambda, args: Vec<Lval>) -> (r: Lval)
    ensures
        (final(env)@, r@) == call_spec(
            EVAL_DEPTH as nat,
            old(env)@,
            names(func.args@),
            models(func.body@),
            func.env@,
            models(args@),
        ),
{
    call_in(env, func, args, EVAL_DEPTH)
}

} // verus!
