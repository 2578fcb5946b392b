//! Laws of the evaluator, stated over its semantics and proved.

use vstd::prelude::*;
use crate::builtin::{arith, define_all, fold_nums, lemma_fold_none, numbers};
use crate::env::{bind_outer, drop_inner, env_get};
use crate::eval::{
    apply_spec, bind_spec, builtin_spec, call_spec, eval_items_spec, eval_sexpr_spec, eval_spec, variadic_marker,
    Scopes, EVAL_DEPTH,
};
use crate::value::{LerrType, Lfun, Value};

verus! {

/// The numbers `ns` as values.
pub open spec fn num_values(ns: Seq<i64>) -> Seq<Value> {
    ns.map_values(|n: i64| Value::Num(n))
}

/// The sum of `ns`, which is not empty, added up from the left with
/// wrapping 64-bit addition.
pub open spec fn left_sum(ns: Seq<i64>) -> i64
    decreases ns.len(),
{
    if ns.len() <= 1 {
        ns[0]
    } else {
        left_sum(ns.drop_last()).wrapping_add(ns.last())
    }
}

/// Evaluating values that are neither symbols, s-expressions nor errors
/// gives them back, in order, and leaves the chain as it was.
proof fn lemma_inert_evaluate(fuel: nat, e: Scopes, vs: Seq<Value>)
    requires
        forall|i: int| 0 <= i < vs.len() ==> !(#[trigger] vs[i] is Sym || vs[i] is Sexpr || vs[i] is Error),
    ensures
        eval_items_spec(fuel, e, vs) == (e, Ok::<Seq<Value>, Value>(vs)),
    decreases vs.len(),
{
    if vs.len() > 0 {
        lemma_inert_evaluate(fuel, e, vs.drop_first());
        assert(eval_spec(fuel, e, vs[0]) == (e, vs[0]));
        assert(seq![vs[0]] + vs.drop_first() =~= vs);
    } else {
        assert(vs =~= Seq::<Value>::empty());
    }
}

/// The fold of `+` is the sum from the left.
proof fn lemma_fold_add(ns: Seq<i64>)
    requires
        ns.len() >= 1,
    ensures
        fold_nums(Lfun::Add, ns) == Some(left_sum(ns)),
    decreases ns.len(),
{
    if ns.len() > 1 {
        lemma_fold_add(ns.drop_last());
    }
}

/// For two or more numbers, `(+ n1 n2 ...)` evaluates to their sum added up
/// pairwise from the left, wherever `+` names the addition builtin.
pub proof fn lemma_sum_is_left_fold(e: Scopes, ns: Seq<i64>)
    requires
        ns.len() >= 2,
        env_get(e, "+"@) == Some(Value::Fun(Lfun::Add)),
    ensures
        eval_spec(EVAL_DEPTH as nat, e, Value::Sexpr(seq![Value::Sym("+"@)] + num_values(ns))) == (e, Value::Num(
            left_sum(ns),
        )),
{
    let items = seq![Value::Sym("+"@)] + num_values(ns);
    let f = (EVAL_DEPTH - 1) as nat;
    assert(items[0] == Value::Sym("+"@));
    assert(items.drop_first() =~= num_values(ns));
    lemma_inert_evaluate(f, e, num_values(ns));
    let vs = seq![Value::Fun(Lfun::Add)] + num_values(ns);
    assert(eval_spec(f, e, items[0]) == (e, Value::Fun(Lfun::Add)));
    assert(eval_items_spec(f, e, items.drop_first()) == (e, Ok::<Seq<Value>, Value>(num_values(ns))));
    assert(eval_items_spec(f, e, items) == (e, Ok::<Seq<Value>, Value>(vs)));
    assert(vs.drop_first() =~= num_values(ns));
    assert(numbers(num_values(ns)) =~= ns);
    lemma_fold_add(ns);
    assert(arith(Lfun::Add, num_values(ns)) == Value::Num(left_sum(ns)));
    assert(apply_spec(f, e, vs) == (e, Value::Num(left_sum(ns))));
}

/// Where only the outermost frame binds `x`, `x` resolves to its value there.
proof fn lemma_only_outermost(e: Scopes, x: Seq<char>)
    requires
        e.len() >= 1,
        e[0].contains_key(x),
        forall|i: int| 1 <= i < e.len() ==> !(#[trigger] e[i]).contains_key(x),
    ensures
        env_get(e, x) == Some(e[0][x]),
    decreases e.len(),
{
    if e.len() > 1 {
        assert(!e[e.len() - 1].contains_key(x));
        lemma_only_outermost(e.drop_last(), x);
    }
}

/// `(def {x} n)` evaluated inside a nested scope binds `x` in the global
/// frame: `x` resolves to `n` within that scope where it does not shadow
/// `x`, and still after the scope is left, wherever no frame between binds
/// `x`.
pub proof fn lemma_def_persists(e: Scopes, inner: Map<Seq<char>, Value>, x: Seq<char>, n: i64)
    requires
        e.len() >= 1,
        env_get(e, "def"@) == Some(Value::Fun(Lfun::Def)),
        !inner.contains_key("def"@),
        forall|i: int| 1 <= i < e.len() ==> !(#[trigger] e[i]).contains_key(x),
    ensures
        ({
            let def_x = Value::Sexpr(
                seq![Value::Sym("def"@), Value::Qexpr(seq![Value::Sym(x)]), Value::Num(n)],
            );
            let (e1, r) = eval_spec(EVAL_DEPTH as nat, e.push(inner), def_x);
            &&& r == Value::Sexpr(Seq::empty())
            &&& e1.len() == e.len() + 1
            &&& !inner.contains_key(x) ==> eval_spec(EVAL_DEPTH as nat, e1, Value::Sym(x)) == (
                e1,
                Value::Num(n),
            )
            &&& eval_spec(EVAL_DEPTH as nat, drop_inner(e1), Value::Sym(x)) == (
                drop_inner(e1),
                Value::Num(n),
            )
        }),
{
    let fuel = EVAL_DEPTH as nat;
    let f = (fuel - 1) as nat;
    let ei = e.push(inner);
    let q = Value::Qexpr(seq![Value::Sym(x)]);
    let items = seq![Value::Sym("def"@), q, Value::Num(n)];
    assert(ei.drop_last() =~= e);
    assert(env_get(ei, "def"@) == Some(Value::Fun(Lfun::Def)));
    assert(items.drop_first() =~= seq![q, Value::Num(n)]);
    assert(seq![q, Value::Num(n)].drop_first() =~= seq![Value::Num(n)]);
    lemma_inert_evaluate(f, ei, seq![q, Value::Num(n)]);
    let vs = seq![Value::Fun(Lfun::Def), q, Value::Num(n)];
    assert(items[0] == Value::Sym("def"@));
    assert(eval_spec(f, ei, items[0]) == (ei, Value::Fun(Lfun::Def)));
    assert(eval_items_spec(f, ei, items) == (ei, Ok::<Seq<Value>, Value>(vs))) by {
        assert(seq![Value::Fun(Lfun::Def)] + seq![q, Value::Num(n)] =~= vs);
    }
    assert(vs.drop_first() =~= seq![q, Value::Num(n)]);
    let ops = seq![q, Value::Num(n)];
    assert(crate::builtin::symbol_names(ops[0]->Qexpr_0) =~= seq![x]);
    assert(ops.drop_first() =~= seq![Value::Num(n)]);
    assert(seq![x].drop_last() =~= Seq::<Seq<char>>::empty());
    assert(seq![Value::Num(n)].drop_last() =~= Seq::<Value>::empty());
    let e1 = bind_outer(ei, x, Value::Num(n));
    assert(crate::builtin::define_all(ei, Seq::empty(), Seq::empty()) == ei);
    assert(seq![x].last() == x);
    assert(seq![Value::Num(n)].last() == Value::Num(n));
    assert(crate::builtin::define_all(ei, seq![x], seq![Value::Num(n)]) == e1);
    assert(apply_spec(f, ei, vs) == (e1, Value::Sexpr(Seq::<Value>::empty())));
    assert(eval_spec(fuel, ei, Value::Sexpr(items)) == (e1, Value::Sexpr(Seq::<Value>::empty())));
    if !inner.contains_key(x) {
        lemma_only_outermost(e1, x);
    }
    assert(drop_inner(e1) =~= e.update(0, e[0].insert(x, Value::Num(n))));
    lemma_only_outermost(drop_inner(e1), x);
}

/// Binding the arguments `a` and then `b` is binding `a + b`, where `a`
/// leaves parameters unbound and no parameter is the variadic marker.
proof fn lemma_bind_split(
    ps: Seq<Seq<char>>,
    fr: Map<Seq<char>, Value>,
    a: Seq<Value>,
    b: Seq<Value>,
)
    requires
        a.len() < ps.len(),
        forall|i: int| 0 <= i < ps.len() ==> #[trigger] ps[i] != variadic_marker(),
    ensures
        bind_spec(ps, fr, a) matches Some((rest, fr_a)) && rest == ps.skip(a.len() as int) && bind_spec(
            ps,
            fr,
            a + b,
        ) == bind_spec(rest, fr_a, b),
    decreases a.len(),
{
    if a.len() == 0 {
        assert(a + b =~= b);
        assert(ps.skip(0) =~= ps);
    } else {
        assert(ps[0] != variadic_marker());
        assert((a + b).drop_first() =~= a.drop_first() + b);
        assert((a + b)[0] == a[0]);
        lemma_bind_split(ps.drop_first(), fr.insert(ps[0], a[0]), a.drop_first(), b);
        assert(ps.drop_first().skip(a.len() - 1) =~= ps.skip(a.len() as int));
    }
}

/// Calling a lambda on some of its arguments gives a lambda, and calling
/// that lambda on the rest is calling the first on all of them at once.
pub proof fn lemma_currying(
    fuel: nat,
    e: Scopes,
    ps: Seq<Seq<char>>,
    body: Seq<Value>,
    fr: Map<Seq<char>, Value>,
    a: Seq<Value>,
    b: Seq<Value>,
)
    requires
        a.len() < ps.len(),
        forall|i: int| 0 <= i < ps.len() ==> #[trigger] ps[i] != variadic_marker(),
    ensures
        ({
            let (e1, part) = call_spec(fuel, e, ps, body, fr, a);
            &&& e1 == e
            &&& part is Lambda
            &&& call_spec(fuel, e, ps, body, fr, a + b) == call_spec(
                fuel,
                e,
                part->Lambda_0,
                part->Lambda_1,
                part->Lambda_2,
                b,
            )
        }),
{
    lemma_bind_split(ps, fr, a, b);
}

/// `(/ n1 n2 ...)` gives a `DivZero` error whenever an operand after the
/// first is zero, wherever in the fold that divisor stands.
pub proof fn lemma_division_by_zero(ns: Seq<i64>, k: int)
    requires
        1 <= k < ns.len(),
        ns[k] == 0,
    ensures
        arith(Lfun::Div, num_values(ns)) == Value::Error(LerrType::DivZero),
{
    assert(numbers(num_values(ns)) =~= ns);
    assert(ns.take(k + 1).drop_last() =~= ns.take(k));
    assert(ns.take(k + 1).last() == 0);
    assert(fold_nums(Lfun::Div, ns.take(k + 1)) is None);
    lemma_fold_none(Lfun::Div, ns, k + 1);
}

/// Definitions change frames but not their number.
proof fn lemma_define_all_depth(e: Scopes, ns: Seq<Seq<char>>, vs: Seq<Value>)
    ensures
        define_all(e, ns, vs).len() == e.len(),
    decreases ns.len(),
{
    if ns.len() > 0 && vs.len() > 0 {
        lemma_define_all_depth(e, ns.drop_last(), vs.drop_last());
    }
}

/// Evaluation leaves as many frames as it found: every frame a call pushes
/// is popped when the call returns.
pub proof fn lemma_eval_keeps_depth(fuel: nat, e: Scopes, v: Value)
    ensures
        eval_spec(fuel, e, v).0.len() == e.len(),
    decreases fuel, 0nat, 0nat,
{
    if let Value::Sexpr(items) = v {
        if fuel > 0 {
            lemma_sexpr_keeps_depth((fuel - 1) as nat, e, items);
        }
    }
}

proof fn lemma_items_keep_depth(fuel: nat, e: Scopes, items: Seq<Value>)
    ensures
        eval_items_spec(fuel, e, items).0.len() == e.len(),
    decreases fuel, 1nat, items.len(),
{
    if items.len() > 0 {
        lemma_eval_keeps_depth(fuel, e, items[0]);
        let e1 = eval_spec(fuel, e, items[0]).0;
        lemma_items_keep_depth(fuel, e1, items.drop_first());
    }
}

proof fn lemma_builtin_keeps_depth(fuel: nat, e: Scopes, f: Lfun, ops: Seq<Value>)
    ensures
        builtin_spec(fuel, e, f, ops).0.len() == e.len(),
    decreases fuel, 1nat, 0nat,
{
    match f {
        Lfun::Def => {
            if ops.len() >= 2 && ops[0] is Qexpr {
                lemma_define_all_depth(e, crate::builtin::symbol_names(ops[0]->Qexpr_0), ops.drop_first());
            }
        },
        Lfun::Eval => {
            if ops.len() == 1 {
                match ops[0] {
                    Value::Qexpr(q) => lemma_eval_keeps_depth(fuel, e, Value::Sexpr(q)),
                    x => lemma_eval_keeps_depth(fuel, e, x),
                }
            }
        },
        _ => {},
    }
}

proof fn lemma_call_keeps_depth(
    fuel: nat,
    e: Scopes,
    ps: Seq<Seq<char>>,
    body: Seq<Value>,
    fr: Map<Seq<char>, Value>,
    args: Seq<Value>,
)
    ensures
        call_spec(fuel, e, ps, body, fr, args).0.len() == e.len(),
    decreases fuel, 1nat, 0nat,
{
    if let Some((ps2, fr2)) = bind_spec(ps, fr, args) {
        if ps2.len() == 0 {
            lemma_eval_keeps_depth(fuel, e.push(fr2), Value::Sexpr(body));
        }
    }
}

proof fn lemma_sexpr_keeps_depth(fuel: nat, e: Scopes, items: Seq<Value>)
    ensures
        eval_sexpr_spec(fuel, e, items).0.len() == e.len(),
    decreases fuel, 2nat, 0nat,
{
    lemma_items_keep_depth(fuel, e, items);
    let (e1, r) = eval_items_spec(fuel, e, items);
    if let Ok(vs) = r {
        lemma_apply_keeps_depth(fuel, e1, vs);
    }
}

proof fn lemma_apply_keeps_depth(fuel: nat, e1: Scopes, vs: Seq<Value>)
    ensures
        apply_spec(fuel, e1, vs).0.len() == e1.len(),
    decreases fuel, 1nat, 2nat,
{
    if vs.len() > 1 {
        match vs[0] {
            Value::Fun(f) => lemma_builtin_keeps_depth(fuel, e1, f, vs.drop_first()),
            Value::Lambda(ps, body, fr) => lemma_call_keeps_depth(
                fuel,
                e1,
                ps,
                body,
                fr,
                vs.drop_first(),
            ),
            _ => {},
        }
    }
}

/// Where the items before `items[k]` evaluate without error and
/// `items[k]` to an error, evaluating the items stops there with that error.
proof fn lemma_items_stop(fuel: nat, e: Scopes, items: Seq<Value>, k: int)
    requires
        0 <= k < items.len(),
        eval_items_spec(fuel, e, items.take(k)).1 is Ok,
        eval_spec(fuel, eval_items_spec(fuel, e, items.take(k)).0, items[k]).1 is Error,
    ensures
        ({
            let (ek, r) = eval_spec(fuel, eval_items_spec(fuel, e, items.take(k)).0, items[k]);
            eval_items_spec(fuel, e, items) == (ek, Err::<Seq<Value>, Value>(r))
        }),
    decreases k,
{
    if k == 0 {
        assert(items.take(0) =~= Seq::<Value>::empty());
    } else {
        let pre = items.take(k);
        assert(pre[0] == items[0]);
        assert(pre.drop_first() =~= items.drop_first().take(k - 1));
        let e1 = eval_spec(fuel, e, items[0]).0;
        assert(items.drop_first()[k - 1] == items[k]);
        lemma_items_stop(fuel, e1, items.drop_first(), k - 1);
    }
}

/// The first error wins: where the items of an s-expression before
/// `items[k]` evaluate without error and `items[k]` gives an error, the
/// s-expression gives that error, and the items after it are never
/// evaluated: the chain is the one `items[k]` left.
pub proof fn lemma_first_error_wins(fuel: nat, e: Scopes, items: Seq<Value>, k: int)
    requires
        0 <= k < items.len(),
        eval_items_spec(fuel, e, items.take(k)).1 is Ok,
        eval_spec(fuel, eval_items_spec(fuel, e, items.take(k)).0, items[k]).1 is Error,
    ensures
        eval_sexpr_spec(fuel, e, items) == eval_spec(
            fuel,
            eval_items_spec(fuel, e, items.take(k)).0,
            items[k],
        ),
{
    lemma_items_stop(fuel, e, items, k);
}

/// Evaluating a number or an error gives it back unchanged and leaves the
/// chain as it was.
pub proof fn lemma_reduced_values_are_fixed(fuel: nat, e: Scopes, v: Value)
    requires
        v is Num || v is Error,
    ensures
        eval_spec(fuel, e, v) == (e, v),
{
}

/// Evaluating a symbol that no frame binds gives an `UnboundSymbol` error
/// and leaves the chain as it was.
pub proof fn lemma_unbound_symbol(fuel: nat, e: Scopes, name: Seq<char>)
    requires
        env_get(e, name) is None,
    ensures
        eval_spec(fuel, e, Value::Sym(name)) == (e, Value::Error(LerrType::UnboundSymbol)),
{
}

} // verus!
