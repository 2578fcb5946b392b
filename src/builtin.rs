//! The builtin registry: native functions on lists of operands.

use vstd::prelude::*;
use crate::env::{bind_inner, bind_outer, Lenv};
use crate::text::{call_message, count_message};
use crate::value::{
    copy_all, copy_from, error, is_qexpr, kind_name, lemma_models, models, names, LerrType, Lfun,
    Llambda, Lval, Value,
};

verus! {

/// Whether every operand is a number.
pub open spec fn all_numbers(ops: Seq<Value>) -> bool {
    forall|i: int| 0 <= i < ops.len() ==> #[trigger] ops[i] is Num
}

/// The numbers held by operands that are all numbers.
pub open spec fn numbers(ops: Seq<Value>) -> Seq<i64> {
    ops.map_values(|v: Value| v->Num_0)
}

/// One step of the reduction of `f`: `None` for a division by zero.
/// Integer arithmetic wraps; division truncates toward zero.
pub open spec fn num_step(f: Lfun, x: i64, y: i64) -> Option<i64> {
    match f {
        Lfun::Sub => Some(x.wrapping_sub(y)),
        Lfun::Mul => Some(x.wrapping_mul(y)),
        Lfun::Div => if y == 0 {
            None
        } else {
            match x.checked_div(y) {
                Some(q) => Some(q),
                None => Some(i64::MIN),
            }
        },
        _ => Some(x.wrapping_add(y)),
    }
}

/// The left fold of `f` over `ns`, which is not empty: `None` once a
/// step divides by zero.
pub open spec fn fold_nums(f: Lfun, ns: Seq<i64>) -> Option<i64>
    decreases ns.len(),
{
    if ns.len() <= 1 {
        Some(ns[0])
    } else {
        match fold_nums(f, ns.drop_last()) {
            Some(x) => num_step(f, x, ns.last()),
            None => None,
        }
    }
}

/// Once a prefix of the fold divides by zero, so does the whole fold.
pub proof fn lemma_fold_none(f: Lfun, ns: Seq<i64>, k: int)
    requires
        1 <= k <= ns.len(),
        fold_nums(f, ns.take(k)) is None,
    ensures
        fold_nums(f, ns) is None,
    decreases ns.len(),
{
    if k < ns.len() {
        assert(ns.drop_last().take(k) =~= ns.take(k));
        lemma_fold_none(f, ns.drop_last(), k);
    } else {
        assert(ns.take(k) =~= ns);
    }
}

/// What the arithmetic builtin `f` gives on `ops`.
pub open spec fn arith(f: Lfun, ops: Seq<Value>) -> Value {
    if !all_numbers(ops) {
        Value::Error(LerrType::BadNum)
    } else if ops.len() == 0 {
        Value::Error(LerrType::IncorrectParamCount)
    } else if ops.len() == 1 {
        if f is Sub {
            Value::Num(0i64.wrapping_sub(numbers(ops)[0]))
        } else {
            ops[0]
        }
    } else {
        match fold_nums(f, numbers(ops)) {
            Some(x) => Value::Num(x),
            None => Value::Error(LerrType::DivZero),
        }
    }
}

/// Whether `f` is one of the four arithmetic builtins.
pub open spec fn is_arith(f: Lfun) -> bool {
    f is Add || f is Sub || f is Mul || f is Div
}

/// Reduces the numeric operands with the arithmetic builtin `f`.
fn builtin_op(f: Lfun, operands: Vec<Lval>) -> (r: Lval)
    requires
        is_arith(f),
    ensures
        r@ == arith(f, models(operands@)),
{
    let ghost ops = models(operands@);
    proof {
        lemma_models(operands@);
    }
    let name = match f {
        Lfun::Add => "+",
        Lfun::Sub => "-",
        Lfun::Mul => "*",
        _ => "/",
    };
    let mut nums: Vec<i64> = Vec::new();
    let mut i: usize = 0;
    while i < operands.len()
        invariant
            i <= operands@.len(),
            ops == models(operands@),
            ops.len() == operands@.len(),
            forall|j: int| 0 <= j < ops.len() ==> #[trigger] ops[j] == operands@[j]@,
            nums@.len() == i,
            forall|j: int| 0 <= j < i ==> #[trigger] ops[j] is Num && ops[j]->Num_0 == nums@[j],
        decreases operands@.len() - i,
    {
        match &operands[i] {
            Lval::Num(n) => nums.push(*n),
            _ => {
                assert(ops[i as int] !is Num);
                return error(LerrType::BadNum, call_message(name, "can operate only on numbers"));
            },
        }
        i = i + 1;
    }
    assert(all_numbers(ops));
    assert(numbers(ops) =~= nums@);
    if nums.len() == 0 {
        return error(LerrType::IncorrectParamCount, count_message(name, "at least 1 arg", 0));
    }
    if nums.len() == 1 {
        if f == Lfun::Sub {
            return Lval::Num(0i64.wrapping_sub(nums[0]));
        } else {
            return Lval::Num(nums[0]);
        }
    }
    let mut x: i64 = nums[0];
    let mut i: usize = 1;
    assert(nums@.take(1).drop_last() =~= Seq::<i64>::empty());
    while i < nums.len()
        invariant
            1 <= i <= nums@.len(),
            nums@.len() >= 2,
            ops == models(operands@),
            all_numbers(ops),
            ops.len() == nums@.len(),
            numbers(ops) == nums@,
            is_arith(f),
            fold_nums(f, nums@.take(i as int)) == Some(x),
        decreases nums@.len() - i,
    {
        let y = nums[i];
        assert(nums@.take(i + 1).drop_last() =~= nums@.take(i as int));
        if f == Lfun::Div {
            if y == 0 {
                proof {
                    assert(nums@.take(i + 1).last() == y);
                    assert(fold_nums(f, nums@.take(i + 1)) is None);
                    lemma_fold_none(f, nums@, i + 1);
                }
                return error(LerrType::DivZero, call_message(name, "cannot divide by 0"));
            }
            x = match x.checked_div(y) {
                Some(q) => q,
                None => i64::MIN,
            };
        } else if f == Lfun::Sub {
            x = x.wrapping_sub(y);
        } else if f == Lfun::Mul {
            x = x.wrapping_mul(y);
        } else {
            x = x.wrapping_add(y);
        }
        i = i + 1;
    }
    assert(nums@.take(i as int) =~= nums@);
    Lval::Num(x)
}

/// `+`: the sum of the operands.
pub fn builtin_add(_env: &mut Lenv, operands: Vec<Lval>) -> (r: Lval)
    ensures
        final(_env)@ == old(_env)@,
        r@ == arith(Lfun::Add, models(operands@)),
{
    builtin_op(Lfun::Add, operands)
}

/// `-`: the first operand less the others; the negation of a single one.
pub fn builtin_sub(_env: &mut Lenv, operands: Vec<Lval>) -> (r: Lval)
    ensures
        final(_env)@ == old(_env)@,
        r@ == arith(Lfun::Sub, models(operands@)),
{
    builtin_op(Lfun::Sub, operands)
}

/// `*`: the product of the operands.
pub fn builtin_mul(_env: &mut Lenv, operands: Vec<Lval>) -> (r: Lval)
    ensures
        final(_env)@ == old(_env)@,
        r@ == arith(Lfun::Mul, models(operands@)),
{
    builtin_op(Lfun::Mul, operands)
}

/// `/`: the first operand divided by each of the others in turn.
pub fn builtin_div(_env: &mut Lenv, operands: Vec<Lval>) -> (r: Lval)
    ensures
        final(_env)@ == old(_env)@,
        r@ == arith(Lfun::Div, models(operands@)),
{
    builtin_op(Lfun::Div, operands)
}

/// `head`: the first element of the one list operand, as a list.
pub open spec fn head_spec(ops: Seq<Value>) -> Value {
    if ops.len() != 1 {
        Value::Error(LerrType::IncorrectParamCount)
    } else {
        match ops[0] {
            Value::Qexpr(q) => if q.len() == 0 {
                Value::Error(LerrType::EmptyList)
            } else {
                Value::Qexpr(seq![q[0]])
            },
            _ => Value::Error(LerrType::WrongType),
        }
    }
}

/// `tail`: the one list operand without its first element.
pub open spec fn tail_spec(ops: Seq<Value>) -> Value {
    if ops.len() != 1 {
        Value::Error(LerrType::IncorrectParamCount)
    } else {
        match ops[0] {
            Value::Qexpr(q) => if q.len() == 0 {
                Value::Error(LerrType::EmptyList)
            } else {
                Value::Qexpr(q.drop_first())
            },
            _ => Value::Error(LerrType::WrongType),
        }
    }
}

/// Whether every operand is a quoted list.
pub open spec fn all_lists(ops: Seq<Value>) -> bool {
    forall|i: int| 0 <= i < ops.len() ==> #[trigger] ops[i] is Qexpr
}

/// The elements of quoted lists, one list after the other.
pub open spec fn joined(ops: Seq<Value>) -> Seq<Value>
    decreases ops.len(),
{
    if ops.len() == 0 {
        Seq::empty()
    } else {
        joined(ops.drop_last()) + ops.last()->Qexpr_0
    }
}

/// `join`: the concatenation of two or more list operands.
pub open spec fn join_spec(ops: Seq<Value>) -> Value {
    if ops.len() < 2 {
        Value::Error(LerrType::IncorrectParamCount)
    } else if !all_lists(ops) {
        Value::Error(LerrType::WrongType)
    } else {
        Value::Qexpr(joined(ops))
    }
}

/// Whether every element is a symbol.
pub open spec fn all_symbols(q: Seq<Value>) -> bool {
    forall|i: int| 0 <= i < q.len() ==> #[trigger] q[i] is Sym
}

/// The names of elements that are all symbols.
pub open spec fn symbol_names(q: Seq<Value>) -> Seq<Seq<char>> {
    q.map_values(|v: Value| v->Sym_0)
}

/// `\`: a lambda from a list of parameter symbols and a body list.
pub open spec fn lambda_spec(ops: Seq<Value>) -> Value {
    if ops.len() != 2 {
        Value::Error(LerrType::IncorrectParamCount)
    } else if !all_lists(ops) {
        Value::Error(LerrType::WrongType)
    } else if !all_symbols(ops[0]->Qexpr_0) {
        Value::Error(LerrType::WrongType)
    } else {
        Value::Lambda(symbol_names(ops[0]->Qexpr_0), ops[1]->Qexpr_0, Map::empty())
    }
}

/// `e` with each name bound to its value in the outermost frame, in order.
pub open spec fn define_all(e: Seq<Map<Seq<char>, Value>>, ns: Seq<Seq<char>>, vs: Seq<Value>) -> Seq<
    Map<Seq<char>, Value>,
>
    decreases ns.len(),
{
    if ns.len() == 0 || vs.len() == 0 {
        e
    } else {
        bind_outer(define_all(e, ns.drop_last(), vs.drop_last()), ns.last(), vs.last())
    }
}

/// `def`: binds the symbols of the first operand to the other operands in
/// the outermost frame. The environment changes only on success.
pub open spec fn def_spec(e: Seq<Map<Seq<char>, Value>>, ops: Seq<Value>) -> (Seq<
    Map<Seq<char>, Value>,
>, Value) {
    if ops.len() < 2 {
        (e, Value::Error(LerrType::IncorrectParamCount))
    } else if ops[0] !is Qexpr {
        (e, Value::Error(LerrType::WrongType))
    } else if !all_symbols(ops[0]->Qexpr_0) {
        (e, Value::Error(LerrType::WrongType))
    } else if ops[0]->Qexpr_0.len() != ops.len() - 1 {
        (e, Value::Error(LerrType::IncorrectParamCount))
    } else {
        (define_all(e, symbol_names(ops[0]->Qexpr_0), ops.drop_first()), Value::Sexpr(Seq::empty()))
    }
}

/// `e` with the registry's names bound to their builtins in its innermost
/// frame, in the order the registry installs them.
pub open spec fn with_builtins(e: Seq<Map<Seq<char>, Value>>) -> Seq<Map<Seq<char>, Value>> {
    let e = bind_inner(e, "+"@, Value::Fun(Lfun::Add));
    let e = bind_inner(e, "-"@, Value::Fun(Lfun::Sub));
    let e = bind_inner(e, "*"@, Value::Fun(Lfun::Mul));
    let e = bind_inner(e, "/"@, Value::Fun(Lfun::Div));
    let e = bind_inner(e, "head"@, Value::Fun(Lfun::Head));
    let e = bind_inner(e, "tail"@, Value::Fun(Lfun::Tail));
    let e = bind_inner(e, "list"@, Value::Fun(Lfun::List));
    let e = bind_inner(e, "eval"@, Value::Fun(Lfun::Eval));
    let e = bind_inner(e, "join"@, Value::Fun(Lfun::Join));
    let e = bind_inner(e, "\\"@, Value::Fun(Lfun::Lambda));
    let e = bind_inner(e, "def"@, Value::Fun(Lfun::Def));
    bind_inner(e, "die"@, Value::Fun(Lfun::Exit))
}

/// Binds `sym` to the builtin `fun` in the innermost frame.
pub fn add_builtin(env: &mut Lenv, sym: &str, fun: Lfun)
    ensures
        final(env)@ == bind_inner(old(env)@, sym@, Value::Fun(fun)),
{
    env.insert(sym, Lval::Fun(fun));
}

/// Installs the builtin registry into the innermost frame.
pub fn init_builtins(env: &mut Lenv)
    ensures
        final(env)@ == with_builtins(old(env)@),
{
    add_builtin(env, "+", Lfun::Add);
    add_builtin(env, "-", Lfun::Sub);
    add_builtin(env, "*", Lfun::Mul);
    add_builtin(env, "/", Lfun::Div);
    add_builtin(env, "head", Lfun::Head);
    add_builtin(env, "tail", Lfun::Tail);
    add_builtin(env, "list", Lfun::List);
    add_builtin(env, "eval", Lfun::Eval);
    add_builtin(env, "join", Lfun::Join);
    add_builtin(env, "\\", Lfun::Lambda);
    add_builtin(env, "def", Lfun::Def);
    add_builtin(env, "die", Lfun::Exit);
}

/// The names of the symbols in `q`, if all its elements are symbols.
fn symbols(q: &Vec<Lval>) -> (r: Option<Vec<String>>)
    ensures
        r is Some <==> all_symbols(models(q@)),
        r is Some ==> names(r->0@) == symbol_names(models(q@)),
{
    proof {
        lemma_models(q@);
    }
    let mut out: Vec<String> = Vec::new();
    let mut i: usize = 0;
    while i < q.len()
        invariant
            i <= q@.len(),
            models(q@).len() == q@.len(),
            forall|j: int| 0 <= j < q@.len() ==> #[trigger] models(q@)[j] == q@[j]@,
            out@.len() == i,
            forall|j: int| 0 <= j < i ==> #[trigger] models(q@)[j] is Sym && models(q@)[j]->Sym_0 == out@[j]@,
        decreases q@.len() - i,
    {
        match &q[i] {
            Lval::Sym(s) => out.push(s.clone()),
            _ => {
                assert(models(q@)[i as int] !is Sym);
                return None;
            },
        }
        i = i + 1;
    }
    assert(names(out@) =~= symbol_names(models(q@)));
    Some(out)
}

/// `head`: the first element of the one list operand, as a list.
pub fn builtin_head(_env: &mut Lenv, operands: Vec<Lval>) -> (r: Lval)
    ensures
        final(_env)@ == old(_env)@,
        r@ == head_spec(models(operands@)),
{
    proof {
        lemma_models(operands@);
    }
    if operands.len() != 1 {
        return error(LerrType::IncorrectParamCount, count_message("head", "1 arg", operands.len()));
    }
    match &operands[0] {
        Lval::Qexpr(q) => {
            proof {
                lemma_models(q@);
            }
            if q.len() == 0 {
                error(LerrType::EmptyList, call_message("head", "was given empty list"))
            } else {
                let mut one: Vec<Lval> = Vec::new();
                one.push(q[0].copy());
                proof {
                    lemma_models(one@);
                    assert(models(one@) =~= seq![models(q@)[0]]);
                }
                Lval::Qexpr(one)
            }
        },
        other => {
            let m = call_message("head", "needed Qexpr but was given ");
            error(LerrType::WrongType, crate::text::concat(m, kind_name(other)))
        },
    }
}

/// `tail`: the one list operand without its first element.
pub fn builtin_tail(_env: &mut Lenv, operands: Vec<Lval>) -> (r: Lval)
    ensures
        final(_env)@ == old(_env)@,
        r@ == tail_spec(models(operands@)),
{
    proof {
        lemma_models(operands@);
    }
    if operands.len() != 1 {
        return error(LerrType::IncorrectParamCount, count_message("tail", "1 arg", operands.len()));
    }
    match &operands[0] {
        Lval::Qexpr(q) => {
            if q.len() == 0 {
                proof {
                    lemma_models(q@);
                }
                error(LerrType::EmptyList, call_message("tail", "was given empty list"))
            } else {
                let r = Lval::Qexpr(copy_from(q, 1));
                proof {
                    lemma_models(q@);
                    assert(models(q@).skip(1) =~= models(q@).drop_first());
                }
                r
            }
        },
        other => {
            let m = call_message("tail", "needed Qexpr but was given ");
            error(LerrType::WrongType, crate::text::concat(m, kind_name(other)))
        },
    }
}

/// `list`: the operands as a quoted list.
pub fn builtin_list(_env: &mut Lenv, operands: Vec<Lval>) -> (r: Lval)
    ensures
        final(_env)@ == old(_env)@,
        r@ == Value::Qexpr(models(operands@)),
{
    Lval::Qexpr(operands)
}

/// `join`: the concatenation of two or more list operands.
pub fn builtin_join(_env: &mut Lenv, operands: Vec<Lval>) -> (r: Lval)
    ensures
        final(_env)@ == old(_env)@,
        r@ == join_spec(models(operands@)),
{
    let ghost ops = models(operands@);
    proof {
        lemma_models(operands@);
    }
    if operands.len() < 2 {
        return error(LerrType::IncorrectParamCount, count_message("join", "2 arg", operands.len()));
    }
    let mut i: usize = 0;
    while i < operands.len()
        invariant
            i <= operands@.len(),
            ops == models(operands@),
            ops.len() == operands@.len(),
            forall|j: int| 0 <= j < ops.len() ==> #[trigger] ops[j] == operands@[j]@,
            forall|j: int| 0 <= j < i ==> #[trigger] ops[j] is Qexpr,
            operands@.len() >= 2,
        decreases operands@.len() - i,
    {
        if !is_qexpr(&operands[i]) {
            assert(ops[i as int] !is Qexpr);
            return error(LerrType::WrongType, call_message("join", "needed Qexpr but was given"));
        }
        i = i + 1;
    }
    let mut joined_items: Vec<Lval> = Vec::new();
    let mut i: usize = 0;
    proof {
        lemma_models(joined_items@);
        assert(ops.take(0) =~= Seq::<Value>::empty());
    }
    while i < operands.len()
        invariant
            i <= operands@.len(),
            ops == models(operands@),
            ops.len() == operands@.len(),
            forall|j: int| 0 <= j < ops.len() ==> #[trigger] ops[j] == operands@[j]@,
            all_lists(ops),
            models(joined_items@) == joined(ops.take(i as int)),
        decreases operands@.len() - i,
    {
        match &operands[i] {
            Lval::Qexpr(q) => {
                let ghost before = joined_items@;
                let mut k: usize = 0;
                proof {
                    lemma_models(q@);
                    lemma_models(before);
                }
                while k < q.len()
                    invariant
                        k <= q@.len(),
                        joined_items@.len() == before.len() + k,
                        forall|j: int| 0 <= j < before.len() ==> #[trigger] joined_items@[j] == before[j],
                        forall|j: int|
                            before.len() <= j < before.len() + k ==> #[trigger] joined_items@[j]@ == q@[j - before.len()]@,
                    decreases q@.len() - k,
                {
                    joined_items.push(q[k].copy());
                    k = k + 1;
                }
                proof {
                    lemma_models(q@);
                    lemma_models(before);
                    lemma_models(joined_items@);
                    assert(ops.take(i + 1).drop_last() =~= ops.take(i as int));
                    assert(ops[i as int] == Value::Qexpr(models(q@)));
                    assert forall|j: int| 0 <= j < joined_items@.len() implies #[trigger] models(joined_items@)[j]
                        == (models(before) + models(q@))[j] by {
                        if j >= before.len() {
                            assert(joined_items@[j]@ == q@[j - before.len()]@);
                        }
                    }
                    assert(models(joined_items@) =~= models(before) + models(q@));
                }
            },
            _ => {
                assert(ops[i as int] is Qexpr);
            },
        }
        i = i + 1;
    }
    proof {
        assert(ops.take(i as int) =~= ops);
    }
    Lval::Qexpr(joined_items)
}

/// `\`: a lambda from a list of parameter symbols and a body list.
pub fn builtin_lambda(_env: &mut Lenv, operands: Vec<Lval>) -> (r: Lval)
    ensures
        final(_env)@ == old(_env)@,
        r@ == lambda_spec(models(operands@)),
{
    proof {
        lemma_models(operands@);
    }
    if operands.len() != 2 {
        return error(LerrType::IncorrectParamCount, count_message("\\", "2 arg", operands.len()));
    }
    match (&operands[0], &operands[1]) {
        (Lval::Qexpr(params), Lval::Qexpr(body)) => {
            match symbols(params) {
                Some(args) => {
                    let body = copy_all(body);
                    let lambda = Llambda::new(args, body);
                    proof {
                        assert(all_lists(models(operands@)));
                    }
                    Lval::Lambda(lambda)
                },
                None => error(
                    LerrType::WrongType,
                    call_message("\\", "needed a param list of all Symbols"),
                ),
            }
        },
        _ => error(
            LerrType::WrongType,
            call_message("\\", "needed a Qexpr for arguments and a Qexpr for body"),
        ),
    }
}

/// `def`: binds the symbols of the first operand to the other operands in
/// the outermost frame.
pub fn builtin_def(env: &mut Lenv, operands: Vec<Lval>) -> (r: Lval)
    ensures
        (final(env)@, r@) == def_spec(old(env)@, models(operands@)),
{
    let ghost ops = models(operands@);
    proof {
        lemma_models(operands@);
    }
    if operands.len() < 2 {
        return error(LerrType::IncorrectParamCount, count_message("def", "2 args", operands.len()));
    }
    let args = match &operands[0] {
        Lval::Qexpr(q) => match symbols(q) {
            Some(args) => args,
            None => {
                return error(
                    LerrType::WrongType,
                    call_message("def", "needed a param list of all Symbols"),
                );
            },
        },
        other => {
            let m = call_message("def", "needed Qexpr but was given ");
            return error(LerrType::WrongType, crate::text::concat(m, kind_name(other)));
        },
    };
    if args.len() != operands.len() - 1 {
        let m = count_message("def", "a value for each symbol", operands.len() - 1);
        return error(LerrType::IncorrectParamCount, m);
    }
    let ghost ns = symbol_names(ops[0]->Qexpr_0);
    let ghost vs = ops.drop_first();
    let ghost e0 = env@;
    assert(names(args@) == ns);
    let mut i: usize = 0;
    while i < args.len()
        invariant
            i <= args@.len(),
            args@.len() == operands@.len() - 1,
            ops == models(operands@),
            ops.len() == operands@.len(),
            forall|j: int| 0 <= j < ops.len() ==> #[trigger] ops[j] == operands@[j]@,
            ns == names(args@),
            vs == ops.drop_first(),
            env@ == define_all(e0, ns.take(i as int), vs.take(i as int)),
        decreases args@.len() - i,
    {
        let value = operands[i + 1].copy();
        env.insert_global(args[i].clone(), value);
        proof {
            assert(ns.take(i + 1).drop_last() =~= ns.take(i as int));
            assert(vs.take(i + 1).drop_last() =~= vs.take(i as int));
        }
        i = i + 1;
    }
    proof {
        assert(ns.take(i as int) =~= ns);
        assert(vs.take(i as int) =~= vs);
    }
    Lval::Sexpr(Vec::new())
}

/// `die`: an interrupt that asks the host loop to stop.
pub fn builtin_exit(_env: &mut Lenv, _operands: Vec<Lval>) -> (r: Lval)
    ensures
        final(_env)@ == old(_env)@,
        r@ == Value::Error(LerrType::Interrupt),
{
    error(LerrType::Interrupt, "The thread of execution has been interrupted".to_string())
}

} // verus!
