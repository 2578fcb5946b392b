//! Runtime values and their mathematical model.

use vstd::prelude::*;
use crate::env::{frame_of, Lookup};

verus! {

/// The closed set of failure kinds an evaluation can produce.
#[derive(Clone, Copy, Debug, PartialEq, Eq, Structural)]
pub enum LerrType {
    DivZero,
    BadOp,
    BadNum,
    IncorrectParamCount,
    EmptyList,
    WrongType,
    UnboundSymbol,
    Interrupt,
}

/// The native functions of the builtin registry.
#[derive(Clone, Copy, Debug, PartialEq, Eq, Structural)]
pub enum Lfun {
    Add,
    Sub,
    Mul,
    Div,
    Head,
    Tail,
    List,
    Eval,
    Join,
    Lambda,
    Def,
    Exit,
}

/// An error value: its kind, the fixed description of that kind, and a
/// message about the call that failed.
#[derive(Debug)]
pub struct Lerr {
    pub etype: LerrType,
    pub details: String,
    pub message: String,
}

/// A user function: the parameters still to bind, the body, and the frame
/// holding the parameters bound so far.
#[derive(Debug)]
pub struct Llambda {
    pub args: Vec<String>,
    pub body: Vec<Lval>,
    pub env: Lookup,
}

/// A runtime value. Numbers are 64-bit integers.
#[derive(Debug)]
pub enum Lval {
    Sym(String),
    Num(i64),
    Sexpr(Vec<Lval>),
    Qexpr(Vec<Lval>),
    Fun(Lfun),
    Lambda(Llambda),
    Error(Lerr),
}

/// The mathematical model of a runtime value. An error is modelled by its
/// kind; a lambda by its remaining parameters, its body and its frame.
pub enum Value {
    Sym(Seq<char>),
    Num(i64),
    Sexpr(Seq<Value>),
    Qexpr(Seq<Value>),
    Fun(Lfun),
    Lambda(Seq<Seq<char>>, Seq<Value>, Map<Seq<char>, Value>),
    Error(LerrType),
}

/// The models of a sequence of runtime values.
pub open spec fn models(s: Seq<Lval>) -> Seq<Value>
    decreases s,
{
    if s.len() == 0 {
        Seq::empty()
    } else {
        models(s.drop_last()).push(s.last().model())
    }
}

/// The names held by a sequence of strings.
pub open spec fn names(s: Seq<String>) -> Seq<Seq<char>> {
    s.map_values(|x: String| x@)
}

impl Lval {
    /// The mathematical model of this value.
    pub open spec fn model(&self) -> Value
        decreases self,
    {
        match self {
            Lval::Sym(s) => Value::Sym(s@),
            Lval::Num(n) => Value::Num(*n),
            Lval::Sexpr(v) => Value::Sexpr(models(v@)),
            Lval::Qexpr(v) => Value::Qexpr(models(v@)),
            Lval::Fun(f) => Value::Fun(*f),
            Lval::Lambda(l) => Value::Lambda(names(l.args@), models(l.body@), frame_of(l.env.entries@)),
            Lval::Error(e) => Value::Error(e.etype),
        }
    }
}

/// The models of a sequence are the models of its elements.
pub proof fn lemma_models(s: Seq<Lval>)
    ensures
        models(s).len() == s.len(),
        forall|i: int| 0 <= i < s.len() ==> #[trigger] models(s)[i] == s[i]@,
    decreases s.len(),
{
    if s.len() > 0 {
        lemma_models(s.drop_last());
    }
}

/// Two sequences whose elements have the same models have the same models.
pub proof fn lemma_models_eq(a: Seq<Lval>, b: Seq<Lval>)
    requires
        a.len() == b.len(),
        forall|i: int| 0 <= i < a.len() ==> #[trigger] a[i]@ == b[i]@,
    ensures
        models(a) == models(b),
{
    lemma_models(a);
    lemma_models(b);
    assert(models(a) =~= models(b));
}

impl View for Lval {
    type V = Value;

    open spec fn view(&self) -> Value {
        self.model()
    }
}

/// A copy of each value of `v`, in order.
pub fn copy_all(v: &Vec<Lval>) -> (r: Vec<Lval>)
    ensures
        r@.len() == v@.len(),
        forall|i: int| 0 <= i < v@.len() ==> #[trigger] r@[i]@ == v@[i]@,
        models(r@) == models(v@),
    decreases v,
{
    let mut r: Vec<Lval> = Vec::new();
    let mut i: usize = 0;
    while i < v.len()
        invariant
            i <= v@.len(),
            r@.len() == i,
            forall|j: int| 0 <= j < i ==> #[trigger] r@[j]@ == v@[j]@,
        decreases v@.len() - i,
    {
        proof {
            vstd::std_specs::vec::axiom_vec_index_decreases(*v, i as int);
        }
        r.push(v[i].copy());
        i = i + 1;
    }
    proof {
        lemma_models_eq(r@, v@);
    }
    r
}

/// A copy of the elements of `v` from index `from` on.
pub fn copy_from(v: &Vec<Lval>, from: usize) -> (r: Vec<Lval>)
    requires
        from <= v@.len(),
    ensures
        models(r@) == models(v@).skip(from as int),
{
    proof {
        lemma_models(v@);
    }
    let mut r: Vec<Lval> = Vec::new();
    let mut i: usize = from;
    while i < v.len()
        invariant
            from <= i <= v@.len(),
            r@.len() == i - from,
            forall|j: int| 0 <= j < r@.len() ==> #[trigger] r@[j]@ == v@[j + from]@,
        decreases v@.len() - i,
    {
        r.push(v[i].copy());
        i = i + 1;
    }
    proof {
        lemma_models(r@);
        assert(models(r@) =~= models(v@).skip(from as int));
    }
    r
}

impl Llambda {
    /// A copy of this lambda with the same model.
    pub fn copy(&self) -> (r: Llambda)
        ensures
            names(r.args@) == names(self.args@),
            models(r.body@) == models(self.body@),
            frame_of(r.env.entries@) == frame_of(self.env.entries@),
        decreases self,
    {
        let mut args: Vec<String> = Vec::new();
        let mut i: usize = 0;
        while i < self.args.len()
            invariant
                i <= self.args@.len(),
                args@ == self.args@.take(i as int),
            decreases self.args@.len() - i,
        {
            args.push(self.args[i].clone());
            proof {
                assert(self.args@.take(i + 1) =~= self.args@.take(i as int).push(self.args@[i as int]));
            }
            i = i + 1;
        }
        proof {
            assert(self.args@.take(i as int) =~= self.args@);
        }
        Llambda { args, body: copy_all(&self.body), env: self.env.copy() }
    }
}

impl Lval {
    /// A copy of this value with the same model.
    pub fn copy(&self) -> (r: Lval)
        ensures
            r@ == self@,
        decreases self,
    {
        match self {
            Lval::Sym(s) => Lval::Sym(s.clone()),
            Lval::Num(n) => Lval::Num(*n),
            Lval::Sexpr(v) => Lval::Sexpr(copy_all(v)),
            Lval::Qexpr(v) => Lval::Qexpr(copy_all(v)),
            Lval::Fun(f) => Lval::Fun(*f),
            Lval::Lambda(l) => Lval::Lambda(l.copy()),
            Lval::Error(e) => Lval::Error(e.copy()),
        }
    }
}

impl Llambda {
    /// A lambda over `args` with `body` and an empty frame.
    pub fn new(args: Vec<String>, body: Vec<Lval>) -> (r: Llambda)
        ensures
            r.args@ == args@,
            r.body@ == body@,
            frame_of(r.env.entries@) == Map::<Seq<char>, Value>::empty(),
    {
        Llambda { args, body, env: Lookup::new() }
    }
}

impl Lerr {
    /// A copy of this error.
    pub fn copy(&self) -> (r: Lerr)
        ensures
            r.etype == self.etype,
            r.details@ == self.details@,
            r.message@ == self.message@,
    {
        Lerr { etype: self.etype, details: self.details.clone(), message: self.message.clone() }
    }
}

/// The fixed description of each error kind.
pub open spec fn details_text(k: LerrType) -> Seq<char> {
    match k {
        LerrType::DivZero => "Cannot Divide By Zero"@,
        LerrType::BadOp => "Invalid Operator"@,
        LerrType::BadNum => "Invalid Operand"@,
        LerrType::IncorrectParamCount => "Incorrect Number of Params passed to function"@,
        LerrType::WrongType => "Incorrect Data Type used"@,
        LerrType::EmptyList => "Empty List passed to function"@,
        LerrType::UnboundSymbol => "This Symbol has not been Defined"@,
        LerrType::Interrupt => "User defined Error"@,
    }
}

/// The fixed description of the error kind `k`.
pub fn details_of(k: LerrType) -> (r: &'static str)
    ensures
        r@ == details_text(k),
{
    match k {
        LerrType::DivZero => "Cannot Divide By Zero",
        LerrType::BadOp => "Invalid Operator",
        LerrType::BadNum => "Invalid Operand",
        LerrType::IncorrectParamCount => "Incorrect Number of Params passed to function",
        LerrType::WrongType => "Incorrect Data Type used",
        LerrType::EmptyList => "Empty List passed to function",
        LerrType::UnboundSymbol => "This Symbol has not been Defined",
        LerrType::Interrupt => "User defined Error",
    }
}

impl Lerr {
    /// An error of kind `etype` with `message` about the failed call.
    pub fn new(etype: LerrType, message: String) -> (r: Lerr)
        ensures
            r.etype == etype,
            r.details@ == details_text(etype),
            r.message@ == message@,
    {
        Lerr { etype, details: details_of(etype).to_string(), message }
    }

    /// The fixed description of this error's kind.
    pub fn description(&self) -> (r: &str)
        ensures
            r@ == self.details@,
    {
        self.details.as_str()
    }
}

/// An error value of kind `etype`.
pub fn error(etype: LerrType, message: String) -> (r: Lval)
    ensures
        r@ == Value::Error(etype),
{
    Lval::Error(Lerr::new(etype, message))
}

/// A word for the kind of a value, for messages.
pub(crate) fn kind_name(v: &Lval) -> &'static str {
    match v {
        Lval::Sym(_) => "a Symbol",
        Lval::Num(_) => "a Number",
        Lval::Sexpr(_) => "an Sexpr",
        Lval::Qexpr(_) => "a Qexpr",
        Lval::Fun(_) => "a Builtin",
        Lval::Lambda(_) => "a Lambda",
        Lval::Error(_) => "an Error",
    }
}

/// The number held by a value, if it is one.
pub fn to_num(expr: &Lval) -> (r: Option<i64>)
    ensures
        match expr@ {
            Value::Num(n) => r == Some(n),
            _ => r is None,
        },
{
    match expr {
        Lval::Num(n) => Some(*n),
        _ => None,
    }
}

/// The name held by a value, if it is a symbol.
pub fn to_sym(expr: &Lval) -> (r: Option<String>)
    ensures
        match expr@ {
            Value::Sym(s) => r is Some && r->0@ == s,
            _ => r is None,
        },
{
    match expr {
        Lval::Sym(s) => Some(s.clone()),
        _ => None,
    }
}

/// The elements of a value, if it is a quoted list.
pub fn to_qexpr(expr: &Lval) -> (r: Option<Vec<Lval>>)
    ensures
        match expr@ {
            Value::Qexpr(q) => r is Some && models(r->0@) == q,
            _ => r is None,
        },
{
    match expr {
        Lval::Qexpr(q) => Some(copy_all(q)),
        _ => None,
    }
}

/// Whether a value is a quoted list.
pub fn is_qexpr(expr: &Lval) -> (r: bool)
    ensures
        r == expr@ is Qexpr,
{
    match expr {
        Lval::Qexpr(_) => true,
        _ => false,
    }
}

/// The lambda held by a value, if it is one.
pub fn to_lambda(expr: &Lval) -> (r: Option<Llambda>)
    ensures
        match expr@ {
            Value::Lambda(a, b, f) => r is Some && Lval::Lambda(r->0)@ == Value::Lambda(a, b, f),
            _ => r is None,
        },
{
    match expr {
        Lval::Lambda(l) => Some(l.copy()),
        _ => None,
    }
}

/// The error held by a value, if it is one.
pub fn to_err(expr: &Lval) -> (r: Option<Lerr>)
    ensures
        match expr@ {
            Value::Error(k) => r is Some && r->0.etype == k,
            _ => r is None,
        },
{
    match expr {
        Lval::Error(e) => Some(e.copy()),
        _ => None,
    }
}

/// The equality of values: symbols, numbers and lists by content, any two
/// builtins alike, lambdas by parameters and body, errors by kind.
pub open spec fn same(a: Value, b: Value) -> bool
    decreases a,
{
    match a {
        Value::Sym(x) => b matches Value::Sym(y) && x == y,
        Value::Num(x) => b matches Value::Num(y) && x == y,
        Value::Sexpr(xs) => b matches Value::Sexpr(ys) && same_all(xs, ys),
        Value::Qexpr(xs) => b matches Value::Qexpr(ys) && same_all(xs, ys),
        Value::Fun(_) => b is Fun,
        Value::Lambda(ps, body, _) => b matches Value::Lambda(qs, other_body, _) && ps == qs
            && same_all(body, other_body),
        Value::Error(k1) => b matches Value::Error(k2) && k1 == k2,
    }
}

/// Element-wise equality of two sequences of values.
pub open spec fn same_all(xs: Seq<Value>, ys: Seq<Value>) -> bool
    decreases xs,
{
    xs.len() == ys.len() && (xs.len() == 0 || (same_all(xs.drop_last(), ys.drop_last()) && same(
        xs.last(),
        ys.last(),
    )))
}

/// Equal sequences have equal prefixes.
proof fn lemma_same_all_prefix(xs: Seq<Value>, ys: Seq<Value>, k: int)
    requires
        same_all(xs, ys),
        0 <= k <= xs.len(),
    ensures
        same_all(xs.take(k), ys.take(k)),
    decreases xs.len(),
{
    if k < xs.len() {
        assert(xs.drop_last().take(k) =~= xs.take(k));
        assert(ys.drop_last().take(k) =~= ys.take(k));
        lemma_same_all_prefix(xs.drop_last(), ys.drop_last(), k);
    } else {
        assert(xs.take(k) =~= xs);
        assert(ys.take(k) =~= ys);
    }
}

/// Whether `a` and `b` hold the same names.
fn same_names(a: &Vec<String>, b: &Vec<String>) -> (r: bool)
    ensures
        r == (names(a@) == names(b@)),
{
    if a.len() != b.len() {
        assert(names(a@).len() != names(b@).len());
        return false;
    }
    let mut i: usize = 0;
    while i < a.len()
        invariant
            i <= a@.len(),
            a@.len() == b@.len(),
            forall|j: int| 0 <= j < i ==> a@[j]@ == b@[j]@,
        decreases a@.len() - i,
    {
        if a[i] != b[i] {
            assert(names(a@)[i as int] != names(b@)[i as int]);
            return false;
        }
        i = i + 1;
    }
    assert(names(a@) =~= names(b@));
    true
}

/// Whether the values of `xs` and `ys` are equal element by element.
fn equal_all(xs: &Vec<Lval>, ys: &Vec<Lval>) -> (r: bool)
    ensures
        r == same_all(models(xs@), models(ys@)),
    decreases xs,
{
    proof {
        lemma_models(xs@);
        lemma_models(ys@);
    }
    if xs.len() != ys.len() {
        return false;
    }
    let ghost mx = models(xs@);
    let ghost my = models(ys@);
    let mut i: usize = 0;
    assert(same_all(mx.take(0), my.take(0)));
    while i < xs.len()
        invariant
            i <= xs@.len(),
            xs@.len() == ys@.len(),
            mx == models(xs@),
            my == models(ys@),
            mx.len() == xs@.len() && my.len() == ys@.len(),
            forall|j: int| 0 <= j < xs@.len() ==> #[trigger] mx[j] == xs@[j]@,
            forall|j: int| 0 <= j < ys@.len() ==> #[trigger] my[j] == ys@[j]@,
            same_all(mx.take(i as int), my.take(i as int)),
        decreases xs@.len() - i,
    {
        proof {
            vstd::std_specs::vec::axiom_vec_index_decreases(*xs, i as int);
            assert(mx.take(i + 1).drop_last() =~= mx.take(i as int));
            assert(my.take(i + 1).drop_last() =~= my.take(i as int));
            assert(mx.take(i + 1).last() == mx[i as int]);
            assert(my.take(i + 1).last() == my[i as int]);
        }
        if !xs[i].equal(&ys[i]) {
            proof {
                if same_all(mx, my) {
                    lemma_same_all_prefix(mx, my, i + 1);
                }
            }
            return false;
        }
        i = i + 1;
    }
    assert(mx.take(i as int) =~= mx);
    assert(my.take(i as int) =~= my);
    true
}

impl Lval {
    /// Whether this value equals `other` in the sense of `same`.
    pub fn equal(&self, other: &Lval) -> (r: bool)
        ensures
            r == same(self@, other@),
        decreases self,
    {
        match self {
            Lval::Sym(x) => match other {
                Lval::Sym(y) => *x == *y,
                _ => false,
            },
            Lval::Num(x) => match other {
                Lval::Num(y) => *x == *y,
                _ => false,
            },
            Lval::Sexpr(xs) => match other {
                Lval::Sexpr(ys) => equal_all(xs, ys),
                _ => false,
            },
            Lval::Qexpr(xs) => match other {
                Lval::Qexpr(ys) => equal_all(xs, ys),
                _ => false,
            },
            Lval::Fun(_) => match other {
                Lval::Fun(_) => true,
                _ => false,
            },
            Lval::Lambda(a) => match other {
                Lval::Lambda(b) => same_names(&a.args, &b.args) && equal_all(&a.body, &b.body),
                _ => false,
            },
            Lval::Error(a) => match other {
                Lval::Error(b) => a.etype == b.etype,
                _ => false,
            },
        }
    }
}

impl PartialEq for Lval {
    fn eq(&self, other: &Lval) -> (r: bool) {
        self.equal(other)
    }
}

impl vstd::std_specs::cmp::PartialEqSpecImpl for Lval {
    open spec fn obeys_eq_spec() -> bool {
        true
    }

    open spec fn eq_spec(&self, other: &Lval) -> bool {
        same(self@, other@)
    }
}

impl Clone for Lval {
    fn clone(&self) -> Lval {
        self.copy()
    }
}

impl Clone for Llambda {
    fn clone(&self) -> Llambda {
        self.copy()
    }
}

impl Clone for Lerr {
    fn clone(&self) -> Lerr {
        self.copy()
    }
}

} // verus!
