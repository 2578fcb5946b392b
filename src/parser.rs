//! The reader: text to a tree of values.
//!
//! Grammar, with spaces, tabs, carriage returns and line feeds allowed
//! before each expression and before each closing bracket:
//! the text is a sequence of expressions, read as one s-expression;
//! an expression is a number (an optional `+` or `-` and decimal digits,
//! within the range of `i64`), a symbol (one of `+ - * /`, or a run of
//! ASCII letters and digits), `(` expressions `)`, or `{` expressions `}`.
//! A sign followed by a digit starts a number; a digit always does.

use vstd::prelude::*;
use vstd::string::StrSliceExecFns;
use crate::value::{lemma_models, models, Lval, Value};

verus! {

/// Why a text could not be read.
#[derive(Clone, Copy, Debug, PartialEq, Eq, Structural)]
pub enum SyntaxError {
    /// Nothing of the grammar can be read at this character position.
    Unexpected(usize),
    /// The number starting at this character position is outside `i64`.
    NumberOutOfRange(usize),
}

/// Spaces, tabs, carriage returns and line feeds.
pub open spec fn is_space(c: char) -> bool {
    c == ' ' || c == '\t' || c == '\r' || c == '\n'
}

/// ASCII decimal digits.
pub open spec fn is_digit(c: char) -> bool {
    '0' <= c && c <= '9'
}

/// ASCII letters and decimal digits.
pub open spec fn is_alnum(c: char) -> bool {
    is_digit(c) || ('a' <= c && c <= 'z') || ('A' <= c && c <= 'Z')
}

/// The characters that are symbols by themselves.
pub open spec fn is_operator(c: char) -> bool {
    c == '+' || c == '-' || c == '*' || c == '/'
}

/// The first position at or after `i` that is not a space.
pub open spec fn skip_space(t: Seq<char>, i: int) -> int
    decreases t.len() - i,
{
    if 0 <= i < t.len() && is_space(t[i]) {
        skip_space(t, i + 1)
    } else {
        i
    }
}

/// The end of the run of characters satisfying `digit` (or letters too,
/// where `alnum`) that starts at `i`.
pub open spec fn run_end(t: Seq<char>, i: int, alnum: bool) -> int
    decreases t.len() - i,
{
    if 0 <= i < t.len() && (if alnum {
        is_alnum(t[i])
    } else {
        is_digit(t[i])
    }) {
        run_end(t, i + 1, alnum)
    } else {
        i
    }
}

/// The value of a run of decimal digits.
pub open spec fn digits_value(d: Seq<char>) -> int
    decreases d.len(),
{
    if d.len() == 0 {
        0
    } else {
        digits_value(d.drop_last()) * 10 + ((d.last() as u32) - ('0' as u32))
    }
}

/// Whether a number starts at `j`.
pub open spec fn starts_number(t: Seq<char>, j: int) -> bool {
    0 <= j < t.len() && (is_digit(t[j]) || ((t[j] == '+' || t[j] == '-') && j + 1 < t.len()
        && is_digit(t[j + 1])))
}

/// The outcome of reading one expression.
pub enum Parsed {
    /// The expression read and the position after it.
    Read(Value, int),
    /// No expression starts here.
    Absent,
    /// An expression starts here but cannot be read.
    Failed(SyntaxError),
}

/// Reads the number that starts at `j`.
pub open spec fn number_at(t: Seq<char>, j: int) -> Parsed {
    let k = if is_digit(t[j]) {
        j
    } else {
        j + 1
    };
    let e = run_end(t, k, false);
    let m = digits_value(t.subrange(k, e));
    let v = if t[j] == '-' {
        -m
    } else {
        m
    };
    if i64::MIN <= v <= i64::MAX {
        Parsed::Read(Value::Num(v as i64), e)
    } else {
        Parsed::Failed(SyntaxError::NumberOutOfRange(j as usize))
    }
}

/// Reads one expression after the spaces at `i`.
pub open spec fn parse_expr(t: Seq<char>, i: int) -> Parsed
    decreases t.len() - i, 0int,
{
    let j = skip_space(t, i);
    if !(0 <= i <= j < t.len()) {
        Parsed::Absent
    } else if starts_number(t, j) {
        number_at(t, j)
    } else if is_operator(t[j]) {
        Parsed::Read(Value::Sym(seq![t[j]]), j + 1)
    } else if is_alnum(t[j]) {
        let e = run_end(t, j, true);
        Parsed::Read(Value::Sym(t.subrange(j, e)), e)
    } else if t[j] == '(' || t[j] == '{' {
        let close = if t[j] == '(' {
            ')'
        } else {
            '}'
        };
        match parse_items(t, j + 1, Some(close)) {
            Ok((vs, e)) => Parsed::Read(
                if t[j] == '(' {
                    Value::Sexpr(vs)
                } else {
                    Value::Qexpr(vs)
                },
                e,
            ),
            Err(x) => Parsed::Failed(x),
        }
    } else {
        Parsed::Absent
    }
}

/// Reads expressions from `i` up to the closing bracket `close`, or up to
/// the end of the text where `close` is `None`: the expressions and the
/// position after the closing bracket.
pub open spec fn parse_items(t: Seq<char>, i: int, close: Option<char>) -> Result<
    (Seq<Value>, int),
    SyntaxError,
>
    decreases t.len() - i, 1int,
{
    match parse_expr(t, i) {
        Parsed::Read(v, k) => if i < k <= t.len() {
            match parse_items(t, k, close) {
                Ok((vs, e)) => Ok((seq![v] + vs, e)),
                Err(x) => Err(x),
            }
        } else {
            Err(SyntaxError::Unexpected(i as usize))
        },
        Parsed::Failed(x) => Err(x),
        Parsed::Absent => {
            let j = skip_space(t, i);
            match close {
                Some(c) => if 0 <= j < t.len() && t[j] == c {
                    Ok((Seq::empty(), j + 1))
                } else {
                    Err(SyntaxError::Unexpected(j as usize))
                },
                None => if j == t.len() {
                    Ok((Seq::empty(), j))
                } else {
                    Err(SyntaxError::Unexpected(j as usize))
                },
            }
        },
    }
}

/// What reading the whole text `t` gives: its expressions as one
/// s-expression.
pub open spec fn parse_text(t: Seq<char>) -> Result<Value, SyntaxError> {
    match parse_items(t, 0, None) {
        Ok((vs, _)) => Ok(Value::Sexpr(vs)),
        Err(x) => Err(x),
    }
}

/// The characters of `s`.
fn chars_of(s: &str) -> (r: Vec<char>)
    ensures
        r@ == s@,
{
    let n = s.unicode_len();
    let mut r: Vec<char> = Vec::new();
    let mut i: usize = 0;
    while i < n
        invariant
            n == s@.len(),
            i <= n,
            r@ == s@.take(i as int),
        decreases n - i,
    {
        r.push(s.get_char(i));
        proof {
            assert(s@.take(i + 1) =~= s@.take(i as int).push(s@[i as int]));
        }
        i = i + 1;
    }
    proof {
        assert(s@.take(i as int) =~= s@);
    }
    r
}

fn space(c: char) -> (r: bool)
    ensures
        r == is_space(c),
{
    c == ' ' || c == '\t' || c == '\r' || c == '\n'
}

fn digit(c: char) -> (r: bool)
    ensures
        r == is_digit(c),
{
    '0' <= c && c <= '9'
}

fn alnum(c: char) -> (r: bool)
    ensures
        r == is_alnum(c),
{
    digit(c) || ('a' <= c && c <= 'z') || ('A' <= c && c <= 'Z')
}

/// The first position at or after `i` that is not a space.
fn skip_spaces(t: &Vec<char>, i: usize) -> (r: usize)
    requires
        i <= t@.len(),
    ensures
        r == skip_space(t@, i as int),
        i <= r <= t@.len(),
{
    let mut j = i;
    while j < t.len() && space(t[j])
        invariant
            i <= j <= t@.len(),
            skip_space(t@, i as int) == skip_space(t@, j as int),
        decreases t@.len() - j,
    {
        j = j + 1;
    }
    j
}

fn in_run(c: char, letters: bool) -> (r: bool)
    ensures
        r == (if letters {
            is_alnum(c)
        } else {
            is_digit(c)
        }),
{
    if letters {
        alnum(c)
    } else {
        digit(c)
    }
}

/// The end of the run of digits (or letters and digits, where `letters`)
/// that starts at `i`.
fn run_to(t: &Vec<char>, i: usize, letters: bool) -> (r: usize)
    requires
        i <= t@.len(),
    ensures
        r == run_end(t@, i as int, letters),
        i <= r <= t@.len(),
        forall|k: int| i <= k < r ==> is_digit(t@[k]) || (letters && is_alnum(t@[k])),
        i < t@.len() && (if letters {
            is_alnum(t@[i as int])
        } else {
            is_digit(t@[i as int])
        }) ==> i < r,
{
    let mut j = i;
    while j < t.len() && in_run(t[j], letters)
        invariant
            i <= j <= t@.len(),
            run_end(t@, i as int, letters) == run_end(t@, j as int, letters),
            forall|k: int| i <= k < j ==> is_digit(t@[k]) || (letters && is_alnum(t@[k])),
        decreases t@.len() - j,
    {
        j = j + 1;
    }
    j
}

/// A longer run of digits is worth at least as much.
proof fn lemma_digits_grow(d: Seq<char>, c: char)
    requires
        is_digit(c),
    ensures
        digits_value(d.push(c)) >= digits_value(d) * 10,
        digits_value(d.push(c)) == digits_value(d) * 10 + ((c as u32) - ('0' as u32)),
{
    assert(d.push(c).drop_last() =~= d);
}

proof fn lemma_digits_nonneg(d: Seq<char>)
    requires
        forall|q: int| 0 <= q < d.len() ==> is_digit(#[trigger] d[q]),
    ensures
        digits_value(d) >= 0,
    decreases d.len(),
{
    if d.len() > 0 {
        lemma_digits_nonneg(d.drop_last());
    }
}

/// Reads the number that starts at `j`.
fn read_number(t: &Vec<char>, j: usize) -> (r: Result<(Lval, usize), SyntaxError>)
    requires
        starts_number(t@, j as int),
    ensures
        match number_at(t@, j as int) {
            Parsed::Read(v, e) => r is Ok && r->Ok_0.0@ == v && r->Ok_0.1 == e,
            Parsed::Failed(x) => r == Err::<(Lval, usize), SyntaxError>(x),
            Parsed::Absent => false,
        },
        r is Ok ==> j < r->Ok_0.1 <= t@.len(),
{
    let n = t.len();
    let k = if digit(t[j]) {
        j
    } else {
        assert(j + 1 < n);
        j + 1
    };
    let e = run_to(t, k, false);
    let limit: u64 = 9223372036854775808;
    let mut m: u64 = 0;
    let mut big = false;
    let mut idx = k;
    proof {
        assert(t@.subrange(k as int, k as int) =~= Seq::<char>::empty());
    }
    while idx < e
        invariant
            k <= idx <= e <= t@.len(),
            e == run_end(t@, k as int, false),
            forall|q: int| k <= q < e ==> is_digit(t@[q]) || (false && is_alnum(t@[q])),
            big ==> digits_value(t@.subrange(k as int, idx as int)) > limit,
            !big ==> m == digits_value(t@.subrange(k as int, idx as int)) && m <= limit,
            limit == 9223372036854775808u64,
        decreases e - idx,
    {
        let c = t[idx];
        assert(is_digit(c));
        let d = ((c as u32) - ('0' as u32)) as u64;
        proof {
            assert(t@.subrange(k as int, idx + 1) =~= t@.subrange(k as int, idx as int).push(c));
            lemma_digits_grow(t@.subrange(k as int, idx as int), c);
            assert forall|q: int| 0 <= q < idx - k implies is_digit(
                #[trigger] t@.subrange(k as int, idx as int)[q],
            ) by {
                assert(t@.subrange(k as int, idx as int)[q] == t@[k + q]);
            }
            lemma_digits_nonneg(t@.subrange(k as int, idx as int));
        }
        if !big {
            if m > (limit - d) / 10 {
                big = true;
            } else {
                m = m * 10 + d;
            }
        }
        idx = idx + 1;
    }
    let ghost mag = digits_value(t@.subrange(k as int, e as int));
    if t[j] == '-' {
        if big {
            return Err(SyntaxError::NumberOutOfRange(j));
        }
        let v: i64 = if m == limit {
            i64::MIN
        } else {
            -(m as i64)
        };
        Ok((Lval::Num(v), e))
    } else {
        if big || m > 9223372036854775807 {
            return Err(SyntaxError::NumberOutOfRange(j));
        }
        Ok((Lval::Num(m as i64), e))
    }
}

/// `done` placed before the expressions of a further reading.
pub open spec fn prepend_items(done: Seq<Value>, r: Result<(Seq<Value>, int), SyntaxError>) -> Result<
    (Seq<Value>, int),
    SyntaxError,
> {
    match r {
        Ok((vs, e)) => Ok((done + vs, e)),
        Err(x) => Err(x),
    }
}

/// Reads one expression after the spaces at `i`: `Ok(None)` where none
/// starts there.
fn parse_expr_at(s: &str, t: &Vec<char>, i: usize) -> (r: Result<Option<(Lval, usize)>, SyntaxError>)
    requires
        t@ == s@,
        i <= t@.len(),
    ensures
        match parse_expr(t@, i as int) {
            Parsed::Read(v, e) => r matches Ok(Some(p)) && p.0@ == v && p.1 == e,
            Parsed::Absent => r matches Ok(None),
            Parsed::Failed(x) => r == Err::<Option<(Lval, usize)>, SyntaxError>(x),
        },
        r matches Ok(Some(p)) ==> i < p.1 <= t@.len(),
    decreases t@.len() - i, 0int,
{
    let n = t.len();
    let j = skip_spaces(t, i);
    if j >= n {
        return Ok(None);
    }
    let c = t[j];
    if digit(c) || ((c == '+' || c == '-') && j + 1 < n && digit(t[j + 1])) {
        return match read_number(t, j) {
            Ok(p) => Ok(Some(p)),
            Err(x) => Err(x),
        };
    }
    if c == '+' || c == '-' || c == '*' || c == '/' {
        let name = s.substring_char(j, j + 1).to_string();
        assert(name@ =~= seq![t@[j as int]]);
        return Ok(Some((Lval::Sym(name), j + 1)));
    }
    if alnum(c) {
        let e = run_to(t, j, true);
        let name = s.substring_char(j, e).to_string();
        return Ok(Some((Lval::Sym(name), e)));
    }
    if c == '(' || c == '{' {
        let close = if c == '(' {
            ')'
        } else {
            '}'
        };
        match parse_items_at(s, t, j + 1, Some(close)) {
            Ok((items, e)) => {
                let v = if c == '(' {
                    Lval::Sexpr(items)
                } else {
                    Lval::Qexpr(items)
                };
                Ok(Some((v, e)))
            },
            Err(x) => Err(x),
        }
    } else {
        Ok(None)
    }
}

/// Reads expressions from `i` up to the closing bracket `close`, or up to
/// the end of the text where `close` is `None`.
fn parse_items_at(s: &str, t: &Vec<char>, i: usize, close: Option<char>) -> (r: Result<
    (Vec<Lval>, usize),
    SyntaxError,
>)
    requires
        t@ == s@,
        i <= t@.len(),
    ensures
        match parse_items(t@, i as int, close) {
            Ok((vs, e)) => r is Ok && models(r->Ok_0.0@) == vs && r->Ok_0.1 == e,
            Err(x) => r == Err::<(Vec<Lval>, usize), SyntaxError>(x),
        },
        r is Ok ==> i <= r->Ok_0.1 <= t@.len(),
    decreases t@.len() - i, 1int,
{
    let mut items: Vec<Lval> = Vec::new();
    let mut pos = i;
    proof {
        lemma_models(items@);
        assert(models(items@) =~= Seq::<Value>::empty());
        assert(parse_items(t@, i as int, close) == prepend_items(
            models(items@),
            parse_items(t@, pos as int, close),
        )) by {
            match parse_items(t@, i as int, close) {
                Ok((vs, e)) => {
                    assert(Seq::<Value>::empty() + vs =~= vs);
                },
                Err(_) => {},
            }
        }
    }
    loop
        invariant
            t@ == s@,
            i <= pos <= t@.len(),
            parse_items(t@, i as int, close) == prepend_items(
                models(items@),
                parse_items(t@, pos as int, close),
            ),
        decreases t@.len() - pos,
    {
        match parse_expr_at(s, t, pos) {
            Ok(Some((v, k))) => {
                let ghost done = models(items@);
                proof {
                    lemma_models(items@);
                }
                items.push(v);
                proof {
                    lemma_models(items@);
                    assert(models(items@) =~= done.push(v@));
                    match parse_items(t@, k as int, close) {
                        Ok((vs, e)) => {
                            assert(done + (seq![v@] + vs) =~= models(items@) + vs);
                        },
                        Err(_) => {},
                    }
                }
                pos = k;
            },
            Ok(None) => {
                let j = skip_spaces(t, pos);
                proof {
                    assert(models(items@) + Seq::<Value>::empty() =~= models(items@));
                }
                match close {
                    Some(c) => {
                        if j < t.len() && t[j] == c {
                            return Ok((items, j + 1));
                        } else {
                            return Err(SyntaxError::Unexpected(j));
                        }
                    },
                    None => {
                        if j == t.len() {
                            return Ok((items, j));
                        } else {
                            return Err(SyntaxError::Unexpected(j));
                        }
                    },
                }
            },
            Err(x) => {
                return Err(x);
            },
        }
    }
}

/// Reads the text `s` as one s-expression of its expressions.
pub fn parse(s: &str) -> (r: Result<Lval, SyntaxError>)
    ensures
        match parse_text(s@) {
            Ok(v) => r is Ok && r->Ok_0@ == v,
            Err(x) => r == Err::<Lval, SyntaxError>(x),
        },
{
    let t = chars_of(s);
    match parse_items_at(s, &t, 0, None) {
        Ok((items, _)) => Ok(Lval::Sexpr(items)),
        Err(x) => Err(x),
    }
}

} // verus!
