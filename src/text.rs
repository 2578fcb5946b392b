//! Decimal text of integers and message building.

use vstd::prelude::*;
use vstd::string::StringExecFns;

verus! {

/// The decimal digit for `d`.
pub open spec fn digit_char(d: nat) -> char {
    "0123456789"@[d as int]
}

/// The decimal digits of `n`, most significant first, with no leading zero.
pub open spec fn decimal(n: nat) -> Seq<char>
    decreases n,
{
    if n < 10 {
        seq![digit_char(n)]
    } else {
        decimal(n / 10).push(digit_char(n % 10))
    }
}

/// The decimal text of `n`, with a leading `-` when it is negative.
pub open spec fn signed_decimal(n: int) -> Seq<char> {
    if n < 0 {
        seq!['-'] + decimal((-n) as nat)
    } else {
        decimal(n as nat)
    }
}

/// Relies on `usize`'s `to_string`: the decimal digits of `n`.
#[verifier::external_body]
pub(crate) fn usize_text(n: usize) -> (r: String)
    ensures
        r@ == decimal(n as nat),
{
    n.to_string()
}

/// Relies on `i64`'s `to_string`: the decimal digits of `n`, after a `-`
/// when it is negative.
#[verifier::external_body]
pub(crate) fn i64_text(n: i64) -> (r: String)
    ensures
        r@ == signed_decimal(n as int),
{
    n.to_string()
}

/// `a` followed by `b`.
pub fn concat(a: String, b: &str) -> (r: String)
    ensures
        r@ == a@ + b@,
{
    a.concat(b)
}

/// "Function `name` needed `expected` but was given `given`".
pub fn count_message(name: &str, expected: &str, given: usize) -> (r: String)
    ensures
        r@ == "Function "@ + name@ + " needed "@ + expected@ + " but was given "@ + decimal(given as nat),
{
    let m = concat("Function ".to_string(), name);
    let m = concat(m, " needed ");
    let m = concat(m, expected);
    let m = concat(m, " but was given ");
    let g = usize_text(given);
    concat(m, g.as_str())
}

/// "Function `name` `what`".
pub fn call_message(name: &str, what: &str) -> (r: String)
    ensures
        r@ == "Function "@ + name@ + " "@ + what@,
{
    let m = concat("Function ".to_string(), name);
    let m = concat(m, " ");
    concat(m, what)
}

} // verus!
