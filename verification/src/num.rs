//! The numeric scalar of the document model.
//!
//! A document number is carried opaquely as a `serde_json::Number`, which by
//! construction always holds a finite value (the crate rejects NaN and the
//! infinities when a number is built from a float). All arithmetic and
//! comparison on numbers goes through the trusted wrappers below; their
//! results are described by uninterpreted names, and the order among numbers
//! is abstracted as an integer rank.

use vstd::prelude::*;

verus! {

#[verifier::external_type_specification]
#[verifier::external_body]
pub struct ExNumber(serde_json::Number);

/// Relies on serde_json::Number::clone: a clone is the same number.
pub assume_specification[ <serde_json::Number as Clone>::clone ](
    n: &serde_json::Number,
) -> (r: serde_json::Number)
    ensures
        r == *n,
;

/// The position of a number in the total order of finite binary64 values,
/// abstracted as an integer key; ties (such as the two signed zeros, or an
/// integer and the float of equal value) share a rank. Rank 0 is the rank of
/// the number zero.
pub uninterp spec fn num_rank(n: serde_json::Number) -> int;

/// The number that stands for the given unsigned integer.
pub uninterp spec fn num_of_u64(v: u64) -> serde_json::Number;

/// Relies on serde_json::Number::from::<u64>: an exact integer number.
#[verifier::external_body]
pub(crate) fn num_from_u64(v: u64) -> (r: serde_json::Number)
    ensures
        r == num_of_u64(v),
        v == 0 ==> num_rank(r) == 0,
{
    serde_json::Number::from(v)
}

/// Relies on f64 comparison (`<=`) of the two finite values the numbers hold,
/// read through serde_json::Number::as_f64; finite floats are totally
/// ordered, which the integer rank reflects.
#[verifier::external_body]
pub(crate) fn num_le(a: &serde_json::Number, b: &serde_json::Number) -> (r: bool)
    ensures
        r == (num_rank(*a) <= num_rank(*b)),
{
    match (a.as_f64(), b.as_f64()) {
        (Some(x), Some(y)) => x <= y,
        _ => false,
    }
}

/// Relies on f64 equality with zero (`== 0.0`) of the value the number
/// holds, read through serde_json::Number::as_f64.
#[verifier::external_body]
pub(crate) fn num_is_zero(n: &serde_json::Number) -> (r: bool)
    ensures
        r == (num_rank(*n) == 0),
{
    match n.as_f64() {
        Some(x) => x == x - x,
        None => false,
    }
}

/// The number that re-encodes the finite value `n` holds as a float: what
/// storing a computed result does to an integer-encoded number.
pub uninterp spec fn num_canon(n: serde_json::Number) -> serde_json::Number;

/// Relies on serde_json::Number::as_f64 and from_f64: every stored number is
/// finite, so reading it as a float and re-encoding it always succeeds.
#[verifier::external_body]
pub(crate) fn num_canon_exec(n: &serde_json::Number) -> (r: serde_json::Number)
    ensures
        r == num_canon(*n),
{
    match n.as_f64() {
        Some(x) => match serde_json::Number::from_f64(x) {
            Some(m) => m,
            None => n.clone(),
        },
        None => n.clone(),
    }
}

/// The float sum of the two numbers, re-encoded; nothing when it is not
/// finite.
pub uninterp spec fn num_add(a: serde_json::Number, b: serde_json::Number) -> Option<
    serde_json::Number,
>;

/// The float difference of the two numbers, re-encoded; nothing when it is
/// not finite.
pub uninterp spec fn num_sub(a: serde_json::Number, b: serde_json::Number) -> Option<
    serde_json::Number,
>;

/// The float product of the two numbers, re-encoded; nothing when it is not
/// finite.
pub uninterp spec fn num_mul(a: serde_json::Number, b: serde_json::Number) -> Option<
    serde_json::Number,
>;

/// The float quotient of the two numbers, re-encoded; nothing when it is not
/// finite.
pub uninterp spec fn num_div(a: serde_json::Number, b: serde_json::Number) -> Option<
    serde_json::Number,
>;

/// Relies on f64 addition over serde_json::Number::as_f64/from_f64; from_f64
/// refuses a non-finite result.
#[verifier::external_body]
pub(crate) fn num_add_exec(a: &serde_json::Number, b: &serde_json::Number) -> (r: Option<
    serde_json::Number,
>)
    ensures
        r == num_add(*a, *b),
{
    match (a.as_f64(), b.as_f64()) {
        (Some(x), Some(y)) => serde_json::Number::from_f64(x + y),
        _ => None,
    }
}

/// Relies on f64 subtraction over serde_json::Number::as_f64/from_f64.
#[verifier::external_body]
pub(crate) fn num_sub_exec(a: &serde_json::Number, b: &serde_json::Number) -> (r: Option<
    serde_json::Number,
>)
    ensures
        r == num_sub(*a, *b),
{
    match (a.as_f64(), b.as_f64()) {
        (Some(x), Some(y)) => serde_json::Number::from_f64(x - y),
        _ => None,
    }
}

/// Relies on f64 multiplication over serde_json::Number::as_f64/from_f64.
#[verifier::external_body]
pub(crate) fn num_mul_exec(a: &serde_json::Number, b: &serde_json::Number) -> (r: Option<
    serde_json::Number,
>)
    ensures
        r == num_mul(*a, *b),
{
    match (a.as_f64(), b.as_f64()) {
        (Some(x), Some(y)) => serde_json::Number::from_f64(x * y),
        _ => None,
    }
}

/// Relies on f64 division over serde_json::Number::as_f64/from_f64.
#[verifier::external_body]
pub(crate) fn num_div_exec(a: &serde_json::Number, b: &serde_json::Number) -> (r: Option<
    serde_json::Number,
>)
    ensures
        r == num_div(*a, *b),
{
    match (a.as_f64(), b.as_f64()) {
        (Some(x), Some(y)) => serde_json::Number::from_f64(x / y),
        _ => None,
    }
}

/// The smaller of two numbers under the float order, re-encoded.
pub uninterp spec fn num_min2(a: serde_json::Number, b: serde_json::Number) -> serde_json::Number;

/// The larger of two numbers under the float order, re-encoded.
pub uninterp spec fn num_max2(a: serde_json::Number, b: serde_json::Number) -> serde_json::Number;

/// Relies on f64::min over serde_json::Number::as_f64/from_f64: the minimum
/// of two finite floats is finite.
#[verifier::external_body]
pub(crate) fn num_min_exec(a: &serde_json::Number, b: &serde_json::Number) -> (r: serde_json::Number)
    ensures
        r == num_min2(*a, *b),
        num_rank(r) == if num_rank(*a) <= num_rank(*b) {
            num_rank(*a)
        } else {
            num_rank(*b)
        },
{
    match (a.as_f64(), b.as_f64()) {
        (Some(x), Some(y)) => match serde_json::Number::from_f64(x.min(y)) {
            Some(m) => m,
            None => a.clone(),
        },
        _ => a.clone(),
    }
}

/// Relies on f64::max over serde_json::Number::as_f64/from_f64: the maximum
/// of two finite floats is finite.
#[verifier::external_body]
pub(crate) fn num_max_exec(a: &serde_json::Number, b: &serde_json::Number) -> (r: serde_json::Number)
    ensures
        r == num_max2(*a, *b),
        num_rank(r) == if num_rank(*a) >= num_rank(*b) {
            num_rank(*a)
        } else {
            num_rank(*b)
        },
{
    match (a.as_f64(), b.as_f64()) {
        (Some(x), Some(y)) => match serde_json::Number::from_f64(x.max(y)) {
            Some(m) => m,
            None => a.clone(),
        },
        _ => a.clone(),
    }
}

/// Whether the two numbers are equal to within the float epsilon, as the
/// numeric filter's equality test has it.
pub uninterp spec fn num_close(a: serde_json::Number, b: serde_json::Number) -> bool;

/// Relies on f64 subtraction, abs and comparison with the machine epsilon,
/// over serde_json::Number::as_f64. The float type cannot be named in this
/// crate, so the epsilon is parsed from its shortest decimal form, which
/// round-trips to exactly the binary64 machine epsilon.
#[verifier::external_body]
pub(crate) fn num_close_exec(a: &serde_json::Number, b: &serde_json::Number) -> (r: bool)
    ensures
        r == num_close(*a, *b),
{
    match (a.as_f64(), b.as_f64()) {
        (Some(x), Some(y)) => {
            let eps = "2.220446049250313e-16".parse().unwrap_or(x - x);
            (x - y).abs() < eps
        },
        _ => false,
    }
}

/// The decimal text of a number: integers without a fraction, floats in
/// their shortest round-trip form.
pub uninterp spec fn num_text(n: serde_json::Number) -> Seq<char>;

/// Relies on serde_json::Number's Display: the text depends on the number
/// alone.
#[verifier::external_body]
pub(crate) fn num_text_exec(n: &serde_json::Number) -> (r: String)
    ensures
        r@ == num_text(*n),
{
    format!("{}", n)
}

} // verus!
