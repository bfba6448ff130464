//! Arbitrary-precision integers.
//!
//! Field elements, coefficients and interval endpoints are unbounded integers
//! held in `num_bigint_dig::BigInt`. Verified code never looks inside such a
//! value: it reasons about the mathematical integer the value stands for,
//! `value_of`, and reaches the arithmetic of the big-integer crate through the
//! small functions below, whose contracts are taken on trust.
use vstd::prelude::*;
use vstd::arithmetic::power::pow;
use num_bigint_dig::BigInt;
use num_bigint_dig::ModInverse;
use num_traits::ToPrimitive;

verus! {

#[verifier::external_type_specification]
#[verifier::external_body]
pub struct ExBigInt(num_bigint_dig::BigInt);

/// The mathematical integer that a big integer stands for.
pub uninterp spec fn value_of(b: BigInt) -> int;

/// Quotient of the division that rounds toward zero.
pub open spec fn trunc_div(a: int, b: int) -> int {
    if a >= 0 {
        if b > 0 { a / b } else { -(a / (-b)) }
    } else {
        if b > 0 { -((-a) / b) } else { (-a) / (-b) }
    }
}

/// Remainder of the division that rounds toward zero; it has the sign of `a`.
pub open spec fn trunc_rem(a: int, b: int) -> int {
    a - b * trunc_div(a, b)
}

/// Whether `x` is a multiplicative inverse of `a` modulo `m`.
pub open spec fn is_inverse(a: int, x: int, m: int) -> bool {
    (a * x) % m == 1
}

/// `BigInt::from(u64)`: the big integer with the value of `v`.
#[verifier::external_body]
pub(crate) fn big_from_u64(v: u64) -> (r: BigInt)
    ensures
        value_of(r) == v,
{
    BigInt::from(v)
}

/// `Clone::clone` of `BigInt`: a copy with the same value.
#[verifier::external_body]
pub(crate) fn big_clone(a: &BigInt) -> (r: BigInt)
    ensures
        value_of(r) == value_of(*a),
{
    a.clone()
}

/// `&BigInt + &BigInt`: the exact sum.
#[verifier::external_body]
pub(crate) fn big_add(a: &BigInt, b: &BigInt) -> (r: BigInt)
    ensures
        value_of(r) == value_of(*a) + value_of(*b),
{
    a + b
}

/// `&BigInt - &BigInt`: the exact difference.
#[verifier::external_body]
pub(crate) fn big_sub(a: &BigInt, b: &BigInt) -> (r: BigInt)
    ensures
        value_of(r) == value_of(*a) - value_of(*b),
{
    a - b
}

/// `&BigInt * &BigInt`: the exact product.
#[verifier::external_body]
pub(crate) fn big_mul(a: &BigInt, b: &BigInt) -> (r: BigInt)
    ensures
        value_of(r) == value_of(*a) * value_of(*b),
{
    a * b
}

/// `&BigInt / &BigInt`: the quotient rounded toward zero. The crate panics on
/// a zero divisor, which the precondition leaves out.
#[verifier::external_body]
pub(crate) fn big_div(a: &BigInt, b: &BigInt) -> (r: BigInt)
    requires
        value_of(*b) != 0,
    ensures
        value_of(r) == trunc_div(value_of(*a), value_of(*b)),
{
    a / b
}

/// `&BigInt % &BigInt`: the remainder that goes with the quotient rounded
/// toward zero. The crate panics on a zero divisor.
#[verifier::external_body]
pub(crate) fn big_rem(a: &BigInt, b: &BigInt) -> (r: BigInt)
    requires
        value_of(*b) != 0,
    ensures
        value_of(r) == trunc_rem(value_of(*a), value_of(*b)),
{
    a % b
}

/// `PartialEq::eq` of `BigInt`: equality of the values.
#[verifier::external_body]
pub(crate) fn big_eq(a: &BigInt, b: &BigInt) -> (r: bool)
    ensures
        r == (value_of(*a) == value_of(*b)),
{
    a == b
}

/// `PartialOrd::lt` of `BigInt`: the order of the integers.
#[verifier::external_body]
pub(crate) fn big_lt(a: &BigInt, b: &BigInt) -> (r: bool)
    ensures
        r == (value_of(*a) < value_of(*b)),
{
    a < b
}

/// `PartialOrd::le` of `BigInt`: the order of the integers.
#[verifier::external_body]
pub(crate) fn big_le(a: &BigInt, b: &BigInt) -> (r: bool)
    ensures
        r == (value_of(*a) <= value_of(*b)),
{
    a <= b
}

/// `ModInverse::mod_inverse` on two references: an inverse of `a` modulo `m`
/// when `a` and `m` are coprime, nothing otherwise. The crate converts `m` to
/// an unsigned value and panics on a negative one; the precondition keeps to
/// a reduced `a` and a modulus above one.
#[verifier::external_body]
pub(crate) fn big_mod_inverse(a: &BigInt, m: &BigInt) -> (r: Option<BigInt>)
    requires
        value_of(*m) > 1,
        0 <= value_of(*a) < value_of(*m),
    ensures
        match r {
            Some(x) => is_inverse(value_of(*a), value_of(x), value_of(*m)),
            None => forall|x: int| !#[trigger] is_inverse(value_of(*a), x, value_of(*m)),
        },
{
    a.mod_inverse(m)
}

/// `ToPrimitive::to_usize` of `BigInt`: the value as a machine word when it
/// fits, nothing when it is negative or too large.
#[verifier::external_body]
pub(crate) fn big_to_usize(a: &BigInt) -> (r: Option<usize>)
    ensures
        match r {
            Some(v) => v == value_of(*a),
            None => value_of(*a) < 0 || value_of(*a) > usize::MAX,
        },
{
    a.to_usize()
}

/// `num_traits::pow` on a `BigInt` base: the base raised to `exp` by
/// repeated squaring.
#[verifier::external_body]
pub(crate) fn big_pow(base: &BigInt, exp: usize) -> (r: BigInt)
    ensures
        value_of(r) == pow(value_of(*base), exp as nat),
{
    num_traits::pow(base.clone(), exp)
}

} // verus!
