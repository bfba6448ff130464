//! Intervals of integers and their arithmetic.
//!
//! An interval `[lo, hi]` bounds a quantity from both sides. Its endpoints
//! are unbounded integers: an interval may be negative, straddle zero or
//! reach beyond the modulus, and no operation wraps around.
use vstd::prelude::*;
use num_bigint_dig::BigInt;
use crate::bigint::{value_of, big_from_u64, big_add, big_sub, big_mul, big_le};

verus! {

/// A closed interval of integers.
pub struct Iv {
    pub lo: int,
    pub hi: int,
}

impl Iv {
    /// Whether `x` lies in the interval.
    pub open spec fn contains(self, x: int) -> bool {
        self.lo <= x <= self.hi
    }

    /// Whether the interval has at least one member.
    pub open spec fn inhabited(self) -> bool {
        self.lo <= self.hi
    }
}

/// The smaller of two integers.
pub open spec fn min2(a: int, b: int) -> int {
    if a <= b { a } else { b }
}

/// The larger of two integers.
pub open spec fn max2(a: int, b: int) -> int {
    if a >= b { a } else { b }
}

/// The interval of the sums of a member of `a` and a member of `b`.
pub open spec fn iv_add(a: Iv, b: Iv) -> Iv {
    Iv { lo: a.lo + b.lo, hi: a.hi + b.hi }
}

/// The interval of the differences of a member of `a` and a member of `b`.
pub open spec fn iv_sub(a: Iv, b: Iv) -> Iv {
    Iv { lo: a.lo - b.hi, hi: a.hi - b.lo }
}

/// The interval of the products of a member of `a` and a member of `b`,
/// found by the signs of the endpoints: each factor is non-negative, or
/// straddles zero, or is negative.
pub open spec fn iv_mul(a: Iv, b: Iv) -> Iv {
    if a.lo >= 0 {
        if b.lo >= 0 {
            Iv { lo: a.lo * b.lo, hi: a.hi * b.hi }
        } else if b.hi >= 0 {
            Iv { lo: a.hi * b.lo, hi: a.hi * b.hi }
        } else {
            Iv { lo: a.hi * b.lo, hi: a.lo * b.hi }
        }
    } else if a.hi >= 0 {
        if b.lo >= 0 {
            Iv { lo: a.lo * b.hi, hi: a.hi * b.hi }
        } else if b.hi >= 0 {
            Iv { lo: min2(a.lo * b.hi, b.lo * a.hi), hi: max2(a.lo * b.lo, a.hi * b.hi) }
        } else {
            Iv { lo: a.hi * b.lo, hi: a.lo * b.lo }
        }
    } else {
        if b.lo >= 0 {
            Iv { lo: a.lo * b.hi, hi: a.hi * b.lo }
        } else if b.hi >= 0 {
            Iv { lo: a.lo * b.hi, hi: a.lo * b.lo }
        } else {
            Iv { lo: a.hi * b.hi, hi: a.lo * b.lo }
        }
    }
}

/// The members common to both intervals.
pub open spec fn iv_meet(a: Iv, b: Iv) -> Iv {
    Iv { lo: max2(a.lo, b.lo), hi: min2(a.hi, b.hi) }
}

/// The least interval that holds both intervals: from the smaller lower
/// end to the larger upper end.
pub open spec fn iv_join(a: Iv, b: Iv) -> Iv {
    Iv { lo: min2(a.lo, b.lo), hi: max2(a.hi, b.hi) }
}

/// The sum of two intervals: `[lo_1 + lo_2, hi_1 + hi_2]`.
pub fn compute_bounds_sum(min_1: &BigInt, max_1: &BigInt, min_2: &BigInt, max_2: &BigInt) -> (r: (
    BigInt,
    BigInt,
))
    ensures
        (Iv { lo: value_of(r.0), hi: value_of(r.1) }) == iv_add(
            Iv { lo: value_of(*min_1), hi: value_of(*max_1) },
            Iv { lo: value_of(*min_2), hi: value_of(*max_2) },
        ),
{
    (big_add(min_1, min_2), big_add(max_1, max_2))
}

/// The difference of two intervals: `[lo_1 - hi_2, hi_1 - lo_2]`.
pub fn compute_bounds_difference(
    min_1: &BigInt,
    max_1: &BigInt,
    min_2: &BigInt,
    max_2: &BigInt,
) -> (r: (BigInt, BigInt))
    ensures
        (Iv { lo: value_of(r.0), hi: value_of(r.1) }) == iv_sub(
            Iv { lo: value_of(*min_1), hi: value_of(*max_1) },
            Iv { lo: value_of(*min_2), hi: value_of(*max_2) },
        ),
{
    (big_sub(min_1, max_2), big_sub(max_1, min_2))
}

/// The smaller of two big integers.
pub fn big_min(a: BigInt, b: BigInt) -> (r: BigInt)
    ensures
        value_of(r) == min2(value_of(a), value_of(b)),
{
    if big_le(&a, &b) { a } else { b }
}

/// The larger of two big integers.
pub fn big_max(a: BigInt, b: BigInt) -> (r: BigInt)
    ensures
        value_of(r) == max2(value_of(a), value_of(b)),
{
    if big_le(&b, &a) { a } else { b }
}

/// The product of two intervals, by the nine cases of the signs of their
/// endpoints.
pub fn compute_bounds_product(min_1: &BigInt, max_1: &BigInt, min_2: &BigInt, max_2: &BigInt) -> (r:
    (BigInt, BigInt))
    ensures
        (Iv { lo: value_of(r.0), hi: value_of(r.1) }) == iv_mul(
            Iv { lo: value_of(*min_1), hi: value_of(*max_1) },
            Iv { lo: value_of(*min_2), hi: value_of(*max_2) },
        ),
{
    let zero = big_from_u64(0);
    if big_le(&zero, min_1) {
        if big_le(&zero, min_2) {
            (big_mul(min_1, min_2), big_mul(max_1, max_2))
        } else if big_le(&zero, max_2) {
            (big_mul(max_1, min_2), big_mul(max_1, max_2))
        } else {
            (big_mul(max_1, min_2), big_mul(min_1, max_2))
        }
    } else if big_le(&zero, max_1) {
        if big_le(&zero, min_2) {
            (big_mul(min_1, max_2), big_mul(max_1, max_2))
        } else if big_le(&zero, max_2) {
            (
                big_min(big_mul(min_1, max_2), big_mul(min_2, max_1)),
                big_max(big_mul(min_1, min_2), big_mul(max_1, max_2)),
            )
        } else {
            (big_mul(max_1, min_2), big_mul(min_1, min_2))
        }
    } else {
        if big_le(&zero, min_2) {
            (big_mul(min_1, max_2), big_mul(max_1, min_2))
        } else if big_le(&zero, max_2) {
            (big_mul(min_1, max_2), big_mul(min_1, min_2))
        } else {
            (big_mul(max_1, max_2), big_mul(min_1, min_2))
        }
    }
}

/// How a product moves with its left factor: it follows the factor when the
/// right factor is not negative, and runs against it otherwise.
proof fn lemma_mul_left(x: int, lo: int, hi: int, y: int)
    requires
        lo <= x <= hi,
    ensures
        y >= 0 ==> lo * y <= x * y <= hi * y,
        y <= 0 ==> hi * y <= x * y <= lo * y,
{
    assert(y >= 0 ==> lo * y <= x * y && x * y <= hi * y) by (nonlinear_arith)
        requires
            lo <= x <= hi,
    ;
    assert(y <= 0 ==> hi * y <= x * y && x * y <= lo * y) by (nonlinear_arith)
        requires
            lo <= x <= hi,
    ;
}

/// How a product moves with its right factor.
proof fn lemma_mul_right(c: int, y: int, lo: int, hi: int)
    requires
        lo <= y <= hi,
    ensures
        c >= 0 ==> c * lo <= c * y <= c * hi,
        c <= 0 ==> c * hi <= c * y <= c * lo,
{
    assert(c >= 0 ==> c * lo <= c * y && c * y <= c * hi) by (nonlinear_arith)
        requires
            lo <= y <= hi,
    ;
    assert(c <= 0 ==> c * hi <= c * y && c * y <= c * lo) by (nonlinear_arith)
        requires
            lo <= y <= hi,
    ;
}

/// The sum of two intervals holds every sum of their members.
pub proof fn lemma_iv_add_sound(a: Iv, b: Iv, x: int, y: int)
    requires
        a.contains(x),
        b.contains(y),
    ensures
        iv_add(a, b).contains(x + y),
{
}

/// The difference of two intervals holds every difference of their members.
pub proof fn lemma_iv_sub_sound(a: Iv, b: Iv, x: int, y: int)
    requires
        a.contains(x),
        b.contains(y),
    ensures
        iv_sub(a, b).contains(x - y),
{
}

/// The product of two intervals holds every product of their members.
pub proof fn lemma_iv_mul_sound(a: Iv, b: Iv, x: int, y: int)
    requires
        a.contains(x),
        b.contains(y),
    ensures
        iv_mul(a, b).contains(x * y),
{
    lemma_mul_left(x, a.lo, a.hi, y);
    lemma_mul_left(x, a.lo, a.hi, b.lo);
    lemma_mul_left(x, a.lo, a.hi, b.hi);
    lemma_mul_right(x, y, b.lo, b.hi);
    lemma_mul_right(a.lo, y, b.lo, b.hi);
    lemma_mul_right(a.hi, y, b.lo, b.hi);
    assert(b.lo * a.hi == a.hi * b.lo) by (nonlinear_arith);
}

/// The product of two inhabited intervals is the tightest interval that
/// holds the products of their members: each of its endpoints is the product
/// of two endpoints.
pub proof fn lemma_iv_mul_tight(a: Iv, b: Iv)
    requires
        a.inhabited(),
        b.inhabited(),
    ensures
        ({
            let m = iv_mul(a, b);
            &&& (m.lo == a.lo * b.lo || m.lo == a.lo * b.hi || m.lo == a.hi * b.lo || m.lo == a.hi
                * b.hi)
            &&& (m.hi == a.lo * b.lo || m.hi == a.lo * b.hi || m.hi == a.hi * b.lo || m.hi == a.hi
                * b.hi)
        }),
{
    assert(a.lo * b.hi == b.hi * a.lo) by (nonlinear_arith);
    assert(b.lo * a.hi == a.hi * b.lo) by (nonlinear_arith);
}

} // verus!
