//! Arithmetic in the prime field and the signed reading of its elements.
//!
//! A field element is an integer in `[0, p)`. When an element is handed to an
//! integer solver it is replaced by its signed representative, the congruent
//! integer of least absolute value, so that coefficients such as `p - 1` are
//! read as `-1`.
use vstd::prelude::*;
use vstd::arithmetic::div_mod::{lemma_fundamental_div_mod, lemma_fundamental_div_mod_converse, lemma_mod_multiples_vanish, lemma_mod_bound};
use num_bigint_dig::BigInt;
use vstd::string::StringSliceAdditionalSpecFns;
use crate::bigint::{value_of, trunc_div, trunc_rem, is_inverse, big_from_u64, big_add, big_sub, big_mul, big_div, big_rem, big_lt, big_le, big_eq, big_clone, big_mod_inverse};

verus! {

/// Half of the modulus, rounded down: the largest element read as non-negative.
pub open spec fn half(p: int) -> int {
    p / 2
}

/// The signed representative of `x` modulo `p`.
pub open spec fn to_signed(x: int, p: int) -> int {
    if x <= half(p) { x } else { x - p }
}

/// The field element that a signed representative stands for.
pub open spec fn from_signed(y: int, p: int) -> int {
    if y < 0 { y + p } else { y }
}

/// Whether both integers are negative or both are not.
pub open spec fn same_sign(a: int, b: int) -> bool {
    (a >= 0) == (b >= 0)
}

/// Whether two integers lie in the same modular round: they have the same
/// sign and the same quotient by `p`, so that reducing every integer between
/// them modulo `p` keeps their order.
pub open spec fn same_round(a: int, b: int, p: int) -> bool {
    same_sign(a, b) && a / p == b / p
}

/// `2` as a big integer.
fn big_two() -> (r: BigInt)
    ensures
        value_of(r) == 2,
{
    big_from_u64(2)
}

/// Relates the rounding-toward-zero division of the big-integer crate to the
/// flooring division of specifications, for a positive divisor.
pub proof fn lemma_trunc_div_floor(a: int, p: int)
    requires
        p > 0,
    ensures
        a >= 0 ==> trunc_div(a, p) == a / p && trunc_rem(a, p) == a % p,
        a < 0 && a % p == 0 ==> trunc_div(a, p) == a / p && trunc_rem(a, p) == 0,
        a < 0 && a % p != 0 ==> trunc_div(a, p) == a / p + 1 && trunc_rem(a, p) == a % p - p,
{
    lemma_fundamental_div_mod(a, p);
    lemma_mod_bound(a, p);
    if a < 0 {
        let q = a / p;
        let r = a % p;
        // -a == (-q) * p - r
        if r == 0 {
            assert(-a == p * (-q) + 0) by (nonlinear_arith)
                requires
                    a == p * q + r,
                    r == 0,
            ;
            lemma_fundamental_div_mod_converse(-a, p, -q, 0);
        } else {
            assert(-a == p * (-q - 1) + (p - r)) by (nonlinear_arith)
                requires
                    a == p * q + r,
            ;
            lemma_fundamental_div_mod_converse(-a, p, -q - 1, p - r);
            assert(p * (q + 1) == p * q + p) by (nonlinear_arith);
        }
    }
}

/// Whether the element `a` is read as a non-negative integer.
pub fn is_positive(a: &BigInt, field: &BigInt) -> (r: bool)
    ensures
        value_of(*field) >= 0 ==> r == (value_of(*a) <= half(value_of(*field))),
        r == (value_of(*a) <= trunc_div(value_of(*field), 2)),
{
    let two = big_two();
    let h = big_div(field, &two);
    proof {
        if value_of(*field) >= 0 {
            lemma_trunc_div_floor(value_of(*field), 2);
        }
    }
    big_le(a, &h)
}

/// The signed representative of the element `a`.
pub fn to_neg(a: &BigInt, field: &BigInt) -> (r: BigInt)
    requires
        value_of(*field) >= 0,
    ensures
        value_of(r) == to_signed(value_of(*a), value_of(*field)),
{
    if is_positive(a, field) {
        big_clone(a)
    } else {
        big_sub(a, field)
    }
}

/// The field element that the signed representative `a` stands for.
pub fn from_signed_value(a: &BigInt, field: &BigInt) -> (r: BigInt)
    ensures
        value_of(r) == from_signed(value_of(*a), value_of(*field)),
{
    let zero = big_from_u64(0);
    if big_lt(a, &zero) {
        big_add(a, field)
    } else {
        big_clone(a)
    }
}

/// Whether `a` and `b` have the same sign, zero counting as positive.
pub fn check_correct_signs(a: &BigInt, b: &BigInt) -> (r: bool)
    ensures
        r == same_sign(value_of(*a), value_of(*b)),
{
    let zero = big_from_u64(0);
    let a_neg = big_lt(a, &zero);
    let b_neg = big_lt(b, &zero);
    !(!a_neg && b_neg) && !(!b_neg && a_neg)
}

/// The quotient of `a` by the positive `p`, rounded down.
pub fn div_floor(a: &BigInt, p: &BigInt) -> (r: BigInt)
    requires
        value_of(*p) > 0,
    ensures
        value_of(r) == value_of(*a) / value_of(*p),
{
    let q = big_div(a, p);
    let m = big_rem(a, p);
    let zero = big_from_u64(0);
    proof {
        lemma_trunc_div_floor(value_of(*a), value_of(*p));
        lemma_mod_bound(value_of(*a), value_of(*p));
    }
    if big_lt(&m, &zero) {
        let one = big_from_u64(1);
        big_sub(&q, &one)
    } else {
        q
    }
}

/// The residue of `a` modulo the positive `p`, in `[0, p)`.
pub fn modulus(a: &BigInt, p: &BigInt) -> (r: BigInt)
    requires
        value_of(*p) > 0,
    ensures
        value_of(r) == value_of(*a) % value_of(*p),
        0 <= value_of(r) < value_of(*p),
{
    let m = big_rem(a, p);
    let zero = big_from_u64(0);
    proof {
        lemma_trunc_div_floor(value_of(*a), value_of(*p));
        lemma_mod_bound(value_of(*a), value_of(*p));
    }
    if big_lt(&m, &zero) {
        big_add(&m, p)
    } else {
        m
    }
}

/// Whether `a` and `b` lie in the same modular round of the field.
pub fn check_same_field_round(a: &BigInt, b: &BigInt, field: &BigInt) -> (r: bool)
    requires
        value_of(*field) > 0,
    ensures
        r == same_round(value_of(*a), value_of(*b), value_of(*field)),
{
    if check_correct_signs(a, b) {
        let qa = div_floor(a, field);
        let qb = div_floor(b, field);
        big_eq(&qa, &qb)
    } else {
        false
    }
}

/// The product of two integers, reduced modulo `p`.
pub fn mod_mul(a: &BigInt, b: &BigInt, p: &BigInt) -> (r: BigInt)
    requires
        value_of(*p) > 0,
    ensures
        value_of(r) == (value_of(*a) * value_of(*b)) % value_of(*p),
{
    let prod = big_mul(a, b);
    modulus(&prod, p)
}

/// The additive inverse of `a` modulo `p`.
pub fn prefix_sub(a: &BigInt, p: &BigInt) -> (r: BigInt)
    requires
        value_of(*p) > 0,
    ensures
        value_of(r) == (-value_of(*a)) % value_of(*p),
{
    let zero = big_from_u64(0);
    let neg = big_sub(&zero, a);
    modulus(&neg, p)
}

/// Whether `a` has a multiplicative inverse modulo `p`.
pub open spec fn invertible(a: int, p: int) -> bool {
    exists|x: int| #[trigger] is_inverse(a, x, p)
}

/// Division in the field: `a` times an inverse of `b`, reduced modulo `p`.
/// There is no quotient when `b` has no inverse.
pub fn mod_div(a: &BigInt, b: &BigInt, p: &BigInt) -> (r: Option<BigInt>)
    requires
        value_of(*p) > 1,
    ensures
        r is Some <==> invertible(value_of(*b) % value_of(*p), value_of(*p)),
        r matches Some(q) ==> {
            &&& 0 <= value_of(q) < value_of(*p)
            &&& exists|x: int| #[trigger]
                is_inverse(value_of(*b) % value_of(*p), x, value_of(*p)) && value_of(q) == (
                value_of(*a) * x) % value_of(*p)
        },
{
    let reduced = modulus(b, p);
    match big_mod_inverse(&reduced, p) {
        Some(inv) => {
            let q = mod_mul(a, &inv, p);
            proof {
                lemma_mod_bound(value_of(*a) * value_of(inv), value_of(*p));
                assert(is_inverse(value_of(*b) % value_of(*p), value_of(inv), value_of(*p)));
            }
            Some(q)
        },
        None => None,
    }
}

/// Reading a signed representative as a field element and back gives the
/// representative again, for every representative in `[-half(p), half(p)]`
/// but the lowest one of an even modulus, which is read as the positive
/// `half(p)`.
pub proof fn lemma_to_signed_from_signed(y: int, p: int)
    requires
        p > 0,
        -half(p) <= y <= half(p),
        !(p % 2 == 0 && y == -half(p)),
    ensures
        0 <= from_signed(y, p) < p,
        to_signed(from_signed(y, p), p) == y,
{
    lemma_fundamental_div_mod(p, 2);
}

/// Reading a field element as a signed representative and back gives the
/// element again, and the representative is congruent to the element.
pub proof fn lemma_from_signed_to_signed(x: int, p: int)
    requires
        p > 0,
        0 <= x < p,
    ensures
        from_signed(to_signed(x, p), p) == x,
        to_signed(x, p) % p == x % p,
        -half(p) <= to_signed(x, p) <= half(p),
{
    lemma_fundamental_div_mod(p, 2);
    if x > half(p) {
        lemma_mod_multiples_vanish(-1, x, p);
    }
}

/// Whether a byte is an ASCII digit.
pub open spec fn is_digit(b: u8) -> bool {
    48 <= b <= 57
}

/// Whether a text is a decimal numeral: at least one digit, and digits
/// only.
pub open spec fn is_numeral(bytes: Seq<u8>) -> bool {
    bytes.len() > 0 && forall|i: int| 0 <= i < bytes.len() ==> is_digit(#[trigger] bytes[i])
}

/// The number that a sequence of digits stands for in decimal.
pub open spec fn decimal_value(bytes: Seq<u8>) -> int
    decreases bytes.len(),
{
    if bytes.len() == 0 {
        0
    } else {
        10 * decimal_value(bytes.drop_last()) + (bytes.last() - 48)
    }
}

/// Reads the modulus of the field from its decimal numeral. A text that is
/// no numeral, or stands for a number below two, is not a modulus.
pub fn parse_prime(text: &str) -> (r: Option<BigInt>)
    ensures
        r is Some <==> is_numeral(text.spec_bytes()) && decimal_value(text.spec_bytes()) > 1,
        r matches Some(p) ==> value_of(p) == decimal_value(text.spec_bytes()),
{
    let bytes = text.as_bytes();
    if bytes.len() == 0 {
        return None;
    }
    let ten = big_from_u64(10);
    let one = big_from_u64(1);
    let mut value = big_from_u64(0);
    let mut i: usize = 0;
    while i < bytes.len()
        invariant
            i <= bytes.len(),
            bytes@ == text.spec_bytes(),
            value_of(ten) == 10,
            value_of(one) == 1,
            value_of(value) == decimal_value(bytes@.take(i as int)),
            forall|k: int| 0 <= k < i ==> is_digit(#[trigger] bytes@[k]),
        decreases bytes.len() - i,
    {
        let b: u8 = bytes[i];
        if b < 48 || b > 57 {
            assert(!is_digit(bytes@[i as int]));
            return None;
        }
        proof {
            assert(bytes@.take(i + 1).drop_last() =~= bytes@.take(i as int));
            assert(bytes@.take(i + 1).last() == b);
        }
        let digit = big_from_u64((b - 48) as u64);
        value = big_add(&big_mul(&ten, &value), &digit);
        i += 1;
    }
    assert(bytes@.take(bytes@.len() as int) =~= bytes@);
    if big_lt(&one, &value) { Some(value) } else { None }
}

} // verus!
