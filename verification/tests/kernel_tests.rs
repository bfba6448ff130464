use civer::field::{
    check_correct_signs, check_same_field_round, div_floor, from_signed_value, is_positive,
    mod_div, mod_mul, modulus, parse_prime, prefix_sub, to_neg,
};
use civer::interval::{
    big_max, big_min, compute_bounds_difference, compute_bounds_product, compute_bounds_sum,
};
use num_bigint_dig::BigInt;

fn big(v: i64) -> BigInt {
    BigInt::from(v)
}

#[test]
fn signed_representative_of_small_and_large_elements() {
    let p = big(17);
    assert_eq!(to_neg(&big(0), &p), big(0));
    assert_eq!(to_neg(&big(3), &p), big(3));
    assert_eq!(to_neg(&big(8), &p), big(8));
    assert_eq!(to_neg(&big(9), &p), big(-8));
    assert_eq!(to_neg(&big(16), &p), big(-1));
    assert!(is_positive(&big(8), &p));
    assert!(!is_positive(&big(9), &p));
}

#[test]
fn signed_and_unsigned_readings_round_trip() {
    let p = big(17);
    for x in 0..17 {
        let signed = to_neg(&big(x), &p);
        assert!(signed >= big(-8) && signed <= big(8));
        assert_eq!(from_signed_value(&signed, &p), big(x));
    }
    for y in -8..=8 {
        let element = from_signed_value(&big(y), &p);
        assert!(element >= big(0) && element < p);
        assert_eq!(to_neg(&element, &p), big(y));
    }
}

#[test]
fn lowest_representative_of_an_even_modulus_reads_as_positive() {
    let p = big(2);
    let element = from_signed_value(&big(-1), &p);
    assert_eq!(element, big(1));
    assert_eq!(to_neg(&element, &p), big(1));
}

#[test]
fn signs_agree_with_zero_counted_as_positive() {
    assert!(check_correct_signs(&big(0), &big(5)));
    assert!(check_correct_signs(&big(-1), &big(-5)));
    assert!(!check_correct_signs(&big(-1), &big(0)));
    assert!(!check_correct_signs(&big(3), &big(-3)));
}

#[test]
fn flooring_division_and_residue() {
    let p = big(17);
    assert_eq!(div_floor(&big(35), &p), big(2));
    assert_eq!(div_floor(&big(-1), &p), big(-1));
    assert_eq!(div_floor(&big(-17), &p), big(-1));
    assert_eq!(div_floor(&big(-18), &p), big(-2));
    assert_eq!(modulus(&big(35), &p), big(1));
    assert_eq!(modulus(&big(-1), &p), big(16));
    assert_eq!(modulus(&big(-17), &p), big(0));
    assert_eq!(modulus(&big(-18), &p), big(16));
}

#[test]
fn same_round_needs_same_sign_and_same_quotient() {
    let p = big(17);
    assert!(check_same_field_round(&big(0), &big(16), &p));
    assert!(check_same_field_round(&big(17), &big(33), &p));
    assert!(!check_same_field_round(&big(16), &big(17), &p));
    assert!(!check_same_field_round(&big(-1), &big(1), &p));
    assert!(check_same_field_round(&big(-17), &big(-1), &p));
    assert!(!check_same_field_round(&big(-18), &big(-17), &p));
}

#[test]
fn modular_product_negation_and_quotient() {
    let p = big(17);
    assert_eq!(mod_mul(&big(5), &big(7), &p), big(1));
    assert_eq!(prefix_sub(&big(3), &p), big(14));
    assert_eq!(prefix_sub(&big(0), &p), big(0));
    // 6 / 3 = 2, and 1 / 5 = 7 since 5 * 7 = 35 = 1 (mod 17)
    assert_eq!(mod_div(&big(6), &big(3), &p), Some(big(2)));
    assert_eq!(mod_div(&big(1), &big(5), &p), Some(big(7)));
    assert_eq!(mod_div(&big(1), &big(0), &p), None);
    assert_eq!(mod_div(&big(1), &big(34), &p), None);
    // no inverse of 2 modulo 4
    assert_eq!(mod_div(&big(1), &big(2), &big(4)), None);
}

#[test]
fn modulus_is_read_from_its_numeral() {
    assert_eq!(parse_prime("17"), Some(big(17)));
    assert_eq!(parse_prime("007"), Some(big(7)));
    let bn128 = "21888242871839275222246405745257275088548364400416034343698204186575808495617";
    assert_eq!(parse_prime(bn128), BigInt::parse_bytes(bn128.as_bytes(), 10));
    assert_eq!(parse_prime(""), None);
    assert_eq!(parse_prime("1"), None);
    assert_eq!(parse_prime("0"), None);
    assert_eq!(parse_prime("-7"), None);
    assert_eq!(parse_prime("1a"), None);
    assert_eq!(parse_prime(" 7"), None);
}

#[test]
fn interval_sum_and_difference() {
    let (lo, hi) = compute_bounds_sum(&big(-2), &big(3), &big(10), &big(20));
    assert_eq!((lo, hi), (big(8), big(23)));
    let (lo, hi) = compute_bounds_difference(&big(-2), &big(3), &big(10), &big(20));
    assert_eq!((lo, hi), (big(-22), big(-7)));
    assert_eq!(big_min(big(3), big(-4)), big(-4));
    assert_eq!(big_max(big(3), big(-4)), big(3));
}

fn product(a: (i64, i64), b: (i64, i64)) -> (BigInt, BigInt) {
    compute_bounds_product(&big(a.0), &big(a.1), &big(b.0), &big(b.1))
}

#[test]
fn interval_product_in_each_of_the_nine_cases() {
    assert_eq!(product((2, 3), (4, 5)), (big(8), big(15)));
    assert_eq!(product((2, 3), (-4, 5)), (big(-12), big(15)));
    assert_eq!(product((2, 3), (-5, -4)), (big(-15), big(-8)));
    assert_eq!(product((-2, 3), (4, 5)), (big(-10), big(15)));
    assert_eq!(product((-2, 3), (-5, 1)), (big(-15), big(10)));
    assert_eq!(product((-2, 3), (-5, -4)), (big(-15), big(10)));
    assert_eq!(product((-3, -2), (4, 5)), (big(-15), big(-8)));
    assert_eq!(product((-3, -2), (-4, 5)), (big(-15), big(12)));
    assert_eq!(product((-3, -2), (-5, -4)), (big(8), big(15)));
}

#[test]
fn interval_product_holds_every_product_of_members() {
    let ranges = [(-3i64, 2i64), (0, 4), (-5, -1), (1, 1), (-2, 0)];
    for a in ranges.iter() {
        for b in ranges.iter() {
            let (lo, hi) = product(*a, *b);
            let mut least = i64::MAX;
            let mut most = i64::MIN;
            for x in a.0..=a.1 {
                for y in b.0..=b.1 {
                    least = least.min(x * y);
                    most = most.max(x * y);
                }
            }
            assert_eq!((lo, hi), (big(least), big(most)));
        }
    }
}
