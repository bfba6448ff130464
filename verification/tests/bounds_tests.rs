use civer::annotation_bounds::get_bounds_expression_bool;
use civer::bounds::{
    compute_bounds_linear_expression, compute_bounds_linear_expression_strict,
    deduction_rule_apply_bounds_constraint, deduction_rule_integrity_domain,
    solve_signal_plus_coef, update_bounds_signal, ExecutedInequation, Signal2Bounds,
};
use civer::constraint::Constraint;
use civer::expression::{Expression, ExpressionInfixOpcode, Meta};
use civer::propagation::{apply_bounds_pass, propagate_to_fixed_point};
use civer::verification::TemplateVerification;
use num_bigint_dig::BigInt;
use std::collections::HashMap;

fn big(v: i64) -> BigInt {
    BigInt::from(v)
}

fn lc(terms: &[(usize, i64)]) -> Vec<(usize, BigInt)> {
    terms.iter().map(|(s, c)| (*s, big(*c))).collect()
}

fn constraint(a: &[(usize, i64)], b: &[(usize, i64)], c: &[(usize, i64)]) -> Constraint {
    Constraint::new(lc(a), lc(b), lc(c))
}

fn num(v: i64) -> Expression {
    Expression::Number(Meta::new(0, 0), big(v))
}

fn var(signal: usize) -> Expression {
    Expression::Variable { meta: Meta::new(0, 0), signal }
}

fn infix(l: Expression, op: ExpressionInfixOpcode, r: Expression) -> Expression {
    Expression::InfixOp { meta: Meta::new(0, 0), lhe: Box::new(l), infix_op: op, rhe: Box::new(r) }
}

fn entry(b: &Signal2Bounds, s: usize) -> Option<(BigInt, BigInt)> {
    b.get(&s).map(|e| (e.min.clone(), e.max.clone()))
}

fn with_entries(entries: &[(usize, i64, i64)]) -> Signal2Bounds {
    let mut b: Signal2Bounds = HashMap::new();
    for (s, lo, hi) in entries {
        b.insert(*s, ExecutedInequation { signal: *s, min: big(*lo), max: big(*hi) });
    }
    b
}

fn implied(e: &Expression, p: i64) -> Vec<(usize, BigInt, BigInt)> {
    get_bounds_expression_bool(e, &big(p))
        .into_iter()
        .map(|e| (e.signal, e.min, e.max))
        .collect()
}

#[test]
fn first_interval_of_a_signal_is_recorded() {
    let mut b = with_entries(&[]);
    assert!(update_bounds_signal(&mut b, 3, big(2), big(9), &big(17)));
    assert_eq!(entry(&b, 3), Some((big(2), big(9))));
}

#[test]
fn later_interval_narrows_the_entry() {
    let mut b = with_entries(&[(3, 2, 9)]);
    assert!(update_bounds_signal(&mut b, 3, big(1), big(5), &big(17)));
    assert_eq!(entry(&b, 3), Some((big(2), big(5))));
    assert!(!update_bounds_signal(&mut b, 3, big(0), big(7), &big(17)));
    assert_eq!(entry(&b, 3), Some((big(2), big(5))));
    assert!(update_bounds_signal(&mut b, 3, big(4), big(16), &big(17)));
    assert_eq!(entry(&b, 3), Some((big(4), big(5))));
}

#[test]
fn interval_to_the_top_narrows_an_entry_that_begins_at_zero() {
    let mut b = with_entries(&[(3, 0, 5)]);
    assert!(update_bounds_signal(&mut b, 3, big(3), big(16), &big(17)));
    assert_eq!(entry(&b, 3), Some((big(3), big(5))));
    assert!(!update_bounds_signal(&mut b, 3, big(0), big(16), &big(17)));
    assert_eq!(entry(&b, 3), Some((big(3), big(5))));
}

#[test]
fn interval_to_the_top_leaves_an_entry_that_reaches_below_zero() {
    let mut b = with_entries(&[(4, -1, 0)]);
    assert!(!update_bounds_signal(&mut b, 4, big(16), big(16), &big(17)));
    assert_eq!(entry(&b, 4), Some((big(-1), big(0))));
    // an interval that stays below the top is met with the entry
    assert!(update_bounds_signal(&mut b, 4, big(0), big(15), &big(17)));
    assert_eq!(entry(&b, 4), Some((big(0), big(0))));
}

#[test]
fn single_signal_combination_is_solved() {
    let p = big(17);
    assert_eq!(solve_signal_plus_coef(&lc(&[(5, 1), (0, 16)]), &p), Some((5, big(1))));
    assert_eq!(solve_signal_plus_coef(&lc(&[(0, 16), (5, 1)]), &p), Some((5, big(1))));
    assert_eq!(solve_signal_plus_coef(&lc(&[(5, 3)]), &p), Some((5, big(0))));
    assert_eq!(solve_signal_plus_coef(&lc(&[(5, 2), (0, 5)]), &p), Some((5, big(6))));
}

#[test]
fn other_combinations_are_not_solved() {
    let p = big(17);
    assert_eq!(solve_signal_plus_coef(&lc(&[]), &p), None);
    assert_eq!(solve_signal_plus_coef(&lc(&[(0, 5)]), &p), None);
    assert_eq!(solve_signal_plus_coef(&lc(&[(1, 1), (2, 1)]), &p), None);
    assert_eq!(solve_signal_plus_coef(&lc(&[(0, 1), (0, 2)]), &p), None);
    assert_eq!(solve_signal_plus_coef(&lc(&[(1, 1), (2, 1), (0, 3)]), &p), None);
    assert_eq!(solve_signal_plus_coef(&lc(&[(1, 17)]), &p), None);
    assert_eq!(solve_signal_plus_coef(&lc(&[(1, 0), (0, 3)]), &p), None);
}

#[test]
fn binary_constraint_is_captured_by_its_interval() {
    let mut b = with_entries(&[]);
    let c = constraint(&[(4, 1)], &[(4, 1), (0, 16)], &[]);
    assert!(deduction_rule_integrity_domain(&mut b, &c, &big(17)));
    assert_eq!(entry(&b, 4), Some((big(0), big(1))));
}

#[test]
fn distant_roots_bound_without_capturing() {
    let mut b = with_entries(&[]);
    // (s - 2) * (s - 7) = 0
    let c = constraint(&[(4, 1), (0, 15)], &[(4, 1), (0, 10)], &[]);
    assert!(!deduction_rule_integrity_domain(&mut b, &c, &big(17)));
    assert_eq!(entry(&b, 4), Some((big(2), big(7))));
}

#[test]
fn roots_around_zero_give_an_interval_through_zero() {
    let mut b = with_entries(&[]);
    // s * (s + 1) = 0 has the roots 0 and 16
    let c = constraint(&[(4, 1)], &[(4, 1), (0, 1)], &[]);
    assert!(deduction_rule_integrity_domain(&mut b, &c, &big(17)));
    assert_eq!(entry(&b, 4), Some((big(-1), big(0))));
}

#[test]
fn roots_around_zero_leave_an_entry_alone() {
    let mut b = with_entries(&[(4, 0, 16)]);
    let c = constraint(&[(4, 1)], &[(4, 1), (0, 1)], &[]);
    assert!(!deduction_rule_integrity_domain(&mut b, &c, &big(17)));
    assert_eq!(entry(&b, 4), Some((big(0), big(16))));
}

#[test]
fn interval_that_is_not_recorded_does_not_capture() {
    // (s - 15) * (s - 16) = 0 with an entry that reaches below zero
    let mut b = with_entries(&[(4, -1, 0)]);
    let c = constraint(&[(4, 1), (0, 2)], &[(4, 1), (0, 1)], &[]);
    assert!(!deduction_rule_integrity_domain(&mut b, &c, &big(17)));
    assert_eq!(entry(&b, 4), Some((big(-1), big(0))));
}

#[test]
fn roots_at_the_top_narrow_an_entry_that_begins_at_zero() {
    // (s - 15) * (s - 16) = 0 with the entry [0, 16]
    let mut b = with_entries(&[(4, 0, 16)]);
    let c = constraint(&[(4, 1), (0, 2)], &[(4, 1), (0, 1)], &[]);
    assert!(deduction_rule_integrity_domain(&mut b, &c, &big(17)));
    assert_eq!(entry(&b, 4), Some((big(15), big(16))));
}

#[test]
fn other_forms_are_left_to_the_solver() {
    let mut b = with_entries(&[]);
    // s * s = s is not of the form (s - a) * (s - b) = 0
    let c = constraint(&[(4, 1)], &[(4, 1)], &[(4, 1)]);
    assert!(!deduction_rule_integrity_domain(&mut b, &c, &big(17)));
    assert_eq!(entry(&b, 4), None);
    // two signals
    let c = constraint(&[(4, 1)], &[(5, 1), (0, 16)], &[]);
    assert!(!deduction_rule_integrity_domain(&mut b, &c, &big(17)));
    assert!(b.is_empty());
}

#[test]
fn interval_of_a_linear_combination() {
    let p = big(17);
    let b = with_entries(&[(0, 1, 1), (1, 0, 1), (2, -1, 0)]);
    // s1 + 2 * s3 - s2 + 5, with s3 unbounded
    let le = lc(&[(1, 1), (3, 2), (2, 16), (0, 5)]);
    assert_eq!(compute_bounds_linear_expression(&b, &le, &p), (big(5), big(39)));
    // read strictly, s2 ranges over the field
    assert_eq!(compute_bounds_linear_expression_strict(&b, &le, &p), (big(-11), big(38)));
    assert_eq!(compute_bounds_linear_expression(&b, &lc(&[]), &p), (big(0), big(0)));
}

#[test]
fn back_substitution_bounds_a_signal_equal_to_a_bounded_one() {
    let p = big(17);
    let mut b = with_entries(&[(0, 1, 1), (2, 0, 1)]);
    // 0 = s1 - s2
    let c = constraint(&[], &[], &[(1, 1), (2, 16)]);
    let updated = deduction_rule_apply_bounds_constraint(&mut b, &c, &p, false);
    assert_eq!(updated, vec![1]);
    assert_eq!(entry(&b, 1), Some((big(0), big(1))));
    assert_eq!(entry(&b, 2), Some((big(0), big(1))));
    let again = deduction_rule_apply_bounds_constraint(&mut b, &c, &p, false);
    assert!(again.is_empty());
}

#[test]
fn back_substitution_needs_both_ends_in_one_round() {
    let p = big(17);
    let mut b = with_entries(&[(0, 1, 1)]);
    // 0 = s1 + s2 - 20 says nothing of s1 while s2 is unbounded
    let c = constraint(&[], &[], &[(1, 1), (2, 1), (0, 14)]);
    let updated = deduction_rule_apply_bounds_constraint(&mut b, &c, &p, false);
    assert!(updated.is_empty());
    assert_eq!(entry(&b, 1), None);
    assert_eq!(entry(&b, 2), None);
}

#[test]
fn passes_go_on_until_nothing_changes() {
    let p = big(17);
    let mut b = with_entries(&[(0, 1, 1), (3, 0, 1)]);
    // a chain s1 = s2 and s2 = s3, listed against the flow of the bounds
    let cs = vec![
        constraint(&[], &[], &[(1, 1), (2, 16)]),
        constraint(&[], &[], &[(2, 1), (3, 16)]),
    ];
    // the first pass gives s1 and s2 the whole field and then narrows s2
    let mut one_pass = with_entries(&[(0, 1, 1), (3, 0, 1)]);
    assert_eq!(apply_bounds_pass(&mut one_pass, &cs, &p, false), vec![1, 2, 2]);
    assert_eq!(entry(&one_pass, 1), Some((big(0), big(16))));
    assert_eq!(entry(&one_pass, 2), Some((big(0), big(1))));
    // the second pass narrows s1, the third changes nothing
    let updated = propagate_to_fixed_point(&mut b, &cs, &p, false);
    assert_eq!(updated, vec![1, 2, 2, 1]);
    assert_eq!(entry(&b, 1), Some((big(0), big(1))));
    assert_eq!(entry(&b, 2), Some((big(0), big(1))));
    assert!(apply_bounds_pass(&mut b, &cs, &p, false).is_empty());
}

#[test]
fn comparisons_imply_intervals() {
    assert_eq!(implied(&infix(num(2), ExpressionInfixOpcode::LesserEq, var(5)), 17), vec![(5, big(2), big(16))]);
    assert_eq!(implied(&infix(var(5), ExpressionInfixOpcode::LesserEq, num(2)), 17), vec![(5, big(0), big(2))]);
    assert_eq!(implied(&infix(num(2), ExpressionInfixOpcode::GreaterEq, var(5)), 17), vec![(5, big(0), big(2))]);
    assert_eq!(implied(&infix(var(5), ExpressionInfixOpcode::GreaterEq, num(2)), 17), vec![(5, big(2), big(16))]);
    assert_eq!(implied(&infix(num(2), ExpressionInfixOpcode::Lesser, var(5)), 17), vec![(5, big(3), big(16))]);
    assert_eq!(implied(&infix(var(5), ExpressionInfixOpcode::Lesser, num(2)), 17), vec![(5, big(0), big(1))]);
    assert_eq!(implied(&infix(num(2), ExpressionInfixOpcode::Greater, var(5)), 17), vec![(5, big(0), big(1))]);
    assert_eq!(implied(&infix(var(5), ExpressionInfixOpcode::Greater, num(2)), 17), vec![(5, big(3), big(16))]);
    assert_eq!(implied(&infix(var(5), ExpressionInfixOpcode::Eq, num(2)), 17), vec![(5, big(2), big(2))]);
    assert_eq!(implied(&infix(num(2), ExpressionInfixOpcode::Eq, var(5)), 17), vec![(5, big(2), big(2))]);
}

#[test]
fn other_annotations_imply_nothing() {
    assert!(implied(&infix(var(5), ExpressionInfixOpcode::NotEq, num(2)), 17).is_empty());
    assert!(implied(&infix(var(5), ExpressionInfixOpcode::LesserEq, var(6)), 17).is_empty());
    assert!(implied(&infix(num(5), ExpressionInfixOpcode::LesserEq, num(6)), 17).is_empty());
    assert!(implied(&infix(infix(var(5), ExpressionInfixOpcode::Add, num(1)), ExpressionInfixOpcode::LesserEq, num(6)), 17).is_empty());
    assert!(implied(&infix(var(5), ExpressionInfixOpcode::BoolImplication, infix(var(5), ExpressionInfixOpcode::Eq, num(2))), 17).is_empty());
    assert!(implied(&var(5), 17).is_empty());
    assert!(implied(&num(1), 17).is_empty());
}

#[test]
fn conjunction_bounds_every_signal_of_either_side() {
    let e = infix(
        infix(infix(num(1), ExpressionInfixOpcode::LesserEq, var(5)), ExpressionInfixOpcode::BoolAnd, infix(var(6), ExpressionInfixOpcode::Lesser, num(4))),
        ExpressionInfixOpcode::BoolAnd,
        infix(var(5), ExpressionInfixOpcode::LesserEq, num(3)),
    );
    assert_eq!(implied(&e, 17), vec![(5, big(1), big(3)), (6, big(0), big(3))]);
    let e = infix(infix(num(0), ExpressionInfixOpcode::LesserEq, var(5)), ExpressionInfixOpcode::BitAnd, infix(var(5), ExpressionInfixOpcode::LesserEq, num(3)));
    assert_eq!(implied(&e, 17), vec![(5, big(0), big(3))]);
}

#[test]
fn disjunction_bounds_the_signals_of_both_sides() {
    // (s5 <= 3 && s6 < 4) || (2 <= s5): s5 lies in [0, 3] or in [2, 16]
    let e = infix(
        infix(infix(var(5), ExpressionInfixOpcode::LesserEq, num(3)), ExpressionInfixOpcode::BoolAnd, infix(var(6), ExpressionInfixOpcode::Lesser, num(4))),
        ExpressionInfixOpcode::BoolOr,
        infix(num(2), ExpressionInfixOpcode::LesserEq, var(5)),
    );
    assert_eq!(implied(&e, 17), vec![(5, big(0), big(16))]);
    let e = infix(infix(var(5), ExpressionInfixOpcode::LesserEq, num(3)), ExpressionInfixOpcode::BitOr, infix(var(6), ExpressionInfixOpcode::Lesser, num(4)));
    assert!(implied(&e, 17).is_empty());
}

#[test]
fn disjunction_gives_the_interval_that_holds_both_sides() {
    // (s1 <= 3) || (s1 <= 5): the values 4 and 5 make it true
    let e = infix(
        infix(var(1), ExpressionInfixOpcode::LesserEq, num(3)),
        ExpressionInfixOpcode::BoolOr,
        infix(var(1), ExpressionInfixOpcode::LesserEq, num(5)),
    );
    assert_eq!(implied(&e, 17), vec![(1, big(0), big(5))]);
    // (2 <= s1 && s1 <= 4) || (8 <= s1 && s1 <= 9)
    let between = |lo: i64, hi: i64| {
        infix(
            infix(num(lo), ExpressionInfixOpcode::LesserEq, var(1)),
            ExpressionInfixOpcode::BoolAnd,
            infix(var(1), ExpressionInfixOpcode::LesserEq, num(hi)),
        )
    };
    let e = infix(between(2, 4), ExpressionInfixOpcode::BitOr, between(8, 9));
    assert_eq!(implied(&e, 17), vec![(1, big(2), big(9))]);
    // s1 == 7 || s1 == 3
    let e = infix(
        infix(var(1), ExpressionInfixOpcode::Eq, num(7)),
        ExpressionInfixOpcode::BoolOr,
        infix(num(3), ExpressionInfixOpcode::Eq, var(1)),
    );
    assert_eq!(implied(&e, 17), vec![(1, big(3), big(7))]);
}

#[test]
fn propagation_from_a_disjunction_keeps_every_value_that_makes_it_true() {
    let precondition = infix(
        infix(var(1), ExpressionInfixOpcode::LesserEq, num(3)),
        ExpressionInfixOpcode::BoolOr,
        infix(var(1), ExpressionInfixOpcode::LesserEq, num(5)),
    );
    let mut v = TemplateVerification::new(
        &"T".to_string(),
        vec![1],
        1,
        0,
        1,
        vec![],
        vec![precondition],
        vec![],
        vec![],
        vec![],
        vec![],
        vec![],
        vec![],
        vec![],
        vec![],
        vec![],
        vec![],
        &big(17),
        1000,
        false,
        false,
        true,
        false,
        false,
        false,
    );
    v.deduce_round();
    let (lo, hi) = entry(&v.deductions, 1).unwrap();
    for value in 0..=5i64 {
        assert!(lo <= big(value) && big(value) <= hi);
    }
    assert_eq!((lo, hi), (big(0), big(5)));
}

fn num2bits() -> TemplateVerification {
    // outputs b0 = 1 and b1 = 2, input in = 3
    let constraints = vec![
        constraint(&[(1, 1)], &[(1, 1), (0, 16)], &[]),
        constraint(&[(2, 1)], &[(2, 1), (0, -1)], &[]),
        constraint(&[], &[], &[(1, 1), (2, 2), (3, 16)]),
    ];
    let precondition = infix(infix(num(0), ExpressionInfixOpcode::LesserEq, var(3)), ExpressionInfixOpcode::BoolAnd, infix(var(3), ExpressionInfixOpcode::LesserEq, num(3)));
    TemplateVerification::new(
        &"Num2Bits".to_string(),
        vec![1, 2, 3],
        1,
        2,
        1,
        constraints,
        vec![precondition],
        vec![],
        vec![],
        vec![],
        vec![],
        vec![],
        vec![],
        vec![],
        vec![],
        vec![],
        vec![],
        &big(17),
        10_000,
        false,
        true,
        true,
        false,
        false,
        false,
    )
}

#[test]
fn constraints_are_brought_to_canonical_form() {
    let v = num2bits();
    // the coefficient -1 of the second constraint is stored as 16
    let b = v.constraints[1].b();
    assert_eq!(b.clone(), lc(&[(2, 1), (0, 16)]));
    assert_eq!(v.quotient_limit, big(1 << 20));
    assert!(v.deductions.is_empty());
}

#[test]
fn propagation_bounds_bits_and_takes_out_their_constraints() {
    let mut v = num2bits();
    v.deduce_round();
    assert_eq!(entry(&v.deductions, 0), Some((big(1), big(1))));
    assert_eq!(entry(&v.deductions, 1), Some((big(0), big(1))));
    assert_eq!(entry(&v.deductions, 2), Some((big(0), big(1))));
    assert_eq!(entry(&v.deductions, 3), Some((big(0), big(3))));
    assert_eq!(v.constraints.len(), 1);
    assert_eq!(v.constraints[0].c().clone(), lc(&[(1, 1), (2, 2), (3, 16)]));
}

#[test]
fn every_satisfying_assignment_lies_within_the_bounds() {
    let p = 17i64;
    let mut v = num2bits();
    v.deduce_round();
    let mut satisfying = 0;
    for b0 in 0..p {
        for b1 in 0..p {
            for input in 0..p {
                let holds = (b0 * (b0 - 1)) % p == 0
                    && (b1 * (b1 - 1)) % p == 0
                    && (b0 + 2 * b1 - input).rem_euclid(p) == 0
                    && input <= 3;
                if holds {
                    satisfying += 1;
                    for (s, value) in [(1usize, b0), (2, b1), (3, input)] {
                        let (lo, hi) = entry(&v.deductions, s).unwrap();
                        assert!(lo <= big(value) && big(value) <= hi);
                    }
                }
            }
        }
    }
    assert_eq!(satisfying, 4);
}

#[test]
fn propagation_works_over_a_large_field() {
    let text = "21888242871839275222246405745257275088548364400416034343698204186575808495617";
    let p = BigInt::parse_bytes(text.as_bytes(), 10).unwrap();
    let minus_one: BigInt = &p - BigInt::from(1);
    let bit = |s: usize| {
        Constraint::new(vec![(s, big(1))], vec![(s, big(1)), (0, minus_one.clone())], vec![])
    };
    // out = 1, bits 2 and 3: out = b2 + 2 * b3
    let sum = Constraint::new(
        vec![],
        vec![],
        vec![(2, big(1)), (3, big(2)), (1, minus_one.clone())],
    );
    let mut v = TemplateVerification::new(
        &"Bits2Num".to_string(),
        vec![1, 2, 3],
        1,
        1,
        2,
        vec![bit(2), bit(3), sum],
        vec![],
        vec![],
        vec![],
        vec![],
        vec![],
        vec![],
        vec![],
        vec![],
        vec![],
        vec![],
        vec![],
        &p,
        10_000,
        false,
        false,
        true,
        false,
        false,
        false,
    );
    let updated = v.deduce_round();
    assert_eq!(updated, vec![1]);
    assert_eq!(v.constraints.len(), 1);
    assert_eq!(entry(&v.deductions, 1), Some((big(0), big(3))));
    assert_eq!(entry(&v.deductions, 2), Some((big(0), big(1))));
    assert_eq!(entry(&v.deductions, 3), Some((big(0), big(1))));
}

#[test]
fn strict_reading_takes_an_entry_below_zero_for_the_whole_field() {
    let p = big(17);
    // 0 = s1 - s2, with s2 known to be 0 or 16
    let c = constraint(&[], &[], &[(1, 1), (2, 16)]);
    let mut plain = with_entries(&[(0, 1, 1), (2, -1, 0)]);
    let updated = deduction_rule_apply_bounds_constraint(&mut plain, &c, &p, false);
    assert!(updated.is_empty());
    assert_eq!(entry(&plain, 1), None);
    let mut strict = with_entries(&[(0, 1, 1), (2, -1, 0)]);
    let updated = deduction_rule_apply_bounds_constraint(&mut strict, &c, &p, true);
    assert_eq!(updated, vec![1]);
    assert_eq!(entry(&strict, 1), Some((big(0), big(16))));
    assert_eq!(entry(&strict, 2), Some((big(-1), big(0))));
}

#[test]
fn back_substitution_keeps_an_entry_through_zero() {
    let p = big(17);
    // 0 = s1 + 1 makes s1 the element 16, which the entry [-1, 0] holds
    let c = constraint(&[], &[], &[(1, 1), (0, 1)]);
    let mut b = with_entries(&[(0, 1, 1), (1, -1, 0)]);
    let updated = deduction_rule_apply_bounds_constraint(&mut b, &c, &p, false);
    assert!(updated.is_empty());
    assert_eq!(entry(&b, 1), Some((big(-1), big(0))));
}

#[test]
fn strict_back_substitution_keeps_an_entry_through_zero() {
    let p = big(17);
    // 0 = s1 + 1 makes s1 the element 16; read strictly, s1 ranges over the
    // whole field, and the interval [16, 16] leaves the entry as it is
    let c = constraint(&[], &[], &[(1, 1), (0, 1)]);
    let mut b = with_entries(&[(0, 1, 1), (1, -1, 0)]);
    let updated = deduction_rule_apply_bounds_constraint(&mut b, &c, &p, true);
    assert!(updated.is_empty());
    assert_eq!(entry(&b, 1), Some((big(-1), big(0))));
    // without an entry the signal gets the interval
    let mut b = with_entries(&[(0, 1, 1)]);
    let updated = deduction_rule_apply_bounds_constraint(&mut b, &c, &p, true);
    assert_eq!(updated, vec![1]);
    assert_eq!(entry(&b, 1), Some((big(16), big(16))));
}

#[test]
fn captured_constraints_are_implied_by_the_bounds() {
    // s1 * (s1 - 1) = 0 is taken out and s1 bounded by [0, 1]; both values
    // of the bound satisfy the constraint that was taken out
    let p = big(17);
    let captured = constraint(&[(1, 1)], &[(1, 1), (0, 16)], &[]);
    let kept = constraint(&[(1, 1)], &[(2, 1)], &[(3, 1)]);
    let mut v = TemplateVerification::new(
        &"T".to_string(),
        vec![1, 2, 3],
        1,
        1,
        2,
        vec![captured, kept],
        vec![],
        vec![],
        vec![],
        vec![],
        vec![],
        vec![],
        vec![],
        vec![],
        vec![],
        vec![],
        vec![],
        &p,
        1000,
        false,
        false,
        true,
        false,
        false,
        false,
    );
    v.deduce_round();
    assert_eq!(v.constraints.len(), 1);
    assert_eq!(entry(&v.deductions, 1), Some((big(0), big(1))));
    for s1 in 0..=1i64 {
        assert_eq!((s1 * (s1 - 1)).rem_euclid(17), 0);
    }
    for s1 in 2..17i64 {
        assert_ne!((s1 * (s1 - 1)).rem_euclid(17), 0);
    }
}
