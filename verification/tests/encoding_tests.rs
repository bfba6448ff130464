use civer::bounds::{ExecutedInequation, Signal2Bounds};
use civer::constraint::Constraint;
use civer::encoding::{
    apply_deduction_rule_homologues, conjoin_readings, constraint_is_covered,
    get_z3_condition_bounds, insert_constraint_in_smt, insert_implication_in_smt,
    insert_signal_bounds, linear_term, quotient_range,
};
use civer::expression::{Expression, ExpressionInfixOpcode, ExpressionPrefixOpcode, Meta};
use civer::smt::{Formula, Term, Var};
use civer::solver::{solve, SolverOutcome};
use civer::summary::ExecutedImplication;
use civer::translation::{get_z3_expression_bool, get_z3_expression_int};
use num_bigint_dig::BigInt;
use std::collections::HashMap;

fn big(v: i64) -> BigInt {
    BigInt::from(v)
}

fn lc(terms: &[(usize, i64)]) -> Vec<(usize, BigInt)> {
    terms.iter().map(|(s, c)| (*s, big(*c))).collect()
}

fn num(v: i64) -> Expression {
    Expression::Number(Meta::new(0, 0), big(v))
}

fn var(signal: usize) -> Expression {
    Expression::Variable { meta: Meta::new(0, 0), signal }
}

fn infix(l: Expression, op: ExpressionInfixOpcode, r: Expression) -> Expression {
    Expression::InfixOp { meta: Meta::new(0, 0), lhe: Box::new(l), infix_op: op, rhe: Box::new(r) }
}

fn prefix(op: ExpressionPrefixOpcode, r: Expression) -> Expression {
    Expression::PrefixOp { meta: Meta::new(0, 0), prefix_op: op, rhe: Box::new(r) }
}

fn env(signals: &[usize]) -> HashMap<usize, Var> {
    signals.iter().map(|s| (*s, Var::Signal(*s))).collect()
}

fn shadow(signals: &[usize]) -> HashMap<usize, Var> {
    signals.iter().map(|s| (*s, Var::Shadow(*s))).collect()
}

fn with_entries(entries: &[(usize, i64, i64)]) -> Signal2Bounds {
    let mut b: Signal2Bounds = HashMap::new();
    for (s, lo, hi) in entries {
        b.insert(*s, ExecutedInequation { signal: *s, min: big(*lo), max: big(*hi) });
    }
    b
}

fn int_text(e: &Expression, signals: &[usize], p: i64) -> Option<String> {
    get_z3_expression_int(e, &env(signals), &big(p)).ok().map(|t| format!("{:?}", t))
}

fn bool_text(e: &Expression, signals: &[usize], p: i64) -> Option<String> {
    get_z3_expression_bool(e, &env(signals), &big(p)).ok().map(|f| format!("{:?}", f))
}

fn text<T: std::fmt::Debug>(t: T) -> Option<String> {
    Some(format!("{:?}", t))
}

fn c(v: i64) -> Term {
    Term::Const(big(v))
}

fn x(s: usize) -> Term {
    Term::Var(Var::Signal(s))
}

fn value(t: &Term, m: &dyn Fn(Var) -> i64) -> i64 {
    match t {
        Term::Const(v) => {
            let text = v.to_string();
            text.parse::<i64>().unwrap()
        }
        Term::Var(v) => m(*v),
        Term::Add(l, r) => value(l, m) + value(r, m),
        Term::Sub(l, r) => value(l, m) - value(r, m),
        Term::Mul(l, r) => value(l, m) * value(r, m),
        Term::Div(l, r) => value(l, m).div_euclid(value(r, m)),
        Term::Mod(l, r) => value(l, m).rem_euclid(value(r, m)),
        Term::Neg(r) => -value(r, m),
    }
}

fn holds(f: &Formula, m: &dyn Fn(Var) -> i64) -> bool {
    match f {
        Formula::Const(b) => *b,
        Formula::Le(l, r) => value(l, m) <= value(r, m),
        Formula::Lt(l, r) => value(l, m) < value(r, m),
        Formula::Ge(l, r) => value(l, m) >= value(r, m),
        Formula::Gt(l, r) => value(l, m) > value(r, m),
        Formula::Eq(l, r) => value(l, m) == value(r, m),
        Formula::Iff(l, r) => holds(l, m) == holds(r, m),
        Formula::And(l, r) => holds(l, m) && holds(r, m),
        Formula::Or(l, r) => holds(l, m) || holds(r, m),
        Formula::Implies(l, r) => !holds(l, m) || holds(r, m),
        Formula::Not(r) => !holds(r, m),
    }
}

#[test]
fn literal_is_read_as_its_signed_representative() {
    assert_eq!(int_text(&num(3), &[], 17), text(c(3)));
    assert_eq!(int_text(&num(8), &[], 17), text(c(8)));
    assert_eq!(int_text(&num(9), &[], 17), text(c(-8)));
    assert_eq!(int_text(&num(16), &[], 17), text(c(-1)));
}

#[test]
fn arithmetic_is_read_operator_by_operator() {
    let sum = infix(var(1), ExpressionInfixOpcode::Add, num(2));
    assert_eq!(int_text(&sum, &[1], 17), text(Term::Add(Box::new(x(1)), Box::new(c(2)))));
    let e = infix(infix(var(1), ExpressionInfixOpcode::Mul, var(2)), ExpressionInfixOpcode::Sub, infix(var(1), ExpressionInfixOpcode::Mod, num(4)));
    assert_eq!(
        int_text(&e, &[1, 2], 17),
        text(Term::Sub(
            Box::new(Term::Mul(Box::new(x(1)), Box::new(x(2)))),
            Box::new(Term::Mod(Box::new(x(1)), Box::new(c(4)))),
        ))
    );
    let e = infix(var(1), ExpressionInfixOpcode::IntDiv, num(3));
    assert_eq!(int_text(&e, &[1], 17), text(Term::Div(Box::new(x(1)), Box::new(c(3)))));
    let e = prefix(ExpressionPrefixOpcode::Sub, var(1));
    assert_eq!(int_text(&e, &[1], 17), text(Term::Neg(Box::new(x(1)))));
}

#[test]
fn shift_by_a_literal_is_a_power_of_two() {
    let e = infix(var(1), ExpressionInfixOpcode::ShiftL, num(3));
    assert_eq!(int_text(&e, &[1], 17), text(Term::Mul(Box::new(x(1)), Box::new(c(8)))));
    let e = infix(var(1), ExpressionInfixOpcode::ShiftR, num(2));
    assert_eq!(int_text(&e, &[1], 17), text(Term::Div(Box::new(x(1)), Box::new(c(4)))));
    let e = infix(var(1), ExpressionInfixOpcode::ShiftL, num(0));
    assert_eq!(int_text(&e, &[1], 17), text(Term::Mul(Box::new(x(1)), Box::new(c(1)))));
    // the power is not reduced
    let e = infix(var(1), ExpressionInfixOpcode::ShiftL, num(10));
    assert_eq!(int_text(&e, &[1], 17), text(Term::Mul(Box::new(x(1)), Box::new(c(1024)))));
}

#[test]
fn shift_by_many_places_is_still_a_power_of_two() {
    let many = infix(var(1), ExpressionInfixOpcode::ShiftL, num(65536));
    let t = get_z3_expression_int(&many, &env(&[1]), &big(17)).unwrap();
    match t {
        Term::Mul(_, factor) => match *factor {
            Term::Const(v) => {
                assert_eq!(v, num_traits::pow(big(2), 65536));
            }
            other => panic!("expected a constant, got {:?}", other),
        },
        other => panic!("expected a product, got {:?}", other),
    }
    let many = infix(var(1), ExpressionInfixOpcode::ShiftR, num(70000));
    let t = get_z3_expression_int(&many, &env(&[1]), &big(17)).unwrap();
    match t {
        Term::Div(_, factor) => match *factor {
            Term::Const(v) => {
                assert_eq!(v, num_traits::pow(big(2), 70000));
            }
            other => panic!("expected a constant, got {:?}", other),
        },
        other => panic!("expected a quotient, got {:?}", other),
    }
}

#[test]
fn shift_by_a_literal_beyond_a_machine_word_has_no_reading() {
    let huge = Expression::Number(Meta::new(0, 0), big(1 << 40) * big(1 << 40));
    let beyond = infix(var(1), ExpressionInfixOpcode::ShiftL, huge);
    assert_eq!(int_text(&beyond, &[1], 17), None);
}

#[test]
fn expressions_without_an_integer_reading() {
    assert_eq!(int_text(&infix(var(1), ExpressionInfixOpcode::ShiftL, var(2)), &[1, 2], 17), None);
    assert_eq!(int_text(&infix(var(1), ExpressionInfixOpcode::ShiftR, infix(num(1), ExpressionInfixOpcode::Add, num(1))), &[1], 17), None);
    assert_eq!(int_text(&infix(var(1), ExpressionInfixOpcode::ShiftL, num(-1)), &[1], 17), None);
    assert_eq!(int_text(&var(3), &[1, 2], 17), None);
    assert_eq!(int_text(&infix(var(1), ExpressionInfixOpcode::Add, var(3)), &[1, 2], 17), None);
    assert_eq!(int_text(&infix(var(1), ExpressionInfixOpcode::LesserEq, var(2)), &[1, 2], 17), None);
    assert_eq!(int_text(&infix(var(1), ExpressionInfixOpcode::Pow, num(2)), &[1], 17), None);
    assert_eq!(int_text(&infix(var(1), ExpressionInfixOpcode::Div, num(2)), &[1], 17), None);
    assert_eq!(int_text(&infix(var(1), ExpressionInfixOpcode::BitXor, num(2)), &[1], 17), None);
    assert_eq!(int_text(&prefix(ExpressionPrefixOpcode::BoolNot, var(1)), &[1], 17), None);
    assert_eq!(int_text(&prefix(ExpressionPrefixOpcode::Complement, var(1)), &[1], 17), None);
}

#[test]
fn literals_and_signals_in_boolean_position() {
    assert_eq!(bool_text(&num(0), &[], 17), text(Formula::Const(false)));
    assert_eq!(bool_text(&num(5), &[], 17), text(Formula::Const(true)));
    assert_eq!(
        bool_text(&var(2), &[2], 17),
        text(Formula::Not(Box::new(Formula::Eq(x(2), c(0)))))
    );
    assert_eq!(bool_text(&var(2), &[1], 17), None);
}

#[test]
fn comparisons_and_connectives() {
    assert_eq!(bool_text(&infix(var(1), ExpressionInfixOpcode::LesserEq, num(3)), &[1], 17), text(Formula::Le(x(1), c(3))));
    assert_eq!(bool_text(&infix(var(1), ExpressionInfixOpcode::Lesser, num(3)), &[1], 17), text(Formula::Lt(x(1), c(3))));
    assert_eq!(bool_text(&infix(var(1), ExpressionInfixOpcode::GreaterEq, num(3)), &[1], 17), text(Formula::Ge(x(1), c(3))));
    assert_eq!(bool_text(&infix(var(1), ExpressionInfixOpcode::Greater, num(3)), &[1], 17), text(Formula::Gt(x(1), c(3))));
    assert_eq!(bool_text(&infix(var(1), ExpressionInfixOpcode::Eq, num(3)), &[1], 17), text(Formula::Eq(x(1), c(3))));
    assert_eq!(
        bool_text(&infix(var(1), ExpressionInfixOpcode::NotEq, num(3)), &[1], 17),
        text(Formula::Not(Box::new(Formula::Eq(x(1), c(3)))))
    );
    let small = || infix(var(1), ExpressionInfixOpcode::Lesser, num(3));
    let zero = || infix(var(2), ExpressionInfixOpcode::Eq, num(0));
    let l = || Box::new(Formula::Lt(x(1), c(3)));
    let r = || Box::new(Formula::Eq(x(2), c(0)));
    assert_eq!(bool_text(&infix(small(), ExpressionInfixOpcode::BoolAnd, zero()), &[1, 2], 17), text(Formula::And(l(), r())));
    assert_eq!(bool_text(&infix(small(), ExpressionInfixOpcode::BitAnd, zero()), &[1, 2], 17), text(Formula::And(l(), r())));
    assert_eq!(bool_text(&infix(small(), ExpressionInfixOpcode::BoolOr, zero()), &[1, 2], 17), text(Formula::Or(l(), r())));
    assert_eq!(bool_text(&infix(small(), ExpressionInfixOpcode::BitOr, zero()), &[1, 2], 17), text(Formula::Or(l(), r())));
    assert_eq!(
        bool_text(&infix(small(), ExpressionInfixOpcode::BoolImplication, zero()), &[1, 2], 17),
        text(Formula::Implies(l(), r()))
    );
    assert_eq!(
        bool_text(&prefix(ExpressionPrefixOpcode::BoolNot, small()), &[1], 17),
        text(Formula::Not(l()))
    );
}

#[test]
fn equality_of_predicates_is_an_equivalence() {
    let e = infix(infix(var(1), ExpressionInfixOpcode::Eq, num(1)), ExpressionInfixOpcode::Eq, infix(var(2), ExpressionInfixOpcode::Eq, num(0)));
    assert_eq!(
        bool_text(&e, &[1, 2], 17),
        text(Formula::Iff(Box::new(Formula::Eq(x(1), c(1))), Box::new(Formula::Eq(x(2), c(0)))))
    );
    let e = infix(infix(var(1), ExpressionInfixOpcode::Lesser, num(1)), ExpressionInfixOpcode::NotEq, var(2));
    assert_eq!(
        bool_text(&e, &[1, 2], 17),
        text(Formula::Not(Box::new(Formula::Iff(
            Box::new(Formula::Lt(x(1), c(1))),
            Box::new(Formula::Not(Box::new(Formula::Eq(x(2), c(0))))),
        ))))
    );
}

#[test]
fn expressions_without_a_boolean_reading() {
    assert_eq!(bool_text(&infix(var(1), ExpressionInfixOpcode::Add, num(2)), &[1], 17), None);
    assert_eq!(bool_text(&infix(var(1), ExpressionInfixOpcode::BitXor, num(2)), &[1], 17), None);
    assert_eq!(bool_text(&infix(var(1), ExpressionInfixOpcode::LesserEq, infix(var(1), ExpressionInfixOpcode::Lesser, num(2))), &[1], 17), None);
    assert_eq!(bool_text(&infix(var(1), ExpressionInfixOpcode::Eq, infix(var(1), ExpressionInfixOpcode::ShiftL, var(1))), &[1], 17), None);
    assert_eq!(bool_text(&prefix(ExpressionPrefixOpcode::Sub, var(1)), &[1], 17), None);
    assert_eq!(bool_text(&prefix(ExpressionPrefixOpcode::BoolNot, infix(var(1), ExpressionInfixOpcode::Add, num(1))), &[1], 17), None);
    assert_eq!(bool_text(&infix(var(1), ExpressionInfixOpcode::BoolAnd, var(9)), &[1], 17), None);
}

#[test]
fn interval_through_zero_stands_for_two_ranges() {
    let f = get_z3_condition_bounds(Var::Signal(1), &big(-3), &big(2), &big(17));
    for v in -40..60 {
        let expected = (14..=16).contains(&v) || (0..=2).contains(&v);
        assert_eq!(holds(&f, &|_| v), expected, "value {}", v);
    }
}

#[test]
fn interval_above_zero_stands_for_itself() {
    let f = get_z3_condition_bounds(Var::Signal(1), &big(2), &big(5), &big(17));
    for v in -40..60 {
        assert_eq!(holds(&f, &|_| v), (2..=5).contains(&v), "value {}", v);
    }
    let f = get_z3_condition_bounds(Var::Signal(1), &big(0), &big(0), &big(17));
    for v in -40..60 {
        assert_eq!(holds(&f, &|_| v), v == 0, "value {}", v);
    }
}

#[test]
fn signal_without_an_entry_is_kept_within_the_field() {
    let mut assertions = Vec::new();
    insert_signal_bounds(&mut assertions, Var::Signal(4), 4, &with_entries(&[(5, 0, 1)]), &big(17));
    assert_eq!(assertions.len(), 2);
    for v in -40..60 {
        let all = assertions.iter().all(|f| holds(f, &|_| v));
        assert_eq!(all, (0..17).contains(&v), "value {}", v);
    }
    let mut assertions = Vec::new();
    insert_signal_bounds(&mut assertions, Var::Shadow(5), 5, &with_entries(&[(5, 0, 1)]), &big(17));
    assert_eq!(assertions.len(), 1);
    for v in -40..60 {
        let m = |var: Var| if var == Var::Shadow(5) { v } else { 99 };
        assert_eq!(holds(&assertions[0], &m), v == 0 || v == 1, "value {}", v);
    }
}

#[test]
fn quotients_range_from_floor_to_ceiling() {
    let p = big(17);
    assert_eq!(quotient_range(&big(-5), &big(20), &p), (big(-1), big(2)));
    assert_eq!(quotient_range(&big(0), &big(16), &p), (big(0), big(1)));
    assert_eq!(quotient_range(&big(0), &big(0), &p), (big(0), big(0)));
    assert_eq!(quotient_range(&big(-17), &big(17), &p), (big(-1), big(1)));
    assert_eq!(quotient_range(&big(-18), &big(-1), &p), (big(-2), big(0)));
    assert_eq!(quotient_range(&big(18), &big(34), &p), (big(1), big(2)));
}

#[test]
fn term_of_a_linear_combination() {
    let t = linear_term(&lc(&[(1, 1), (0, 16), (2, 9)]), &env(&[1, 2]), &big(17));
    let expected = Term::Add(
        Box::new(Term::Add(
            Box::new(Term::Add(
                Box::new(c(0)),
                Box::new(Term::Mul(Box::new(x(1)), Box::new(c(1)))),
            )),
            Box::new(c(-1)),
        )),
        Box::new(Term::Mul(Box::new(x(2)), Box::new(c(-8)))),
    );
    assert_eq!(format!("{:?}", t), format!("{:?}", expected));
    assert_eq!(value(&t, &|v| if v == Var::Signal(1) { 5 } else { 2 }), 5 - 1 - 16);
}

#[test]
fn constraint_with_an_undeclared_signal_is_not_covered() {
    let constraint = Constraint::new(lc(&[(1, 1)]), lc(&[(2, 1), (0, 3)]), lc(&[(3, 1)]));
    assert!(constraint_is_covered(&constraint, &env(&[1, 2, 3])));
    assert!(!constraint_is_covered(&constraint, &env(&[1, 2])));
    assert!(!constraint_is_covered(&constraint, &env(&[2, 3])));
    let constant = Constraint::new(lc(&[(0, 1)]), lc(&[(0, 2)]), lc(&[(0, 2)]));
    assert!(constraint_is_covered(&constant, &env(&[])));
}

fn encode(
    constraint: &Constraint,
    signals: &[usize],
    bounds: &Signal2Bounds,
    p: i64,
    limit: i64,
) -> Option<Vec<Formula>> {
    let mut assertions = Vec::new();
    for s in signals {
        insert_signal_bounds(&mut assertions, Var::Signal(*s), *s, bounds, &big(p));
    }
    let fits = insert_constraint_in_smt(
        constraint,
        &mut assertions,
        &env(signals),
        &big(p),
        bounds,
        0,
        &big(limit),
    );
    if fits {
        Some(assertions)
    } else {
        None
    }
}

fn violated(constraint: &Constraint, signals: &[usize], p: i64) -> Formula {
    let e = env(signals);
    let a = linear_term(constraint.a(), &e, &big(p));
    let b = linear_term(constraint.b(), &e, &big(p));
    let c_term = linear_term(constraint.c(), &e, &big(p));
    let difference = Term::Sub(Box::new(Term::Mul(Box::new(a), Box::new(b))), Box::new(c_term));
    Formula::Not(Box::new(Formula::Eq(
        Term::Mod(Box::new(difference), Box::new(c(p))),
        c(0),
    )))
}

#[test]
fn every_model_of_an_encoding_satisfies_the_constraint() {
    // s1 * s2 = 1 - s3
    let constraint = Constraint::new(lc(&[(1, 1)]), lc(&[(2, 1)]), lc(&[(0, 1), (3, 16)]));
    let bounds = with_entries(&[(0, 1, 1)]);
    let mut assertions = encode(&constraint, &[1, 2, 3], &bounds, 17, 1 << 20).unwrap();
    let watch = vec![Var::Signal(1), Var::Signal(2), Var::Signal(3)];
    assert!(matches!(solve(&assertions, 20_000, &watch), SolverOutcome::Sat(_)));
    assertions.push(violated(&constraint, &[1, 2, 3], 17));
    assert!(matches!(solve(&assertions, 20_000, &watch), SolverOutcome::Unsat));
}

#[test]
fn model_of_an_encoding_is_a_solution() {
    // s1 * s1 = s2 with s2 = 2 has the solutions 6 and 11 modulo 17
    let constraint = Constraint::new(lc(&[(1, 1)]), lc(&[(1, 1)]), lc(&[(2, 1)]));
    let bounds = with_entries(&[(0, 1, 1), (2, 2, 2)]);
    let assertions = encode(&constraint, &[1, 2], &bounds, 17, 1 << 20).unwrap();
    match solve(&assertions, 20_000, &vec![Var::Signal(1), Var::Signal(2)]) {
        SolverOutcome::Sat(values) => {
            let root = values[0].clone().unwrap();
            assert!(root == "6" || root == "11", "root {}", root);
            assert_eq!(values[1].as_deref(), Some("2"));
        }
        other => panic!("expected a model, got {:?}", other),
    }
}

#[test]
fn product_known_to_vanish_needs_no_equation() {
    // s1 * s2 = 0 is encoded by one disjunction, the quotients being zero
    let constraint = Constraint::new(lc(&[(1, 1)]), lc(&[(2, 1)]), lc(&[]));
    let bounds = with_entries(&[(0, 1, 1)]);
    let mut assertions = Vec::new();
    assert!(insert_constraint_in_smt(
        &constraint,
        &mut assertions,
        &env(&[1, 2]),
        &big(17),
        &bounds,
        3,
        &big(1 << 20),
    ));
    // the quotients of A and B range over 0..1 and are variables
    assert_eq!(assertions.len(), 5);
    let m = |values: (i64, i64, i64, i64)| {
        move |v: Var| match v {
            Var::Signal(1) => values.0,
            Var::Signal(2) => values.1,
            Var::QuotientA(3) => values.2,
            Var::QuotientB(3) => values.3,
            other => panic!("unexpected variable {:?}", other),
        }
    };
    assert!(assertions.iter().all(|f| holds(f, &m((0, 5, 0, 0)))));
    assert!(assertions.iter().all(|f| holds(f, &m((5, 0, 1, 0)))));
    assert!(!assertions.iter().all(|f| holds(f, &m((5, 3, 0, 0)))));
    assert!(!assertions.iter().all(|f| holds(f, &m((0, 5, 2, 0)))));
}

#[test]
fn quotient_beyond_the_limit_makes_the_encoding_too_big() {
    let constraint = Constraint::new(lc(&[(1, 1)]), lc(&[(2, 1)]), lc(&[(3, 1)]));
    let bounds = with_entries(&[(0, 1, 1)]);
    // C - A * B ranges over -256..16, its quotient over -16..1
    assert!(encode(&constraint, &[1, 2, 3], &bounds, 17, 17).is_some());
    assert!(encode(&constraint, &[1, 2, 3], &bounds, 17, 16).is_none());
    let mut assertions = vec![Formula::Const(true)];
    assert!(!insert_constraint_in_smt(
        &constraint,
        &mut assertions,
        &env(&[1, 2, 3]),
        &big(17),
        &bounds,
        0,
        &big(0),
    ));
    assert_eq!(assertions.len(), 1);
}

#[test]
fn constraint_relates_two_executions() {
    // s1 * s2 = s3: with s1 and s2 equal in both executions, s3 is equal
    let constraint = Constraint::new(lc(&[(1, 1)]), lc(&[(2, 1)]), lc(&[(3, 1)]));
    let mut assertions = Vec::new();
    apply_deduction_rule_homologues(
        &vec![constraint],
        &mut assertions,
        &env(&[1, 2, 3]),
        &shadow(&[1, 2, 3]),
        &big(17),
    );
    assert_eq!(assertions.len(), 3);
    let m = |second: (i64, i64, i64)| {
        move |v: Var| match v {
            Var::Signal(1) => 3,
            Var::Signal(2) => 4,
            Var::Signal(3) => 12,
            Var::Shadow(1) => second.0,
            Var::Shadow(2) => second.1,
            Var::Shadow(3) => second.2,
            other => panic!("unexpected variable {:?}", other),
        }
    };
    assert!(assertions.iter().all(|f| holds(f, &m((3, 4, 12)))));
    assert!(assertions.iter().all(|f| holds(f, &m((20, 4, 29)))));
    assert!(!assertions.iter().all(|f| holds(f, &m((3, 4, 13)))));
    assert!(!assertions.iter().all(|f| holds(f, &m((3, 5, 12)))));
    assert!(assertions.iter().all(|f| holds(f, &m((6, 2, 12)))));
}

#[test]
fn uncovered_constraint_relates_nothing() {
    let constraint = Constraint::new(lc(&[(1, 1)]), lc(&[(2, 1)]), lc(&[(3, 1)]));
    let mut assertions = Vec::new();
    apply_deduction_rule_homologues(
        &vec![constraint],
        &mut assertions,
        &env(&[1, 2, 3]),
        &shadow(&[1, 2]),
        &big(17),
    );
    assert!(assertions.is_empty());
}

#[test]
fn annotations_without_a_reading_are_left_out_and_counted() {
    let annotations = vec![
        infix(var(1), ExpressionInfixOpcode::LesserEq, num(3)),
        infix(var(1), ExpressionInfixOpcode::ShiftL, var(1)),
        infix(var(9), ExpressionInfixOpcode::Eq, num(0)),
        infix(var(2), ExpressionInfixOpcode::Eq, num(0)),
    ];
    let (f, left_out) =
        conjoin_readings(Formula::Const(true), &annotations, &env(&[1, 2]), None, &big(17));
    assert_eq!(left_out, 2);
    let expected = Formula::And(
        Box::new(Formula::And(Box::new(Formula::Const(true)), Box::new(Formula::Le(x(1), c(3))))),
        Box::new(Formula::Eq(x(2), c(0))),
    );
    assert_eq!(format!("{:?}", f), format!("{:?}", expected));
    let both = shadow(&[1, 2]);
    let (f, left_out) = conjoin_readings(
        Formula::Const(true),
        &annotations[..1].iter().map(|e| e.copy()).collect(),
        &env(&[1, 2]),
        Some(&both),
        &big(17),
    );
    assert_eq!(left_out, 0);
    let expected = Formula::And(
        Box::new(Formula::And(Box::new(Formula::Const(true)), Box::new(Formula::Le(x(1), c(3))))),
        Box::new(Formula::Le(Term::Var(Var::Shadow(1)), c(3))),
    );
    assert_eq!(format!("{:?}", f), format!("{:?}", expected));
}

#[test]
fn summary_is_asserted_whole_or_not_at_all() {
    let summary = ExecutedImplication {
        left: vec![infix(var(1), ExpressionInfixOpcode::LesserEq, num(3))],
        right: vec![infix(var(2), ExpressionInfixOpcode::Eq, num(0)), infix(var(2), ExpressionInfixOpcode::LesserEq, num(1))],
    };
    let mut assertions = Vec::new();
    assert!(insert_implication_in_smt(&summary, &mut assertions, &env(&[1, 2]), &big(17)));
    assert_eq!(assertions.len(), 1);
    let m = |a: i64, b: i64| move |v: Var| if v == Var::Signal(1) { a } else { b };
    assert!(holds(&assertions[0], &m(2, 0)));
    assert!(!holds(&assertions[0], &m(2, 1)));
    assert!(holds(&assertions[0], &m(4, 1)));
    let unreadable = ExecutedImplication {
        left: vec![infix(var(1), ExpressionInfixOpcode::LesserEq, num(3)), infix(var(1), ExpressionInfixOpcode::BitXor, num(3))],
        right: vec![infix(var(2), ExpressionInfixOpcode::Eq, num(0))],
    };
    assert!(!insert_implication_in_smt(&unreadable, &mut assertions, &env(&[1, 2]), &big(17)));
    assert_eq!(assertions.len(), 1);
}

#[test]
fn every_solution_is_a_model_of_the_encoding() {
    // s1 * s2 = s3 with a signal that is 0 or 16; each solution over the
    // field stays satisfiable when it is pinned
    let constraint = Constraint::new(lc(&[(1, 1)]), lc(&[(2, 1)]), lc(&[(3, 1)]));
    let bounds = with_entries(&[(0, 1, 1), (1, -1, 0)]);
    let assertions = encode(&constraint, &[1, 2, 3], &bounds, 17, 1 << 20).unwrap();
    let watch = vec![Var::Signal(1), Var::Signal(2), Var::Signal(3)];
    let pinned = |s1: i64, s2: i64, s3: i64| {
        let mut all = encode(&constraint, &[1, 2, 3], &bounds, 17, 1 << 20).unwrap();
        all.push(Formula::Eq(Term::Var(Var::Signal(1)), c(s1)));
        all.push(Formula::Eq(Term::Var(Var::Signal(2)), c(s2)));
        all.push(Formula::Eq(Term::Var(Var::Signal(3)), c(s3)));
        all
    };
    assert!(matches!(solve(&assertions, 20_000, &watch), SolverOutcome::Sat(_)));
    // 16 * 5 = 80 = 12 modulo 17
    assert!(matches!(solve(&pinned(16, 5, 12), 20_000, &watch), SolverOutcome::Sat(_)));
    assert!(matches!(solve(&pinned(0, 9, 0), 20_000, &watch), SolverOutcome::Sat(_)));
    assert!(matches!(solve(&pinned(16, 16, 1), 20_000, &watch), SolverOutcome::Sat(_)));
    // no solution: the product is wrong, or the signal is out of its bound
    assert!(matches!(solve(&pinned(16, 5, 11), 20_000, &watch), SolverOutcome::Unsat));
    assert!(matches!(solve(&pinned(3, 5, 15), 20_000, &watch), SolverOutcome::Unsat));
}

#[test]
fn two_solutions_of_a_constraint_make_its_homologue_formulas_hold() {
    // every pair of solutions of s1 * s2 = s3 over the field of 5 elements
    let constraint = Constraint::new(lc(&[(1, 1)]), lc(&[(2, 1)]), lc(&[(3, 1)]));
    let mut assertions = Vec::new();
    apply_deduction_rule_homologues(
        &vec![constraint],
        &mut assertions,
        &env(&[1, 2, 3]),
        &shadow(&[1, 2, 3]),
        &big(5),
    );
    assert_eq!(assertions.len(), 3);
    let mut pairs = 0;
    for a in 0..5i64 {
        for b in 0..5i64 {
            for a2 in 0..5i64 {
                for b2 in 0..5i64 {
                    let m = move |v: Var| match v {
                        Var::Signal(1) => a,
                        Var::Signal(2) => b,
                        Var::Signal(3) => (a * b) % 5,
                        Var::Shadow(1) => a2,
                        Var::Shadow(2) => b2,
                        Var::Shadow(3) => (a2 * b2) % 5,
                        other => panic!("unexpected variable {:?}", other),
                    };
                    assert!(assertions.iter().all(|f| holds(f, &m)), "{} {} {} {}", a, b, a2, b2);
                    pairs += 1;
                }
            }
        }
    }
    assert_eq!(pairs, 625);
}
