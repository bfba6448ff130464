use civer::constraint::Constraint;
use civer::expression::{Expression, ExpressionInfixOpcode, Meta};
use civer::report::{check_tags, check_tags_node, find_studied, StudiedNode};
use civer::smt::Var;
use civer::tree::TreeConstraints;
use civer::verdict::PossibleResult;
use civer::verification::{Obligation, TemplateVerification};
use num_bigint_dig::BigInt;

const P: i64 = 17;
const TIMEOUT: u64 = 60_000;

fn big(v: i64) -> BigInt {
    BigInt::from(v)
}

fn lc(terms: &[(usize, i64)]) -> Vec<(usize, BigInt)> {
    terms.iter().map(|(s, c)| (*s, big(*c))).collect()
}

fn constraint(a: &[(usize, i64)], b: &[(usize, i64)], c: &[(usize, i64)]) -> Constraint {
    Constraint::new(lc(a), lc(b), lc(c))
}

fn num(v: i64) -> Expression {
    Expression::Number(Meta::new(0, 0), big(v))
}

fn var(signal: usize) -> Expression {
    Expression::Variable { meta: Meta::new(0, 0), signal }
}

fn infix(l: Expression, op: ExpressionInfixOpcode, r: Expression) -> Expression {
    Expression::InfixOp { meta: Meta::new(0, 0), lhe: Box::new(l), infix_op: op, rhe: Box::new(r) }
}

/// `s * (s - 1) = 0` as an annotation.
fn binary(s: usize) -> Expression {
    infix(infix(var(s), ExpressionInfixOpcode::Mul, infix(var(s), ExpressionInfixOpcode::Sub, num(1))), ExpressionInfixOpcode::Eq, num(0))
}

fn node(
    name: &str,
    node_id: usize,
    initial_signal: usize,
    number_outputs: usize,
    number_inputs: usize,
    number_signals: usize,
    constraints: Vec<Constraint>,
) -> TreeConstraints {
    TreeConstraints {
        constraints,
        node_id,
        template_name: name.to_string(),
        pretty_template_name: format!("{}()", name),
        preconditions: vec![],
        preconditions_intermediates: vec![],
        postconditions_intermediates: vec![],
        postconditions_outputs: vec![],
        facts: vec![],
        tags_preconditions: vec![],
        tags_postconditions_intermediates: vec![],
        tags_postconditions_outputs: vec![],
        number_signals,
        number_inputs,
        number_outputs,
        initial_signal,
        subcomponents: vec![],
    }
}

/// IsZero over the field of `p` elements, with the output at `first`, the
/// input after it and the inverse last: `in * inv = 1 - out` and
/// `in * out = 0`.
fn is_zero_over(p: i64, first: usize) -> TreeConstraints {
    let (out, input, inv) = (first, first + 1, first + 2);
    node(
        "IsZero",
        0,
        first,
        1,
        1,
        3,
        vec![
            constraint(&[(input, 1)], &[(inv, 1)], &[(0, 1), (out, p - 1)]),
            constraint(&[(input, 1)], &[(out, 1)], &[]),
        ],
    )
}

fn is_zero(first: usize) -> TreeConstraints {
    is_zero_over(P, first)
}

fn verify(
    tree: &TreeConstraints,
    tags: bool,
    postconditions: bool,
    safety: bool,
) -> civer::tree::NodeReport {
    tree.check_tags(&big(P), TIMEOUT, tags, postconditions, safety, false, false, false, &big(1 << 20))
}

fn value(model: &[(Var, Option<String>)], at: usize) -> i64 {
    let text = model[at].1.clone().unwrap();
    let text = text.trim_start_matches("(- ").trim_end_matches(')').to_string();
    text.parse::<i64>().unwrap()
}

#[test]
fn is_zero_is_safe_and_meets_its_postcondition() {
    let mut tree = is_zero(1);
    tree.postconditions_outputs = vec![infix(
        binary(1),
        ExpressionInfixOpcode::BoolAnd,
        infix(infix(var(1), ExpressionInfixOpcode::Eq, num(1)), ExpressionInfixOpcode::Eq, infix(var(2), ExpressionInfixOpcode::Eq, num(0))),
    )];
    let report = verify(&tree, false, true, true);
    assert_eq!(report.tags.result, PossibleResult::NOSTUDIED);
    assert_eq!(report.postconditions.result, PossibleResult::VERIFIED);
    assert_eq!(report.safety.result, PossibleResult::VERIFIED);
    assert_eq!(report.rounds, 0);
    assert_eq!(report.postconditions.left_out, 0);
    assert!(report.postconditions.model.is_empty());
}

#[test]
fn is_zero_does_not_always_answer_one() {
    let mut tree = is_zero(1);
    tree.postconditions_outputs = vec![infix(var(1), ExpressionInfixOpcode::Eq, num(1))];
    let report = verify(&tree, false, true, false);
    assert_eq!(report.postconditions.result, PossibleResult::FAILED);
    assert_eq!(report.safety.result, PossibleResult::NOSTUDIED);
    // the counterexample gives out, in and inv
    assert_eq!(report.postconditions.model.len(), 3);
    let (out, input, inv) = (
        value(&report.postconditions.model, 0),
        value(&report.postconditions.model, 1),
        value(&report.postconditions.model, 2),
    );
    assert_eq!(out, 0);
    assert!(input != 0);
    assert_eq!((input * inv).rem_euclid(P), 1);
}

#[test]
fn num2bits_is_safe_and_gives_bits() {
    // outputs b0 = 1 and b1 = 2, input in = 3
    let mut tree = node(
        "Num2Bits",
        0,
        1,
        2,
        1,
        3,
        vec![
            constraint(&[(1, 1)], &[(1, 1), (0, P - 1)], &[]),
            constraint(&[(2, 1)], &[(2, 1), (0, P - 1)], &[]),
            constraint(&[], &[], &[(1, 1), (2, 2), (3, P - 1)]),
        ],
    );
    tree.preconditions =
        vec![infix(infix(num(0), ExpressionInfixOpcode::LesserEq, var(3)), ExpressionInfixOpcode::BoolAnd, infix(var(3), ExpressionInfixOpcode::LesserEq, num(3)))];
    tree.postconditions_outputs =
        vec![infix(infix(var(1), ExpressionInfixOpcode::LesserEq, num(1)), ExpressionInfixOpcode::BoolAnd, infix(var(2), ExpressionInfixOpcode::LesserEq, num(1)))];
    let report = verify(&tree, false, true, true);
    assert_eq!(report.postconditions.result, PossibleResult::VERIFIED);
    assert_eq!(report.safety.result, PossibleResult::VERIFIED);
}

fn selector(guarded: bool) -> TreeConstraints {
    // out = 1, s = 2, a = 3, b = 4: s * (a - b) = out - b
    let mut tree = node(
        "Selector",
        0,
        1,
        1,
        3,
        4,
        vec![constraint(&[(2, 1)], &[(3, 1), (4, P - 1)], &[(1, 1), (4, P - 1)])],
    );
    let picks = infix(infix(var(1), ExpressionInfixOpcode::Eq, var(3)), ExpressionInfixOpcode::BoolOr, infix(var(1), ExpressionInfixOpcode::Eq, var(4)));
    tree.postconditions_outputs =
        vec![if guarded { infix(binary(2), ExpressionInfixOpcode::BoolImplication, picks) } else { picks }];
    tree
}

#[test]
fn selector_with_a_binary_switch_picks_an_input() {
    let report = verify(&selector(true), false, true, false);
    assert_eq!(report.postconditions.result, PossibleResult::VERIFIED);
}

#[test]
fn selector_with_any_switch_may_pick_neither_input() {
    let report = verify(&selector(false), false, true, false);
    assert_eq!(report.postconditions.result, PossibleResult::FAILED);
    let model = &report.postconditions.model;
    assert_eq!(model.len(), 4);
    let (out, s, a, b) = (value(model, 0), value(model, 1), value(model, 2), value(model, 3));
    assert!(s != 0 && s != 1, "switch {}", s);
    assert!(out != a && out != b);
    assert_eq!((s * (a - b) - (out - b)).rem_euclid(P), 0);
}

#[test]
fn square_root_is_not_safe() {
    // out = 1, in = 2: out * out = in
    let tree = node("Sqrt", 0, 1, 1, 1, 2, vec![constraint(&[(1, 1)], &[(1, 1)], &[(2, 1)])]);
    let report = verify(&tree, false, false, true);
    assert_eq!(report.safety.result, PossibleResult::FAILED);
    // the values of out and in in the first execution, then in the second
    let model = &report.safety.model;
    assert_eq!(model.len(), 4);
    let vars: Vec<Var> = model.iter().map(|e| e.0).collect();
    assert_eq!(vars, vec![Var::Signal(1), Var::Signal(2), Var::Shadow(1), Var::Signal(2)]);
    let (out, input, out2, input2) =
        (value(model, 0), value(model, 1), value(model, 2), value(model, 3));
    assert_eq!(input, input2);
    assert!(out != out2);
    assert_eq!((out + out2).rem_euclid(P), 0);
    assert_eq!((out * out - input).rem_euclid(P), 0);
}

#[test]
fn output_equal_to_a_binary_input_is_safe() {
    // out = 1, s = 2: s * (s - 1) = 0 and out = s
    let tree = node(
        "Pass",
        0,
        1,
        1,
        1,
        2,
        vec![
            constraint(&[(2, 1)], &[(2, 1), (0, P - 1)], &[]),
            constraint(&[], &[], &[(1, 1), (2, P - 1)]),
        ],
    );
    let report = verify(&tree, false, false, true);
    assert_eq!(report.safety.result, PossibleResult::VERIFIED);
}

#[test]
fn binary_signal_meets_tag_and_postcondition() {
    // a single input s = 1 with s * (s - 1) = 0
    let mut tree =
        node("Bit", 0, 1, 0, 1, 1, vec![constraint(&[(1, 1)], &[(1, 1), (0, P - 1)], &[])]);
    tree.tags_postconditions_intermediates = vec![binary(1)];
    tree.postconditions_intermediates = vec![infix(var(1), ExpressionInfixOpcode::LesserEq, num(1))];
    let report = verify(&tree, true, true, false);
    assert_eq!(report.tags.result, PossibleResult::VERIFIED);
    assert_eq!(report.postconditions.result, PossibleResult::VERIFIED);
}

#[test]
fn nothing_to_prove_needs_no_solver() {
    let tree = is_zero(1);
    let report = verify(&tree, true, true, false);
    assert_eq!(report.tags.result, PossibleResult::NOTHING);
    assert_eq!(report.postconditions.result, PossibleResult::NOTHING);
    assert_eq!(report.safety.result, PossibleResult::NOSTUDIED);
    assert_eq!(report.rounds, 0);
    let report = verify(&tree, false, false, false);
    assert_eq!(report.tags.result, PossibleResult::NOSTUDIED);
    assert_eq!(report.postconditions.result, PossibleResult::NOSTUDIED);
    assert_eq!(report.safety.result, PossibleResult::NOSTUDIED);
}

#[test]
fn untranslatable_annotations_are_left_out_and_counted() {
    let mut tree = is_zero(1);
    tree.preconditions = vec![infix(var(2), ExpressionInfixOpcode::ShiftL, var(2)), infix(var(2), ExpressionInfixOpcode::BitXor, num(1))];
    tree.postconditions_outputs = vec![binary(1), infix(var(1), ExpressionInfixOpcode::Pow, num(2))];
    let report = verify(&tree, false, true, false);
    assert_eq!(report.postconditions.result, PossibleResult::VERIFIED);
    assert_eq!(report.postconditions.left_out, 3);
}

/// The field of the composition, small enough for the solver to be quick.
const Q: i64 = 5;

/// Two IsZero components whose outputs are joined by `or`.
fn either_is_zero() -> TreeConstraints {
    // out = 1, in1 = 2, in2 = 3; the first component at 4..6, the second at 7..9
    let mut tree = node(
        "EitherIsZero",
        1,
        1,
        1,
        2,
        3,
        vec![
            constraint(&[], &[], &[(5, 1), (2, Q - 1)]),
            constraint(&[], &[], &[(8, 1), (3, Q - 1)]),
            constraint(&[(4, 1)], &[(7, 1)], &[(4, 1), (7, 1), (1, Q - 1)]),
        ],
    );
    tree.subcomponents = vec![is_zero_over(Q, 4), is_zero_over(Q, 7)];
    tree
}

#[test]
fn composition_is_safe_with_its_components_summarized() {
    let tree = either_is_zero();
    let report = tree.check_tags(
        &big(Q),
        TIMEOUT,
        false,
        false,
        true,
        false,
        false,
        false,
        &big(1 << 20),
    );
    assert_eq!(report.safety.result, PossibleResult::VERIFIED);
    assert_eq!(report.rounds, 0);
}

#[test]
fn whole_tree_is_verified_once_for_each_class() {
    let tree = either_is_zero();
    let run = check_tags(&tree, &big(Q), TIMEOUT, false, false, true, false, false, false, &big(1 << 20));
    let classes: Vec<usize> = run.studied_nodes.iter().map(|n| n.node_id).collect();
    assert_eq!(classes, vec![0, 1]);
    for studied in run.studied_nodes.iter() {
        assert_eq!(studied.report.safety.result, PossibleResult::VERIFIED);
        assert_eq!(studied.report.tags.result, PossibleResult::NOSTUDIED);
    }
    assert_eq!(run.safety.verified, vec![0, 1]);
    assert!(run.safety.failed.is_empty());
    assert!(run.safety.timeout.is_empty());
    assert!(run.tags.verified.is_empty());
    assert!(run.postconditions.verified.is_empty());
    assert_eq!(run.number_constraints, vec![(1, 3), (0, 4)]);
    assert_eq!(run.number_components, vec![(1, 1), (0, 2)]);
    assert_eq!(run.constraints_share, (7, 7));
    assert_eq!(run.components_share, (3, 3));
}

#[test]
fn class_that_is_studied_is_not_studied_again() {
    let tree = is_zero(1);
    let mut studied: Vec<StudiedNode> = Vec::new();
    check_tags_node(&tree, &mut studied, &big(P), TIMEOUT, false, false, true, false, false, false, &big(1 << 20));
    assert_eq!(studied.len(), 1);
    assert_eq!(find_studied(&studied, 0), Some(0));
    assert_eq!(find_studied(&studied, 5), None);
    // a square root that claims the class of IsZero gets the report of IsZero
    let mut other = node("Sqrt", 0, 1, 1, 1, 2, vec![constraint(&[(1, 1)], &[(1, 1)], &[(2, 1)])]);
    other.subcomponents = vec![];
    check_tags_node(&other, &mut studied, &big(P), TIMEOUT, false, false, true, false, false, false, &big(1 << 20));
    assert_eq!(studied.len(), 1);
    assert_eq!(studied[0].report.safety.result, PossibleResult::VERIFIED);
}

/// A component whose output equals its binary input.
fn bit(first: usize) -> TreeConstraints {
    let (out, input) = (first, first + 1);
    node(
        "Bit",
        0,
        first,
        1,
        1,
        2,
        vec![
            constraint(&[(input, 1)], &[(input, 1), (0, P - 1)], &[]),
            constraint(&[], &[], &[(out, 1), (input, P - 1)]),
        ],
    )
}

/// The product of two bits: out = 1, a = 2, b = 3, components at 4..5 and 6..7.
fn and_of_bits() -> TreeConstraints {
    let mut tree = node(
        "And",
        1,
        1,
        1,
        2,
        3,
        vec![
            constraint(&[], &[], &[(5, 1), (2, P - 1)]),
            constraint(&[], &[], &[(7, 1), (3, P - 1)]),
            constraint(&[(4, 1)], &[(6, 1)], &[(1, 1)]),
        ],
    );
    tree.subcomponents = vec![bit(4), bit(6)];
    tree
}

#[test]
fn encoding_that_is_too_big_opens_up_the_components() {
    let tree = and_of_bits();
    // with the components summarized, the product of their outputs ranges
    // over 0..256 and the quotient of the constraint over 17 values
    let report =
        tree.check_tags(&big(P), TIMEOUT, false, false, true, false, false, false, &big(2));
    assert_eq!(report.rounds, 1);
    assert_eq!(report.safety.result, PossibleResult::VERIFIED);
    let roomy = verify(&tree, false, false, true);
    assert_eq!(roomy.rounds, 0);
    assert_eq!(roomy.safety.result, PossibleResult::VERIFIED);
}

#[test]
fn encoding_that_stays_too_big_is_reported_so() {
    let tree = and_of_bits();
    let report =
        tree.check_tags(&big(P), TIMEOUT, false, false, true, false, false, false, &big(0));
    assert_eq!(report.rounds, 1);
    assert_eq!(report.safety.result, PossibleResult::TOO_BIG);
    assert!(report.safety.model.is_empty());
    let leaf = bit(1);
    let report =
        leaf.check_tags(&big(P), TIMEOUT, false, false, true, false, false, false, &big(0));
    assert_eq!(report.rounds, 0);
    assert_eq!(report.safety.result, PossibleResult::TOO_BIG);
}

#[test]
fn opened_component_adds_its_constraints_and_signals() {
    let tree = and_of_bits();
    let mut v = TemplateVerification::new(
        &"And".to_string(),
        vec![1, 2, 3, 4, 5, 6, 7],
        1,
        1,
        2,
        vec![],
        vec![],
        vec![],
        vec![],
        vec![],
        vec![],
        vec![],
        vec![],
        vec![],
        vec![],
        vec![],
        vec![],
        &big(P),
        TIMEOUT,
        false,
        false,
        true,
        false,
        false,
        false,
    );
    let below = tree.add_info_component(&mut v).unwrap();
    assert_eq!(below.len(), 2);
    assert_eq!(v.constraints.len(), 3);
    // And has no intermediate; its components hand up their interfaces
    assert_eq!(v.signals, vec![1, 2, 3, 4, 5, 6, 7, 4, 5, 6, 7]);
    assert_eq!(v.implications_safety, vec![(vec![5], vec![4]), (vec![7], vec![6])]);
    assert!(v.implications.is_empty());
    let mut opened = is_zero(10);
    opened.subcomponents = vec![];
    let before = v.signals.len();
    opened.add_info_component(&mut v);
    assert_eq!(v.constraints.len(), 5);
    assert_eq!(v.signals[before..].to_vec(), vec![12]);
}

#[test]
fn component_hands_up_its_summary() {
    let mut child = is_zero(4);
    assert!(child.generate_implications().is_none());
    assert!(child.generate_tags_implications().is_none());
    child.preconditions = vec![infix(var(5), ExpressionInfixOpcode::LesserEq, num(3))];
    child.tags_preconditions = vec![binary(5)];
    child.postconditions_outputs = vec![binary(4)];
    let summary = child.generate_implications().unwrap();
    assert_eq!(summary.left.len(), 2);
    assert_eq!(summary.right.len(), 1);
    assert_eq!(format!("{:?}", summary.right[0]), format!("{:?}", binary(4)));
    assert!(child.generate_tags_implications().is_none());
    child.tags_postconditions_outputs = vec![binary(4), infix(var(4), ExpressionInfixOpcode::LesserEq, num(1))];
    assert_eq!(child.generate_tags_implications().unwrap().right.len(), 2);
    // an assumption on an intermediate cannot be seen from above
    child.preconditions_intermediates = vec![binary(6)];
    assert!(child.generate_implications().is_none());
    assert!(child.generate_tags_implications().is_none());
    assert_eq!(child.generate_io_signals(), vec![4, 5]);
    assert_eq!(child.generate_implications_safety(), (vec![5], vec![4]));
    assert_eq!(child.get_no_postconditions(), 1);
    assert_eq!(child.get_no_tags_postconditions(), 2);
}

#[test]
fn encoding_of_an_obligation_is_put_together_from_its_parts() {
    let mut v = TemplateVerification::new(
        &"Pass".to_string(),
        vec![1, 2],
        1,
        1,
        1,
        vec![constraint(&[], &[], &[(1, 1), (2, P - 1)])],
        vec![],
        vec![],
        vec![],
        vec![],
        vec![],
        vec![],
        vec![],
        vec![],
        vec![],
        vec![],
        vec![],
        &big(P),
        TIMEOUT,
        false,
        false,
        true,
        false,
        false,
        false,
    );
    v.deduce_round();
    let e = v.encode(Obligation::Safety);
    assert!(e.fits);
    assert_eq!(e.left_out, 0);
    assert_eq!(e.watch.len(), 4);
    // propagation has given both signals an entry: one bound for each
    // signal in each execution (the input once over), the assumptions, the
    // constraint twice, three formulas that relate the executions, and the
    // query
    let bounds = 2 * 2;
    let constraint_formulas = 2 + 1 + 2 + 1;
    assert_eq!(e.assertions.len(), bounds + 1 + 2 * constraint_formulas + 3 + 1);
    v.quotient_limit = big(0);
    let e = v.encode(Obligation::Safety);
    assert!(!e.fits);
    assert!(e.assertions.is_empty());
}

#[test]
fn every_node_of_a_tree_has_the_report_on_its_class() {
    // the two components are of one class and the tree is three levels deep
    let mut middle = either_is_zero();
    middle.node_id = 2;
    let mut top = node("Top", 3, 0, 0, 0, 0, vec![]);
    top.subcomponents = vec![middle];
    let run = check_tags(&top, &big(Q), TIMEOUT, false, false, true, false, false, false, &big(1 << 20));
    let classes: Vec<usize> = run.studied_nodes.iter().map(|n| n.node_id).collect();
    // leaves first, each class once
    assert_eq!(classes, vec![0, 2, 3]);
    let total = run.safety.verified.len() + run.safety.failed.len() + run.safety.timeout.len();
    assert_eq!(total, 3);
}
