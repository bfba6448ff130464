use civer::dag::Edge;
use civer::expression::{
    copy_all, Expression, ExpressionInfixOpcode, ExpressionPrefixOpcode, Meta,
};
use civer::specification_data::SpecificationData;
use civer::verdict::PossibleResult;
use num_bigint_dig::BigInt;

fn meta() -> Meta {
    Meta::new(0, 0)
}

fn num(v: i64) -> Expression {
    Expression::Number(meta(), BigInt::from(v))
}

fn var(signal: usize) -> Expression {
    Expression::Variable { meta: meta(), signal }
}

fn infix(l: Expression, op: ExpressionInfixOpcode, r: Expression) -> Expression {
    Expression::InfixOp { meta: meta(), lhe: Box::new(l), infix_op: op, rhe: Box::new(r) }
}

fn prefix(op: ExpressionPrefixOpcode, r: Expression) -> Expression {
    Expression::PrefixOp { meta: meta(), prefix_op: op, rhe: Box::new(r) }
}

fn signals_of(e: &Expression, out: &mut Vec<usize>) {
    match e {
        Expression::Number(..) => {}
        Expression::Variable { signal, .. } => out.push(*signal),
        Expression::InfixOp { lhe, rhe, .. } => {
            signals_of(lhe, out);
            signals_of(rhe, out);
        }
        Expression::PrefixOp { rhe, .. } => signals_of(rhe, out),
    }
}

fn ids_of(e: &Expression, out: &mut Vec<(usize, Option<usize>)>) {
    out.push((e.get_meta().elem_id, e.get_meta().file_id));
    match e {
        Expression::InfixOp { lhe, rhe, .. } => {
            ids_of(lhe, out);
            ids_of(rhe, out);
        }
        Expression::PrefixOp { rhe, .. } => ids_of(rhe, out),
        _ => {}
    }
}

#[test]
fn shape_of_an_expression() {
    assert!(num(3).is_number());
    assert!(!num(3).is_variable());
    assert!(var(2).is_variable());
    let sum = infix(var(1), ExpressionInfixOpcode::Add, num(1));
    assert!(sum.is_infix());
    assert!(!sum.is_prefix());
    assert!(prefix(ExpressionPrefixOpcode::BoolNot, var(1)).is_prefix());
}

#[test]
fn implication_is_found_at_any_depth() {
    let implication = infix(var(1), ExpressionInfixOpcode::BoolImplication, var(2));
    assert!(implication.contains_implication_expression());
    let nested = prefix(
        ExpressionPrefixOpcode::BoolNot,
        infix(num(1), ExpressionInfixOpcode::BoolAnd, implication),
    );
    assert!(nested.contains_implication_expression());
    let plain = infix(var(1), ExpressionInfixOpcode::LesserEq, num(4));
    assert!(!plain.contains_implication_expression());
    assert!(!num(0).contains_implication_expression());
}

#[test]
fn offset_moves_every_signal_and_no_literal() {
    let e = infix(
        infix(var(1), ExpressionInfixOpcode::Mul, num(5)),
        ExpressionInfixOpcode::Eq,
        prefix(ExpressionPrefixOpcode::Sub, var(3)),
    );
    let moved = e.apply_offset(10);
    let mut signals = Vec::new();
    signals_of(&moved, &mut signals);
    assert_eq!(signals, vec![11, 13]);
    let mut before = Vec::new();
    signals_of(&e, &mut before);
    assert_eq!(before, vec![1, 3]);
    match moved {
        Expression::InfixOp { lhe, .. } => match *lhe {
            Expression::InfixOp { rhe, .. } => match *rhe {
                Expression::Number(_, v) => assert_eq!(v, BigInt::from(5)),
                other => panic!("expected the literal, got {:?}", other),
            },
            other => panic!("expected the product, got {:?}", other),
        },
        other => panic!("expected the equality, got {:?}", other),
    }
}

#[test]
fn interface_condition_speaks_of_low_signals_only() {
    let e = infix(var(2), ExpressionInfixOpcode::Lesser, infix(var(5), ExpressionInfixOpcode::Add, num(9)));
    assert!(e.check_condition_io_signals(5));
    assert!(!e.check_condition_io_signals(4));
    assert!(num(100).check_condition_io_signals(0));
}

#[test]
fn copies_have_the_same_content() {
    let e = infix(var(2), ExpressionInfixOpcode::Lesser, num(9));
    let list = vec![e, num(4)];
    let copy = copy_all(&list);
    assert_eq!(format!("{:?}", copy), format!("{:?}", list));
}

#[test]
fn specification_numbers_its_condition_in_pre_order() {
    let condition = infix(
        infix(var(1), ExpressionInfixOpcode::Mul, num(5)),
        ExpressionInfixOpcode::Eq,
        prefix(ExpressionPrefixOpcode::Sub, var(3)),
    );
    let mut elem_id = 40;
    let spec = SpecificationData::new(7, &mut elem_id, "binary".to_string(), "out".to_string(), condition);
    assert_eq!(elem_id, 46);
    assert_eq!(spec.get_file_id(), 7);
    assert_eq!(spec.get_tag(), "binary");
    assert_eq!(spec.get_signal(), "out");
    let mut ids = Vec::new();
    ids_of(spec.get_condition(), &mut ids);
    assert_eq!(
        ids,
        vec![
            (40, Some(7)),
            (41, Some(7)),
            (42, Some(7)),
            (43, Some(7)),
            (44, Some(7)),
            (45, Some(7)),
        ]
    );
}

#[test]
fn location_record_is_attached_to_a_file() {
    let mut m = Meta::new(3, 9);
    assert_eq!((m.elem_id, m.start, m.end, m.file_id), (0, 3, 9, None));
    m.set_file_id(2);
    assert_eq!((m.elem_id, m.start, m.end, m.file_id), (0, 3, 9, Some(2)));
}

#[test]
fn entry_edge_spans_nothing() {
    let e = Edge::new_entry(4);
    assert_eq!(e.get_goes_to(), 4);
    assert_eq!(e.get_label(), "main");
    assert_eq!(e.get_in(), 0);
    assert_eq!(e.get_out(), 0);
    assert_eq!(e.get_in_component(), 0);
    assert_eq!(e.get_out_component(), 0);
    assert_eq!(e.get_signal_range(), 1..1);
    assert_eq!(e.reach(12), 12);
}

#[test]
fn edge_gives_the_span_of_its_component() {
    let e = Edge::new("bits".to_string(), 2, 5, 9, 1, 3);
    assert_eq!(e.get_goes_to(), 2);
    assert_eq!(e.get_label(), "bits");
    assert_eq!(e.get_in(), 5);
    assert_eq!(e.get_out(), 9);
    assert_eq!(e.get_in_component(), 1);
    assert_eq!(e.get_out_component(), 3);
    assert_eq!(e.get_signal_range(), 6..10);
    assert_eq!(e.reach(100), 105);
}

#[test]
fn only_an_encoding_that_is_too_big_is_unsettled() {
    assert!(PossibleResult::VERIFIED.finished_verification());
    assert!(PossibleResult::FAILED.finished_verification());
    assert!(PossibleResult::UNKNOWN.finished_verification());
    assert!(PossibleResult::NOTHING.finished_verification());
    assert!(PossibleResult::NOSTUDIED.finished_verification());
    assert!(!PossibleResult::TOO_BIG.finished_verification());
}

#[test]
fn verdicts_are_reported_in_words() {
    assert_eq!(PossibleResult::FAILED.result_to_str(), "FAILED -> FOUND COUNTEREXAMPLE\n");
    assert_eq!(PossibleResult::UNKNOWN.result_to_str(), "UNKNOWN -> VERIFICATION TIMEOUT\n");
    assert_eq!(PossibleResult::NOTHING.result_to_str(), "NOTHING TO VERIFY\n");
    assert_eq!(PossibleResult::VERIFIED.result_to_str(), "VERIFIED\n");
    assert_eq!(PossibleResult::NOSTUDIED.result_to_str(), "NOT STUDIED\n");
    assert_eq!(
        PossibleResult::TOO_BIG.result_to_str(),
        "TOO BIG -> ENCODING BEYOND THE QUOTIENT LIMIT\n"
    );
}
