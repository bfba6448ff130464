use civer::constraint::Constraint;
use civer::dag::{map_to_constraint_tree, Edge, Tree, DAG};
use civer::expression::{Expression, ExpressionInfixOpcode, Meta};
use civer::tree::TreeConstraints;
use num_bigint_dig::BigInt;

const P: i64 = 17;

fn big(v: i64) -> BigInt {
    BigInt::from(v)
}

fn lc(terms: &[(usize, i64)]) -> Vec<(usize, BigInt)> {
    terms.iter().map(|(s, c)| (*s, big(*c))).collect()
}

fn constraint(a: &[(usize, i64)], b: &[(usize, i64)], c: &[(usize, i64)]) -> Constraint {
    Constraint::new(lc(a), lc(b), lc(c))
}

fn num(v: i64) -> Expression {
    Expression::Number(Meta::new(0, 0), big(v))
}

fn var(signal: usize) -> Expression {
    Expression::Variable { meta: Meta::new(0, 0), signal }
}

fn infix(l: Expression, op: ExpressionInfixOpcode, r: Expression) -> Expression {
    Expression::InfixOp { meta: Meta::new(0, 0), lhe: Box::new(l), infix_op: op, rhe: Box::new(r) }
}

fn names(list: &[&str]) -> Vec<String> {
    list.iter().map(|n| n.to_string()).collect()
}

fn terms(c: &Constraint) -> (Vec<(usize, BigInt)>, Vec<(usize, BigInt)>, Vec<(usize, BigInt)>) {
    (c.a().clone(), c.b().clone(), c.c().clone())
}

/// IsZero, and a template with two instances of it whose outputs are
/// joined by `or`.
fn graph() -> DAG {
    let mut dag = DAG::new(&"17".to_string());
    let is_zero = dag.add_node(
        "IsZero".to_string(),
        "IsZero()".to_string(),
        vec![],
        names(&["out", "in", "inv"]),
        false,
        false,
    );
    assert_eq!(is_zero, 0);
    dag.add_output("out".to_string());
    dag.add_input("in".to_string(), false);
    dag.add_intermediate("inv".to_string());
    dag.add_constraint(constraint(&[(2, 1)], &[(3, 1)], &[(0, 1), (1, P - 1)]));
    dag.add_constraint(constraint(&[], &[], &[]));
    dag.add_constraint(constraint(&[(2, 1)], &[(1, 1)], &[]));
    dag.add_postcondition_output(infix(var(1), ExpressionInfixOpcode::LesserEq, num(1)));
    dag.add_precondition(infix(var(2), ExpressionInfixOpcode::LesserEq, num(9)));

    let either = dag.add_node(
        "Either".to_string(),
        "Either()".to_string(),
        vec![big(2)],
        names(&["out", "in1", "in2"]),
        false,
        false,
    );
    assert_eq!(either, 1);
    dag.add_output("out".to_string());
    dag.add_input("in1".to_string(), true);
    dag.add_input("in2".to_string(), false);
    {
        let first = dag.add_edge(is_zero, "a", false).unwrap();
        assert_eq!((first.get_in(), first.get_out()), (3, 6));
        assert_eq!((first.get_in_component(), first.get_out_component()), (1, 2));
        assert_eq!(first.get_label(), "a");
        assert_eq!(first.get_goes_to(), 0);
        assert_eq!(first.get_signal_range(), 4..7);
    }
    {
        let second = dag.add_edge(is_zero, "b", true).unwrap();
        assert_eq!((second.get_in(), second.get_out()), (6, 9));
        assert_eq!((second.get_in_component(), second.get_out_component()), (2, 3));
    }
    dag.add_constraint(constraint(&[], &[], &[(5, 1), (2, P - 1)]));
    dag.add_constraint(constraint(&[], &[], &[(8, 1), (3, P - 1)]));
    dag.add_constraint(constraint(&[(4, 1)], &[(7, 1)], &[(4, 1), (7, 1), (1, P - 1)]));
    dag.add_fact(infix(var(1), ExpressionInfixOpcode::LesserEq, num(1)));
    dag
}

#[test]
fn signals_of_a_node_are_numbered_as_they_are_declared() {
    let dag = graph();
    let is_zero = dag.get_node(0).unwrap();
    assert_eq!(is_zero.number_of_signals(), 3);
    assert_eq!(is_zero.number_of_outputs(), 1);
    assert_eq!(is_zero.number_of_inputs(), 1);
    assert_eq!(is_zero.number_of_public_inputs(), 0);
    assert_eq!(is_zero.number_of_private_inputs(), 1);
    assert_eq!(is_zero.number_of_intermediates(), 1);
    assert_eq!(is_zero.io_signals().clone(), vec![1, 2]);
    assert_eq!(
        is_zero.correspondence().clone(),
        vec![("out".to_string(), 1), ("in".to_string(), 2), ("inv".to_string(), 3)]
    );
    assert!(is_zero.is_local_signal(3));
    assert!(!is_zero.is_local_signal(4));
    assert!(!is_zero.is_local_signal(0));
    assert_eq!(is_zero.constraints().len(), 3);
    assert_eq!(is_zero.get_entry().get_out(), 3);
    assert_eq!(is_zero.get_entry().get_goes_to(), 0);
    assert!(!is_zero.is_custom_gate());
    assert!(!is_zero.has_parallel_sub_cmp());
    assert!(is_zero.parameters().is_empty());
}

#[test]
fn component_is_numbered_after_the_signals_of_its_template() {
    let dag = graph();
    assert_eq!(dag.number_of_nodes(), 2);
    assert_eq!(dag.main_id(), 1);
    assert_eq!(dag.public_inputs(), 1);
    assert_eq!(dag.private_inputs(), 1);
    assert_eq!(dag.public_outputs(), 1);
    let either = dag.get_main().unwrap();
    assert_eq!(either.number_of_signals(), 9);
    assert_eq!(either.parameters().clone(), vec![big(2)]);
    assert!(either.has_parallel_sub_cmp());
    assert_eq!(either.get_entry().get_out(), 9);
    assert_eq!(either.get_entry().get_out_component(), 2);
    assert_eq!(dag.get_entry().unwrap().get_label(), "main");
    let named: Vec<(String, usize)> = either.correspondence().clone();
    assert_eq!(
        named,
        vec![
            ("out".to_string(), 1),
            ("in1".to_string(), 2),
            ("in2".to_string(), 3),
            ("a.out".to_string(), 4),
            ("a.in".to_string(), 5),
            ("a.inv".to_string(), 6),
            ("b.out".to_string(), 7),
            ("b.in".to_string(), 8),
            ("b.inv".to_string(), 9),
        ]
    );
    // the interface of a component is reachable, its intermediates are not
    for s in [1, 2, 3, 4, 5, 7, 8] {
        assert!(either.is_reachable_signal(s), "signal {}", s);
    }
    assert!(!either.is_reachable_signal(6));
    assert!(!either.is_reachable_signal(9));
    assert!(either.is_local_signal(3));
    assert!(!either.is_local_signal(4));
}

#[test]
fn edges_of_a_node_are_found_by_their_target() {
    let dag = graph();
    assert_eq!(dag.get_edges(1).unwrap().len(), 2);
    assert!(dag.get_edges(0).unwrap().is_empty());
    assert!(dag.get_edges(2).is_none());
    assert!(dag.get_node(2).is_none());
    assert_eq!(dag.get_connexion(1, 0).unwrap().get_label(), "a");
    assert!(dag.get_connexion(1, 1).is_none());
    assert!(dag.get_connexion(0, 1).is_none());
}

#[test]
fn only_an_earlier_node_can_be_linked_in() {
    let mut dag = graph();
    assert!(dag.add_edge(1, "self", false).is_none());
    assert!(dag.add_edge(7, "none", false).is_none());
    assert_eq!(dag.get_main().unwrap().number_of_signals(), 9);
    assert_eq!(dag.get_edges(1).unwrap().len(), 2);
}

#[test]
fn graph_without_nodes_ignores_declarations() {
    let mut dag = DAG::new(&"17".to_string());
    dag.add_input("in".to_string(), true);
    dag.add_output("out".to_string());
    dag.add_intermediate("x".to_string());
    dag.add_constraint(constraint(&[], &[], &[]));
    dag.add_fact(num(1));
    dag.set_number_of_subcomponents_indexes(3);
    assert_eq!(dag.number_of_nodes(), 0);
    assert!(dag.get_main().is_none());
    assert!(dag.get_entry().is_none());
    assert_eq!(dag.public_inputs(), 0);
    assert_eq!(dag.private_inputs(), 0);
    assert_eq!(dag.public_outputs(), 0);
    assert_eq!(dag.prime, "17");
}

#[test]
fn annotations_and_counters_go_to_the_main_component() {
    let mut dag = graph();
    dag.add_underscored_signal(3);
    dag.add_precondition_intermediate(num(1));
    dag.add_postcondition_intermediate(num(2));
    dag.add_tag_precondition(num(3));
    dag.add_tag_postcondition_intermediate(num(4));
    dag.add_tag_postcondition_output(num(5));
    dag.set_number_of_subcomponents_indexes(2);
    assert_eq!(dag.get_main().unwrap().number_of_subcomponents_indexes(), 2);
    assert_eq!(dag.get_node(0).unwrap().number_of_subcomponents_indexes(), 0);
    let tree = Tree::new(&dag);
    assert_eq!(tree.preconditions_intermediates.len(), 1);
    assert_eq!(tree.postconditions_intermediates.len(), 1);
    assert_eq!(tree.tags_preconditions.len(), 1);
    assert_eq!(tree.tags_postconditions_intermediates.len(), 1);
    assert_eq!(tree.tags_postconditions_outputs.len(), 1);
    assert_eq!(tree.facts.len(), 1);
}

#[test]
fn subtree_stands_at_the_offset_of_its_edge() {
    let dag = graph();
    let root = Tree::new(&dag);
    assert_eq!(root.node_id, 1);
    assert_eq!(root.offset, 0);
    assert_eq!(root.path, "main");
    assert_eq!(root.signals, vec![1, 2, 3]);
    assert_eq!(root.constraints.len(), 3);
    let edges = Tree::get_edges(&root);
    assert_eq!(edges.len(), 2);
    let second = Tree::go_to_subtree(&root, &edges[1]);
    assert_eq!(second.node_id, 0);
    assert_eq!(second.offset, 6);
    assert_eq!(second.path, "main.b");
    assert_eq!(second.signals, vec![7, 8, 9]);
    // the empty constraint is left out, the others are moved; the constant stays
    assert_eq!(second.constraints.len(), 2);
    assert_eq!(
        terms(&second.constraints[0]),
        (lc(&[(8, 1)]), lc(&[(9, 1)]), lc(&[(0, 1), (7, P - 1)]))
    );
    assert_eq!(terms(&second.constraints[1]), (lc(&[(8, 1)]), lc(&[(7, 1)]), lc(&[])));
    let expected = infix(var(7), ExpressionInfixOpcode::LesserEq, num(1));
    assert_eq!(format!("{:?}", second.postconditions_outputs), format!("{:?}", vec![expected]));
    let expected = infix(var(8), ExpressionInfixOpcode::LesserEq, num(9));
    assert_eq!(format!("{:?}", second.preconditions), format!("{:?}", vec![expected]));
    assert!(Tree::get_edges(&second).is_empty());
}

fn shape(t: &TreeConstraints) -> (usize, String, usize, usize, usize, usize, usize) {
    (
        t.node_id(),
        t.pretty_template_name().clone(),
        t.initial_signal(),
        t.number_outputs(),
        t.number_inputs(),
        t.number_signals(),
        t.constraints().len(),
    )
}

#[test]
fn graph_unfolds_to_the_tree_of_its_instances() {
    let dag = graph();
    let tree = map_to_constraint_tree(&dag).unwrap();
    assert_eq!(shape(&tree), (1, "Either()".to_string(), 1, 1, 2, 3, 3));
    assert_eq!(tree.template_name(), "Either");
    assert_eq!(tree.facts.len(), 1);
    assert_eq!(tree.subcomponents().len(), 2);
    assert_eq!(shape(&tree.subcomponents()[0]), (0, "IsZero()".to_string(), 4, 1, 1, 3, 2));
    assert_eq!(shape(&tree.subcomponents()[1]), (0, "IsZero()".to_string(), 7, 1, 1, 3, 2));
    assert_eq!(
        terms(&tree.subcomponents()[0].constraints()[0]),
        (lc(&[(5, 1)]), lc(&[(6, 1)]), lc(&[(0, 1), (4, P - 1)]))
    );
    let expected = infix(var(4), ExpressionInfixOpcode::LesserEq, num(1));
    assert_eq!(
        format!("{:?}", tree.subcomponents()[0].postconditions_outputs),
        format!("{:?}", vec![expected])
    );
    assert!(tree.subcomponents()[0].subcomponents().is_empty());
    let again = dag.map_to_constraint_tree().unwrap();
    assert_eq!(shape(&again), shape(&tree));
}

#[test]
fn tree_that_cannot_be_numbered_is_not_unfolded() {
    let mut dag = DAG::new(&"17".to_string());
    dag.add_node("Far".to_string(), "Far()".to_string(), vec![], names(&["out"]), false, false);
    dag.add_output("out".to_string());
    // a constraint on a signal that no offset can move
    dag.add_constraint(constraint(&[(usize::MAX, 1)], &[(1, 1)], &[]));
    dag.add_node("Top".to_string(), "Top()".to_string(), vec![], names(&["out"]), false, false);
    dag.add_output("out".to_string());
    dag.add_edge(0, "far", false);
    assert!(map_to_constraint_tree(&dag).is_none());
}

#[test]
fn signals_of_a_tree_are_in_rising_order() {
    let mut dag = DAG::new(&"17".to_string());
    dag.add_node("T".to_string(), "T()".to_string(), vec![], names(&["x", "y"]), false, false);
    dag.add_output("x".to_string());
    dag.add_input("y".to_string(), false);
    // the name x is given anew: it now stands for the third signal
    dag.add_intermediate("x".to_string());
    let node = dag.get_main().unwrap();
    assert_eq!(node.correspondence().clone(), vec![("x".to_string(), 3), ("y".to_string(), 2)]);
    assert_eq!(node.number_of_signals(), 3);
    let tree = Tree::new(&dag);
    assert_eq!(tree.signals, vec![2, 3]);
    let unfolded = map_to_constraint_tree(&dag).unwrap();
    assert_eq!(unfolded.number_signals(), 2);
    assert_eq!(unfolded.initial_signal(), 2);
}

#[test]
fn default_edge_is_empty() {
    let e = Edge::default();
    assert_eq!(e.get_signal_range(), 1..1);
    assert!(e.get_signal_range().is_empty());
    assert_eq!(e.reach(7), 7);
    assert_eq!(e.get_label(), "");
    assert_eq!(e.get_goes_to(), 0);
    assert_eq!(e.get_in(), 0);
    assert_eq!(e.get_out(), 0);
}

fn gather(t: &TreeConstraints, found: &mut Vec<(usize, Vec<usize>)>) {
    let below: Vec<usize> = t.subcomponents().iter().map(|c| c.node_id()).collect();
    found.push((t.node_id(), below));
    for c in t.subcomponents().iter() {
        gather(c, found);
    }
}

#[test]
fn nodes_of_one_class_have_components_of_the_same_classes() {
    let mut dag = graph();
    // a third template with an instance of the second and one of the first
    dag.add_node("Top".to_string(), "Top()".to_string(), vec![], names(&["out"]), false, false);
    dag.add_output("out".to_string());
    dag.add_edge(1, "e", false).unwrap();
    dag.add_edge(0, "z", false).unwrap();
    let tree = map_to_constraint_tree(&dag).unwrap();
    let mut found = Vec::new();
    gather(&tree, &mut found);
    assert_eq!(
        found,
        vec![
            (2, vec![1, 0]),
            (1, vec![0, 0]),
            (0, vec![]),
            (0, vec![]),
            (0, vec![]),
        ]
    );
    for (class, below) in found.iter() {
        for (other, other_below) in found.iter() {
            if class == other {
                assert_eq!(below, other_below);
            }
        }
    }
}

#[test]
fn entry_edge_of_a_new_node_is_labelled_main() {
    let mut dag = DAG::new(&"17".to_string());
    let first = dag.add_node("A".to_string(), "A()".to_string(), vec![], names(&["x"]), false, false);
    let second = dag.add_node("B".to_string(), "B()".to_string(), vec![], vec![], false, false);
    for id in [first, second] {
        let entry = dag.get_node(id).unwrap().get_entry();
        assert_eq!(entry.get_label(), "main");
        assert_eq!(entry.get_goes_to(), id);
        assert_eq!((entry.get_in(), entry.get_out()), (0, 0));
        assert_eq!((entry.get_in_component(), entry.get_out_component()), (0, 0));
    }
    // the new node can take the first as a component at once
    let edge = dag.add_edge(first, "a", false).unwrap();
    assert_eq!(edge.get_label(), "a");
    assert_eq!(edge.get_goes_to(), first);
}
