use civer::config::NodeInfo;
use civer::constraint::Constraint;
use civer::report::{compute_percentage_verified, tally, StudiedNode};
use civer::structure::{bump_count, build_structure_nodes, count_constraints_node, join_class};
use civer::tree::{NodeReport, TreeConstraints};
use civer::verdict::PossibleResult;
use civer::verification::{Obligation, ProofAttempt};
use num_bigint_dig::BigInt;

fn constraints(n: usize) -> Vec<Constraint> {
    (0..n)
        .map(|_| Constraint::new(vec![(1, BigInt::from(1))], vec![(1, BigInt::from(1))], vec![]))
        .collect()
}

fn node(
    name: &str,
    node_id: usize,
    initial_signal: usize,
    number_outputs: usize,
    number_inputs: usize,
    number_signals: usize,
    n_constraints: usize,
    subcomponents: Vec<TreeConstraints>,
) -> TreeConstraints {
    TreeConstraints {
        constraints: constraints(n_constraints),
        node_id,
        template_name: name.to_string(),
        pretty_template_name: format!("{}()", name),
        preconditions: vec![],
        preconditions_intermediates: vec![],
        postconditions_intermediates: vec![],
        postconditions_outputs: vec![],
        facts: vec![],
        tags_preconditions: vec![],
        tags_postconditions_intermediates: vec![],
        tags_postconditions_outputs: vec![],
        number_signals,
        number_inputs,
        number_outputs,
        initial_signal,
        subcomponents,
    }
}

/// A root with a leaf, an inner node with two leaves, and a leaf without
/// constraints.
fn tree() -> TreeConstraints {
    let leaf = |first: usize| node("Leaf", 7, first, 1, 1, 3, 2, vec![]);
    let inner = node("Inner", 3, 7, 1, 2, 3, 1, vec![leaf(10), leaf(13)]);
    let empty = node("Empty", 9, 16, 0, 0, 0, 0, vec![]);
    node("Root", 4, 1, 1, 2, 3, 3, vec![leaf(4), inner, empty])
}

fn record(i: &NodeInfo) -> (usize, Vec<usize>, Vec<usize>, Vec<usize>, Vec<usize>, Vec<usize>) {
    (
        i.node_id,
        i.constraints.clone(),
        i.input_signals.clone(),
        i.output_signals.clone(),
        i.signals.clone(),
        i.successors.clone(),
    )
}

#[test]
fn nodes_are_recorded_in_pre_order() {
    let mut node_id = 0;
    let mut init_c = 0;
    let mut node_info = Vec::new();
    let mut classes = Vec::new();
    let root = build_structure_nodes(&tree(), &mut node_id, &mut init_c, &mut node_info, &mut classes);
    assert_eq!(root, 0);
    assert_eq!(node_id, 6);
    assert_eq!(init_c, 10);
    let records: Vec<_> = node_info.iter().map(record).collect();
    assert_eq!(
        records,
        vec![
            (0, vec![0, 1, 2], vec![2, 3], vec![1], vec![1, 2, 3], vec![1, 2, 5]),
            (1, vec![3, 4], vec![5], vec![4], vec![4, 5, 6], vec![]),
            (2, vec![5], vec![8, 9], vec![7], vec![7, 8, 9], vec![3, 4]),
            (3, vec![6, 7], vec![11], vec![10], vec![10, 11, 12], vec![]),
            (4, vec![8, 9], vec![14], vec![13], vec![13, 14, 15], vec![]),
            (5, vec![], vec![], vec![], vec![], vec![]),
        ]
    );
    assert_eq!(classes, vec![(4, vec![0]), (7, vec![1, 3, 4]), (3, vec![2]), (9, vec![5])]);
}

#[test]
fn second_tree_is_numbered_after_the_first() {
    let mut node_id = 0;
    let mut init_c = 0;
    let mut node_info = Vec::new();
    let mut classes = Vec::new();
    let leaf = node("Leaf", 7, 1, 1, 1, 3, 2, vec![]);
    build_structure_nodes(&leaf, &mut node_id, &mut init_c, &mut node_info, &mut classes);
    let root = build_structure_nodes(&tree(), &mut node_id, &mut init_c, &mut node_info, &mut classes);
    assert_eq!(root, 1);
    assert_eq!(node_id, 7);
    assert_eq!(init_c, 12);
    assert_eq!(record(&node_info[0]), (0, vec![0, 1], vec![2], vec![1], vec![1, 2, 3], vec![]));
    assert_eq!(node_info[1].successors, vec![2, 3, 6]);
    assert_eq!(node_info[1].constraints, vec![2, 3, 4]);
    assert_eq!(classes[0], (7, vec![0, 2, 4, 5]));
}

#[test]
fn constraints_and_components_are_counted_by_class() {
    let mut number_constraints = Vec::new();
    let mut number_components = Vec::new();
    let mut starts = Vec::new();
    let mut init_c = 0;
    count_constraints_node(
        &tree(),
        &mut number_constraints,
        &mut number_components,
        &mut starts,
        &mut init_c,
    );
    assert_eq!(init_c, 10);
    assert_eq!(number_constraints, vec![(4, 3), (7, 6), (3, 1), (9, 0)]);
    assert_eq!(number_components, vec![(4, 1), (7, 3), (3, 1), (9, 1)]);
    assert_eq!(
        starts,
        vec![
            (0, "Root()".to_string()),
            (3, "Leaf()".to_string()),
            (5, "Inner()".to_string()),
            (6, "Leaf()".to_string()),
            (8, "Leaf()".to_string()),
            (10, "Empty()".to_string()),
        ]
    );
}

#[test]
fn node_without_constraints_gives_its_start_to_the_next_node() {
    let empty = node("Empty", 9, 1, 0, 0, 0, 0, vec![]);
    let root = node("Root", 4, 1, 0, 0, 0, 0, vec![empty, node("Leaf", 7, 1, 0, 0, 0, 2, vec![])]);
    let mut number_constraints = Vec::new();
    let mut number_components = Vec::new();
    let mut starts = Vec::new();
    let mut init_c = 5;
    count_constraints_node(
        &root,
        &mut number_constraints,
        &mut number_components,
        &mut starts,
        &mut init_c,
    );
    assert_eq!(init_c, 7);
    assert_eq!(starts, vec![(5, "Leaf()".to_string())]);
    assert_eq!(number_constraints, vec![(4, 0), (9, 0), (7, 2)]);
}

#[test]
fn counts_do_not_wrap_around() {
    let mut counts = vec![(3, usize::MAX - 1)];
    bump_count(&mut counts, 3, 5);
    assert_eq!(counts, vec![(3, usize::MAX)]);
    bump_count(&mut counts, 4, 5);
    bump_count(&mut counts, 4, 6);
    assert_eq!(counts, vec![(3, usize::MAX), (4, 11)]);
    let mut classes = vec![(2, vec![0])];
    join_class(&mut classes, 5, 1);
    join_class(&mut classes, 2, 2);
    assert_eq!(classes, vec![(2, vec![0, 2]), (5, vec![1])]);
}

fn attempt(result: PossibleResult) -> ProofAttempt {
    ProofAttempt { result, left_out: 0, model: vec![] }
}

fn studied(node_id: usize, tags: PossibleResult, safety: PossibleResult) -> StudiedNode {
    StudiedNode {
        node_id,
        report: NodeReport {
            tags: attempt(tags),
            postconditions: attempt(PossibleResult::NOSTUDIED),
            safety: attempt(safety),
            rounds: 0,
            millis: 0,
        },
    }
}

fn table() -> Vec<StudiedNode> {
    vec![
        studied(7, PossibleResult::VERIFIED, PossibleResult::VERIFIED),
        studied(3, PossibleResult::FAILED, PossibleResult::UNKNOWN),
        studied(4, PossibleResult::NOTHING, PossibleResult::TOO_BIG),
        studied(9, PossibleResult::UNKNOWN, PossibleResult::VERIFIED),
        studied(2, PossibleResult::TOO_BIG, PossibleResult::FAILED),
    ]
}

#[test]
fn classes_are_sorted_by_verdict() {
    let t = tally(&table(), Obligation::Tags);
    assert_eq!(t.verified, vec![7, 4]);
    assert_eq!(t.failed, vec![3]);
    assert_eq!(t.timeout, vec![9, 2]);
    let t = tally(&table(), Obligation::Safety);
    assert_eq!(t.verified, vec![7, 9]);
    assert_eq!(t.failed, vec![2]);
    assert_eq!(t.timeout, vec![3, 4]);
    let t = tally(&table(), Obligation::Postconditions);
    assert_eq!(t.verified, vec![7, 3, 4, 9, 2]);
    assert!(t.failed.is_empty());
    assert!(t.timeout.is_empty());
}

#[test]
fn share_of_what_is_verified_for_safety() {
    let counts = vec![(7, 6), (3, 1), (4, 3), (9, 10), (8, 100)];
    assert_eq!(compute_percentage_verified(&table(), &counts), (120, 16));
    assert_eq!(compute_percentage_verified(&table(), &vec![]), (0, 0));
    let huge = vec![(7, usize::MAX), (9, 1), (3, 1)];
    assert_eq!(compute_percentage_verified(&table(), &huge), (usize::MAX, usize::MAX));
}
