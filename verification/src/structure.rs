//! The shape of the tree of template instances, as it is written out: its
//! nodes in pre-order, the classes of its nodes, and the counts of
//! constraints and components of each class.
use vstd::prelude::*;
use crate::config::NodeInfo;
use crate::verification::capped;
use crate::tree::{TreeConstraints, signal_run};

verus! {

/// The mathematical content of the record of a node.
pub struct NodeInfoView {
    pub node_id: usize,
    pub constraints: Seq<usize>,
    pub input_signals: Seq<usize>,
    pub output_signals: Seq<usize>,
    pub signals: Seq<usize>,
    pub successors: Seq<usize>,
}

impl View for NodeInfo {
    type V = NodeInfoView;

    open spec fn view(&self) -> NodeInfoView {
        NodeInfoView {
            node_id: self.node_id,
            constraints: self.constraints@,
            input_signals: self.input_signals@,
            output_signals: self.output_signals@,
            signals: self.signals@,
            successors: self.successors@,
        }
    }
}

/// The contents of a list of records.
pub open spec fn info_views(s: Seq<NodeInfo>) -> Seq<NodeInfoView> {
    s.map_values(|n: NodeInfo| n@)
}

/// The contents of a list of classes: each class with its members.
pub open spec fn class_views(s: Seq<(usize, Vec<usize>)>) -> Seq<(usize, Seq<usize>)> {
    s.map_values(|c: (usize, Vec<usize>)| (c.0, c.1@))
}

impl TreeConstraints {
    /// The number of nodes in the subtrees of the first `n` components.
    pub open spec fn size_upto(&self, n: nat) -> nat
        decreases self, n,
    {
        if n == 0 || n > self.subcomponents@.len() {
            0
        } else {
            self.size_upto((n - 1) as nat) + self.subcomponents@[n - 1].size()
        }
    }

    /// The number of nodes of the tree.
    pub open spec fn size(&self) -> nat
        decreases self, self.subcomponents@.len() + 1,
    {
        1 + self.size_upto(self.subcomponents@.len())
    }

    /// The number of constraints in the subtrees of the first `n`
    /// components.
    pub open spec fn constraints_upto(&self, n: nat) -> nat
        decreases self, n,
    {
        if n == 0 || n > self.subcomponents@.len() {
            0
        } else {
            self.constraints_upto((n - 1) as nat) + self.subcomponents@[n - 1].total_constraints()
        }
    }

    /// The number of constraints of the tree.
    pub open spec fn total_constraints(&self) -> nat
        decreases self, self.subcomponents@.len() + 1,
    {
        self.constraints@.len() + self.constraints_upto(self.subcomponents@.len())
    }

    /// The record of the node, when it is the node numbered `my` of the
    /// pre-order walk and `c` constraints come before its own: its
    /// constraints are numbered from `c` on, and its successors are its
    /// components, each numbered after the subtrees of the components
    /// before it. A number that does not fit a machine word is replaced by
    /// the largest one.
    pub open spec fn own_info(&self, my: nat, c: nat) -> NodeInfoView {
        NodeInfoView {
            node_id: my as usize,
            constraints: Seq::new(self.constraints@.len(), |i: int| capped((c + i) as nat)),
            input_signals: signal_run(
                self.initial_signal + self.number_outputs,
                self.number_inputs as int,
            ),
            output_signals: signal_run(self.initial_signal as int, self.number_outputs as int),
            signals: signal_run(self.initial_signal as int, self.number_signals as int),
            successors: Seq::new(
                self.subcomponents@.len(),
                |k: int| (my + 1 + self.size_upto(k as nat)) as usize,
            ),
        }
    }

    /// The records of the subtrees of the first `n` components, in
    /// pre-order, when the node itself is numbered `my` and `c` constraints
    /// come before the first of these subtrees.
    pub open spec fn forest_infos(&self, n: nat, my: nat, c: nat) -> Seq<NodeInfoView>
        decreases self, n,
    {
        if n == 0 || n > self.subcomponents@.len() {
            Seq::empty()
        } else {
            self.forest_infos((n - 1) as nat, my, c) + self.subcomponents@[n - 1].tree_infos(
                my + 1 + self.size_upto((n - 1) as nat),
                c + self.constraints_upto((n - 1) as nat),
            )
        }
    }

    /// The records of the tree in pre-order, when its root is numbered `my`
    /// and `c` constraints come before its own.
    pub open spec fn tree_infos(&self, my: nat, c: nat) -> Seq<NodeInfoView>
        decreases self, self.subcomponents@.len() + 1,
    {
        seq![self.own_info(my, c)] + self.forest_infos(
            self.subcomponents@.len(),
            my,
            c + self.constraints@.len(),
        )
    }

    /// The classes after the subtrees of the first `n` components have
    /// been walked.
    pub open spec fn forest_classes(
        &self,
        classes: Seq<(usize, Seq<usize>)>,
        n: nat,
        my: nat,
    ) -> Seq<(usize, Seq<usize>)>
        decreases self, n,
    {
        if n == 0 || n > self.subcomponents@.len() {
            classes
        } else {
            self.subcomponents@[n - 1].tree_classes(
                self.forest_classes(classes, (n - 1) as nat, my),
                my + 1 + self.size_upto((n - 1) as nat),
            )
        }
    }

    /// The classes after the tree has been walked in pre-order, its root
    /// being numbered `my`: every node has joined the class of its
    /// `node_id`.
    pub open spec fn tree_classes(&self, classes: Seq<(usize, Seq<usize>)>, my: nat) -> Seq<
        (usize, Seq<usize>),
    >
        decreases self, self.subcomponents@.len() + 1,
    {
        self.forest_classes(
            joined(classes, self.node_id, my as usize),
            self.subcomponents@.len(),
            my,
        )
    }
}

/// The place of the class `id` in the list of classes, if it is there.
pub open spec fn class_place(classes: Seq<(usize, Seq<usize>)>, id: usize) -> Option<int>
    decreases classes.len(),
{
    if classes.len() == 0 {
        None
    } else {
        match class_place(classes.drop_last(), id) {
            Some(i) => Some(i),
            None => if classes.last().0 == id { Some(classes.len() - 1) } else { None },
        }
    }
}

/// The classes after a node has joined the class `id`: last in its class
/// where the class is there, as the only member of a new last class
/// otherwise.
pub open spec fn joined(classes: Seq<(usize, Seq<usize>)>, id: usize, member: usize) -> Seq<
    (usize, Seq<usize>),
> {
    match class_place(classes, id) {
        Some(i) => classes.update(i, (id, classes[i].1.push(member))),
        None => classes.push((id, seq![member])),
    }
}

/// A class found in a part of the list is found in the whole list, at the
/// same place.
proof fn lemma_class_place_prefix(classes: Seq<(usize, Seq<usize>)>, id: usize, n: int)
    requires
        0 <= n <= classes.len(),
        class_place(classes.take(n), id) is Some,
    ensures
        class_place(classes, id) == class_place(classes.take(n), id),
    decreases classes.len() - n,
{
    if n < classes.len() {
        assert(classes.take(n + 1).drop_last() =~= classes.take(n));
        lemma_class_place_prefix(classes, id, n + 1);
    } else {
        assert(classes.take(n) =~= classes);
    }
}

/// Lets a node join the class `id`.
pub fn join_class(equivalence_nodes: &mut Vec<(usize, Vec<usize>)>, id: usize, member: usize)
    ensures
        class_views(final(equivalence_nodes)@) == joined(
            class_views(old(equivalence_nodes)@),
            id,
            member,
        ),
{
    let ghost before = class_views(equivalence_nodes@);
    let mut i: usize = 0;
    while i < equivalence_nodes.len()
        invariant
            i <= equivalence_nodes.len(),
            before == class_views(equivalence_nodes@),
            equivalence_nodes@ == old(equivalence_nodes)@,
            class_place(before.take(i as int), id) is None,
        decreases equivalence_nodes.len() - i,
    {
        proof {
            assert(before.take(i + 1).drop_last() =~= before.take(i as int));
            assert(before.take(i + 1).last() == before[i as int]);
        }
        if equivalence_nodes[i].0 == id {
            proof {
                lemma_class_place_prefix(before, id, i + 1);
            }
            let ghost members = equivalence_nodes@[i as int].1@;
            let mut class = Vec::new();
            std::mem::swap(&mut class, &mut equivalence_nodes[i].1);
            class.push(member);
            equivalence_nodes[i] = (id, class);
            assert(class_views(equivalence_nodes@) =~= before.update(
                i as int,
                (id, members.push(member)),
            ));
            return ;
        }
        i += 1;
    }
    assert(before.take(equivalence_nodes@.len() as int) =~= before);
    let mut class: Vec<usize> = Vec::new();
    class.push(member);
    equivalence_nodes.push((id, class));
    assert(class_views(equivalence_nodes@) =~= before.push((id, seq![member])));
}

/// The signals from `first` on, `count` of them.
fn run_of(first: usize, count: usize) -> (r: Vec<usize>)
    requires
        first + count <= usize::MAX,
    ensures
        r@ == signal_run(first as int, count as int),
{
    let ghost all = signal_run(first as int, count as int);
    let mut out: Vec<usize> = Vec::new();
    let mut i: usize = 0;
    while i < count
        invariant
            i <= count,
            first + count <= usize::MAX,
            all == signal_run(first as int, count as int),
            out@ == all.take(i as int),
        decreases count - i,
    {
        out.push(first + i);
        assert(out@ =~= all.take(i + 1));
        i += 1;
    }
    assert(all.take(count as int) =~= all);
    out
}

/// Walks the tree in pre-order and adds the record of every node to
/// `node_info`, numbering the nodes from `*node_id` on and their
/// constraints from `*init_c` on, and lets every node join its class.
/// Returns the number of the root.
pub fn build_structure_nodes(
    tree_constraints: &TreeConstraints,
    node_id: &mut usize,
    init_c: &mut usize,
    node_info: &mut Vec<NodeInfo>,
    equivalence_nodes: &mut Vec<(usize, Vec<usize>)>,
) -> (my_node_id: usize)
    requires
        tree_constraints.wf(),
        *old(node_id) == old(node_info)@.len(),
    ensures
        my_node_id == *old(node_id),
        *final(node_id) == final(node_info)@.len(),
        final(node_info)@.len() == old(node_info)@.len() + tree_constraints.size(),
        forall|i: int| 0 <= i < old(node_info)@.len() ==> final(node_info)@[i] == old(node_info)@[i],
        info_views(final(node_info)@) == info_views(old(node_info)@) + tree_constraints.tree_infos(
            old(node_info)@.len(),
            *old(init_c) as nat,
        ),
        *final(init_c) == capped((*old(init_c) + tree_constraints.total_constraints()) as nat),
        class_views(final(equivalence_nodes)@) == tree_constraints.tree_classes(
            class_views(old(equivalence_nodes)@),
            old(node_info)@.len(),
        ),
{
    let ghost c = *init_c as nat;
    walk_structure(tree_constraints, node_id, init_c, node_info, equivalence_nodes, Ghost(c))
}

/// The walk of `build_structure_nodes`, with the number `c` of constraints
/// that come before the tree, of which `*init_c` is the machine word.
fn walk_structure(
    tree_constraints: &TreeConstraints,
    node_id: &mut usize,
    init_c: &mut usize,
    node_info: &mut Vec<NodeInfo>,
    equivalence_nodes: &mut Vec<(usize, Vec<usize>)>,
    Ghost(c): Ghost<nat>,
) -> (my_node_id: usize)
    requires
        tree_constraints.wf(),
        *old(node_id) == old(node_info)@.len(),
        *old(init_c) == capped(c),
    ensures
        my_node_id == *old(node_id),
        *final(node_id) == final(node_info)@.len(),
        final(node_info)@.len() == old(node_info)@.len() + tree_constraints.size(),
        forall|i: int| 0 <= i < old(node_info)@.len() ==> final(node_info)@[i] == old(node_info)@[i],
        info_views(final(node_info)@) == info_views(old(node_info)@) + tree_constraints.tree_infos(
            old(node_info)@.len(),
            c,
        ),
        *final(init_c) == capped(c + tree_constraints.total_constraints()),
        class_views(final(equivalence_nodes)@) == tree_constraints.tree_classes(
            class_views(old(equivalence_nodes)@),
            old(node_info)@.len(),
        ),
    decreases tree_constraints,
{
    let t = tree_constraints;
    let ghost given = node_info@;
    let ghost given_classes = class_views(equivalence_nodes@);
    let my_node_id: usize = *node_id;
    let ghost my = my_node_id as nat;
    join_class(equivalence_nodes, t.node_id, my_node_id);

    let n_constraints: usize = t.constraints.len();
    let mut constraints: Vec<usize> = Vec::new();
    let ghost numbers = Seq::new(n_constraints as nat, |i: int| capped((c + i) as nat));
    let mut i: usize = 0;
    while i < n_constraints
        invariant
            i <= n_constraints,
            *init_c == capped(c),
            numbers == Seq::new(n_constraints as nat, |i: int| capped((c + i) as nat)),
            constraints@ == numbers.take(i as int),
        decreases n_constraints - i,
    {
        constraints.push((*init_c).saturating_add(i));
        assert(constraints@ =~= numbers.take(i + 1));
        i += 1;
    }
    assert(numbers.take(n_constraints as int) =~= numbers);
    *init_c = (*init_c).saturating_add(n_constraints);

    let output_signals = run_of(t.initial_signal, t.number_outputs);
    let input_signals = run_of(t.initial_signal + t.number_outputs, t.number_inputs);
    let signals = run_of(t.initial_signal, t.number_signals);
    let new_node = NodeInfo {
        node_id: my_node_id,
        constraints,
        input_signals,
        output_signals,
        signals,
        successors: Vec::new(),
    };
    node_info.push(new_node);
    *node_id = node_info.len();

    let ghost own_c = (c + n_constraints) as nat;
    let mut successors: Vec<usize> = Vec::new();
    let ghost ids = t.own_info(my, c).successors;
    let mut k: usize = 0;
    assert(info_views(node_info@) =~= info_views(given).push(node_info@[my as int]@) + t.forest_infos(
        0,
        my,
        own_c,
    ));
    while k < t.subcomponents.len()
        invariant
            k <= t.subcomponents.len(),
            t == tree_constraints,
            t.wf(),
            my == given.len(),
            my == my_node_id,
            own_c == c + t.constraints@.len(),
            ids == t.own_info(my, c).successors,
            successors@ == ids.take(k as int),
            *node_id == node_info@.len(),
            node_info@.len() == given.len() + 1 + t.size_upto(k as nat),
            forall|i: int| 0 <= i < given.len() ==> node_info@[i] == given[i],
            node_info@[my as int]@ == (NodeInfoView {
                successors: Seq::empty(),
                ..t.own_info(my, c)
            }),
            info_views(node_info@) == info_views(given).push(node_info@[my as int]@)
                + t.forest_infos(k as nat, my, own_c),
            *init_c == capped(own_c + t.constraints_upto(k as nat)),
            class_views(equivalence_nodes@) == t.forest_classes(
                joined(given_classes, t.node_id, my_node_id),
                k as nat,
                my,
            ),
        decreases t.subcomponents.len() - k,
    {
        let ghost so_far = node_info@;
        let ghost before_views = info_views(node_info@);
        assert(t.subcomponents@[k as int].wf());
        let child_id = walk_structure(
            &tree_constraints.subcomponents[k],
            node_id,
            init_c,
            node_info,
            equivalence_nodes,
            Ghost((own_c + t.constraints_upto(k as nat)) as nat),
        );
        successors.push(child_id);
        proof {
            assert(successors@ =~= ids.take(k + 1));
            assert(node_info@[my as int] == so_far[my as int]);
            assert(info_views(node_info@) =~= info_views(given).push(node_info@[my as int]@)
                + t.forest_infos((k + 1) as nat, my, own_c));
        }
        k += 1;
    }
    assert(ids.take(t.subcomponents@.len() as int) =~= ids);
    let ghost appended = t.forest_infos(t.subcomponents@.len(), my, own_c);
    let ghost before_fix = node_info@;
    let mut own = NodeInfo {
        node_id: my_node_id,
        constraints: Vec::new(),
        input_signals: Vec::new(),
        output_signals: Vec::new(),
        signals: Vec::new(),
        successors,
    };
    std::mem::swap(&mut own.constraints, &mut node_info[my_node_id].constraints);
    std::mem::swap(&mut own.input_signals, &mut node_info[my_node_id].input_signals);
    std::mem::swap(&mut own.output_signals, &mut node_info[my_node_id].output_signals);
    std::mem::swap(&mut own.signals, &mut node_info[my_node_id].signals);
    node_info[my_node_id] = own;
    proof {
        let own_view = t.own_info(my, c);
        assert(node_info@[my as int]@ == own_view);
        assert(info_views(before_fix) == info_views(given).push(before_fix[my as int]@) + appended);
        assert(info_views(node_info@) =~= info_views(before_fix).update(my as int, own_view));
        assert(info_views(node_info@) =~= info_views(given).push(own_view) + appended);
        assert(t.tree_infos(my, c) == seq![own_view] + appended);
        assert(info_views(given).push(own_view) + appended =~= info_views(given) + (seq![own_view]
            + appended));
    }
    my_node_id
}

/// The place of the class `id` in a list of counts, if it is there.
pub open spec fn count_place(counts: Seq<(usize, usize)>, id: usize) -> Option<int>
    decreases counts.len(),
{
    if counts.len() == 0 {
        None
    } else {
        match count_place(counts.drop_last(), id) {
            Some(i) => Some(i),
            None => if counts.last().0 == id { Some(counts.len() - 1) } else { None },
        }
    }
}

/// The counts after `by` has been added to the count of the class `id`; a
/// class that is not there is added with the count `by`. A count that does
/// not fit a machine word is replaced by the largest one.
pub open spec fn bumped(counts: Seq<(usize, usize)>, id: usize, by: usize) -> Seq<(usize, usize)> {
    match count_place(counts, id) {
        Some(i) => counts.update(i, (id, capped((counts[i].1 + by) as nat))),
        None => counts.push((id, by)),
    }
}

/// The list of first constraints after a node with the given name has been
/// noted to start at the constraint `key`: a node that starts where the
/// node before it started, which had no constraint, takes its place.
pub open spec fn noted(starts: Seq<(usize, Seq<char>)>, key: usize, name: Seq<char>) -> Seq<
    (usize, Seq<char>),
> {
    if starts.len() > 0 && starts.last().0 == key {
        starts.drop_last().push((key, name))
    } else {
        starts.push((key, name))
    }
}

/// The contents of a list of first constraints.
pub open spec fn start_views(s: Seq<(usize, String)>) -> Seq<(usize, Seq<char>)> {
    s.map_values(|e: (usize, String)| (e.0, e.1@))
}

/// The counts of the classes and the first constraints of the nodes.
pub struct Counts {
    pub constraints: Seq<(usize, usize)>,
    pub components: Seq<(usize, usize)>,
    pub starts: Seq<(usize, Seq<char>)>,
}

impl TreeConstraints {
    /// The counts after the node has been counted, `c` constraints coming
    /// before its own.
    pub open spec fn counted_node(&self, st: Counts, c: nat) -> Counts {
        Counts {
            constraints: bumped(st.constraints, self.node_id, self.constraints@.len() as usize),
            components: bumped(st.components, self.node_id, 1),
            starts: noted(st.starts, capped(c), self.pretty_template_name@),
        }
    }

    /// The counts after the subtrees of the first `n` components have been
    /// counted, `c` constraints coming before the first of them.
    pub open spec fn counted_forest(&self, st: Counts, n: nat, c: nat) -> Counts
        decreases self, n,
    {
        if n == 0 || n > self.subcomponents@.len() {
            st
        } else {
            self.subcomponents@[n - 1].counted_tree(
                self.counted_forest(st, (n - 1) as nat, c),
                c + self.constraints_upto((n - 1) as nat),
            )
        }
    }

    /// The counts after the tree has been counted in pre-order, `c`
    /// constraints coming before its own.
    pub open spec fn counted_tree(&self, st: Counts, c: nat) -> Counts
        decreases self, self.subcomponents@.len() + 1,
    {
        self.counted_forest(
            self.counted_node(st, c),
            self.subcomponents@.len(),
            c + self.constraints@.len(),
        )
    }
}

/// A count found in a part of the list is found in the whole list, at the
/// same place.
proof fn lemma_count_place_prefix(counts: Seq<(usize, usize)>, id: usize, n: int)
    requires
        0 <= n <= counts.len(),
        count_place(counts.take(n), id) is Some,
    ensures
        count_place(counts, id) == count_place(counts.take(n), id),
    decreases counts.len() - n,
{
    if n < counts.len() {
        assert(counts.take(n + 1).drop_last() =~= counts.take(n));
        lemma_count_place_prefix(counts, id, n + 1);
    } else {
        assert(counts.take(n) =~= counts);
    }
}

/// Adds `by` to the count of the class `id`.
pub fn bump_count(counts: &mut Vec<(usize, usize)>, id: usize, by: usize)
    ensures
        final(counts)@ == bumped(old(counts)@, id, by),
{
    let ghost before = counts@;
    let mut i: usize = 0;
    while i < counts.len()
        invariant
            i <= counts.len(),
            counts@ == before,
            before == old(counts)@,
            count_place(before.take(i as int), id) is None,
        decreases counts.len() - i,
    {
        proof {
            assert(before.take(i + 1).drop_last() =~= before.take(i as int));
            assert(before.take(i + 1).last() == before[i as int]);
        }
        if counts[i].0 == id {
            proof {
                assert(count_place(before.take(i + 1), id) == Some(i as int));
                lemma_count_place_prefix(before, id, i + 1);
            }
            let sum: usize = counts[i].1.saturating_add(by);
            assert(sum == capped((before[i as int].1 + by) as nat));
            counts[i] = (id, sum);
            assert(counts@ =~= before.update(i as int, (id, sum)));
            return ;
        }
        i += 1;
    }
    assert(before.take(counts@.len() as int) =~= before);
    counts.push((id, by));
}

/// Counts the constraints and the components of every class of the tree,
/// and notes for every node the number of its first constraint, the
/// constraints being numbered in pre-order from `*init_c` on.
pub fn count_constraints_node(
    tree_constraints: &TreeConstraints,
    number_constraints: &mut Vec<(usize, usize)>,
    number_components: &mut Vec<(usize, usize)>,
    init_constraint_to_node: &mut Vec<(usize, String)>,
    init_c: &mut usize,
)
    ensures
        (Counts {
            constraints: final(number_constraints)@,
            components: final(number_components)@,
            starts: start_views(final(init_constraint_to_node)@),
        }) == tree_constraints.counted_tree(
            Counts {
                constraints: old(number_constraints)@,
                components: old(number_components)@,
                starts: start_views(old(init_constraint_to_node)@),
            },
            *old(init_c) as nat,
        ),
        *final(init_c) == capped((*old(init_c) + tree_constraints.total_constraints()) as nat),
{
    let ghost c = *init_c as nat;
    walk_counts(
        tree_constraints,
        number_constraints,
        number_components,
        init_constraint_to_node,
        init_c,
        Ghost(c),
    )
}

/// The walk of `count_constraints_node`, with the number `c` of constraints
/// that come before the tree, of which `*init_c` is the machine word.
fn walk_counts(
    tree_constraints: &TreeConstraints,
    number_constraints: &mut Vec<(usize, usize)>,
    number_components: &mut Vec<(usize, usize)>,
    init_constraint_to_node: &mut Vec<(usize, String)>,
    init_c: &mut usize,
    Ghost(c): Ghost<nat>,
)
    requires
        *old(init_c) == capped(c),
    ensures
        (Counts {
            constraints: final(number_constraints)@,
            components: final(number_components)@,
            starts: start_views(final(init_constraint_to_node)@),
        }) == tree_constraints.counted_tree(
            Counts {
                constraints: old(number_constraints)@,
                components: old(number_components)@,
                starts: start_views(old(init_constraint_to_node)@),
            },
            c,
        ),
        *final(init_c) == capped(c + tree_constraints.total_constraints()),
    decreases tree_constraints,
{
    let ghost given = Counts {
        constraints: number_constraints@,
        components: number_components@,
        starts: start_views(init_constraint_to_node@),
    };
    let node_constraints: usize = tree_constraints.constraints.len();
    let ghost starts = start_views(init_constraint_to_node@);
    let name = tree_constraints.pretty_template_name.clone();
    let n_starts: usize = init_constraint_to_node.len();
    if n_starts > 0 && init_constraint_to_node[n_starts - 1].0 == *init_c {
        init_constraint_to_node[n_starts - 1] = (*init_c, name);
        assert(start_views(init_constraint_to_node@) =~= starts.drop_last().push(
            (capped(c), tree_constraints.pretty_template_name@),
        ));
    } else {
        init_constraint_to_node.push((*init_c, name));
        assert(start_views(init_constraint_to_node@) =~= starts.push(
            (capped(c), tree_constraints.pretty_template_name@),
        ));
    }
    bump_count(number_constraints, tree_constraints.node_id, node_constraints);
    bump_count(number_components, tree_constraints.node_id, 1);
    *init_c = (*init_c).saturating_add(node_constraints);
    let ghost own = tree_constraints.counted_node(given, c);
    let ghost own_c = (c + node_constraints) as nat;
    let mut k: usize = 0;
    while k < tree_constraints.subcomponents.len()
        invariant
            k <= tree_constraints.subcomponents.len(),
            own_c == c + tree_constraints.constraints@.len(),
            (Counts {
                constraints: number_constraints@,
                components: number_components@,
                starts: start_views(init_constraint_to_node@),
            }) == tree_constraints.counted_forest(own, k as nat, own_c),
            *init_c == capped(own_c + tree_constraints.constraints_upto(k as nat)),
        decreases tree_constraints.subcomponents.len() - k,
    {
        walk_counts(
            &tree_constraints.subcomponents[k],
            number_constraints,
            number_components,
            init_constraint_to_node,
            init_c,
            Ghost((own_c + tree_constraints.constraints_upto(k as nat)) as nat),
        );
        k += 1;
    }
}

} // verus!
