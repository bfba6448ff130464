//! The verification of a whole tree of template instances, and what is
//! reported of it.
use vstd::prelude::*;
use num_bigint_dig::BigInt;
use crate::bigint::value_of;
use crate::verdict::PossibleResult;
use crate::verification::{Obligation, ProofAttempt, capped};
use crate::tree::{TreeConstraints, NodeReport, Options, node_at, lemma_node_at_push, classes, uniform};
use crate::config::NodeInfo;
use crate::structure::{
    Counts,
    info_views,
    class_views,
    start_views,
    build_structure_nodes,
    count_constraints_node,
};

verus! {

/// The report on one class of template instances.
#[derive(Debug)]
pub struct StudiedNode {
    /// The class: the `node_id` that its instances share.
    pub node_id: usize,
    pub report: NodeReport,
}

/// Whether `r` can be the answer to an obligation that is or is not asked
/// for, whatever the node: not studied exactly where it is not asked for,
/// and with a counterexample only where it failed.
pub open spec fn plausible(requested: bool, r: ProofAttempt) -> bool {
    &&& (r.result == PossibleResult::NOSTUDIED) == !requested
    &&& r.result != PossibleResult::FAILED ==> r.model@.len() == 0
}

/// Whether the table has a report on the class `id`.
pub open spec fn has_class(s: Seq<StudiedNode>, id: usize) -> bool {
    exists|i: int| 0 <= i < s.len() && (#[trigger] s[i]).node_id == id
}

/// Whether the table has at most one report on each class.
pub open spec fn distinct_classes(s: Seq<StudiedNode>) -> bool {
    forall|i: int, j: int|
        0 <= i < j < s.len() ==> (#[trigger] s[i]).node_id != (#[trigger] s[j]).node_id
}

/// Whether the table `a` is the beginning of the table `b`.
pub open spec fn begins(a: Seq<StudiedNode>, b: Seq<StudiedNode>) -> bool {
    a.len() <= b.len() && forall|i: int| 0 <= i < a.len() ==> a[i] == b[i]
}

/// Two instances of one class have one report, and so the same verdicts.
pub proof fn lemma_one_report_per_class(s: Seq<StudiedNode>, i: int, j: int)
    requires
        distinct_classes(s),
        0 <= i < s.len(),
        0 <= j < s.len(),
        s[i].node_id == s[j].node_id,
    ensures
        i == j,
        s[i].report == s[j].report,
{
}

/// The place of the report on the class `id`, if there is one.
pub fn find_studied(studied_nodes: &Vec<StudiedNode>, id: usize) -> (r: Option<usize>)
    ensures
        match r {
            Some(i) => i < studied_nodes@.len() && studied_nodes@[i as int].node_id == id,
            None => !has_class(studied_nodes@, id),
        },
{
    let mut i: usize = 0;
    while i < studied_nodes.len()
        invariant
            i <= studied_nodes.len(),
            forall|k: int| 0 <= k < i ==> (#[trigger] studied_nodes@[k]).node_id != id,
        decreases studied_nodes.len() - i,
    {
        if studied_nodes[i].node_id == id {
            return Some(i);
        }
        i += 1;
    }
    None
}

/// Whether the table has a report on the class of every node of a list.
pub open spec fn all_known(s: Seq<StudiedNode>, nodes: Seq<TreeConstraints>) -> bool {
    forall|i: int| 0 <= i < nodes.len() ==> has_class(s, (#[trigger] nodes[i]).node_id)
}

/// Whether the table has a report on the class of every node of the tree,
/// at any depth.
pub open spec fn covered(s: Seq<StudiedNode>, t: TreeConstraints) -> bool {
    forall|p: Seq<int>|
        (#[trigger] node_at(t, p)) is Some ==> has_class(s, node_at(t, p).unwrap().node_id)
}

/// Whether the table is closed in the tree: where it has a report on the
/// class of a node of the tree, it has one on the class of each component
/// of the node.
pub open spec fn closed(s: Seq<StudiedNode>, t: TreeConstraints) -> bool {
    forall|p: Seq<int>|
        (#[trigger] node_at(t, p)) is Some && has_class(s, node_at(t, p).unwrap().node_id)
            ==> all_known(s, node_at(t, p).unwrap().subcomponents@)
}

/// Whether the record at place `k` of the table is the report on a node of
/// the tree, verified under the options after the classes of all its
/// components had their reports.
pub open spec fn reports_on(t: TreeConstraints, o: Options, s: Seq<StudiedNode>, k: int) -> bool {
    exists|p: Seq<int>|
        {
            &&& (#[trigger] node_at(t, p)) is Some
            &&& node_at(t, p).unwrap().node_id == s[k].node_id
            &&& node_at(t, p).unwrap().verified(o, s[k].report)
            &&& all_known(s.take(k), node_at(t, p).unwrap().subcomponents@)
        }
}

/// A class that has a report keeps it when the table grows.
pub proof fn lemma_has_class_grows(a: Seq<StudiedNode>, b: Seq<StudiedNode>, id: usize)
    requires
        begins(a, b),
        has_class(a, id),
    ensures
        has_class(b, id),
{
    let i = choose|i: int| 0 <= i < a.len() && (#[trigger] a[i]).node_id == id;
    assert(b[i].node_id == id);
}

/// A table that is closed in a tree and has a report on the class of its
/// root has a report on the class of every node.
pub proof fn lemma_closed_covers(s: Seq<StudiedNode>, t: TreeConstraints, p: Seq<int>)
    requires
        closed(s, t),
        has_class(s, t.node_id),
        node_at(t, p) is Some,
    ensures
        has_class(s, node_at(t, p).unwrap().node_id),
    decreases p.len(),
{
    if p.len() > 0 {
        let q = p.drop_last();
        let i = p.last();
        assert(q.push(i) =~= p);
        lemma_node_at_push(t, q, i);
        lemma_closed_covers(s, t, q);
        let a = node_at(t, q).unwrap();
        assert(all_known(s, a.subcomponents@));
        assert(has_class(s, a.subcomponents@[i].node_id));
    }
}

/// The table stays closed in a tree of uniform classes when the report on
/// a node is added whose components all have their reports.
proof fn lemma_closed_grows(
    s: Seq<StudiedNode>,
    rec: StudiedNode,
    whole: TreeConstraints,
    path: Seq<int>,
)
    requires
        uniform(whole),
        closed(s, whole),
        node_at(whole, path) is Some,
        node_at(whole, path).unwrap().node_id == rec.node_id,
        all_known(s, node_at(whole, path).unwrap().subcomponents@),
    ensures
        closed(s.push(rec), whole),
{
    let grown = s.push(rec);
    let t = node_at(whole, path).unwrap();
    assert(begins(s, grown));
    assert forall|p: Seq<int>|
        (#[trigger] node_at(whole, p)) is Some && has_class(
            grown,
            node_at(whole, p).unwrap().node_id,
        ) implies all_known(grown, node_at(whole, p).unwrap().subcomponents@) by {
        let a = node_at(whole, p).unwrap();
        let at = choose|i: int| 0 <= i < grown.len() && (#[trigger] grown[i]).node_id == a.node_id;
        assert forall|i: int| 0 <= i < a.subcomponents@.len() implies has_class(
            grown,
            (#[trigger] a.subcomponents@[i]).node_id,
        ) by {
            if at < s.len() {
                assert(s[at].node_id == a.node_id);
                assert(has_class(s, a.node_id));
                assert(all_known(s, a.subcomponents@));
                lemma_has_class_grows(s, grown, a.subcomponents@[i].node_id);
            } else {
                assert(a.node_id == t.node_id);
                assert(classes(a.subcomponents@) == classes(t.subcomponents@));
                assert(classes(a.subcomponents@).len() == a.subcomponents@.len());
                assert(classes(t.subcomponents@).len() == t.subcomponents@.len());
                assert(classes(a.subcomponents@)[i] == a.subcomponents@[i].node_id);
                assert(classes(t.subcomponents@)[i] == t.subcomponents@[i].node_id);
                assert(has_class(s, t.subcomponents@[i].node_id));
                lemma_has_class_grows(s, grown, t.subcomponents@[i].node_id);
            }
        }
    }
}

/// Verifies the node at the end of `path` in the tree `whole` and the nodes
/// below it, from the leaves up.
fn walk(
    tree_constraints: &TreeConstraints,
    studied_nodes: &mut Vec<StudiedNode>,
    field: &BigInt,
    verification_timeout: u64,
    check_tags: bool,
    check_postconditions: bool,
    check_safety: bool,
    add_tags_info: bool,
    add_postconditions_info: bool,
    apply_deduction_assigned: bool,
    quotient_limit: &BigInt,
    Ghost(whole): Ghost<TreeConstraints>,
    Ghost(path): Ghost<Seq<int>>,
)
    requires
        tree_constraints.wf(),
        value_of(*field) > 1,
        distinct_classes(old(studied_nodes)@),
        node_at(whole, path) == Some(*tree_constraints),
    ensures
        distinct_classes(final(studied_nodes)@),
        begins(old(studied_nodes)@, final(studied_nodes)@),
        has_class(final(studied_nodes)@, tree_constraints.node_id),
        has_class(old(studied_nodes)@, tree_constraints.node_id) ==> final(studied_nodes)@ == old(
            studied_nodes,
        )@,
        uniform(whole) && closed(old(studied_nodes)@, whole) ==> closed(
            final(studied_nodes)@,
            whole,
        ),
        forall|k: int|
            old(studied_nodes)@.len() <= k < final(studied_nodes)@.len() ==> #[trigger] reports_on(
                whole,
                (Options {
                    field: value_of(*field),
                    verification_timeout,
                    check_tags,
                    check_postconditions,
                    check_safety,
                    add_tags_info,
                    add_postconditions_info,
                    apply_deduction_assigned,
                    quotient_limit: value_of(*quotient_limit),
                }),
                final(studied_nodes)@,
                k,
            ),
    decreases tree_constraints,
{
    let ghost given = studied_nodes@;
    let ghost o = Options {
        field: value_of(*field),
        verification_timeout,
        check_tags,
        check_postconditions,
        check_safety,
        add_tags_info,
        add_postconditions_info,
        apply_deduction_assigned,
        quotient_limit: value_of(*quotient_limit),
    };
    match find_studied(studied_nodes, tree_constraints.node_id) {
        Some(at) => {
            assert(given[at as int].node_id == tree_constraints.node_id);
            return ;
        },
        None => {},
    }
    let mut i: usize = 0;
    while i < tree_constraints.subcomponents.len()
        invariant
            i <= tree_constraints.subcomponents.len(),
            tree_constraints.wf(),
            value_of(*field) > 1,
            node_at(whole, path) == Some(*tree_constraints),
            o == (Options {
                field: value_of(*field),
                verification_timeout,
                check_tags,
                check_postconditions,
                check_safety,
                add_tags_info,
                add_postconditions_info,
                apply_deduction_assigned,
                quotient_limit: value_of(*quotient_limit),
            }),
            distinct_classes(studied_nodes@),
            begins(given, studied_nodes@),
            uniform(whole) && closed(given, whole) ==> closed(studied_nodes@, whole),
            all_known(studied_nodes@, tree_constraints.subcomponents@.take(i as int)),
            forall|k: int|
                given.len() <= k < studied_nodes@.len() ==> #[trigger] reports_on(
                    whole,
                    o,
                    studied_nodes@,
                    k,
                ),
        decreases tree_constraints.subcomponents.len() - i,
    {
        assert(tree_constraints.subcomponents@[i as int].wf());
        let ghost so_far = studied_nodes@;
        proof {
            lemma_node_at_push(whole, path, i as int);
        }
        walk(
            &tree_constraints.subcomponents[i],
            studied_nodes,
            field,
            verification_timeout,
            check_tags,
            check_postconditions,
            check_safety,
            add_tags_info,
            add_postconditions_info,
            apply_deduction_assigned,
            quotient_limit,
            Ghost(whole),
            Ghost(path.push(i as int)),
        );
        proof {
            let now = studied_nodes@;
            assert forall|k: int| given.len() <= k < now.len() implies #[trigger] reports_on(
                whole,
                o,
                now,
                k,
            ) by {
                if k < so_far.len() {
                    lemma_reports_on_grows(whole, o, so_far, now, k);
                }
            }
            let before = tree_constraints.subcomponents@.take(i as int);
            let after = tree_constraints.subcomponents@.take(i + 1);
            assert forall|j: int| 0 <= j < after.len() implies has_class(
                now,
                (#[trigger] after[j]).node_id,
            ) by {
                if j < i {
                    assert(before[j] == after[j]);
                    lemma_has_class_grows(so_far, now, before[j].node_id);
                }
            }
        }
        i += 1;
    }
    assert(tree_constraints.subcomponents@.take(i as int) =~= tree_constraints.subcomponents@);
    match find_studied(studied_nodes, tree_constraints.node_id) {
        Some(at) => {},
        None => {
            let report = tree_constraints.check_tags(
                field,
                verification_timeout,
                check_tags,
                check_postconditions,
                check_safety,
                add_tags_info,
                add_postconditions_info,
                apply_deduction_assigned,
                quotient_limit,
            );
            let ghost so_far = studied_nodes@;
            studied_nodes.push(StudiedNode { node_id: tree_constraints.node_id, report });
            assert(studied_nodes@[so_far.len() as int].node_id == tree_constraints.node_id);
            assert forall|a: int, b: int| 0 <= a < b < studied_nodes@.len() implies (
            #[trigger] studied_nodes@[a]).node_id != (#[trigger] studied_nodes@[b]).node_id by {
                if b == so_far.len() {
                    assert(so_far[a].node_id != tree_constraints.node_id);
                } else {
                    assert(so_far[a].node_id != so_far[b].node_id);
                }
            }
            proof {
                let now = studied_nodes@;
                assert(now =~= so_far.push(now[so_far.len() as int]));
                assert(begins(so_far, now));
                assert(now.take(so_far.len() as int) =~= so_far);
                assert(reports_on(whole, o, now, so_far.len() as int)) by {
                    assert(node_at(whole, path) is Some);
                }
                assert forall|k: int| given.len() <= k < now.len() implies #[trigger] reports_on(
                    whole,
                    o,
                    now,
                    k,
                ) by {
                    if k < so_far.len() {
                        lemma_reports_on_grows(whole, o, so_far, now, k);
                    }
                }
                if uniform(whole) && closed(given, whole) {
                    lemma_closed_grows(so_far, now[so_far.len() as int], whole, path);
                }
            }
        },
    }
}

/// A record that reports on a node of the tree still does when the table
/// grows.
proof fn lemma_reports_on_grows(
    t: TreeConstraints,
    o: Options,
    a: Seq<StudiedNode>,
    b: Seq<StudiedNode>,
    k: int,
)
    requires
        begins(a, b),
        0 <= k < a.len(),
        reports_on(t, o, a, k),
    ensures
        reports_on(t, o, b, k),
{
    let p = choose|p: Seq<int>|
        {
            &&& (#[trigger] node_at(t, p)) is Some
            &&& node_at(t, p).unwrap().node_id == a[k].node_id
            &&& node_at(t, p).unwrap().verified(o, a[k].report)
            &&& all_known(a.take(k), node_at(t, p).unwrap().subcomponents@)
        };
    assert(a.take(k) =~= b.take(k));
    assert(b[k] == a[k]);
    assert(node_at(t, p) is Some);
}

/// Verifies the tree from the leaves up. A node is verified after its
/// components, and once for its class: the report on a class that the table
/// already has stands, and neither the node nor the nodes below it are
/// looked at again. Every new record reports on a node of the tree. In a
/// tree of uniform classes every node, at any depth, then has the report
/// on its class.
pub fn check_tags_node(
    tree_constraints: &TreeConstraints,
    studied_nodes: &mut Vec<StudiedNode>,
    field: &BigInt,
    verification_timeout: u64,
    check_tags: bool,
    check_postconditions: bool,
    check_safety: bool,
    add_tags_info: bool,
    add_postconditions_info: bool,
    apply_deduction_assigned: bool,
    quotient_limit: &BigInt,
)
    requires
        tree_constraints.wf(),
        value_of(*field) > 1,
        distinct_classes(old(studied_nodes)@),
    ensures
        distinct_classes(final(studied_nodes)@),
        begins(old(studied_nodes)@, final(studied_nodes)@),
        has_class(final(studied_nodes)@, tree_constraints.node_id),
        has_class(old(studied_nodes)@, tree_constraints.node_id) ==> final(studied_nodes)@ == old(
            studied_nodes,
        )@,
        uniform(*tree_constraints) && closed(old(studied_nodes)@, *tree_constraints) ==> covered(
            final(studied_nodes)@,
            *tree_constraints,
        ),
        forall|k: int|
            old(studied_nodes)@.len() <= k < final(studied_nodes)@.len() ==> #[trigger] reports_on(
                *tree_constraints,
                (Options {
                    field: value_of(*field),
                    verification_timeout,
                    check_tags,
                    check_postconditions,
                    check_safety,
                    add_tags_info,
                    add_postconditions_info,
                    apply_deduction_assigned,
                    quotient_limit: value_of(*quotient_limit),
                }),
                final(studied_nodes)@,
                k,
            ),
        forall|k: int|
            old(studied_nodes)@.len() <= k < final(studied_nodes)@.len() ==> {
                let r = (#[trigger] final(studied_nodes)@[k]).report;
                &&& plausible(check_tags, r.tags)
                &&& plausible(check_postconditions, r.postconditions)
                &&& plausible(check_safety, r.safety)
            },
{
    let ghost given = studied_nodes@;
    walk(
        tree_constraints,
        studied_nodes,
        field,
        verification_timeout,
        check_tags,
        check_postconditions,
        check_safety,
        add_tags_info,
        add_postconditions_info,
        apply_deduction_assigned,
        quotient_limit,
        Ghost(*tree_constraints),
        Ghost(Seq::empty()),
    );
    proof {
        let now = studied_nodes@;
        let o = Options {
            field: value_of(*field),
            verification_timeout,
            check_tags,
            check_postconditions,
            check_safety,
            add_tags_info,
            add_postconditions_info,
            apply_deduction_assigned,
            quotient_limit: value_of(*quotient_limit),
        };
        if uniform(*tree_constraints) && closed(given, *tree_constraints) {
            assert forall|p: Seq<int>| (#[trigger] node_at(*tree_constraints, p)) is Some implies has_class(
                now,
                node_at(*tree_constraints, p).unwrap().node_id,
            ) by {
                lemma_closed_covers(now, *tree_constraints, p);
            }
        }
        assert forall|k: int| given.len() <= k < now.len() implies {
            let r = (#[trigger] now[k]).report;
            &&& plausible(check_tags, r.tags)
            &&& plausible(check_postconditions, r.postconditions)
            &&& plausible(check_safety, r.safety)
        } by {
            assert(reports_on(*tree_constraints, o, now, k));
        }
    }
}

/// How the nodes fared on one obligation: the classes that are verified,
/// those that failed, and those for which the solver ran out of time or the
/// encoding was too big, each in the order of the table.
#[derive(Debug)]
pub struct Tally {
    pub verified: Vec<usize>,
    pub failed: Vec<usize>,
    pub timeout: Vec<usize>,
}

/// The bucket of a verdict.
#[derive(Clone, Copy, Debug, PartialEq, Eq, Structural)]
pub enum Bucket {
    Verified,
    Failed,
    Timeout,
}

/// The bucket that a verdict is counted in: a counterexample fails the
/// node; no answer and an encoding that is too big count as a timeout;
/// every other verdict counts as verified.
pub open spec fn bucket_of(r: PossibleResult) -> Bucket {
    match r {
        PossibleResult::FAILED => Bucket::Failed,
        PossibleResult::UNKNOWN => Bucket::Timeout,
        PossibleResult::TOO_BIG => Bucket::Timeout,
        _ => Bucket::Verified,
    }
}

/// The verdict of a report on an obligation.
pub open spec fn verdict_on(n: StudiedNode, kind: Obligation) -> PossibleResult {
    match kind {
        Obligation::Tags => n.report.tags.result,
        Obligation::Postconditions => n.report.postconditions.result,
        Obligation::Safety => n.report.safety.result,
    }
}

/// The classes of the table whose verdict on an obligation falls in a
/// bucket, in the order of the table.
pub open spec fn classes_in(s: Seq<StudiedNode>, kind: Obligation, bucket: Bucket) -> Seq<usize>
    decreases s.len(),
{
    if s.len() == 0 {
        Seq::empty()
    } else if bucket_of(verdict_on(s.last(), kind)) == bucket {
        classes_in(s.drop_last(), kind, bucket).push(s.last().node_id)
    } else {
        classes_in(s.drop_last(), kind, bucket)
    }
}

/// Every class of the table falls in exactly one bucket for an obligation:
/// the numbers of the classes that are verified, that failed and that ran
/// out of time add up to the number of classes.
pub proof fn lemma_buckets_partition(s: Seq<StudiedNode>, kind: Obligation)
    ensures
        classes_in(s, kind, Bucket::Verified).len() + classes_in(s, kind, Bucket::Failed).len()
            + classes_in(s, kind, Bucket::Timeout).len() == s.len(),
    decreases s.len(),
{
    if s.len() > 0 {
        lemma_buckets_partition(s.drop_last(), kind);
    }
}

/// Where every record of the table reports on a node of the tree and every
/// node of the tree has the report on its class, the classes of the table
/// are the classes of the nodes of the tree.
pub proof fn lemma_table_holds_the_classes(
    t: TreeConstraints,
    o: Options,
    s: Seq<StudiedNode>,
    id: usize,
)
    requires
        covered(s, t),
        forall|k: int| 0 <= k < s.len() ==> #[trigger] reports_on(t, o, s, k),
    ensures
        has_class(s, id) <==> exists|p: Seq<int>|
            (#[trigger] node_at(t, p)) is Some && node_at(t, p).unwrap().node_id == id,
{
    if has_class(s, id) {
        let k = choose|k: int| 0 <= k < s.len() && (#[trigger] s[k]).node_id == id;
        assert(reports_on(t, o, s, k));
        let p = choose|p: Seq<int>|
            {
                &&& (#[trigger] node_at(t, p)) is Some
                &&& node_at(t, p).unwrap().node_id == s[k].node_id
                &&& node_at(t, p).unwrap().verified(o, s[k].report)
                &&& all_known(s.take(k), node_at(t, p).unwrap().subcomponents@)
            };
        assert(node_at(t, p) is Some && node_at(t, p).unwrap().node_id == id);
    }
}

/// Sorts the classes of the table by their verdict on an obligation.
pub fn tally(studied_nodes: &Vec<StudiedNode>, kind: Obligation) -> (r: Tally)
    ensures
        r.verified@ == classes_in(studied_nodes@, kind, Bucket::Verified),
        r.failed@ == classes_in(studied_nodes@, kind, Bucket::Failed),
        r.timeout@ == classes_in(studied_nodes@, kind, Bucket::Timeout),
{
    let mut verified: Vec<usize> = Vec::new();
    let mut failed: Vec<usize> = Vec::new();
    let mut timeout: Vec<usize> = Vec::new();
    let mut i: usize = 0;
    while i < studied_nodes.len()
        invariant
            i <= studied_nodes.len(),
            verified@ == classes_in(studied_nodes@.take(i as int), kind, Bucket::Verified),
            failed@ == classes_in(studied_nodes@.take(i as int), kind, Bucket::Failed),
            timeout@ == classes_in(studied_nodes@.take(i as int), kind, Bucket::Timeout),
        decreases studied_nodes.len() - i,
    {
        proof {
            assert(studied_nodes@.take(i + 1).drop_last() =~= studied_nodes@.take(i as int));
            assert(studied_nodes@.take(i + 1).last() == studied_nodes@[i as int]);
        }
        let node = &studied_nodes[i];
        let result = match kind {
            Obligation::Tags => node.report.tags.result,
            Obligation::Postconditions => node.report.postconditions.result,
            Obligation::Safety => node.report.safety.result,
        };
        match result {
            PossibleResult::FAILED => failed.push(node.node_id),
            PossibleResult::UNKNOWN => timeout.push(node.node_id),
            PossibleResult::TOO_BIG => timeout.push(node.node_id),
            _ => verified.push(node.node_id),
        }
        i += 1;
    }
    assert(studied_nodes@.take(studied_nodes@.len() as int) =~= studied_nodes@);
    Tally { verified, failed, timeout }
}

/// Whether safety is verified for the class `id`.
pub open spec fn safe_class(s: Seq<StudiedNode>, id: usize) -> bool {
    exists|i: int|
        0 <= i < s.len() && (#[trigger] s[i]).node_id == id && s[i].report.safety.result
            == PossibleResult::VERIFIED
}

/// The sum of the counts of all classes, and the sum of the counts of the
/// classes for which safety is verified.
pub open spec fn verified_share(s: Seq<StudiedNode>, counts: Seq<(usize, usize)>) -> (nat, nat)
    decreases counts.len(),
{
    if counts.len() == 0 {
        (0, 0)
    } else {
        let before = verified_share(s, counts.drop_last());
        (
            before.0 + counts.last().1 as nat,
            before.1 + if safe_class(s, counts.last().0) {
                counts.last().1 as nat
            } else {
                0nat
            },
        )
    }
}

/// Sums the counts of all classes and the counts of the classes for which
/// safety is verified; each sum is the largest machine word where it does
/// not fit one.
pub fn compute_percentage_verified(
    studied_nodes: &Vec<StudiedNode>,
    number_constraints: &Vec<(usize, usize)>,
) -> (r: (usize, usize))
    requires
        distinct_classes(studied_nodes@),
    ensures
        r.0 == capped(verified_share(studied_nodes@, number_constraints@).0),
        r.1 == capped(verified_share(studied_nodes@, number_constraints@).1),
{
    let mut total_cons: usize = 0;
    let mut verified_cons: usize = 0;
    let mut i: usize = 0;
    while i < number_constraints.len()
        invariant
            i <= number_constraints.len(),
            distinct_classes(studied_nodes@),
            total_cons == capped(
                verified_share(studied_nodes@, number_constraints@.take(i as int)).0,
            ),
            verified_cons == capped(
                verified_share(studied_nodes@, number_constraints@.take(i as int)).1,
            ),
        decreases number_constraints.len() - i,
    {
        proof {
            assert(number_constraints@.take(i + 1).drop_last() =~= number_constraints@.take(
                i as int,
            ));
            assert(number_constraints@.take(i + 1).last() == number_constraints@[i as int]);
        }
        let id: usize = number_constraints[i].0;
        let n_cons: usize = number_constraints[i].1;
        total_cons = total_cons.saturating_add(n_cons);
        let safe = match find_studied(studied_nodes, id) {
            Some(at) => {
                let verified = match studied_nodes[at].report.safety.result {
                    PossibleResult::VERIFIED => true,
                    _ => false,
                };
                proof {
                    if !verified && safe_class(studied_nodes@, id) {
                        let other = choose|k: int|
                            0 <= k < studied_nodes@.len() && (#[trigger] studied_nodes@[k]).node_id
                                == id && studied_nodes@[k].report.safety.result
                                == PossibleResult::VERIFIED;
                        lemma_one_report_per_class(studied_nodes@, at as int, other);
                    }
                }
                verified
            },
            None => false,
        };
        if safe {
            verified_cons = verified_cons.saturating_add(n_cons);
        }
        i += 1;
    }
    assert(number_constraints@.take(number_constraints@.len() as int) =~= number_constraints@);
    (total_cons, verified_cons)
}

/// All that one run finds out of a tree of template instances.
#[derive(Debug)]
pub struct VerificationRun {
    /// The report on every class, in the order in which the classes were
    /// verified.
    pub studied_nodes: Vec<StudiedNode>,
    /// The number of constraints of every class.
    pub number_constraints: Vec<(usize, usize)>,
    /// The number of instances of every class.
    pub number_components: Vec<(usize, usize)>,
    /// The number of the first constraint of every node, with its name.
    pub init_constraint_to_node: Vec<(usize, String)>,
    /// The record of every node, in pre-order.
    pub node_info: Vec<NodeInfo>,
    /// The classes of the nodes, each with its members.
    pub equivalence_nodes: Vec<(usize, Vec<usize>)>,
    pub tags: Tally,
    pub postconditions: Tally,
    pub safety: Tally,
    /// The number of constraints, and of those in classes for which safety
    /// is verified.
    pub constraints_share: (usize, usize),
    /// The number of components, and of those in classes for which safety
    /// is verified.
    pub components_share: (usize, usize),
}

/// The classes in a bucket for an obligation that is asked for; none for
/// one that is not.
pub open spec fn tallied(s: Seq<StudiedNode>, kind: Obligation, requested: bool, bucket: Bucket) -> Seq<
    usize,
> {
    if requested { classes_in(s, kind, bucket) } else { Seq::empty() }
}

/// Sorts the classes by their verdict on an obligation that is asked for.
fn tally_if(studied_nodes: &Vec<StudiedNode>, kind: Obligation, requested: bool) -> (r: Tally)
    ensures
        r.verified@ == tallied(studied_nodes@, kind, requested, Bucket::Verified),
        r.failed@ == tallied(studied_nodes@, kind, requested, Bucket::Failed),
        r.timeout@ == tallied(studied_nodes@, kind, requested, Bucket::Timeout),
{
    if requested {
        tally(studied_nodes, kind)
    } else {
        Tally { verified: Vec::new(), failed: Vec::new(), timeout: Vec::new() }
    }
}

/// Verifies every class of the tree and gathers what is reported of the
/// run: the verdicts, the shape of the tree, the counts of the classes, and
/// for every obligation that is asked for the classes by verdict.
pub fn check_tags(
    tree_constraints: &TreeConstraints,
    field: &BigInt,
    verification_timeout: u64,
    verify_tags: bool,
    check_postconditions: bool,
    check_safety: bool,
    add_tags_info: bool,
    add_postconditions_info: bool,
    apply_deduction_assigned: bool,
    quotient_limit: &BigInt,
) -> (run: VerificationRun)
    requires
        tree_constraints.wf(),
        value_of(*field) > 1,
    ensures
        distinct_classes(run.studied_nodes@),
        has_class(run.studied_nodes@, tree_constraints.node_id),
        uniform(*tree_constraints) ==> covered(run.studied_nodes@, *tree_constraints),
        forall|k: int|
            0 <= k < run.studied_nodes@.len() ==> #[trigger] reports_on(
                *tree_constraints,
                (Options {
                    field: value_of(*field),
                    verification_timeout,
                    check_tags: verify_tags,
                    check_postconditions,
                    check_safety,
                    add_tags_info,
                    add_postconditions_info,
                    apply_deduction_assigned,
                    quotient_limit: value_of(*quotient_limit),
                }),
                run.studied_nodes@,
                k,
            ),
        forall|k: int|
            0 <= k < run.studied_nodes@.len() ==> {
                let r = (#[trigger] run.studied_nodes@[k]).report;
                &&& plausible(verify_tags, r.tags)
                &&& plausible(check_postconditions, r.postconditions)
                &&& plausible(check_safety, r.safety)
            },
        (Counts {
            constraints: run.number_constraints@,
            components: run.number_components@,
            starts: start_views(run.init_constraint_to_node@),
        }) == tree_constraints.counted_tree(
            Counts { constraints: Seq::empty(), components: Seq::empty(), starts: Seq::empty() },
            0,
        ),
        info_views(run.node_info@) == tree_constraints.tree_infos(0, 0),
        class_views(run.equivalence_nodes@) == tree_constraints.tree_classes(Seq::empty(), 0),
        forall|bucket: Bucket|
            {
                &&& (#[trigger] bucket_list(run.tags, bucket)) == tallied(
                    run.studied_nodes@,
                    Obligation::Tags,
                    verify_tags,
                    bucket,
                )
                &&& bucket_list(run.postconditions, bucket) == tallied(
                    run.studied_nodes@,
                    Obligation::Postconditions,
                    check_postconditions,
                    bucket,
                )
                &&& bucket_list(run.safety, bucket) == tallied(
                    run.studied_nodes@,
                    Obligation::Safety,
                    check_safety,
                    bucket,
                )
            },
        run.constraints_share == (if check_safety {
            (
                capped(verified_share(run.studied_nodes@, run.number_constraints@).0),
                capped(verified_share(run.studied_nodes@, run.number_constraints@).1),
            )
        } else {
            (0usize, 0usize)
        }),
        run.components_share == (if check_safety {
            (
                capped(verified_share(run.studied_nodes@, run.number_components@).0),
                capped(verified_share(run.studied_nodes@, run.number_components@).1),
            )
        } else {
            (0usize, 0usize)
        }),
{
    let mut studied_nodes: Vec<StudiedNode> = Vec::new();
    assert(closed(studied_nodes@, *tree_constraints));
    check_tags_node(
        tree_constraints,
        &mut studied_nodes,
        field,
        verification_timeout,
        verify_tags,
        check_postconditions,
        check_safety,
        add_tags_info,
        add_postconditions_info,
        apply_deduction_assigned,
        quotient_limit,
    );
    let mut number_constraints: Vec<(usize, usize)> = Vec::new();
    let mut number_components: Vec<(usize, usize)> = Vec::new();
    let mut init_constraint_to_node: Vec<(usize, String)> = Vec::new();
    assert(start_views(init_constraint_to_node@) =~= Seq::empty());
    let mut init_c: usize = 0;
    count_constraints_node(
        tree_constraints,
        &mut number_constraints,
        &mut number_components,
        &mut init_constraint_to_node,
        &mut init_c,
    );
    let mut equivalence_nodes: Vec<(usize, Vec<usize>)> = Vec::new();
    let mut node_info: Vec<NodeInfo> = Vec::new();
    assert(class_views(equivalence_nodes@) =~= Seq::empty());
    assert(info_views(node_info@) =~= Seq::empty());
    let mut init_c: usize = 0;
    let mut node_id: usize = 0;
    build_structure_nodes(
        tree_constraints,
        &mut node_id,
        &mut init_c,
        &mut node_info,
        &mut equivalence_nodes,
    );
    assert(info_views(node_info@) =~= tree_constraints.tree_infos(0, 0));
    let (constraints_share, components_share) = if check_safety {
        (
            compute_percentage_verified(&studied_nodes, &number_constraints),
            compute_percentage_verified(&studied_nodes, &number_components),
        )
    } else {
        ((0, 0), (0, 0))
    };
    let tags = tally_if(&studied_nodes, Obligation::Tags, verify_tags);
    let postconditions = tally_if(&studied_nodes, Obligation::Postconditions, check_postconditions);
    let safety = tally_if(&studied_nodes, Obligation::Safety, check_safety);
    VerificationRun {
        studied_nodes,
        number_constraints,
        number_components,
        init_constraint_to_node,
        node_info,
        equivalence_nodes,
        tags,
        postconditions,
        safety,
        constraints_share,
        components_share,
    }
}

/// The classes that a tally holds in a bucket.
pub open spec fn bucket_list(t: Tally, bucket: Bucket) -> Seq<usize> {
    match bucket {
        Bucket::Verified => t.verified@,
        Bucket::Failed => t.failed@,
        Bucket::Timeout => t.timeout@,
    }
}

} // verus!
