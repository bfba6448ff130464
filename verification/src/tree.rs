//! The tree of template instances and the verification of one of its nodes.
use vstd::prelude::*;
use num_bigint_dig::BigInt;
use crate::bigint::value_of;
use crate::expression::{Expression, views, copy_all};
use crate::constraint::{Constraint, ConstraintView, constraint_views, copy_constraints};
use crate::interval::Iv;
use crate::bounds::bounds_of;
use crate::bigint::big_clone;
use crate::clock::{now, millis_since};
use crate::summary::{ExecutedImplication, ImplicationView, SafetyImplication, implication_views};
use crate::verdict::PossibleResult;
use crate::obligation::safety_views;
use crate::verification::{TemplateVerification, ProofAttempt, Obligation, canonical};

verus! {

/// A template instance with its constraints, its annotations and the
/// instances of its components. The signals of the instance are numbered
/// from `initial_signal` on: first its outputs, then its inputs, then its
/// intermediates.
pub struct TreeConstraints {
    pub constraints: Vec<Constraint>,
    /// The class of the instance: instances of one template with the same
    /// parameters have the same class and are verified once.
    pub node_id: usize,
    pub template_name: String,
    pub pretty_template_name: String,
    pub preconditions: Vec<Expression>,
    pub preconditions_intermediates: Vec<Expression>,
    pub postconditions_intermediates: Vec<Expression>,
    pub postconditions_outputs: Vec<Expression>,
    pub facts: Vec<Expression>,
    pub tags_preconditions: Vec<Expression>,
    pub tags_postconditions_intermediates: Vec<Expression>,
    pub tags_postconditions_outputs: Vec<Expression>,
    pub number_signals: usize,
    pub number_inputs: usize,
    pub number_outputs: usize,
    pub initial_signal: usize,
    pub subcomponents: Vec<TreeConstraints>,
}

impl Default for TreeConstraints {
    /// A node without a name, signals, constraints, annotations or
    /// components.
    fn default() -> (r: TreeConstraints)
        ensures
            r.constraints@.len() == 0,
            r.node_id == 0,
            r.template_name@.len() == 0,
            r.pretty_template_name@.len() == 0,
            r.preconditions@.len() == 0,
            r.preconditions_intermediates@.len() == 0,
            r.postconditions_intermediates@.len() == 0,
            r.postconditions_outputs@.len() == 0,
            r.facts@.len() == 0,
            r.tags_preconditions@.len() == 0,
            r.tags_postconditions_intermediates@.len() == 0,
            r.tags_postconditions_outputs@.len() == 0,
            r.number_signals == 0,
            r.number_inputs == 0,
            r.number_outputs == 0,
            r.initial_signal == 0,
            r.subcomponents@.len() == 0,
    {
        TreeConstraints {
            constraints: Vec::new(),
            node_id: 0,
            template_name: String::new(),
            pretty_template_name: String::new(),
            preconditions: Vec::new(),
            preconditions_intermediates: Vec::new(),
            postconditions_intermediates: Vec::new(),
            postconditions_outputs: Vec::new(),
            facts: Vec::new(),
            tags_preconditions: Vec::new(),
            tags_postconditions_intermediates: Vec::new(),
            tags_postconditions_outputs: Vec::new(),
            number_signals: 0,
            number_inputs: 0,
            number_outputs: 0,
            initial_signal: 0,
            subcomponents: Vec::new(),
        }
    }
}

/// The signals from `first` on, `count` of them.
pub open spec fn signal_run(first: int, count: int) -> Seq<usize> {
    Seq::new(count as nat, |k: int| (first + k) as usize)
}

impl TreeConstraints {
    /// Whether the signals of the node can be numbered: its interface is a
    /// part of its signals, and its last signal fits a machine word.
    pub open spec fn fits(&self) -> bool {
        &&& self.number_inputs + self.number_outputs <= self.number_signals
        &&& self.initial_signal + self.number_signals <= usize::MAX
    }

    /// Whether the signals of the node and of every node below it can be
    /// numbered.
    pub open spec fn wf(&self) -> bool
        decreases self,
    {
        &&& self.fits()
        &&& forall|i: int|
            0 <= i < self.subcomponents@.len() ==> (#[trigger] self.subcomponents@[i]).wf()
    }

    /// The height of the tree `below` the node, counted from the first `n`
    /// components: the largest height among them.
    pub open spec fn height_upto(&self, n: nat) -> nat
        decreases self, n,
    {
        if n == 0 || n > self.subcomponents@.len() {
            0
        } else {
            let rest = self.height_upto((n - 1) as nat);
            let last = self.subcomponents@[n - 1].height();
            if last > rest { last } else { rest }
        }
    }

    /// The height of the tree: one for a node without components.
    pub open spec fn height(&self) -> nat
        decreases self, self.subcomponents@.len() + 1,
    {
        1 + self.height_upto(self.subcomponents@.len())
    }

    /// The signals of the interface of the node: its outputs and inputs.
    pub open spec fn io_signals(&self) -> Seq<usize> {
        signal_run(self.initial_signal as int, self.number_inputs + self.number_outputs)
    }

    /// The intermediate signals of the node.
    pub open spec fn intermediate_signals(&self) -> Seq<usize> {
        signal_run(
            self.initial_signal + self.number_inputs + self.number_outputs,
            self.number_signals - self.number_inputs - self.number_outputs,
        )
    }

    /// What the node hands up of its postconditions: its preconditions and
    /// the tags of its inputs imply its postconditions on outputs. There is
    /// no summary where the node assumes something of its intermediates,
    /// which the node above cannot see, or has no postcondition on outputs.
    pub open spec fn summary(&self) -> Option<ImplicationView> {
        if self.preconditions_intermediates@.len() == 0 && self.postconditions_outputs@.len() > 0 {
            Some(
                ImplicationView {
                    left: views(self.preconditions@) + views(self.tags_preconditions@),
                    right: views(self.postconditions_outputs@),
                },
            )
        } else {
            None
        }
    }

    /// What the node hands up of its tags, under the same conditions.
    pub open spec fn tags_summary(&self) -> Option<ImplicationView> {
        if self.preconditions_intermediates@.len() == 0 && self.tags_postconditions_outputs@.len()
            > 0 {
            Some(
                ImplicationView {
                    left: views(self.preconditions@) + views(self.tags_preconditions@),
                    right: views(self.tags_postconditions_outputs@),
                },
            )
        } else {
            None
        }
    }

    pub fn template_name(&self) -> (r: &String)
        ensures
            *r == self.template_name,
    {
        &self.template_name
    }

    pub fn pretty_template_name(&self) -> (r: &String)
        ensures
            *r == self.pretty_template_name,
    {
        &self.pretty_template_name
    }

    pub fn subcomponents(&self) -> (r: &Vec<TreeConstraints>)
        ensures
            *r == self.subcomponents,
    {
        &self.subcomponents
    }

    pub fn constraints(&self) -> (r: &Vec<Constraint>)
        ensures
            *r == self.constraints,
    {
        &self.constraints
    }

    pub fn node_id(&self) -> (r: usize)
        ensures
            r == self.node_id,
    {
        self.node_id
    }

    pub fn number_signals(&self) -> (r: usize)
        ensures
            r == self.number_signals,
    {
        self.number_signals
    }

    pub fn number_inputs(&self) -> (r: usize)
        ensures
            r == self.number_inputs,
    {
        self.number_inputs
    }

    pub fn number_outputs(&self) -> (r: usize)
        ensures
            r == self.number_outputs,
    {
        self.number_outputs
    }

    pub fn initial_signal(&self) -> (r: usize)
        ensures
            r == self.initial_signal,
    {
        self.initial_signal
    }

    /// The number of postconditions of the node; the largest machine word
    /// where the number does not fit one.
    pub fn get_no_postconditions(&self) -> (r: usize)
        ensures
            r == crate::verification::capped(
                self.postconditions_intermediates@.len() + self.postconditions_outputs@.len(),
            ),
    {
        self.postconditions_intermediates.len().saturating_add(self.postconditions_outputs.len())
    }

    /// The number of tags to prove of the node; the largest machine word
    /// where the number does not fit one.
    pub fn get_no_tags_postconditions(&self) -> (r: usize)
        ensures
            r == crate::verification::capped(
                self.tags_postconditions_intermediates@.len()
                    + self.tags_postconditions_outputs@.len(),
            ),
    {
        self.tags_postconditions_intermediates.len().saturating_add(
            self.tags_postconditions_outputs.len(),
        )
    }

    /// The signals of the interface of the node.
    pub fn generate_io_signals(&self) -> (signals: Vec<usize>)
        requires
            self.fits(),
        ensures
            signals@ == self.io_signals(),
    {
        let mut signals: Vec<usize> = Vec::new();
        let count: usize = self.number_inputs + self.number_outputs;
        let mut s: usize = 0;
        while s < count
            invariant
                s <= count,
                count == self.number_inputs + self.number_outputs,
                self.fits(),
                signals@ == self.io_signals().take(s as int),
            decreases count - s,
        {
            signals.push(s + self.initial_signal);
            assert(signals@ =~= self.io_signals().take(s + 1));
            s += 1;
        }
        assert(self.io_signals().take(count as int) =~= self.io_signals());
        signals
    }

    /// The summary of the tags of the node for the node above.
    pub fn generate_tags_implications(&self) -> (r: Option<ExecutedImplication>)
        ensures
            match r {
                Some(i) => self.tags_summary() == Some(i@),
                None => self.tags_summary() is None,
            },
    {
        if self.preconditions_intermediates.len() == 0 && self.tags_postconditions_outputs.len()
            != 0 {
            let mut left_conditions = copy_all(&self.preconditions);
            let ghost first = views(left_conditions@);
            let mut second = copy_all(&self.tags_preconditions);
            let ghost added = views(second@);
            left_conditions.append(&mut second);
            assert(views(left_conditions@) =~= first + added);
            let right_conditions = copy_all(&self.tags_postconditions_outputs);
            Some(ExecutedImplication { left: left_conditions, right: right_conditions })
        } else {
            None
        }
    }

    /// The summary of the postconditions of the node for the node above.
    pub fn generate_implications(&self) -> (r: Option<ExecutedImplication>)
        ensures
            match r {
                Some(i) => self.summary() == Some(i@),
                None => self.summary() is None,
            },
    {
        if self.preconditions_intermediates.len() == 0 && self.postconditions_outputs.len() != 0 {
            let mut left_conditions = copy_all(&self.preconditions);
            let ghost first = views(left_conditions@);
            let mut second = copy_all(&self.tags_preconditions);
            let ghost added = views(second@);
            left_conditions.append(&mut second);
            assert(views(left_conditions@) =~= first + added);
            let right_conditions = copy_all(&self.postconditions_outputs);
            Some(ExecutedImplication { left: left_conditions, right: right_conditions })
        } else {
            None
        }
    }

    /// The determinism summary of the node for the node above: its inputs
    /// and its outputs.
    pub fn generate_implications_safety(&self) -> (r: SafetyImplication)
        requires
            self.fits(),
        ensures
            r.0@ == signal_run(self.initial_signal + self.number_outputs, self.number_inputs as int),
            r.1@ == signal_run(self.initial_signal as int, self.number_outputs as int),
    {
        let mut list_inputs: Vec<usize> = Vec::new();
        let mut list_outputs: Vec<usize> = Vec::new();
        let ghost outputs = signal_run(self.initial_signal as int, self.number_outputs as int);
        let ghost inputs = signal_run(
            self.initial_signal + self.number_outputs,
            self.number_inputs as int,
        );
        let mut s: usize = 0;
        while s < self.number_outputs
            invariant
                s <= self.number_outputs,
                self.fits(),
                outputs == signal_run(self.initial_signal as int, self.number_outputs as int),
                list_outputs@ == outputs.take(s as int),
            decreases self.number_outputs - s,
        {
            list_outputs.push(self.initial_signal + s);
            assert(list_outputs@ =~= outputs.take(s + 1));
            s += 1;
        }
        assert(outputs.take(self.number_outputs as int) =~= outputs);
        let mut k: usize = 0;
        while k < self.number_inputs
            invariant
                k <= self.number_inputs,
                self.fits(),
                inputs == signal_run(
                    self.initial_signal + self.number_outputs,
                    self.number_inputs as int,
                ),
                list_inputs@ == inputs.take(k as int),
            decreases self.number_inputs - k,
        {
            list_inputs.push(self.initial_signal + self.number_outputs + k);
            assert(list_inputs@ =~= inputs.take(k + 1));
            k += 1;
        }
        assert(inputs.take(self.number_inputs as int) =~= inputs);
        (list_inputs, list_outputs)
    }

    /// What the node hands to the node above in place of its constraints.
    pub fn generate_info_subtree(&self) -> (r: (
        Vec<usize>,
        Option<ExecutedImplication>,
        Option<ExecutedImplication>,
        SafetyImplication,
    ))
        requires
            self.fits(),
        ensures
            r.0@ == self.io_signals(),
            match r.1 {
                Some(i) => self.summary() == Some(i@),
                None => self.summary() is None,
            },
            match r.2 {
                Some(i) => self.tags_summary() == Some(i@),
                None => self.tags_summary() is None,
            },
            r.3.0@ == signal_run(
                self.initial_signal + self.number_outputs,
                self.number_inputs as int,
            ),
            r.3.1@ == signal_run(self.initial_signal as int, self.number_outputs as int),
    {
        (
            self.generate_io_signals(),
            self.generate_implications(),
            self.generate_tags_implications(),
            self.generate_implications_safety(),
        )
    }
}

/// A component lies lower than the node it belongs to.
pub proof fn lemma_component_height(t: &TreeConstraints, i: int)
    requires
        0 <= i < t.subcomponents@.len(),
    ensures
        t.subcomponents@[i].height() < t.height(),
{
    lemma_height_upto(t, t.subcomponents@.len(), i);
}

/// The height below a node, counted from its first `n` components, is at
/// least the height of each of them.
proof fn lemma_height_upto(t: &TreeConstraints, n: nat, i: int)
    requires
        0 <= i < n <= t.subcomponents@.len(),
    ensures
        t.subcomponents@[i].height() <= t.height_upto(n),
    decreases n,
{
    if i < n - 1 {
        lemma_height_upto(t, (n - 1) as nat, i);
    }
}

/// The interface signals of a list of components, one component after the
/// other.
pub open spec fn components_io(cs: Seq<TreeConstraints>) -> Seq<usize>
    decreases cs.len(),
{
    if cs.len() == 0 {
        Seq::empty()
    } else {
        components_io(cs.drop_last()) + cs.last().io_signals()
    }
}

/// The summaries of the postconditions of the components that have one.
pub open spec fn components_summaries(cs: Seq<TreeConstraints>) -> Seq<ImplicationView>
    decreases cs.len(),
{
    if cs.len() == 0 {
        Seq::empty()
    } else {
        components_summaries(cs.drop_last()) + match cs.last().summary() {
            Some(i) => seq![i],
            None => Seq::empty(),
        }
    }
}

/// The summaries of the tags of the components that have one.
pub open spec fn components_tags_summaries(cs: Seq<TreeConstraints>) -> Seq<ImplicationView>
    decreases cs.len(),
{
    if cs.len() == 0 {
        Seq::empty()
    } else {
        components_tags_summaries(cs.drop_last()) + match cs.last().tags_summary() {
            Some(i) => seq![i],
            None => Seq::empty(),
        }
    }
}

/// The determinism summaries of the components: the inputs and the outputs
/// of each.
pub open spec fn components_safety(cs: Seq<TreeConstraints>) -> Seq<(Seq<usize>, Seq<usize>)>
    decreases cs.len(),
{
    if cs.len() == 0 {
        Seq::empty()
    } else {
        components_safety(cs.drop_last()).push(
            (
                signal_run(
                    cs.last().initial_signal + cs.last().number_outputs,
                    cs.last().number_inputs as int,
                ),
                signal_run(cs.last().initial_signal as int, cs.last().number_outputs as int),
            ),
        )
    }
}

/// The components of a list of nodes, node after node.
pub open spec fn components_of(nodes: Seq<TreeConstraints>) -> Seq<TreeConstraints>
    decreases nodes.len(),
{
    if nodes.len() == 0 {
        Seq::empty()
    } else {
        components_of(nodes.drop_last()) + nodes.last().subcomponents@
    }
}

/// The nodes that lie `d` levels below a node.
pub open spec fn level(t: TreeConstraints, d: nat) -> Seq<TreeConstraints>
    decreases d,
{
    if d == 0 {
        seq![t]
    } else {
        components_of(level(t, (d - 1) as nat))
    }
}

/// The node that a path leads to from a node, where each step of the path
/// picks a component by its place; none where a step picks no component.
pub open spec fn node_at(t: TreeConstraints, path: Seq<int>) -> Option<TreeConstraints>
    decreases path.len(),
{
    if path.len() == 0 {
        Some(t)
    } else if 0 <= path[0] < t.subcomponents@.len() {
        node_at(t.subcomponents@[path[0]], path.drop_first())
    } else {
        None
    }
}

/// One step more leads from the node at the end of a path to a component
/// of that node.
pub proof fn lemma_node_at_push(t: TreeConstraints, path: Seq<int>, i: int)
    ensures
        node_at(t, path.push(i)) == (match node_at(t, path) {
            Some(a) => if 0 <= i < a.subcomponents@.len() {
                Some(a.subcomponents@[i])
            } else {
                None
            },
            None => None,
        }),
    decreases path.len(),
{
    let longer = path.push(i);
    if path.len() == 0 {
        assert(longer.drop_first() =~= Seq::<int>::empty());
        assert(longer[0] == i);
        if 0 <= i < t.subcomponents@.len() {
            assert(node_at(t.subcomponents@[i], longer.drop_first()) == Some(
                t.subcomponents@[i],
            ));
        }
    } else {
        assert(longer.drop_first() =~= path.drop_first().push(i));
        assert(longer[0] == path[0]);
        if 0 <= path[0] < t.subcomponents@.len() {
            lemma_node_at_push(t.subcomponents@[path[0]], path.drop_first(), i);
        }
    }
}

/// The classes of a list of nodes, in order.
pub open spec fn classes(nodes: Seq<TreeConstraints>) -> Seq<usize> {
    nodes.map_values(|n: TreeConstraints| n.node_id)
}

/// Whether the classes of a tree are uniform: two nodes of one class have
/// components of the same classes, in the same order.
pub open spec fn uniform(t: TreeConstraints) -> bool {
    forall|p: Seq<int>, q: Seq<int>|
        (#[trigger] node_at(t, p)) is Some && (#[trigger] node_at(t, q)) is Some && node_at(
            t,
            p,
        ).unwrap().node_id == node_at(t, q).unwrap().node_id ==> classes(
            node_at(t, p).unwrap().subcomponents@,
        ) == classes(node_at(t, q).unwrap().subcomponents@)
}

/// The nodes that a list of references points to.
pub open spec fn pointed(w: Seq<&TreeConstraints>) -> Seq<TreeConstraints> {
    w.map_values(|r: &TreeConstraints| *r)
}

/// Adds to the lists of a verification what a list of components hands up
/// in place of their constraints.
pub fn add_components_info(
    components: &Vec<TreeConstraints>,
    signals: &mut Vec<usize>,
    implications: &mut Vec<ExecutedImplication>,
    tags_implications: &mut Vec<ExecutedImplication>,
    implications_safety: &mut Vec<SafetyImplication>,
)
    requires
        forall|i: int| 0 <= i < components@.len() ==> (#[trigger] components@[i]).fits(),
    ensures
        final(signals)@ == old(signals)@ + components_io(components@),
        implication_views(final(implications)@) == implication_views(old(implications)@)
            + components_summaries(components@),
        implication_views(final(tags_implications)@) == implication_views(
            old(tags_implications)@,
        ) + components_tags_summaries(components@),
        safety_views(final(implications_safety)@) == safety_views(old(implications_safety)@)
            + components_safety(components@),
{
    let ghost cs = components@;
    let ghost signals_0 = signals@;
    let ghost posts_0 = implication_views(implications@);
    let ghost tags_0 = implication_views(tags_implications@);
    let ghost safety_0 = safety_views(implications_safety@);
    let mut i: usize = 0;
    assert(signals@ =~= signals_0 + components_io(cs.take(0)));
    assert(implication_views(implications@) =~= posts_0 + components_summaries(cs.take(0)));
    assert(implication_views(tags_implications@) =~= tags_0 + components_tags_summaries(
        cs.take(0),
    ));
    assert(safety_views(implications_safety@) =~= safety_0 + components_safety(cs.take(0)));
    while i < components.len()
        invariant
            i <= components.len(),
            cs == components@,
            forall|k: int| 0 <= k < cs.len() ==> (#[trigger] cs[k]).fits(),
            signals@ == signals_0 + components_io(cs.take(i as int)),
            implication_views(implications@) == posts_0 + components_summaries(cs.take(i as int)),
            implication_views(tags_implications@) == tags_0 + components_tags_summaries(
                cs.take(i as int),
            ),
            safety_views(implications_safety@) == safety_0 + components_safety(cs.take(i as int)),
        decreases components.len() - i,
    {
        let child = &components[i];
        proof {
            assert(cs.take(i + 1).drop_last() =~= cs.take(i as int));
            assert(cs.take(i + 1).last() == *child);
            assert(cs[i as int].fits());
        }
        let ghost posts_now = implication_views(implications@);
        let ghost tags_now = implication_views(tags_implications@);
        let ghost safety_now = safety_views(implications_safety@);
        let (mut new_signals, new_implication, new_tag_implication, new_safety_implication) =
            child.generate_info_subtree();
        signals.append(&mut new_signals);
        match new_implication {
            Some(implication) => {
                let ghost v = implication@;
                implications.push(implication);
                assert(implication_views(implications@) =~= posts_now + seq![v]);
            },
            None => {
                assert(implication_views(implications@) =~= posts_now + Seq::<
                    ImplicationView,
                >::empty());
            },
        }
        match new_tag_implication {
            Some(implication) => {
                let ghost v = implication@;
                tags_implications.push(implication);
                assert(implication_views(tags_implications@) =~= tags_now + seq![v]);
            },
            None => {
                assert(implication_views(tags_implications@) =~= tags_now + Seq::<
                    ImplicationView,
                >::empty());
            },
        }
        let ghost sv = (new_safety_implication.0@, new_safety_implication.1@);
        implications_safety.push(new_safety_implication);
        assert(safety_views(implications_safety@) =~= safety_now.push(sv));
        assert(signals@ =~= signals_0 + components_io(cs.take(i + 1)));
        assert(implication_views(implications@) =~= posts_0 + components_summaries(
            cs.take(i + 1),
        ));
        assert(implication_views(tags_implications@) =~= tags_0 + components_tags_summaries(
            cs.take(i + 1),
        ));
        assert(safety_views(implications_safety@) =~= safety_0 + components_safety(
            cs.take(i + 1),
        ));
        i += 1;
    }
    assert(cs.take(components@.len() as int) =~= cs);
}

impl TreeConstraints {
    /// Whether `after` is `before` with the node opened up in it: the
    /// constraints of the node and its intermediate signals are added, and
    /// for each component of the node its interface signals and its
    /// summaries. Nothing else differs.
    pub open spec fn opens_in(
        &self,
        before: &TemplateVerification,
        after: &TemplateVerification,
    ) -> bool {
        &&& constraint_views(after.constraints@) == constraint_views(before.constraints@)
            + constraint_views(self.constraints@)
        &&& after.signals@ == before.signals@ + self.intermediate_signals() + components_io(
            self.subcomponents@,
        )
        &&& implication_views(after.implications@) == implication_views(before.implications@)
            + components_summaries(self.subcomponents@)
        &&& implication_views(after.tags_implications@) == implication_views(
            before.tags_implications@,
        ) + components_tags_summaries(self.subcomponents@)
        &&& safety_views(after.implications_safety@) == safety_views(before.implications_safety@)
            + components_safety(self.subcomponents@)
        &&& after.template_name == before.template_name
        &&& after.initial_signal == before.initial_signal
        &&& after.number_outputs == before.number_outputs
        &&& after.number_inputs == before.number_inputs
        &&& after.preconditions == before.preconditions
        &&& after.preconditions_intermediates == before.preconditions_intermediates
        &&& after.postconditions_intermediates == before.postconditions_intermediates
        &&& after.postconditions == before.postconditions
        &&& after.facts == before.facts
        &&& after.tags_preconditions == before.tags_preconditions
        &&& after.tags_postconditions_intermediates == before.tags_postconditions_intermediates
        &&& after.tags_postconditions == before.tags_postconditions
        &&& after.deductions == before.deductions
        &&& after.field == before.field
        &&& after.verification_timeout == before.verification_timeout
        &&& after.check_tags == before.check_tags
        &&& after.check_postconditions == before.check_postconditions
        &&& after.check_safety == before.check_safety
        &&& after.add_tags_info == before.add_tags_info
        &&& after.add_postconditions_info == before.add_postconditions_info
        &&& after.apply_deduction_assigned == before.apply_deduction_assigned
        &&& after.quotient_limit == before.quotient_limit
    }

    /// Opens the node up in the verification of a node above it: its
    /// constraints take the place of its summary. Returns its components,
    /// which can be opened up next.
    pub fn add_info_component<'a>(&'a self, verification: &mut TemplateVerification) -> (r: Option<
        &'a Vec<TreeConstraints>,
    >)
        requires
            self.wf(),
        ensures
            self.opens_in(old(verification), final(verification)),
            r == Some(&self.subcomponents),
    {
        let ghost given = constraint_views(verification.constraints@);
        let ghost own = constraint_views(self.constraints@);
        let mut i: usize = 0;
        assert(constraint_views(verification.constraints@) =~= given + own.take(0));
        while i < self.constraints.len()
            invariant
                i <= self.constraints.len(),
                own == constraint_views(self.constraints@),
                constraint_views(verification.constraints@) == given + own.take(i as int),
                verification.signals == old(verification).signals,
                verification.implications == old(verification).implications,
                verification.tags_implications == old(verification).tags_implications,
                verification.implications_safety == old(verification).implications_safety,
                self.wf(),
                verification.template_name == old(verification).template_name,
                verification.initial_signal == old(verification).initial_signal,
                verification.number_outputs == old(verification).number_outputs,
                verification.number_inputs == old(verification).number_inputs,
                verification.preconditions == old(verification).preconditions,
                verification.preconditions_intermediates == old(
                    verification,
                ).preconditions_intermediates,
                verification.postconditions_intermediates == old(
                    verification,
                ).postconditions_intermediates,
                verification.postconditions == old(verification).postconditions,
                verification.facts == old(verification).facts,
                verification.tags_preconditions == old(verification).tags_preconditions,
                verification.tags_postconditions_intermediates == old(
                    verification,
                ).tags_postconditions_intermediates,
                verification.tags_postconditions == old(verification).tags_postconditions,
                verification.deductions == old(verification).deductions,
                verification.field == old(verification).field,
                verification.verification_timeout == old(verification).verification_timeout,
                verification.check_tags == old(verification).check_tags,
                verification.check_postconditions == old(verification).check_postconditions,
                verification.check_safety == old(verification).check_safety,
                verification.add_tags_info == old(verification).add_tags_info,
                verification.add_postconditions_info == old(verification).add_postconditions_info,
                verification.apply_deduction_assigned == old(
                    verification,
                ).apply_deduction_assigned,
                verification.quotient_limit == old(verification).quotient_limit,
            decreases self.constraints.len() - i,
        {
            let ghost so_far = constraint_views(verification.constraints@);
            verification.constraints.push(self.constraints[i].copy());
            assert(constraint_views(verification.constraints@) =~= so_far.push(own[i as int]));
            assert(constraint_views(verification.constraints@) =~= given + own.take(i + 1));
            i += 1;
        }
        assert(own.take(self.constraints@.len() as int) =~= own);
        let ghost signals_0 = verification.signals@;
        let first: usize = self.number_inputs + self.number_outputs;
        let mut s: usize = first;
        assert(verification.signals@ =~= signals_0 + self.intermediate_signals().take(0));
        while s < self.number_signals
            invariant
                first <= s <= self.number_signals,
                first == self.number_inputs + self.number_outputs,
                self.fits(),
                self.wf(),
                verification.signals@ == signals_0 + self.intermediate_signals().take(s - first),
                constraint_views(verification.constraints@) == given + own,
                verification.implications == old(verification).implications,
                verification.tags_implications == old(verification).tags_implications,
                verification.implications_safety == old(verification).implications_safety,
                verification.template_name == old(verification).template_name,
                verification.initial_signal == old(verification).initial_signal,
                verification.number_outputs == old(verification).number_outputs,
                verification.number_inputs == old(verification).number_inputs,
                verification.preconditions == old(verification).preconditions,
                verification.preconditions_intermediates == old(
                    verification,
                ).preconditions_intermediates,
                verification.postconditions_intermediates == old(
                    verification,
                ).postconditions_intermediates,
                verification.postconditions == old(verification).postconditions,
                verification.facts == old(verification).facts,
                verification.tags_preconditions == old(verification).tags_preconditions,
                verification.tags_postconditions_intermediates == old(
                    verification,
                ).tags_postconditions_intermediates,
                verification.tags_postconditions == old(verification).tags_postconditions,
                verification.deductions == old(verification).deductions,
                verification.field == old(verification).field,
                verification.verification_timeout == old(verification).verification_timeout,
                verification.check_tags == old(verification).check_tags,
                verification.check_postconditions == old(verification).check_postconditions,
                verification.check_safety == old(verification).check_safety,
                verification.add_tags_info == old(verification).add_tags_info,
                verification.add_postconditions_info == old(verification).add_postconditions_info,
                verification.apply_deduction_assigned == old(
                    verification,
                ).apply_deduction_assigned,
                verification.quotient_limit == old(verification).quotient_limit,
            decreases self.number_signals - s,
        {
            verification.signals.push(s + self.initial_signal);
            assert(verification.signals@ =~= signals_0 + self.intermediate_signals().take(
                s + 1 - first,
            ));
            s += 1;
        }
        assert(self.intermediate_signals().take(self.number_signals - first)
            =~= self.intermediate_signals());
        assert forall|i: int| 0 <= i < self.subcomponents@.len() implies (
        #[trigger] self.subcomponents@[i]).fits() by {
            assert(self.subcomponents@[i].wf());
        }
        add_components_info(
            &self.subcomponents,
            &mut verification.signals,
            &mut verification.implications,
            &mut verification.tags_implications,
            &mut verification.implications_safety,
        );
        Some(&self.subcomponents)
    }
}

/// What became of the three obligations of a node, and the number of
/// rounds in which nodes below it were opened up.
#[derive(Debug)]
pub struct NodeReport {
    pub tags: ProofAttempt,
    pub postconditions: ProofAttempt,
    pub safety: ProofAttempt,
    pub rounds: usize,
    /// The time that the verification of the node took, in milliseconds.
    pub millis: u128,
}

impl NodeReport {
    /// Whether all three obligations are settled.
    pub open spec fn settled(&self) -> bool {
        self.tags.result.settled() && self.postconditions.result.settled()
            && self.safety.result.settled()
    }
}

/// Whether two verifications are of the same template with the same
/// annotations and options: they differ at most in what rounds add and
/// propagation changes, and in which obligations are still asked for.
pub open spec fn same_frame(a: &TemplateVerification, b: &TemplateVerification) -> bool {
    &&& a.template_name == b.template_name
    &&& a.initial_signal == b.initial_signal
    &&& a.number_outputs == b.number_outputs
    &&& a.number_inputs == b.number_inputs
    &&& a.preconditions == b.preconditions
    &&& a.preconditions_intermediates == b.preconditions_intermediates
    &&& a.postconditions_intermediates == b.postconditions_intermediates
    &&& a.postconditions == b.postconditions
    &&& a.facts == b.facts
    &&& a.tags_preconditions == b.tags_preconditions
    &&& a.tags_postconditions_intermediates == b.tags_postconditions_intermediates
    &&& a.tags_postconditions == b.tags_postconditions
    &&& a.field == b.field
    &&& a.verification_timeout == b.verification_timeout
    &&& a.add_tags_info == b.add_tags_info
    &&& a.add_postconditions_info == b.add_postconditions_info
    &&& a.apply_deduction_assigned == b.apply_deduction_assigned
    &&& a.quotient_limit == b.quotient_limit
}

/// Whether two verifications ask for the same obligations.
pub open spec fn same_requests(a: &TemplateVerification, b: &TemplateVerification) -> bool {
    &&& a.check_tags == b.check_tags
    &&& a.check_postconditions == b.check_postconditions
    &&& a.check_safety == b.check_safety
}

/// The constraints of a list of nodes, node after node.
pub open spec fn nodes_constraints(nodes: Seq<TreeConstraints>) -> Seq<ConstraintView>
    decreases nodes.len(),
{
    if nodes.len() == 0 {
        Seq::empty()
    } else {
        nodes_constraints(nodes.drop_last()) + constraint_views(nodes.last().constraints@)
    }
}

/// The signals that a list of nodes brings when it is opened up: for each
/// node its intermediates, then the interface signals of its components.
pub open spec fn nodes_signals(nodes: Seq<TreeConstraints>) -> Seq<usize>
    decreases nodes.len(),
{
    if nodes.len() == 0 {
        Seq::empty()
    } else {
        nodes_signals(nodes.drop_last()) + nodes.last().intermediate_signals() + components_io(
            nodes.last().subcomponents@,
        )
    }
}

/// The summaries of postconditions that the components of a list of nodes
/// hand up.
pub open spec fn nodes_summaries(nodes: Seq<TreeConstraints>) -> Seq<ImplicationView>
    decreases nodes.len(),
{
    if nodes.len() == 0 {
        Seq::empty()
    } else {
        nodes_summaries(nodes.drop_last()) + components_summaries(nodes.last().subcomponents@)
    }
}

/// The summaries of tags that the components of a list of nodes hand up.
pub open spec fn nodes_tags_summaries(nodes: Seq<TreeConstraints>) -> Seq<ImplicationView>
    decreases nodes.len(),
{
    if nodes.len() == 0 {
        Seq::empty()
    } else {
        nodes_tags_summaries(nodes.drop_last()) + components_tags_summaries(
            nodes.last().subcomponents@,
        )
    }
}

/// The determinism summaries of the components of a list of nodes.
pub open spec fn nodes_safety(nodes: Seq<TreeConstraints>) -> Seq<(Seq<usize>, Seq<usize>)>
    decreases nodes.len(),
{
    if nodes.len() == 0 {
        Seq::empty()
    } else {
        nodes_safety(nodes.drop_last()) + components_safety(nodes.last().subcomponents@)
    }
}

/// Whether `after` is `before` with every node of the list opened up in
/// it, one after the other: their constraints and intermediate signals are
/// added, and for each of their components its interface signals and its
/// summaries. The bounds and all else but the obligations asked for are
/// the same.
pub open spec fn adds(
    nodes: Seq<TreeConstraints>,
    before: &TemplateVerification,
    after: &TemplateVerification,
) -> bool {
    &&& constraint_views(after.constraints@) == constraint_views(before.constraints@)
        + nodes_constraints(nodes)
    &&& after.signals@ == before.signals@ + nodes_signals(nodes)
    &&& implication_views(after.implications@) == implication_views(before.implications@)
        + nodes_summaries(nodes)
    &&& implication_views(after.tags_implications@) == implication_views(
        before.tags_implications@,
    ) + nodes_tags_summaries(nodes)
    &&& safety_views(after.implications_safety@) == safety_views(before.implications_safety@)
        + nodes_safety(nodes)
    &&& after.deductions == before.deductions
    &&& same_frame(after, before)
}

/// Opening up no node changes nothing.
pub proof fn lemma_adds_none(v: &TemplateVerification)
    ensures
        adds(Seq::empty(), v, v),
{
    let none = Seq::<TreeConstraints>::empty();
    assert(constraint_views(v.constraints@) + nodes_constraints(none) =~= constraint_views(
        v.constraints@,
    ));
    assert(v.signals@ + nodes_signals(none) =~= v.signals@);
    assert(implication_views(v.implications@) + nodes_summaries(none) =~= implication_views(
        v.implications@,
    ));
    assert(implication_views(v.tags_implications@) + nodes_tags_summaries(none)
        =~= implication_views(v.tags_implications@));
    assert(safety_views(v.implications_safety@) + nodes_safety(none) =~= safety_views(
        v.implications_safety@,
    ));
}

/// Opening up one more node adds what the node brings.
pub proof fn lemma_adds_next(
    nodes: Seq<TreeConstraints>,
    start: &TemplateVerification,
    before: &TemplateVerification,
    after: &TemplateVerification,
)
    requires
        nodes.len() > 0,
        adds(nodes.drop_last(), start, before),
        nodes.last().opens_in(before, after),
    ensures
        adds(nodes, start, after),
{
    let rest = nodes.drop_last();
    let t = nodes.last();
    assert(constraint_views(after.constraints@) =~= constraint_views(start.constraints@)
        + nodes_constraints(nodes));
    assert(after.signals@ =~= start.signals@ + nodes_signals(nodes));
    assert(implication_views(after.implications@) =~= implication_views(start.implications@)
        + nodes_summaries(nodes));
    assert(implication_views(after.tags_implications@) =~= implication_views(
        start.tags_implications@,
    ) + nodes_tags_summaries(nodes));
    assert(safety_views(after.implications_safety@) =~= safety_views(start.implications_safety@)
        + nodes_safety(nodes));
}

/// One round of the verification of a node: the verification as the round
/// found it, the verification as propagation left it, and the answers to
/// the three obligations.
pub struct Round {
    pub asked: TemplateVerification,
    pub done: TemplateVerification,
    pub tags: ProofAttempt,
    pub postconditions: ProofAttempt,
    pub safety: ProofAttempt,
}

impl Round {
    /// The answer of the round to an obligation.
    pub open spec fn answer(&self, kind: Obligation) -> ProofAttempt {
        match kind {
            Obligation::Tags => self.tags,
            Obligation::Postconditions => self.postconditions,
            Obligation::Safety => self.safety,
        }
    }

    /// Whether the round did its work: bounds were propagated in the
    /// verification that it found, and each answer is the answer of the
    /// verification that propagation left.
    pub open spec fn deduced(&self) -> bool {
        &&& self.asked.wf()
        &&& exists|changed: Seq<usize>| #[trigger] self.done.propagated(&self.asked, changed)
        &&& self.done.answers(Obligation::Tags, self.tags)
        &&& self.done.answers(Obligation::Postconditions, self.postconditions)
        &&& self.done.answers(Obligation::Safety, self.safety)
    }
}

/// The answer to an obligation that stands after some rounds: that of the
/// first round that settled it, or that of the last round where none did.
pub open spec fn standing(rounds: Seq<Round>, kind: Obligation) -> ProofAttempt
    decreases rounds.len(),
{
    if rounds.len() <= 1 {
        rounds[0].answer(kind)
    } else {
        let earlier = standing(rounds.drop_last(), kind);
        if earlier.result.settled() {
            earlier
        } else {
            rounds.last().answer(kind)
        }
    }
}

/// The answer that stands after a round: an answer that was settled stays,
/// any other gives way to the new one.
pub fn later_answer(earlier: ProofAttempt, new: ProofAttempt) -> (r: ProofAttempt)
    ensures
        r == (if earlier.result.settled() { earlier } else { new }),
{
    if earlier.result.finished_verification() { earlier } else { new }
}

/// The components of a single node are the nodes one level below it.
pub proof fn lemma_level_one(t: TreeConstraints)
    ensures
        level(t, 1) == t.subcomponents@,
{
    let one = seq![t];
    let none = Seq::<TreeConstraints>::empty();
    assert(level(t, 0) == one);
    assert(one.drop_last() =~= none);
    assert(one.last() == t);
    assert(components_of(none) =~= none);
    assert(components_of(one) =~= none + t.subcomponents@);
    assert(none + t.subcomponents@ =~= t.subcomponents@);
}

/// Opens up every node of `to_check` in the verification and returns their
/// components, node after node.
fn open_up<'a>(
    to_check: &Vec<&'a TreeConstraints>,
    verification: &mut TemplateVerification,
    Ghost(bound): Ghost<nat>,
) -> (next: Vec<&'a TreeConstraints>)
    requires
        forall|k: int| 0 <= k < to_check@.len() ==> (#[trigger] to_check@[k]).wf(),
        forall|k: int| 0 <= k < to_check@.len() ==> (#[trigger] to_check@[k]).height() <= bound,
    ensures
        pointed(next@) == components_of(pointed(to_check@)),
        forall|k: int| 0 <= k < next@.len() ==> (#[trigger] next@[k]).wf(),
        forall|k: int| 0 <= k < next@.len() ==> (#[trigger] next@[k]).height() < bound,
        adds(pointed(to_check@), old(verification), final(verification)),
        same_requests(final(verification), old(verification)),
{
    let ghost nodes = pointed(to_check@);
    let mut next: Vec<&'a TreeConstraints> = Vec::new();
    let mut i: usize = 0;
    assert(pointed(next@) =~= components_of(nodes.take(0)));
    proof {
        lemma_adds_none(verification);
        assert(nodes.take(0) =~= Seq::<TreeConstraints>::empty());
    }
    while i < to_check.len()
        invariant
            i <= to_check.len(),
            nodes == pointed(to_check@),
            forall|k: int| 0 <= k < to_check@.len() ==> (#[trigger] to_check@[k]).wf(),
            forall|k: int| 0 <= k < to_check@.len() ==> (#[trigger] to_check@[k]).height() <= bound,
            pointed(next@) == components_of(nodes.take(i as int)),
            forall|k: int| 0 <= k < next@.len() ==> (#[trigger] next@[k]).wf(),
            forall|k: int| 0 <= k < next@.len() ==> (#[trigger] next@[k]).height() < bound,
            adds(nodes.take(i as int), old(verification), verification),
            same_requests(verification, old(verification)),
        decreases to_check.len() - i,
    {
        let t: &'a TreeConstraints = to_check[i];
        proof {
            assert(to_check@[i as int].wf());
            assert(nodes.take(i + 1).drop_last() =~= nodes.take(i as int));
            assert(nodes.take(i + 1).last() == *t);
        }
        let ghost before = pointed(next@);
        let ghost found = *verification;
        let result_add_components = t.add_info_component(verification);
        proof {
            lemma_adds_next(nodes.take(i + 1), old(verification), &found, verification);
        }
        match result_add_components {
            Some(components) => {
                let mut j: usize = 0;
                assert(pointed(next@) =~= before + components@.take(0));
                while j < components.len()
                    invariant
                        j <= components.len(),
                        components@ == t.subcomponents@,
                        t.wf(),
                        t.height() <= bound,
                        pointed(next@) == before + components@.take(j as int),
                        forall|k: int| 0 <= k < next@.len() ==> (#[trigger] next@[k]).wf(),
                        forall|k: int| 0 <= k < next@.len() ==> (#[trigger] next@[k]).height() < bound,
                    decreases components.len() - j,
                {
                    let ghost so_far = pointed(next@);
                    proof {
                        lemma_component_height(t, j as int);
                        assert(t.subcomponents@[j as int].wf());
                    }
                    next.push(&components[j]);
                    assert(pointed(next@) =~= so_far.push(components@[j as int]));
                    assert(pointed(next@) =~= before + components@.take(j + 1));
                    j += 1;
                }
                assert(components@.take(components@.len() as int) =~= components@);
            },
            None => {},
        }
        i += 1;
    }
    assert(nodes.take(to_check@.len() as int) =~= nodes);
    next
}

/// The options under which a node is verified: the modulus, the time
/// that the solver has for an obligation, the obligations asked for, what
/// an obligation may assume of the obligations before it, whether ranges
/// are read strictly in back-substitution, and the widest range of a
/// quotient variable.
pub struct Options {
    pub field: int,
    pub verification_timeout: u64,
    pub check_tags: bool,
    pub check_postconditions: bool,
    pub check_safety: bool,
    pub add_tags_info: bool,
    pub add_postconditions_info: bool,
    pub apply_deduction_assigned: bool,
    pub quotient_limit: int,
}

impl TreeConstraints {
    /// Whether the node states nothing to prove for an obligation.
    pub open spec fn vacuous(&self, kind: Obligation) -> bool {
        match kind {
            Obligation::Tags => self.tags_postconditions_intermediates@.len() == 0
                && self.tags_postconditions_outputs@.len() == 0,
            Obligation::Postconditions => self.postconditions_intermediates@.len() == 0
                && self.postconditions_outputs@.len() == 0,
            Obligation::Safety => false,
        }
    }

    /// Whether `r` can be the report on an obligation of the node: not
    /// studied where the obligation is not asked for; nothing to verify
    /// where it is asked for and the node states nothing to prove;
    /// otherwise verified, failed, unknown or too big. There is a
    /// counterexample only where it failed.
    pub open spec fn reported(&self, kind: Obligation, requested: bool, r: ProofAttempt) -> bool {
        &&& if !requested {
            r.result == PossibleResult::NOSTUDIED
        } else if self.vacuous(kind) {
            r.result == PossibleResult::NOTHING
        } else {
            r.result == PossibleResult::VERIFIED || r.result == PossibleResult::FAILED || r.result
                == PossibleResult::UNKNOWN || r.result == PossibleResult::TOO_BIG
        }
        &&& r.result != PossibleResult::FAILED ==> r.model@.len() == 0
    }

    /// Whether `r` stands for an obligation of the node while rounds go on:
    /// it can be the report, and where it is not settled the verification
    /// will try the obligation again.
    pub open spec fn stands(
        &self,
        v: &TemplateVerification,
        kind: Obligation,
        requested: bool,
        r: ProofAttempt,
    ) -> bool {
        &&& self.reported(kind, requested, r)
        &&& !r.result.settled() ==> v.requested(kind) && !v.vacuous(kind)
    }

    /// Whether `v` is the verification of the node alone, before any
    /// round: its signals and its constraints in canonical form, its
    /// annotations, of each component the interface signals and the
    /// summaries, no bounds yet, and the options as given.
    pub open spec fn starts(&self, v: &TemplateVerification, o: Options) -> bool {
        &&& v.wf()
        &&& v.template_name@ == self.template_name@
        &&& v.check_tags == o.check_tags
        &&& v.check_postconditions == o.check_postconditions
        &&& v.check_safety == o.check_safety
        &&& v.vacuous(Obligation::Tags) == self.vacuous(Obligation::Tags)
        &&& v.vacuous(Obligation::Postconditions) == self.vacuous(Obligation::Postconditions)
        &&& v.signals@ == signal_run(self.initial_signal as int, self.number_signals as int)
            + components_io(self.subcomponents@)
        &&& constraint_views(v.constraints@) == constraint_views(self.constraints@).map_values(
            |c: ConstraintView| canonical(c, o.field),
        )
        &&& bounds_of(v.deductions@) == Map::<usize, Iv>::empty()
        &&& implication_views(v.implications@) == components_summaries(self.subcomponents@)
        &&& implication_views(v.tags_implications@) == components_tags_summaries(
            self.subcomponents@,
        )
        &&& safety_views(v.implications_safety@) == components_safety(self.subcomponents@)
        &&& views(v.preconditions@) == views(self.preconditions@)
        &&& views(v.preconditions_intermediates@) == views(self.preconditions_intermediates@)
        &&& views(v.postconditions@) == views(self.postconditions_outputs@)
        &&& views(v.postconditions_intermediates@) == views(self.postconditions_intermediates@)
        &&& views(v.facts@) == views(self.facts@)
        &&& views(v.tags_preconditions@) == views(self.tags_preconditions@)
        &&& views(v.tags_postconditions@) == views(self.tags_postconditions_outputs@)
        &&& views(v.tags_postconditions_intermediates@) == views(
            self.tags_postconditions_intermediates@,
        )
        &&& value_of(v.quotient_limit) == o.quotient_limit
        &&& value_of(v.field) == o.field
        &&& v.verification_timeout == o.verification_timeout
        &&& v.add_tags_info == o.add_tags_info
        &&& v.add_postconditions_info == o.add_postconditions_info
        &&& v.apply_deduction_assigned == o.apply_deduction_assigned
        &&& v.initial_signal == self.initial_signal
        &&& v.number_outputs == self.number_outputs
        &&& v.number_inputs == self.number_inputs
    }

    /// Whether round `d` begins with the verification that the round before
    /// left, with the nodes `d` levels below the node opened up in it, and
    /// asks for the obligations that no earlier round has settled.
    pub open spec fn opens_level(&self, rounds: Seq<Round>, d: int) -> bool {
        let before = rounds[d - 1].done;
        let after = rounds[d].asked;
        let earlier = rounds.take(d);
        &&& adds(level(*self, d as nat), &before, &after)
        &&& after.check_tags == (before.check_tags && !standing(
            earlier,
            Obligation::Tags,
        ).result.settled())
        &&& after.check_postconditions == (before.check_postconditions && !standing(
            earlier,
            Obligation::Postconditions,
        ).result.settled())
        &&& after.check_safety == (before.check_safety && !standing(
            earlier,
            Obligation::Safety,
        ).result.settled())
    }

    /// Whether the report is what the rounds give: the first round begins
    /// with the verification of the node alone; every later round opens up
    /// the next level of nodes; every round propagates bounds and answers
    /// the obligations that it is asked for; and the report holds, for each
    /// obligation, the answer of the first round that settled it or of the
    /// last round, and the number of rounds after the first.
    pub open spec fn verified_by(&self, o: Options, rounds: Seq<Round>, report: NodeReport) -> bool {
        &&& rounds.len() == report.rounds + 1
        &&& self.starts(&rounds[0].asked, o)
        &&& forall|d: int| 0 <= d < rounds.len() ==> (#[trigger] rounds[d]).deduced()
        &&& forall|d: int| 1 <= d < rounds.len() ==> #[trigger] self.opens_level(rounds, d)
        &&& report.tags == standing(rounds, Obligation::Tags)
        &&& report.postconditions == standing(rounds, Obligation::Postconditions)
        &&& report.safety == standing(rounds, Obligation::Safety)
    }

    /// Whether `report` can be the report on the node under the options:
    /// each answer fits its obligation; there are rounds that give the
    /// report; and the rounds went on until every obligation was settled or
    /// no level of nodes was left.
    pub open spec fn verified(&self, o: Options, report: NodeReport) -> bool {
        &&& self.reported(Obligation::Tags, o.check_tags, report.tags)
        &&& self.reported(Obligation::Postconditions, o.check_postconditions, report.postconditions)
        &&& self.reported(Obligation::Safety, o.check_safety, report.safety)
        &&& report.rounds < self.height()
        &&& report.rounds > 0 ==> level(*self, report.rounds as nat).len() > 0
        &&& report.settled() || level(*self, (report.rounds + 1) as nat).len() == 0
            || report.rounds == usize::MAX
        &&& exists|rounds: Seq<Round>| #[trigger] self.verified_by(o, rounds, report)
    }

    /// The verification of the node alone: its signals and constraints, and
    /// of each component the interface signals and the summaries.
    fn start_verification(
        &self,
        field: &BigInt,
        verification_timeout: u64,
        check_tags: bool,
        check_postconditions: bool,
        check_safety: bool,
        add_tags_info: bool,
        add_postconditions_info: bool,
        apply_deduction_assigned: bool,
        quotient_limit: &BigInt,
    ) -> (v: TemplateVerification)
        requires
            self.wf(),
            value_of(*field) > 1,
        ensures
            self.starts(
                &v,
                (Options {
                    field: value_of(*field),
                    verification_timeout,
                    check_tags,
                    check_postconditions,
                    check_safety,
                    add_tags_info,
                    add_postconditions_info,
                    apply_deduction_assigned,
                    quotient_limit: value_of(*quotient_limit),
                }),
            ),
    {
        let mut implications: Vec<ExecutedImplication> = Vec::new();
        let mut tags_implications: Vec<ExecutedImplication> = Vec::new();
        let mut implications_safety: Vec<SafetyImplication> = Vec::new();
        let mut signals: Vec<usize> = Vec::new();
        let ghost own = signal_run(self.initial_signal as int, self.number_signals as int);
        let mut s: usize = 0;
        while s < self.number_signals
            invariant
                s <= self.number_signals,
                self.fits(),
                own == signal_run(self.initial_signal as int, self.number_signals as int),
                signals@ == own.take(s as int),
            decreases self.number_signals - s,
        {
            signals.push(s + self.initial_signal);
            assert(signals@ =~= own.take(s + 1));
            s += 1;
        }
        assert(own.take(self.number_signals as int) =~= own);
        assert forall|i: int| 0 <= i < self.subcomponents@.len() implies (
        #[trigger] self.subcomponents@[i]).fits() by {
            assert(self.subcomponents@[i].wf());
        }
        assert(implication_views(implications@) =~= Seq::<ImplicationView>::empty());
        assert(implication_views(tags_implications@) =~= Seq::<ImplicationView>::empty());
        assert(safety_views(implications_safety@) =~= Seq::<(Seq<usize>, Seq<usize>)>::empty());
        add_components_info(
            &self.subcomponents,
            &mut signals,
            &mut implications,
            &mut tags_implications,
            &mut implications_safety,
        );
        let postconditions = copy_all(&self.postconditions_outputs);
        let postconditions_intermediates = copy_all(&self.postconditions_intermediates);
        let tags_postconditions = copy_all(&self.tags_postconditions_outputs);
        let tags_postconditions_intermediates = copy_all(&self.tags_postconditions_intermediates);
        assert(views(postconditions@).len() == postconditions@.len());
        assert(views(postconditions_intermediates@).len() == postconditions_intermediates@.len());
        assert(views(tags_postconditions@).len() == tags_postconditions@.len());
        assert(views(tags_postconditions_intermediates@).len()
            == tags_postconditions_intermediates@.len());
        assert(views(self.postconditions_outputs@).len() == self.postconditions_outputs@.len());
        assert(views(self.postconditions_intermediates@).len()
            == self.postconditions_intermediates@.len());
        assert(views(self.tags_postconditions_outputs@).len()
            == self.tags_postconditions_outputs@.len());
        assert(views(self.tags_postconditions_intermediates@).len()
            == self.tags_postconditions_intermediates@.len());
        let mut verification = TemplateVerification::new(
            &self.template_name,
            signals,
            self.initial_signal,
            self.number_outputs,
            self.number_inputs,
            copy_constraints(&self.constraints),
            copy_all(&self.preconditions),
            copy_all(&self.preconditions_intermediates),
            postconditions,
            postconditions_intermediates,
            copy_all(&self.facts),
            copy_all(&self.tags_preconditions),
            tags_postconditions_intermediates,
            tags_postconditions,
            implications,
            tags_implications,
            implications_safety,
            field,
            verification_timeout,
            check_tags,
            check_postconditions,
            check_safety,
            add_tags_info,
            add_postconditions_info,
            apply_deduction_assigned,
        );
        verification.quotient_limit = big_clone(quotient_limit);
        assert(constraint_views(verification.constraints@) =~= constraint_views(
            self.constraints@,
        ).map_values(|c: ConstraintView| canonical(c, value_of(*field))));
        verification
    }

    /// Verifies the node. The three obligations are first tried on the
    /// constraints of the node, with the components summarized. While an
    /// obligation is not settled and nodes are left below, a round opens up
    /// the next level of nodes and the obligations that are not settled are
    /// tried again.
    pub fn check_tags(
        &self,
        field: &BigInt,
        verification_timeout: u64,
        check_tags: bool,
        check_postconditions: bool,
        check_safety: bool,
        add_tags_info: bool,
        add_postconditions_info: bool,
        apply_deduction_assigned: bool,
        quotient_limit: &BigInt,
    ) -> (report: NodeReport)
        requires
            self.wf(),
            value_of(*field) > 1,
        ensures
            self.verified(
                (Options {
                    field: value_of(*field),
                    verification_timeout,
                    check_tags,
                    check_postconditions,
                    check_safety,
                    add_tags_info,
                    add_postconditions_info,
                    apply_deduction_assigned,
                    quotient_limit: value_of(*quotient_limit),
                }),
                report,
            ),
    {
        let ghost o = Options {
            field: value_of(*field),
            verification_timeout,
            check_tags,
            check_postconditions,
            check_safety,
            add_tags_info,
            add_postconditions_info,
            apply_deduction_assigned,
            quotient_limit: value_of(*quotient_limit),
        };
        let start = now();
        let mut verification = self.start_verification(
            field,
            verification_timeout,
            check_tags,
            check_postconditions,
            check_safety,
            add_tags_info,
            add_postconditions_info,
            apply_deduction_assigned,
            quotient_limit,
        );
        let ghost started = verification;
        let (first_tags, first_post, first_safety) = verification.deduce();
        let ghost mut trace = seq![
            Round {
                asked: started,
                done: verification,
                tags: first_tags,
                postconditions: first_post,
                safety: first_safety,
            },
        ];
        let mut result_tags = first_tags;
        let mut result_postconditions = first_post;
        let mut result_safety = first_safety;
        let mut n_rounds: usize = 0;
        let mut to_check_next: Vec<&TreeConstraints> = Vec::new();
        let mut i: usize = 0;
        assert(pointed(to_check_next@) =~= self.subcomponents@.take(0));
        while i < self.subcomponents.len()
            invariant
                i <= self.subcomponents.len(),
                self.wf(),
                pointed(to_check_next@) == self.subcomponents@.take(i as int),
                forall|k: int| 0 <= k < to_check_next@.len() ==> (#[trigger] to_check_next@[k]).wf(),
                forall|k: int|
                    0 <= k < to_check_next@.len() ==> (#[trigger] to_check_next@[k]).height()
                        < self.height(),
            decreases self.subcomponents.len() - i,
        {
            let ghost so_far = pointed(to_check_next@);
            proof {
                lemma_component_height(self, i as int);
                assert(self.subcomponents@[i as int].wf());
            }
            to_check_next.push(&self.subcomponents[i]);
            assert(pointed(to_check_next@) =~= so_far.push(self.subcomponents@[i as int]));
            assert(pointed(to_check_next@) =~= self.subcomponents@.take(i + 1));
            i += 1;
        }
        proof {
            assert(self.subcomponents@.take(self.subcomponents@.len() as int)
                =~= self.subcomponents@);
            lemma_level_one(*self);
        }
        while !(result_tags.result.finished_verification()
            && result_postconditions.result.finished_verification()
            && result_safety.result.finished_verification()) && to_check_next.len() > 0 && n_rounds
            < usize::MAX
            invariant
                self.wf(),
                verification.wf(),
                same_frame(&verification, &started),
                trace.len() == n_rounds + 1,
                trace[0].asked == started,
                self.starts(&started, o),
                forall|d: int| 0 <= d < trace.len() ==> (#[trigger] trace[d]).deduced(),
                forall|d: int| 1 <= d < trace.len() ==> #[trigger] self.opens_level(trace, d),
                trace.last().done == verification,
                result_tags == standing(trace, Obligation::Tags),
                result_postconditions == standing(trace, Obligation::Postconditions),
                result_safety == standing(trace, Obligation::Safety),
                started.vacuous(Obligation::Tags) == self.vacuous(Obligation::Tags),
                started.vacuous(Obligation::Postconditions) == self.vacuous(
                    Obligation::Postconditions,
                ),
                pointed(to_check_next@) == level(*self, (n_rounds + 1) as nat),
                forall|k: int| 0 <= k < to_check_next@.len() ==> (#[trigger] to_check_next@[k]).wf(),
                forall|k: int|
                    0 <= k < to_check_next@.len() ==> (#[trigger] to_check_next@[k]).height()
                        + n_rounds < self.height(),
                n_rounds < self.height(),
                n_rounds > 0 ==> level(*self, n_rounds as nat).len() > 0,
                self.stands(&verification, Obligation::Tags, check_tags, result_tags),
                self.stands(
                    &verification,
                    Obligation::Postconditions,
                    check_postconditions,
                    result_postconditions,
                ),
                self.stands(&verification, Obligation::Safety, check_safety, result_safety),
            decreases self.height() - n_rounds,
        {
            let ghost bound = (self.height() - n_rounds - 1) as nat;
            assert(to_check_next@[0].height() + n_rounds < self.height());
            assert(pointed(to_check_next@).len() == to_check_next@.len());
            n_rounds = n_rounds + 1;
            let next = open_up(&to_check_next, &mut verification, Ghost(bound));
            if result_tags.result.finished_verification() {
                verification.check_tags = false;
            }
            if result_postconditions.result.finished_verification() {
                verification.check_postconditions = false;
            }
            if result_safety.result.finished_verification() {
                verification.check_safety = false;
            }
            let ghost asked = verification;
            let (new_tags, new_post, new_safety) = verification.deduce();
            proof {
                let changed = choose|changed: Seq<usize>| #[trigger]
                    verification.propagated(&asked, changed);
                assert(verification.same_but_deduced(&asked));
                let earlier = trace;
                trace = earlier.push(
                    Round {
                        asked,
                        done: verification,
                        tags: new_tags,
                        postconditions: new_post,
                        safety: new_safety,
                    },
                );
                assert(trace.drop_last() =~= earlier);
                assert(trace.take(earlier.len() as int) =~= earlier);
                assert forall|d: int| 0 <= d < trace.len() implies (#[trigger] trace[d]).deduced() by {
                    if d < earlier.len() {
                        assert(trace[d] == earlier[d]);
                    }
                }
                assert forall|d: int| 1 <= d < trace.len() implies #[trigger] self.opens_level(
                    trace,
                    d,
                ) by {
                    if d < earlier.len() {
                        assert(self.opens_level(earlier, d));
                        assert(trace.take(d) =~= earlier.take(d));
                        assert(trace[d] == earlier[d]);
                        assert(trace[d - 1] == earlier[d - 1]);
                    }
                }
            }
            result_tags = later_answer(result_tags, new_tags);
            result_postconditions = later_answer(result_postconditions, new_post);
            result_safety = later_answer(result_safety, new_safety);
            to_check_next = next;
        }
        let report = NodeReport {
            tags: result_tags,
            postconditions: result_postconditions,
            safety: result_safety,
            rounds: n_rounds,
            millis: millis_since(&start),
        };
        assert(self.verified_by(o, trace, report));
        report
    }
}

} // verus!
