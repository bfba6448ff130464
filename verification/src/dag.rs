//! The graph of templates: a node for every template instance up to its
//! class, an edge from a template to each of its components.
//!
//! The signals of a node are numbered from one on: first its own signals in
//! the order in which they are declared, then, for every component in turn,
//! the signals of the component. An edge gives the place of a component in
//! this numbering.
use vstd::prelude::*;
use std::collections::HashSet;
use num_bigint_dig::BigInt;
use crate::bigint::value_of;
use crate::constraint::{
    Constraint,
    ConstraintView,
    constraint_views,
    copy_constraints,
    moved,
    signals_within,
    terms_of,
};
use crate::tree::{TreeConstraints, node_at, classes, uniform};
use crate::expression::{Expression, ExpressionView, views, copy_all};

verus! {

broadcast use vstd::std_specs::hash::group_hash_axioms;

/// An edge from a template to one of its components. The signals of the
/// component stand in the numbering of the template right after
/// `in_number`, up to `out_number`; its components are numbered likewise
/// between `in_component_number` and `out_component_number`.
pub struct Edge {
    label: String,
    goes_to: usize,
    in_number: usize,
    out_number: usize,
    in_component_number: usize,
    out_component_number: usize,
}

/// The mathematical content of an edge.
pub struct EdgeView {
    pub label: Seq<char>,
    pub goes_to: usize,
    pub in_number: usize,
    pub out_number: usize,
    pub in_component_number: usize,
    pub out_component_number: usize,
}

impl View for Edge {
    type V = EdgeView;

    closed spec fn view(&self) -> EdgeView {
        EdgeView {
            label: self.label@,
            goes_to: self.goes_to,
            in_number: self.in_number,
            out_number: self.out_number,
            in_component_number: self.in_component_number,
            out_component_number: self.out_component_number,
        }
    }
}

impl Default for Edge {
    /// The edge without a label that leads to the template `0` and spans
    /// nothing.
    fn default() -> (r: Edge)
        ensures
            r@ == (EdgeView {
                label: Seq::empty(),
                goes_to: 0,
                in_number: 0,
                out_number: 0,
                in_component_number: 0,
                out_component_number: 0,
            }),
    {
        let label = String::new();
        assert(label@ =~= Seq::<char>::empty());
        Edge {
            label,
            goes_to: 0,
            in_number: 0,
            out_number: 0,
            in_component_number: 0,
            out_component_number: 0,
        }
    }
}

impl Edge {
    /// The edge that enters the template `id` from outside: it is labelled
    /// `main` and spans nothing yet.
    pub fn new_entry(id: usize) -> (r: Edge)
        ensures
            r@ == (EdgeView {
                label: "main"@,
                goes_to: id,
                in_number: 0,
                out_number: 0,
                in_component_number: 0,
                out_component_number: 0,
            }),
    {
        Edge {
            label: "main".to_owned(),
            goes_to: id,
            in_number: 0,
            out_number: 0,
            in_component_number: 0,
            out_component_number: 0,
        }
    }

    /// The edge with the given label, target and spans.
    pub fn new(
        label: String,
        goes_to: usize,
        in_number: usize,
        out_number: usize,
        in_component_number: usize,
        out_component_number: usize,
    ) -> (r: Edge)
        ensures
            r@ == (EdgeView {
                label: label@,
                goes_to,
                in_number,
                out_number,
                in_component_number,
                out_component_number,
            }),
    {
        Edge { label, goes_to, in_number, out_number, in_component_number, out_component_number }
    }

    pub fn get_goes_to(&self) -> (r: usize)
        ensures
            r == self@.goes_to,
    {
        self.goes_to
    }

    /// The signals of the component in the numbering of the template above.
    pub fn get_signal_range(&self) -> (r: std::ops::Range<usize>)
        requires
            self@.in_number < usize::MAX,
            self@.out_number < usize::MAX,
        ensures
            r.start == self@.in_number + 1,
            r.end == self@.out_number + 1,
    {
        (self.in_number + 1)..(self.out_number + 1)
    }

    pub fn get_in(&self) -> (r: usize)
        ensures
            r == self@.in_number,
    {
        self.in_number
    }

    pub fn get_out(&self) -> (r: usize)
        ensures
            r == self@.out_number,
    {
        self.out_number
    }

    pub fn get_in_component(&self) -> (r: usize)
        ensures
            r == self@.in_component_number,
    {
        self.in_component_number
    }

    pub fn get_out_component(&self) -> (r: usize)
        ensures
            r == self@.out_component_number,
    {
        self.out_component_number
    }

    /// The offset of the component when the template stands at
    /// `with_offset`.
    pub fn reach(&self, with_offset: usize) -> (r: usize)
        requires
            with_offset + self@.in_number <= usize::MAX,
        ensures
            r == with_offset + self@.in_number,
    {
        with_offset + self.in_number
    }

    pub fn get_label(&self) -> (r: &str)
        ensures
            r@ == self@.label,
    {
        self.label.as_str()
    }
}

/// The contents of a list of names.
pub open spec fn name_views(s: Seq<String>) -> Seq<Seq<char>> {
    s.map_values(|n: String| n@)
}

/// The contents of a list of named signals.
pub open spec fn naming_views(s: Seq<(String, usize)>) -> Seq<(Seq<char>, usize)> {
    s.map_values(|e: (String, usize)| (e.0@, e.1))
}

/// The contents of a list of parameters.
pub open spec fn parameter_views(s: Seq<BigInt>) -> Seq<int> {
    s.map_values(|v: BigInt| value_of(v))
}

/// The place of the first signal with the given name, if there is one.
pub open spec fn name_place(names: Seq<(Seq<char>, usize)>, name: Seq<char>) -> Option<int>
    decreases names.len(),
{
    if names.len() == 0 {
        None
    } else {
        match name_place(names.drop_last(), name) {
            Some(i) => Some(i),
            None => if names.last().0 == name { Some(names.len() - 1) } else { None },
        }
    }
}

/// The names after `name` has been given to the signal `id`: a name that
/// is there is given anew, any other is added last.
pub open spec fn named(names: Seq<(Seq<char>, usize)>, name: Seq<char>, id: usize) -> Seq<
    (Seq<char>, usize),
> {
    match name_place(names, name) {
        Some(i) => names.update(i, (name, id)),
        None => names.push((name, id)),
    }
}

/// A name found in a part of the list is found in the whole list, at the
/// same place.
proof fn lemma_name_place_prefix(names: Seq<(Seq<char>, usize)>, name: Seq<char>, n: int)
    requires
        0 <= n <= names.len(),
        name_place(names.take(n), name) is Some,
    ensures
        name_place(names, name) == name_place(names.take(n), name),
    decreases names.len() - n,
{
    if n < names.len() {
        assert(names.take(n + 1).drop_last() =~= names.take(n));
        lemma_name_place_prefix(names, name, n + 1);
    } else {
        assert(names.take(n) =~= names);
    }
}

/// Gives `name` to the signal `id`.
pub fn name_signal(names: &mut Vec<(String, usize)>, name: String, id: usize)
    ensures
        naming_views(final(names)@) == named(naming_views(old(names)@), name@, id),
{
    let ghost before = naming_views(names@);
    let mut i: usize = 0;
    while i < names.len()
        invariant
            i <= names.len(),
            before == naming_views(names@),
            names@ == old(names)@,
            name_place(before.take(i as int), name@) is None,
        decreases names.len() - i,
    {
        proof {
            assert(before.take(i + 1).drop_last() =~= before.take(i as int));
            assert(before.take(i + 1).last() == before[i as int]);
        }
        if names[i].0 == name {
            proof {
                assert(name_place(before.take(i + 1), name@) == Some(i as int));
                lemma_name_place_prefix(before, name@, i + 1);
            }
            let ghost text = name@;
            names[i] = (name, id);
            assert(naming_views(names@) =~= before.update(i as int, (text, id)));
            return ;
        }
        i += 1;
    }
    assert(before.take(names@.len() as int) =~= before);
    let ghost text = name@;
    names.push((name, id));
    assert(naming_views(names@) =~= before.push((text, id)));
}

/// A template instance: its signals, its constraints and its annotations.
pub struct Node {
    entry: Edge,
    template_name: String,
    pretty_template_name: String,
    parameters: Vec<BigInt>,
    number_of_signals: usize,
    number_of_components: usize,
    intermediates_length: usize,
    public_inputs_length: usize,
    inputs_length: usize,
    outputs_length: usize,
    signal_correspondence: Vec<(String, usize)>,
    ordered_signals: Vec<String>,
    locals: HashSet<usize>,
    reachables: HashSet<usize>,
    forbidden_if_main: HashSet<usize>,
    io_signals: Vec<usize>,
    constraints: Vec<Constraint>,
    underscored_signals: Vec<usize>,
    is_parallel: bool,
    has_parallel_component: bool,
    is_custom_gate: bool,
    number_of_subcomponents_indexes: usize,
    preconditions: Vec<Expression>,
    preconditions_intermediates: Vec<Expression>,
    postconditions_intermediates: Vec<Expression>,
    postconditions_outputs: Vec<Expression>,
    facts: Vec<Expression>,
    tags_preconditions: Vec<Expression>,
    tags_postconditions_intermediates: Vec<Expression>,
    tags_postconditions_outputs: Vec<Expression>,
}

/// The mathematical content of a node.
pub struct NodeView {
    pub entry: EdgeView,
    pub template_name: Seq<char>,
    pub pretty_template_name: Seq<char>,
    pub parameters: Seq<int>,
    pub number_of_signals: usize,
    pub number_of_components: usize,
    pub intermediates_length: usize,
    pub public_inputs_length: usize,
    pub inputs_length: usize,
    pub outputs_length: usize,
    /// The names of the signals that can be named from the node: its own
    /// and those of its components, each with its number.
    pub signal_correspondence: Seq<(Seq<char>, usize)>,
    pub ordered_signals: Seq<Seq<char>>,
    /// The signals of the node itself.
    pub locals: Set<usize>,
    /// The signals that the constraints of the node can speak of: its own
    /// and the interfaces of its components.
    pub reachables: Set<usize>,
    /// The signals that must stay when the node is the main component.
    pub forbidden_if_main: Set<usize>,
    pub io_signals: Seq<usize>,
    pub constraints: Seq<ConstraintView>,
    pub underscored_signals: Seq<usize>,
    pub is_parallel: bool,
    pub has_parallel_component: bool,
    pub is_custom_gate: bool,
    pub number_of_subcomponents_indexes: usize,
    pub preconditions: Seq<ExpressionView>,
    pub preconditions_intermediates: Seq<ExpressionView>,
    pub postconditions_intermediates: Seq<ExpressionView>,
    pub postconditions_outputs: Seq<ExpressionView>,
    pub facts: Seq<ExpressionView>,
    pub tags_preconditions: Seq<ExpressionView>,
    pub tags_postconditions_intermediates: Seq<ExpressionView>,
    pub tags_postconditions_outputs: Seq<ExpressionView>,
}

impl View for Node {
    type V = NodeView;

    closed spec fn view(&self) -> NodeView {
        NodeView {
            entry: self.entry@,
            template_name: self.template_name@,
            pretty_template_name: self.pretty_template_name@,
            parameters: parameter_views(self.parameters@),
            number_of_signals: self.number_of_signals,
            number_of_components: self.number_of_components,
            intermediates_length: self.intermediates_length,
            public_inputs_length: self.public_inputs_length,
            inputs_length: self.inputs_length,
            outputs_length: self.outputs_length,
            signal_correspondence: naming_views(self.signal_correspondence@),
            ordered_signals: name_views(self.ordered_signals@),
            locals: self.locals@,
            reachables: self.reachables@,
            forbidden_if_main: self.forbidden_if_main@,
            io_signals: self.io_signals@,
            constraints: constraint_views(self.constraints@),
            underscored_signals: self.underscored_signals@,
            is_parallel: self.is_parallel,
            has_parallel_component: self.has_parallel_component,
            is_custom_gate: self.is_custom_gate,
            number_of_subcomponents_indexes: self.number_of_subcomponents_indexes,
            preconditions: views(self.preconditions@),
            preconditions_intermediates: views(self.preconditions_intermediates@),
            postconditions_intermediates: views(self.postconditions_intermediates@),
            postconditions_outputs: views(self.postconditions_outputs@),
            facts: views(self.facts@),
            tags_preconditions: views(self.tags_preconditions@),
            tags_postconditions_intermediates: views(self.tags_postconditions_intermediates@),
            tags_postconditions_outputs: views(self.tags_postconditions_outputs@),
        }
    }
}

impl NodeView {
    /// Whether one more signal and one more place of the entry can be
    /// numbered.
    pub open spec fn has_room(self) -> bool {
        self.number_of_signals < usize::MAX && self.entry.out_number < usize::MAX
    }

    /// The node with one more signal of its own, named `name`: the signal
    /// takes the next number and the entry spans one place more.
    pub open spec fn with_signal(self, name: Seq<char>) -> NodeView {
        let id = (self.number_of_signals + 1) as usize;
        NodeView {
            signal_correspondence: named(self.signal_correspondence, name, id),
            locals: self.locals.insert(id),
            reachables: self.reachables.insert(id),
            number_of_signals: id,
            entry: EdgeView { out_number: (self.entry.out_number + 1) as usize, ..self.entry },
            ..self
        }
    }

    /// The node with one more input.
    pub open spec fn with_input(self, name: Seq<char>, is_public: bool) -> NodeView {
        let id = (self.number_of_signals + 1) as usize;
        let added = self.with_signal(name);
        NodeView {
            io_signals: self.io_signals.push(id),
            public_inputs_length: if is_public {
                (self.public_inputs_length + 1) as usize
            } else {
                self.public_inputs_length
            },
            inputs_length: (self.inputs_length + 1) as usize,
            forbidden_if_main: if is_public {
                self.forbidden_if_main.insert(id)
            } else {
                self.forbidden_if_main
            },
            ..added
        }
    }

    /// The node with one more output.
    pub open spec fn with_output(self, name: Seq<char>) -> NodeView {
        let id = (self.number_of_signals + 1) as usize;
        let added = self.with_signal(name);
        NodeView {
            io_signals: self.io_signals.push(id),
            outputs_length: (self.outputs_length + 1) as usize,
            forbidden_if_main: self.forbidden_if_main.insert(id),
            ..added
        }
    }

    /// The node with one more intermediate signal.
    pub open spec fn with_intermediate(self, name: Seq<char>) -> NodeView {
        let added = self.with_signal(name);
        NodeView { intermediates_length: (self.intermediates_length + 1) as usize, ..added }
    }
}

/// The node that a template begins as: without signals, constraints or
/// annotations, itself its only component, with an entry edge that is
/// labelled `main`, leads to the node and spans nothing, and with the
/// constant signal as the one signal that must stay when the node is the
/// main component.
pub open spec fn fresh_node(
    id: usize,
    template_name: Seq<char>,
    pretty_template_name: Seq<char>,
    parameters: Seq<int>,
    ordered_signals: Seq<Seq<char>>,
    is_parallel: bool,
    is_custom_gate: bool,
) -> NodeView {
    NodeView {
        entry: EdgeView {
            label: "main"@,
            goes_to: id,
            in_number: 0,
            out_number: 0,
            in_component_number: 0,
            out_component_number: 0,
        },
        template_name,
        pretty_template_name,
        parameters,
        number_of_signals: 0,
        number_of_components: 1,
        intermediates_length: 0,
        public_inputs_length: 0,
        inputs_length: 0,
        outputs_length: 0,
        signal_correspondence: Seq::empty(),
        ordered_signals,
        locals: Set::empty(),
        reachables: Set::empty(),
        forbidden_if_main: set![0usize],
        io_signals: Seq::empty(),
        constraints: Seq::empty(),
        underscored_signals: Seq::empty(),
        is_parallel,
        has_parallel_component: false,
        is_custom_gate,
        number_of_subcomponents_indexes: 0,
        preconditions: Seq::empty(),
        preconditions_intermediates: Seq::empty(),
        postconditions_intermediates: Seq::empty(),
        postconditions_outputs: Seq::empty(),
        facts: Seq::empty(),
        tags_preconditions: Seq::empty(),
        tags_postconditions_intermediates: Seq::empty(),
        tags_postconditions_outputs: Seq::empty(),
    }
}

impl Node {
    /// A node without signals. Its entry leads to `id`; the constant signal
    /// must stay when the node is the main component.
    pub fn new(
        id: usize,
        template_name: String,
        pretty_template_name: String,
        parameters: Vec<BigInt>,
        ordered_signals: Vec<String>,
        is_parallel: bool,
        is_custom_gate: bool,
    ) -> (r: Node)
        ensures
            r@ == fresh_node(
                id,
                template_name@,
                pretty_template_name@,
                parameter_views(parameters@),
                name_views(ordered_signals@),
                is_parallel,
                is_custom_gate,
            ),
    {
        let mut forbidden_if_main: HashSet<usize> = HashSet::new();
        forbidden_if_main.insert(0);
        let r = Node {
            template_name,
            pretty_template_name,
            entry: Edge::new_entry(id),
            parameters,
            number_of_signals: 0,
            number_of_components: 1,
            intermediates_length: 0,
            public_inputs_length: 0,
            inputs_length: 0,
            outputs_length: 0,
            signal_correspondence: Vec::new(),
            ordered_signals,
            locals: HashSet::new(),
            reachables: HashSet::new(),
            forbidden_if_main,
            io_signals: Vec::new(),
            constraints: Vec::new(),
            underscored_signals: Vec::new(),
            is_parallel,
            has_parallel_component: false,
            is_custom_gate,
            number_of_subcomponents_indexes: 0,
            preconditions: Vec::new(),
            preconditions_intermediates: Vec::new(),
            postconditions_intermediates: Vec::new(),
            postconditions_outputs: Vec::new(),
            facts: Vec::new(),
            tags_preconditions: Vec::new(),
            tags_postconditions_intermediates: Vec::new(),
            tags_postconditions_outputs: Vec::new(),
        };
        proof {
            assert(r@.signal_correspondence =~= Seq::empty());
            assert(r@.locals =~= Set::empty());
            assert(r@.reachables =~= Set::empty());
            assert(r@.forbidden_if_main =~= set![0usize]);
            assert(r@.constraints =~= Seq::empty());
            assert(r@.preconditions =~= Seq::empty());
            assert(r@.preconditions_intermediates =~= Seq::empty());
            assert(r@.postconditions_intermediates =~= Seq::empty());
            assert(r@.postconditions_outputs =~= Seq::empty());
            assert(r@.facts =~= Seq::empty());
            assert(r@.tags_preconditions =~= Seq::empty());
            assert(r@.tags_postconditions_intermediates =~= Seq::empty());
            assert(r@.tags_postconditions_outputs =~= Seq::empty());
        }
        r
    }

    /// Adds a signal of the node itself and returns its number.
    fn add_signal(&mut self, name: String) -> (id: usize)
        requires
            old(self)@.has_room(),
        ensures
            final(self)@ == old(self)@.with_signal(name@),
            id == old(self)@.number_of_signals + 1,
    {
        let id: usize = self.number_of_signals + 1;
        name_signal(&mut self.signal_correspondence, name, id);
        self.locals.insert(id);
        self.reachables.insert(id);
        self.number_of_signals = id;
        self.entry.out_number = self.entry.out_number + 1;
        id
    }

    /// Declares an input of the node.
    pub fn add_input(&mut self, name: String, is_public: bool)
        requires
            old(self)@.has_room(),
            old(self)@.inputs_length < usize::MAX,
            old(self)@.public_inputs_length < usize::MAX,
        ensures
            final(self)@ == old(self)@.with_input(name@, is_public),
    {
        let id = self.add_signal(name);
        self.io_signals.push(id);
        self.inputs_length = self.inputs_length + 1;
        if is_public {
            self.public_inputs_length = self.public_inputs_length + 1;
            self.forbidden_if_main.insert(id);
        }
    }

    /// Declares an output of the node.
    pub fn add_output(&mut self, name: String)
        requires
            old(self)@.has_room(),
            old(self)@.outputs_length < usize::MAX,
        ensures
            final(self)@ == old(self)@.with_output(name@),
    {
        let id = self.add_signal(name);
        self.io_signals.push(id);
        self.forbidden_if_main.insert(id);
        self.outputs_length = self.outputs_length + 1;
    }

    /// Declares an intermediate signal of the node.
    pub fn add_intermediate(&mut self, name: String)
        requires
            old(self)@.has_room(),
            old(self)@.intermediates_length < usize::MAX,
        ensures
            final(self)@ == old(self)@.with_intermediate(name@),
    {
        self.add_signal(name);
        self.intermediates_length = self.intermediates_length + 1;
    }

    pub fn add_constraint(&mut self, constraint: Constraint)
        ensures
            final(self)@ == (NodeView {
                constraints: old(self)@.constraints.push(constraint@),
                ..old(self)@
            }),
    {
        let ghost before = constraint_views(self.constraints@);
        let ghost added = constraint@;
        self.constraints.push(constraint);
        assert(constraint_views(self.constraints@) =~= before.push(added));
    }

    pub fn add_underscored_signal(&mut self, signal: usize)
        ensures
            final(self)@ == (NodeView {
                underscored_signals: old(self)@.underscored_signals.push(signal),
                ..old(self)@
            }),
    {
        self.underscored_signals.push(signal)
    }

    pub fn add_precondition(&mut self, prec: Expression)
        ensures
            final(self)@ == (NodeView {
                preconditions: old(self)@.preconditions.push(prec@),
                ..old(self)@
            }),
    {
        let ghost before = views(self.preconditions@);
        let ghost added = prec@;
        self.preconditions.push(prec);
        assert(views(self.preconditions@) =~= before.push(added));
    }

    pub fn add_precondition_intermediate(&mut self, prec: Expression)
        ensures
            final(self)@ == (NodeView {
                preconditions_intermediates: old(self)@.preconditions_intermediates.push(prec@),
                ..old(self)@
            }),
    {
        let ghost before = views(self.preconditions_intermediates@);
        let ghost added = prec@;
        self.preconditions_intermediates.push(prec);
        assert(views(self.preconditions_intermediates@) =~= before.push(added));
    }

    pub fn add_postcondition_intermediate(&mut self, post: Expression)
        ensures
            final(self)@ == (NodeView {
                postconditions_intermediates: old(self)@.postconditions_intermediates.push(post@),
                ..old(self)@
            }),
    {
        let ghost before = views(self.postconditions_intermediates@);
        let ghost added = post@;
        self.postconditions_intermediates.push(post);
        assert(views(self.postconditions_intermediates@) =~= before.push(added));
    }

    pub fn add_postcondition_output(&mut self, post: Expression)
        ensures
            final(self)@ == (NodeView {
                postconditions_outputs: old(self)@.postconditions_outputs.push(post@),
                ..old(self)@
            }),
    {
        let ghost before = views(self.postconditions_outputs@);
        let ghost added = post@;
        self.postconditions_outputs.push(post);
        assert(views(self.postconditions_outputs@) =~= before.push(added));
    }

    pub fn add_fact(&mut self, fact: Expression)
        ensures
            final(self)@ == (NodeView { facts: old(self)@.facts.push(fact@), ..old(self)@ }),
    {
        let ghost before = views(self.facts@);
        let ghost added = fact@;
        self.facts.push(fact);
        assert(views(self.facts@) =~= before.push(added));
    }

    pub fn add_tag_precondition(&mut self, prec: Expression)
        ensures
            final(self)@ == (NodeView {
                tags_preconditions: old(self)@.tags_preconditions.push(prec@),
                ..old(self)@
            }),
    {
        let ghost before = views(self.tags_preconditions@);
        let ghost added = prec@;
        self.tags_preconditions.push(prec);
        assert(views(self.tags_preconditions@) =~= before.push(added));
    }

    pub fn add_tag_postcondition_intermediate(&mut self, post: Expression)
        ensures
            final(self)@ == (NodeView {
                tags_postconditions_intermediates: old(
                    self,
                )@.tags_postconditions_intermediates.push(post@),
                ..old(self)@
            }),
    {
        let ghost before = views(self.tags_postconditions_intermediates@);
        let ghost added = post@;
        self.tags_postconditions_intermediates.push(post);
        assert(views(self.tags_postconditions_intermediates@) =~= before.push(added));
    }

    pub fn add_tag_postcondition_output(&mut self, post: Expression)
        ensures
            final(self)@ == (NodeView {
                tags_postconditions_outputs: old(self)@.tags_postconditions_outputs.push(post@),
                ..old(self)@
            }),
    {
        let ghost before = views(self.tags_postconditions_outputs@);
        let ghost added = post@;
        self.tags_postconditions_outputs.push(post);
        assert(views(self.tags_postconditions_outputs@) =~= before.push(added));
    }

    pub fn set_number_of_subcomponents_indexes(&mut self, number_scmp: usize)
        ensures
            final(self)@ == (NodeView {
                number_of_subcomponents_indexes: number_scmp,
                ..old(self)@
            }),
    {
        self.number_of_subcomponents_indexes = number_scmp
    }

    pub fn parameters(&self) -> (r: &Vec<BigInt>)
        ensures
            parameter_views(r@) == self@.parameters,
    {
        &self.parameters
    }

    pub fn is_local_signal(&self, s: usize) -> (r: bool)
        ensures
            r == self@.locals.contains(s),
    {
        self.locals.contains(&s)
    }

    pub fn is_reachable_signal(&self, s: usize) -> (r: bool)
        ensures
            r == self@.reachables.contains(s),
    {
        self.reachables.contains(&s)
    }

    pub fn number_of_signals(&self) -> (r: usize)
        ensures
            r == self@.number_of_signals,
    {
        self.number_of_signals
    }

    pub fn correspondence(&self) -> (r: &Vec<(String, usize)>)
        ensures
            naming_views(r@) == self@.signal_correspondence,
    {
        &self.signal_correspondence
    }

    pub fn constraints(&self) -> (r: &Vec<Constraint>)
        ensures
            constraint_views(r@) == self@.constraints,
    {
        &self.constraints
    }

    pub fn io_signals(&self) -> (r: &Vec<usize>)
        ensures
            r@ == self@.io_signals,
    {
        &self.io_signals
    }

    pub fn get_entry(&self) -> (r: &Edge)
        ensures
            r@ == self@.entry,
    {
        &self.entry
    }

    pub fn number_of_public_inputs(&self) -> (r: usize)
        ensures
            r == self@.public_inputs_length,
    {
        self.public_inputs_length
    }

    /// The number of inputs that are not public. A node counts no more
    /// public inputs than inputs.
    pub fn number_of_private_inputs(&self) -> (r: usize)
        requires
            self@.public_inputs_length <= self@.inputs_length,
        ensures
            r == self@.inputs_length - self@.public_inputs_length,
    {
        self.inputs_length - self.public_inputs_length
    }

    pub fn number_of_inputs(&self) -> (r: usize)
        ensures
            r == self@.inputs_length,
    {
        self.inputs_length
    }

    pub fn number_of_outputs(&self) -> (r: usize)
        ensures
            r == self@.outputs_length,
    {
        self.outputs_length
    }

    pub fn number_of_intermediates(&self) -> (r: usize)
        ensures
            r == self@.intermediates_length,
    {
        self.intermediates_length
    }

    pub fn has_parallel_sub_cmp(&self) -> (r: bool)
        ensures
            r == self@.has_parallel_component,
    {
        self.has_parallel_component
    }

    pub fn is_custom_gate(&self) -> (r: bool)
        ensures
            r == self@.is_custom_gate,
    {
        self.is_custom_gate
    }

    pub fn number_of_subcomponents_indexes(&self) -> (r: usize)
        ensures
            r == self@.number_of_subcomponents_indexes,
    {
        self.number_of_subcomponents_indexes
    }
}

/// `format!` on two texts: the name `label.name` of a signal of a
/// component as it is seen from the template above.
#[verifier::external_body]
fn qualified(label: &str, name: &str) -> (r: String)
    ensures
        r@ == label@ + seq!['.'] + name@,
{
    format!("{}.{}", label, name)
}

/// The graph of templates. The last node is the main component, or the
/// template that is being built.
pub struct DAG {
    pub one_signal: usize,
    pub nodes: Vec<Node>,
    pub adjacency: Vec<Vec<Edge>>,
    pub prime: String,
}

/// The contents of a list of edges.
pub open spec fn edge_views(s: Seq<Edge>) -> Seq<EdgeView> {
    s.map_values(|e: Edge| e@)
}

/// The names and the reachable signals of a template after the first `k`
/// named signals of a component have been linked in: each signal of the
/// component itself is named `label.name` and numbered after `in_number`,
/// and is reachable where it belongs to the interface of the component.
pub open spec fn linked(
    names: Seq<(Seq<char>, usize)>,
    reachables: Set<usize>,
    to: NodeView,
    label: Seq<char>,
    in_number: usize,
    k: nat,
) -> (Seq<(Seq<char>, usize)>, Set<usize>)
    decreases k,
{
    if k == 0 || k > to.signal_correspondence.len() {
        (names, reachables)
    } else {
        let before = linked(names, reachables, to, label, in_number, (k - 1) as nat);
        let e = to.signal_correspondence[k - 1];
        if to.locals.contains(e.1) {
            let value = (in_number + e.1) as usize;
            (
                named(before.0, label + seq!['.'] + e.0, value),
                if e.1 <= to.inputs_length + to.outputs_length {
                    before.1.insert(value)
                } else {
                    before.1
                },
            )
        } else {
            before
        }
    }
}

/// The sum of two numbers that fits a machine word.
pub open spec fn plus(a: usize, b: usize) -> usize {
    (a + b) as usize
}

impl NodeView {
    /// Whether a component can be linked into the node: the signals and
    /// components of both can be numbered together.
    pub open spec fn can_link(self, to: NodeView) -> bool {
        &&& self.number_of_signals + to.number_of_signals <= usize::MAX
        &&& self.entry.out_number + to.number_of_signals <= usize::MAX
        &&& self.number_of_components + to.number_of_components <= usize::MAX
        &&& self.entry.out_component_number + to.number_of_components <= usize::MAX
        &&& to.inputs_length + to.outputs_length <= usize::MAX
        &&& forall|i: int|
            0 <= i < to.signal_correspondence.len() ==> self.number_of_signals + (
            #[trigger] to.signal_correspondence[i]).1 <= usize::MAX
    }

    /// The edge from the node to a component that is linked in next.
    pub open spec fn edge_to(self, to: NodeView, goes_to: usize, label: Seq<char>) -> EdgeView {
        EdgeView {
            label,
            goes_to,
            in_number: self.number_of_signals,
            out_number: (self.number_of_signals + to.number_of_signals) as usize,
            in_component_number: self.number_of_components,
            out_component_number: (self.number_of_components + to.number_of_components) as usize,
        }
    }

    /// The node with a component linked into it: the signals and the
    /// components of the component are numbered after those of the node,
    /// and the signals of the component itself can be named from the node.
    pub open spec fn with_component(self, to: NodeView, label: Seq<char>, is_parallel: bool) -> NodeView {
        let all = linked(
            self.signal_correspondence,
            self.reachables,
            to,
            label,
            self.number_of_signals,
            to.signal_correspondence.len(),
        );
        NodeView {
            number_of_signals: plus(self.number_of_signals, to.number_of_signals),
            number_of_components: plus(self.number_of_components, to.number_of_components),
            entry: EdgeView {
                out_number: plus(self.entry.out_number, to.number_of_signals),
                out_component_number: plus(
                    self.entry.out_component_number,
                    to.number_of_components,
                ),
                ..self.entry
            },
            has_parallel_component: self.has_parallel_component || to.is_parallel || is_parallel,
            signal_correspondence: all.0,
            reachables: all.1,
            ..self
        }
    }
}

impl DAG {
    /// Whether every node has its list of edges.
    pub open spec fn wf(&self) -> bool {
        self.adjacency@.len() == self.nodes@.len()
    }

    /// Whether every edge leads to a node before the node it starts from,
    /// so that no template contains itself.
    pub open spec fn downward(&self) -> bool {
        forall|from: int, i: int|
            0 <= from < self.adjacency@.len() && 0 <= i < self.adjacency@[from]@.len() ==> (
            #[trigger] self.adjacency@[from]@[i])@.goes_to < from
    }

    /// The graph without nodes, over the field of the given prime.
    pub fn new(prime: &String) -> (r: DAG)
        ensures
            r.one_signal == 0,
            r.nodes@.len() == 0,
            r.adjacency@.len() == 0,
            r.prime@ == prime@,
            r.wf(),
            r.downward(),
    {
        DAG { prime: prime.clone(), one_signal: 0, nodes: Vec::new(), adjacency: Vec::new() }
    }

    /// Adds a template without signals or components and returns its
    /// number. It is the main component until another is added.
    pub fn add_node(
        &mut self,
        template_name: String,
        pretty_template_name: String,
        parameters: Vec<BigInt>,
        ordered_signals: Vec<String>,
        is_parallel: bool,
        is_custom_gate: bool,
    ) -> (id: usize)
        requires
            old(self).wf(),
        ensures
            id == old(self).nodes@.len(),
            final(self).wf(),
            old(self).downward() ==> final(self).downward(),
            final(self).nodes@.len() == old(self).nodes@.len() + 1,
            forall|i: int| 0 <= i < old(self).nodes@.len() ==> final(self).nodes@[i] == old(
                self,
            ).nodes@[i],
            forall|i: int| 0 <= i < old(self).nodes@.len() ==> final(self).adjacency@[i] == old(
                self,
            ).adjacency@[i],
            final(self).adjacency@[id as int]@.len() == 0,
            final(self).nodes@[id as int]@ == fresh_node(
                id,
                template_name@,
                pretty_template_name@,
                parameter_views(parameters@),
                name_views(ordered_signals@),
                is_parallel,
                is_custom_gate,
            ),
            final(self).one_signal == old(self).one_signal,
            final(self).prime == old(self).prime,
    {
        let id: usize = self.nodes.len();
        self.nodes.push(
            Node::new(
                id,
                template_name,
                pretty_template_name,
                parameters,
                ordered_signals,
                is_parallel,
                is_custom_gate,
            ),
        );
        self.adjacency.push(Vec::new());
        id
    }

    /// The number of the main component.
    pub fn main_id(&self) -> (r: usize)
        requires
            self.nodes@.len() > 0,
        ensures
            r == self.nodes@.len() - 1,
    {
        self.nodes.len() - 1
    }

    pub fn number_of_nodes(&self) -> (r: usize)
        ensures
            r == self.nodes@.len(),
    {
        self.nodes.len()
    }

    /// The main component, if there is a node at all.
    pub fn get_main(&self) -> (r: Option<&Node>)
        ensures
            match r {
                Some(node) => self.nodes@.len() > 0 && *node == self.nodes@[self.nodes@.len() - 1],
                None => self.nodes@.len() == 0,
            },
    {
        let n: usize = self.nodes.len();
        if n > 0 {
            Some(&self.nodes[n - 1])
        } else {
            None
        }
    }

    pub fn get_node(&self, id: usize) -> (r: Option<&Node>)
        ensures
            match r {
                Some(node) => id < self.nodes@.len() && *node == self.nodes@[id as int],
                None => id >= self.nodes@.len(),
            },
    {
        if id < self.nodes.len() {
            Some(&self.nodes[id])
        } else {
            None
        }
    }

    /// The entry of the main component.
    pub fn get_entry(&self) -> (r: Option<&Edge>)
        ensures
            match r {
                Some(edge) => self.nodes@.len() > 0 && edge@ == self.nodes@[self.nodes@.len()
                    - 1]@.entry,
                None => self.nodes@.len() == 0,
            },
    {
        match self.get_main() {
            Some(main) => Some(main.get_entry()),
            None => None,
        }
    }

    /// The edges of a node.
    pub fn get_edges(&self, node: usize) -> (r: Option<&Vec<Edge>>)
        requires
            self.wf(),
        ensures
            match r {
                Some(edges) => node < self.nodes@.len() && *edges == self.adjacency@[node as int],
                None => node >= self.nodes@.len(),
            },
    {
        if node < self.nodes.len() {
            Some(&self.adjacency[node])
        } else {
            None
        }
    }

    /// The place of the first edge from `source` to `target`.
    fn raw_find_id_connexion(&self, source: usize, target: usize) -> (r: Option<usize>)
        requires
            source < self.adjacency@.len(),
        ensures
            match r {
                Some(i) => {
                    &&& i < self.adjacency@[source as int]@.len()
                    &&& self.adjacency@[source as int]@[i as int]@.goes_to == target
                    &&& forall|k: int|
                        0 <= k < i ==> (#[trigger] self.adjacency@[source as int]@[k])@.goes_to
                            != target
                },
                None => forall|k: int|
                    0 <= k < self.adjacency@[source as int]@.len() ==> (
                    #[trigger] self.adjacency@[source as int]@[k])@.goes_to != target,
            },
    {
        let cc = &self.adjacency[source];
        let mut index: usize = 0;
        while index < cc.len() && cc[index].goes_to != target
            invariant
                index <= cc.len(),
                forall|k: int| 0 <= k < index ==> (#[trigger] cc@[k])@.goes_to != target,
            decreases cc.len() - index,
        {
            index += 1;
        }
        if index == cc.len() {
            None
        } else {
            Some(index)
        }
    }

    /// The first edge from one node to another.
    pub fn get_connexion(&self, from: usize, to: usize) -> (r: Option<&Edge>)
        requires
            from < self.adjacency@.len(),
        ensures
            match r {
                Some(edge) => exists|i: int|
                    0 <= i < self.adjacency@[from as int]@.len() && *edge
                        == #[trigger] self.adjacency@[from as int]@[i] && edge@.goes_to == to,
                None => forall|k: int|
                    0 <= k < self.adjacency@[from as int]@.len() ==> (
                    #[trigger] self.adjacency@[from as int]@[k])@.goes_to != to,
            },
    {
        match self.raw_find_id_connexion(from, to) {
            Some(i) => Some(&self.adjacency[from][i]),
            None => None,
        }
    }

    /// The number of public inputs of the main component.
    pub fn public_inputs(&self) -> (r: usize)
        ensures
            r == (if self.nodes@.len() > 0 {
                self.nodes@[self.nodes@.len() - 1]@.public_inputs_length
            } else {
                0
            }),
    {
        match self.get_main() {
            Some(main) => main.number_of_public_inputs(),
            None => 0,
        }
    }

    /// The number of private inputs of the main component.
    pub fn private_inputs(&self) -> (r: usize)
        requires
            self.nodes@.len() > 0 ==> self.nodes@[self.nodes@.len() - 1]@.public_inputs_length
                <= self.nodes@[self.nodes@.len() - 1]@.inputs_length,
        ensures
            r == (if self.nodes@.len() > 0 {
                self.nodes@[self.nodes@.len() - 1]@.inputs_length - self.nodes@[self.nodes@.len()
                    - 1]@.public_inputs_length
            } else {
                0
            }),
    {
        match self.get_main() {
            Some(main) => main.number_of_private_inputs(),
            None => 0,
        }
    }

    /// The number of outputs of the main component.
    pub fn public_outputs(&self) -> (r: usize)
        ensures
            r == (if self.nodes@.len() > 0 {
                self.nodes@[self.nodes@.len() - 1]@.outputs_length
            } else {
                0
            }),
    {
        match self.get_main() {
            Some(main) => main.number_of_outputs(),
            None => 0,
        }
    }
}

impl DAG {
    /// The content of the main component.
    pub open spec fn main_view(&self) -> NodeView {
        self.nodes@[self.nodes@.len() - 1]@
    }

    /// Whether the graph is `before` with a main component of the content
    /// `main` in place of its own.
    pub open spec fn with_main(&self, before: &DAG, main: NodeView) -> bool {
        &&& self.one_signal == before.one_signal
        &&& self.prime == before.prime
        &&& self.adjacency == before.adjacency
        &&& self.nodes@.len() == before.nodes@.len()
        &&& self.nodes@.len() > 0
        &&& forall|i: int|
            0 <= i < self.nodes@.len() - 1 ==> self.nodes@[i] == before.nodes@[i]
        &&& self.main_view() == main
    }

    /// Declares an input of the main component. A graph without nodes stays as it is.
    pub fn add_input(&mut self, name: String, is_public: bool)
        requires
            old(self).nodes@.len() > 0 ==> ({
                let m = old(self).main_view();
                m.has_room() && m.inputs_length < usize::MAX && m.public_inputs_length < usize::MAX
            }),
        ensures
            old(self).nodes@.len() == 0 ==> *final(self) == *old(self),
            old(self).nodes@.len() > 0 ==> final(self).with_main(
                old(self),
                old(self).main_view().with_input(name@, is_public),
            ),
    {
        if self.nodes.len() > 0 {
            let mut node = self.nodes.pop().unwrap();
            node.add_input(name, is_public);
            self.nodes.push(node);
        }
    }

    /// Declares an output of the main component. A graph without nodes stays as it is.
    pub fn add_output(&mut self, name: String)
        requires
            old(self).nodes@.len() > 0 ==> ({
                let m = old(self).main_view();
                m.has_room() && m.outputs_length < usize::MAX
            }),
        ensures
            old(self).nodes@.len() == 0 ==> *final(self) == *old(self),
            old(self).nodes@.len() > 0 ==> final(self).with_main(
                old(self),
                old(self).main_view().with_output(name@),
            ),
    {
        if self.nodes.len() > 0 {
            let mut node = self.nodes.pop().unwrap();
            node.add_output(name);
            self.nodes.push(node);
        }
    }

    /// Declares an intermediate signal of the main component. A graph without nodes stays as it is.
    pub fn add_intermediate(&mut self, name: String)
        requires
            old(self).nodes@.len() > 0 ==> ({
                let m = old(self).main_view();
                m.has_room() && m.intermediates_length < usize::MAX
            }),
        ensures
            old(self).nodes@.len() == 0 ==> *final(self) == *old(self),
            old(self).nodes@.len() > 0 ==> final(self).with_main(
                old(self),
                old(self).main_view().with_intermediate(name@),
            ),
    {
        if self.nodes.len() > 0 {
            let mut node = self.nodes.pop().unwrap();
            node.add_intermediate(name);
            self.nodes.push(node);
        }
    }

    /// Adds a constraint to the main component. A graph without nodes stays as it is.
    pub fn add_constraint(&mut self, constraint: Constraint)
        ensures
            old(self).nodes@.len() == 0 ==> *final(self) == *old(self),
            old(self).nodes@.len() > 0 ==> final(self).with_main(
                old(self),
                NodeView {
                    constraints: old(self).main_view().constraints.push(constraint@),
                    ..old(self).main_view()
                },
            ),
    {
        if self.nodes.len() > 0 {
            let mut node = self.nodes.pop().unwrap();
            node.add_constraint(constraint);
            self.nodes.push(node);
        }
    }

    /// Notes a signal of the main component that is deliberately unused. A graph without nodes stays as it is.
    pub fn add_underscored_signal(&mut self, signal: usize)
        ensures
            old(self).nodes@.len() == 0 ==> *final(self) == *old(self),
            old(self).nodes@.len() > 0 ==> final(self).with_main(
                old(self),
                NodeView {
                    underscored_signals: old(self).main_view().underscored_signals.push(signal),
                    ..old(self).main_view()
                },
            ),
    {
        if self.nodes.len() > 0 {
            let mut node = self.nodes.pop().unwrap();
            node.add_underscored_signal(signal);
            self.nodes.push(node);
        }
    }

    /// Adds an assumption on the inputs of the main component. A graph without nodes stays as it is.
    pub fn add_precondition(&mut self, prec: Expression)
        ensures
            old(self).nodes@.len() == 0 ==> *final(self) == *old(self),
            old(self).nodes@.len() > 0 ==> final(self).with_main(
                old(self),
                NodeView {
                    preconditions: old(self).main_view().preconditions.push(prec@),
                    ..old(self).main_view()
                },
            ),
    {
        if self.nodes.len() > 0 {
            let mut node = self.nodes.pop().unwrap();
            node.add_precondition(prec);
            self.nodes.push(node);
        }
    }

    /// Adds an assumption on the intermediates of the main component. A graph without nodes stays as it is.
    pub fn add_precondition_intermediate(&mut self, prec: Expression)
        ensures
            old(self).nodes@.len() == 0 ==> *final(self) == *old(self),
            old(self).nodes@.len() > 0 ==> final(self).with_main(
                old(self),
                NodeView {
                    preconditions_intermediates: old(self).main_view().preconditions_intermediates.push(prec@),
                    ..old(self).main_view()
                },
            ),
    {
        if self.nodes.len() > 0 {
            let mut node = self.nodes.pop().unwrap();
            node.add_precondition_intermediate(prec);
            self.nodes.push(node);
        }
    }

    /// Adds a postcondition on the intermediates of the main component. A graph without nodes stays as it is.
    pub fn add_postcondition_intermediate(&mut self, post: Expression)
        ensures
            old(self).nodes@.len() == 0 ==> *final(self) == *old(self),
            old(self).nodes@.len() > 0 ==> final(self).with_main(
                old(self),
                NodeView {
                    postconditions_intermediates: old(self).main_view().postconditions_intermediates.push(post@),
                    ..old(self).main_view()
                },
            ),
    {
        if self.nodes.len() > 0 {
            let mut node = self.nodes.pop().unwrap();
            node.add_postcondition_intermediate(post);
            self.nodes.push(node);
        }
    }

    /// Adds a postcondition on the outputs of the main component. A graph without nodes stays as it is.
    pub fn add_postcondition_output(&mut self, post: Expression)
        ensures
            old(self).nodes@.len() == 0 ==> *final(self) == *old(self),
            old(self).nodes@.len() > 0 ==> final(self).with_main(
                old(self),
                NodeView {
                    postconditions_outputs: old(self).main_view().postconditions_outputs.push(post@),
                    ..old(self).main_view()
                },
            ),
    {
        if self.nodes.len() > 0 {
            let mut node = self.nodes.pop().unwrap();
            node.add_postcondition_output(post);
            self.nodes.push(node);
        }
    }

    /// Adds a fact that holds of the main component. A graph without nodes stays as it is.
    pub fn add_fact(&mut self, fact: Expression)
        ensures
            old(self).nodes@.len() == 0 ==> *final(self) == *old(self),
            old(self).nodes@.len() > 0 ==> final(self).with_main(
                old(self),
                NodeView {
                    facts: old(self).main_view().facts.push(fact@),
                    ..old(self).main_view()
                },
            ),
    {
        if self.nodes.len() > 0 {
            let mut node = self.nodes.pop().unwrap();
            node.add_fact(fact);
            self.nodes.push(node);
        }
    }

    /// Adds a tag of the inputs of the main component. A graph without nodes stays as it is.
    pub fn add_tag_precondition(&mut self, prec: Expression)
        ensures
            old(self).nodes@.len() == 0 ==> *final(self) == *old(self),
            old(self).nodes@.len() > 0 ==> final(self).with_main(
                old(self),
                NodeView {
                    tags_preconditions: old(self).main_view().tags_preconditions.push(prec@),
                    ..old(self).main_view()
                },
            ),
    {
        if self.nodes.len() > 0 {
            let mut node = self.nodes.pop().unwrap();
            node.add_tag_precondition(prec);
            self.nodes.push(node);
        }
    }

    /// Adds a tag to prove of the intermediates of the main component. A graph without nodes stays as it is.
    pub fn add_tag_postcondition_intermediate(&mut self, post: Expression)
        ensures
            old(self).nodes@.len() == 0 ==> *final(self) == *old(self),
            old(self).nodes@.len() > 0 ==> final(self).with_main(
                old(self),
                NodeView {
                    tags_postconditions_intermediates: old(self).main_view().tags_postconditions_intermediates.push(post@),
                    ..old(self).main_view()
                },
            ),
    {
        if self.nodes.len() > 0 {
            let mut node = self.nodes.pop().unwrap();
            node.add_tag_postcondition_intermediate(post);
            self.nodes.push(node);
        }
    }

    /// Adds a tag to prove of the outputs of the main component. A graph without nodes stays as it is.
    pub fn add_tag_postcondition_output(&mut self, post: Expression)
        ensures
            old(self).nodes@.len() == 0 ==> *final(self) == *old(self),
            old(self).nodes@.len() > 0 ==> final(self).with_main(
                old(self),
                NodeView {
                    tags_postconditions_outputs: old(self).main_view().tags_postconditions_outputs.push(post@),
                    ..old(self).main_view()
                },
            ),
    {
        if self.nodes.len() > 0 {
            let mut node = self.nodes.pop().unwrap();
            node.add_tag_postcondition_output(post);
            self.nodes.push(node);
        }
    }

    /// Sets the number of indexes of the components of the main component.
    /// A graph without nodes stays as it is.
    pub fn set_number_of_subcomponents_indexes(&mut self, number_scmp: usize)
        ensures
            old(self).nodes@.len() == 0 ==> *final(self) == *old(self),
            old(self).nodes@.len() > 0 ==> final(self).with_main(
                old(self),
                NodeView {
                    number_of_subcomponents_indexes: number_scmp,
                    ..old(self).main_view()
                },
            ),
    {
        if self.nodes.len() > 0 {
            let mut node = self.nodes.pop().unwrap();
            node.set_number_of_subcomponents_indexes(number_scmp);
            self.nodes.push(node);
        }
    }

    /// Links the node `to` into the main component as the component named
    /// `label`, and returns the edge that leads to it. Only a node before
    /// the main component can be linked in; for any other, nothing changes
    /// and there is no edge.
    pub fn add_edge(&mut self, to: usize, label: &str, is_parallel: bool) -> (r: Option<&Edge>)
        requires
            old(self).wf(),
            old(self).nodes@.len() > 0,
            to < old(self).nodes@.len() - 1 ==> old(self).main_view().can_link(
                old(self).nodes@[to as int]@,
            ),
        ensures
            to >= old(self).nodes@.len() - 1 ==> r is None && *final(self) == *old(self),
            to < old(self).nodes@.len() - 1 ==> {
                let from = old(self).nodes@.len() - 1;
                let target = old(self).nodes@[to as int]@;
                &&& r matches Some(edge) && edge@ == old(self).main_view().edge_to(
                    target,
                    to,
                    label@,
                )
                &&& final(self).one_signal == old(self).one_signal
                &&& final(self).prime == old(self).prime
                &&& final(self).wf()
                &&& final(self).nodes@.len() == old(self).nodes@.len()
                &&& forall|i: int| 0 <= i < from ==> final(self).nodes@[i] == old(self).nodes@[i]
                &&& final(self).main_view() == old(self).main_view().with_component(
                    target,
                    label@,
                    is_parallel,
                )
                &&& forall|i: int|
                    0 <= i < from ==> final(self).adjacency@[i] == old(self).adjacency@[i]
                &&& edge_views(final(self).adjacency@[from]@) == edge_views(
                    old(self).adjacency@[from]@,
                ).push(old(self).main_view().edge_to(target, to, label@))
                &&& old(self).downward() ==> final(self).downward()
            },
    {
        let from: usize = self.nodes.len() - 1;
        if to >= from {
            return None;
        }
        let ghost given = *self;
        let ghost target = self.nodes@[to as int]@;
        let mut main = self.nodes.pop().unwrap();
        let mut edges = self.adjacency.pop().unwrap();
        let ghost start = main@;
        let ghost drawn = edge_views(edges@);
        let node = &self.nodes[to];
        let in_num: usize = main.number_of_signals;
        let in_component_num: usize = main.number_of_components;
        let out_num: usize = in_num + node.number_of_signals;
        let out_component_num: usize = in_component_num + node.number_of_components;
        main.number_of_signals = out_num;
        main.entry.out_number = main.entry.out_number + node.number_of_signals;
        main.number_of_components = out_component_num;
        main.entry.out_component_number = main.entry.out_component_number
            + node.number_of_components;
        main.has_parallel_component = main.has_parallel_component || node.is_parallel || is_parallel;
        let with = Edge {
            label: label.to_owned(),
            goes_to: to,
            in_number: in_num,
            out_number: out_num,
            in_component_number: in_component_num,
            out_component_number: out_component_num,
        };
        let ghost base = main@;
        let interface: usize = node.inputs_length + node.outputs_length;
        let mut k: usize = 0;
        while k < node.signal_correspondence.len()
            invariant
                k <= node.signal_correspondence.len(),
                node@ == target,
                in_num == start.number_of_signals,
                interface == target.inputs_length + target.outputs_length,
                start.can_link(target),
                main@ == (NodeView {
                    signal_correspondence: linked(
                        start.signal_correspondence,
                        start.reachables,
                        target,
                        label@,
                        in_num,
                        k as nat,
                    ).0,
                    reachables: linked(
                        start.signal_correspondence,
                        start.reachables,
                        target,
                        label@,
                        in_num,
                        k as nat,
                    ).1,
                    ..base
                }),
            decreases node.signal_correspondence.len() - k,
        {
            let id: usize = node.signal_correspondence[k].1;
            assert(target.signal_correspondence[k as int] == (
                node.signal_correspondence@[k as int].0@,
                id,
            ));
            if node.locals.contains(&id) {
                let concrete_name = qualified(label, node.signal_correspondence[k].0.as_str());
                let concrete_value: usize = in_num + id;
                name_signal(&mut main.signal_correspondence, concrete_name, concrete_value);
                if id <= interface {
                    main.reachables.insert(concrete_value);
                }
            }
            k += 1;
        }
        edges.push(with);
        assert(edge_views(edges@) =~= drawn.push(start.edge_to(target, to, label@)));
        self.nodes.push(main);
        self.adjacency.push(edges);
        proof {
            if given.downward() {
                assert forall|a: int, i: int|
                    0 <= a < self.adjacency@.len() && 0 <= i
                        < self.adjacency@[a]@.len() implies (#[trigger] self.adjacency@[a]@[i])@.goes_to
                    < a by {
                    if a < from {
                        assert(self.adjacency@[a] == given.adjacency@[a]);
                    } else if i < given.adjacency@[a]@.len() {
                        assert(self.adjacency@[a]@[i] == given.adjacency@[a]@[i]);
                    }
                }
            }
        }
        let n: usize = self.adjacency[from].len();
        Some(&self.adjacency[from][n - 1])
    }
}

/// `slice::sort` on signals: the same signals in rising order.
#[verifier::external_body]
fn sort_signals(signals: &mut Vec<usize>)
    ensures
        final(signals)@.to_multiset() == old(signals)@.to_multiset(),
        rising(final(signals)@),
{
    signals.sort()
}

/// Whether a list of signals is in rising order.
pub open spec fn rising(s: Seq<usize>) -> bool {
    forall|i: int, j: int| 0 <= i <= j < s.len() ==> s[i] <= s[j]
}

/// The signals of a node itself among its first `k` named signals, each
/// moved up by `offset`, in the order of their names.
pub open spec fn local_ids(node: NodeView, offset: int, k: nat) -> Seq<usize>
    decreases k,
{
    if k == 0 || k > node.signal_correspondence.len() {
        Seq::empty()
    } else {
        let before = local_ids(node, offset, (k - 1) as nat);
        let id = node.signal_correspondence[k - 1].1;
        if node.locals.contains(id) {
            before.push((id + offset) as usize)
        } else {
            before
        }
    }
}

/// Whether every term of every given constraint that is not empty speaks
/// of signals up to `bound` only.
pub open spec fn constraints_within(cs: Seq<ConstraintView>, bound: int) -> bool {
    forall|i: int|
        0 <= i < cs.len() ==> signals_within((#[trigger] cs[i]).a, bound) && signals_within(
            cs[i].b,
            bound,
        ) && signals_within(cs[i].c, bound)
}

/// Whether every annotation of a list speaks of signals up to `bound` only.
pub open spec fn annotations_within(es: Seq<ExpressionView>, bound: int) -> bool {
    forall|i: int| 0 <= i < es.len() ==> (#[trigger] es[i]).signals_at_most(bound)
}

/// The constraints that are not empty, each moved up by `offset`.
pub open spec fn placed_constraints(cs: Seq<ConstraintView>, offset: int) -> Seq<ConstraintView>
    decreases cs.len(),
{
    if cs.len() == 0 {
        Seq::empty()
    } else {
        let before = placed_constraints(cs.drop_last(), offset);
        let c = cs.last();
        if c.a.len() == 0 && c.b.len() == 0 && c.c.len() == 0 {
            before
        } else {
            before.push(
                ConstraintView {
                    a: moved(c.a, offset),
                    b: moved(c.b, offset),
                    c: moved(c.c, offset),
                },
            )
        }
    }
}

/// The annotations, each moved up by `offset`.
pub open spec fn placed_annotations(es: Seq<ExpressionView>, offset: int) -> Seq<ExpressionView> {
    es.map_values(|e: ExpressionView| e.shifted(offset))
}

impl NodeView {
    /// Whether the node can stand at `offset`: every signal that it names
    /// or speaks of can be moved up by `offset`.
    pub open spec fn fits_at(self, offset: int) -> bool {
        let bound = usize::MAX - offset;
        &&& forall|i: int|
            0 <= i < self.signal_correspondence.len() ==> (
            #[trigger] self.signal_correspondence[i]).1 <= bound
        &&& constraints_within(self.constraints, bound)
        &&& annotations_within(self.preconditions, bound)
        &&& annotations_within(self.preconditions_intermediates, bound)
        &&& annotations_within(self.postconditions_intermediates, bound)
        &&& annotations_within(self.postconditions_outputs, bound)
        &&& annotations_within(self.facts, bound)
        &&& annotations_within(self.tags_preconditions, bound)
        &&& annotations_within(self.tags_postconditions_intermediates, bound)
        &&& annotations_within(self.tags_postconditions_outputs, bound)
    }
}

/// Whether every term of `le` speaks of signals up to `bound` only.
fn terms_within(le: &Vec<(usize, BigInt)>, bound: usize) -> (r: bool)
    ensures
        r == signals_within(terms_of(le@), bound as int),
{
    let mut i: usize = 0;
    while i < le.len()
        invariant
            i <= le.len(),
            forall|k: int| 0 <= k < i ==> (#[trigger] terms_of(le@)[k]).0 <= bound,
        decreases le.len() - i,
    {
        if le[i].0 > bound {
            assert(terms_of(le@)[i as int].0 > bound);
            return false;
        }
        i += 1;
    }
    true
}

/// Whether every constraint of the list speaks of signals up to `bound`
/// only.
fn all_constraints_within(cs: &Vec<Constraint>, bound: usize) -> (r: bool)
    ensures
        r == constraints_within(constraint_views(cs@), bound as int),
{
    let mut i: usize = 0;
    while i < cs.len()
        invariant
            i <= cs.len(),
            forall|k: int|
                0 <= k < i ==> signals_within((#[trigger] constraint_views(cs@)[k]).a, bound as int)
                    && signals_within(constraint_views(cs@)[k].b, bound as int) && signals_within(
                    constraint_views(cs@)[k].c,
                    bound as int,
                ),
        decreases cs.len() - i,
    {
        if !(terms_within(&cs[i].a, bound) && terms_within(&cs[i].b, bound) && terms_within(
            &cs[i].c,
            bound,
        )) {
            assert(constraint_views(cs@)[i as int] == cs@[i as int]@);
            return false;
        }
        assert(constraint_views(cs@)[i as int] == cs@[i as int]@);
        i += 1;
    }
    true
}

/// Whether every annotation of the list speaks of signals up to `bound`
/// only.
fn all_annotations_within(es: &Vec<Expression>, bound: usize) -> (r: bool)
    ensures
        r == annotations_within(views(es@), bound as int),
{
    let mut i: usize = 0;
    while i < es.len()
        invariant
            i <= es.len(),
            forall|k: int| 0 <= k < i ==> (#[trigger] views(es@)[k]).signals_at_most(bound as int),
        decreases es.len() - i,
    {
        if !es[i].check_condition_io_signals(bound) {
            assert(views(es@)[i as int] == es@[i as int]@);
            return false;
        }
        assert(views(es@)[i as int] == es@[i as int]@);
        i += 1;
    }
    true
}

/// The annotations of a list, each moved up by `offset`.
fn place_annotations(es: &Vec<Expression>, offset: usize) -> (r: Vec<Expression>)
    requires
        annotations_within(views(es@), usize::MAX - offset),
    ensures
        views(r@) == placed_annotations(views(es@), offset as int),
{
    let mut out: Vec<Expression> = Vec::new();
    let mut i: usize = 0;
    while i < es.len()
        invariant
            i <= es.len(),
            annotations_within(views(es@), usize::MAX - offset),
            out@.len() == i,
            forall|k: int| 0 <= k < i ==> (#[trigger] out@[k])@ == es@[k]@.shifted(offset as int),
        decreases es.len() - i,
    {
        assert(views(es@)[i as int] == es@[i as int]@);
        out.push(es[i].apply_offset(offset));
        i += 1;
    }
    assert(views(out@) =~= placed_annotations(views(es@), offset as int));
    out
}

impl Node {
    /// Whether the node can stand at `offset`.
    pub fn fits(&self, offset: usize) -> (r: bool)
        ensures
            r == self@.fits_at(offset as int),
    {
        let bound: usize = usize::MAX - offset;
        let mut i: usize = 0;
        while i < self.signal_correspondence.len()
            invariant
                i <= self.signal_correspondence.len(),
                bound == usize::MAX - offset,
                forall|k: int|
                    0 <= k < i ==> (#[trigger] naming_views(self.signal_correspondence@)[k]).1
                        <= bound,
            decreases self.signal_correspondence.len() - i,
        {
            if self.signal_correspondence[i].1 > bound {
                assert(naming_views(self.signal_correspondence@)[i as int].1 > bound);
                assert(self@.signal_correspondence[i as int].1 > bound);
                return false;
            }
            i += 1;
        }
        all_constraints_within(&self.constraints, bound) && all_annotations_within(
            &self.preconditions,
            bound,
        ) && all_annotations_within(&self.preconditions_intermediates, bound)
            && all_annotations_within(&self.postconditions_intermediates, bound)
            && all_annotations_within(&self.postconditions_outputs, bound)
            && all_annotations_within(&self.facts, bound) && all_annotations_within(
            &self.tags_preconditions,
            bound,
        ) && all_annotations_within(&self.tags_postconditions_intermediates, bound)
            && all_annotations_within(&self.tags_postconditions_outputs, bound)
    }

    /// The signals of the node itself, each moved up by `offset`, in rising
    /// order.
    fn placed_signals(&self, offset: usize) -> (signals: Vec<usize>)
        requires
            forall|i: int|
                0 <= i < self@.signal_correspondence.len() ==> (
                #[trigger] self@.signal_correspondence[i]).1 + offset <= usize::MAX,
        ensures
            rising(signals@),
            signals@.to_multiset() == local_ids(
                self@,
                offset as int,
                self@.signal_correspondence.len(),
            ).to_multiset(),
    {
        let mut signals: Vec<usize> = Vec::new();
        let mut i: usize = 0;
        while i < self.signal_correspondence.len()
            invariant
                i <= self.signal_correspondence.len(),
                forall|k: int|
                    0 <= k < self@.signal_correspondence.len() ==> (
                    #[trigger] self@.signal_correspondence[k]).1 + offset <= usize::MAX,
                signals@ == local_ids(self@, offset as int, i as nat),
            decreases self.signal_correspondence.len() - i,
        {
            let id: usize = self.signal_correspondence[i].1;
            assert(self@.signal_correspondence[i as int].1 == id);
            if self.locals.contains(&id) {
                signals.push(id + offset);
            }
            i += 1;
        }
        sort_signals(&mut signals);
        signals
    }
}

/// The constraints of a list that are not empty, each moved up by
/// `offset`.
fn place_constraints(cs: &Vec<Constraint>, offset: usize) -> (r: Vec<Constraint>)
    requires
        constraints_within(constraint_views(cs@), usize::MAX - offset),
    ensures
        constraint_views(r@) == placed_constraints(constraint_views(cs@), offset as int),
{
    let ghost all = constraint_views(cs@);
    let mut out: Vec<Constraint> = Vec::new();
    let mut i: usize = 0;
    assert(constraint_views(out@) =~= placed_constraints(all.take(0), offset as int));
    while i < cs.len()
        invariant
            i <= cs.len(),
            all == constraint_views(cs@),
            constraints_within(all, usize::MAX - offset),
            constraint_views(out@) == placed_constraints(all.take(i as int), offset as int),
        decreases cs.len() - i,
    {
        proof {
            assert(all.take(i + 1).drop_last() =~= all.take(i as int));
            assert(all.take(i + 1).last() == cs@[i as int]@);
            assert(all[i as int] == cs@[i as int]@);
        }
        if !cs[i].is_empty() {
            let ghost before = constraint_views(out@);
            let placed = cs[i].apply_offset(offset);
            let ghost added = placed@;
            out.push(placed);
            assert(constraint_views(out@) =~= before.push(added));
        }
        i += 1;
    }
    assert(all.take(cs@.len() as int) =~= all);
    out
}

/// A node of the graph at its place in the tree of template instances:
/// its signals, constraints and annotations in the numbering of the whole
/// tree.
pub struct Tree<'a> {
    pub dag: &'a DAG,
    pub path: String,
    pub offset: usize,
    pub node_id: usize,
    pub signals: Vec<usize>,
    pub constraints: Vec<Constraint>,
    pub preconditions: Vec<Expression>,
    pub preconditions_intermediates: Vec<Expression>,
    pub postconditions_outputs: Vec<Expression>,
    pub postconditions_intermediates: Vec<Expression>,
    pub facts: Vec<Expression>,
    pub tags_preconditions: Vec<Expression>,
    pub tags_postconditions_outputs: Vec<Expression>,
    pub tags_postconditions_intermediates: Vec<Expression>,
}

impl<'a> Tree<'a> {
    /// The graph that the tree unfolds.
    pub open spec fn graph(&self) -> &'a DAG {
        self.dag
    }

    /// Whether the tree shows the node `node_id` of its graph at `offset`:
    /// the signals of the node itself in rising order, its constraints that
    /// are not empty and its annotations, all moved up by `offset`.
    pub open spec fn shows(&self, node_id: usize, offset: usize) -> bool {
        let node = self.graph().nodes@[node_id as int]@;
        &&& node_id < self.graph().nodes@.len()
        &&& self.node_id == node_id
        &&& self.offset == offset
        &&& rising(self.signals@)
        &&& self.signals@.to_multiset() == local_ids(
            node,
            offset as int,
            node.signal_correspondence.len(),
        ).to_multiset()
        &&& constraint_views(self.constraints@) == placed_constraints(
            node.constraints,
            offset as int,
        )
        &&& views(self.preconditions@) == placed_annotations(node.preconditions, offset as int)
        &&& views(self.preconditions_intermediates@) == placed_annotations(
            node.preconditions_intermediates,
            offset as int,
        )
        &&& views(self.postconditions_outputs@) == placed_annotations(
            node.postconditions_outputs,
            offset as int,
        )
        &&& views(self.postconditions_intermediates@) == placed_annotations(
            node.postconditions_intermediates,
            offset as int,
        )
        &&& views(self.facts@) == placed_annotations(node.facts, offset as int)
        &&& views(self.tags_preconditions@) == placed_annotations(
            node.tags_preconditions,
            offset as int,
        )
        &&& views(self.tags_postconditions_outputs@) == placed_annotations(
            node.tags_postconditions_outputs,
            offset as int,
        )
        &&& views(self.tags_postconditions_intermediates@) == placed_annotations(
            node.tags_postconditions_intermediates,
            offset as int,
        )
    }

    /// The tree at its root: the main component of the graph, with its
    /// constraints and annotations as they stand.
    pub fn new(dag: &'a DAG) -> (r: Tree<'a>)
        requires
            dag.nodes@.len() > 0,
            forall|i: int|
                0 <= i < dag.main_view().signal_correspondence.len() ==> (
                #[trigger] dag.main_view().signal_correspondence[i]).1
                    + dag.main_view().entry.in_number <= usize::MAX,
        ensures
            r.graph() == dag,
            r.node_id == dag.nodes@.len() - 1,
            r.offset == dag.main_view().entry.in_number,
            r.path@ == dag.main_view().entry.label,
            rising(r.signals@),
            r.signals@.to_multiset() == local_ids(
                dag.main_view(),
                r.offset as int,
                dag.main_view().signal_correspondence.len(),
            ).to_multiset(),
            constraint_views(r.constraints@) == dag.main_view().constraints,
            views(r.preconditions@) == dag.main_view().preconditions,
            views(r.preconditions_intermediates@) == dag.main_view().preconditions_intermediates,
            views(r.postconditions_outputs@) == dag.main_view().postconditions_outputs,
            views(r.postconditions_intermediates@) == dag.main_view().postconditions_intermediates,
            views(r.facts@) == dag.main_view().facts,
            views(r.tags_preconditions@) == dag.main_view().tags_preconditions,
            views(r.tags_postconditions_outputs@) == dag.main_view().tags_postconditions_outputs,
            views(r.tags_postconditions_intermediates@)
                == dag.main_view().tags_postconditions_intermediates,
    {
        let node_id: usize = dag.main_id();
        let root = &dag.nodes[node_id];
        let offset: usize = root.entry.in_number;
        let path = root.entry.label.clone();
        assert(root@ == dag.main_view());
        assert forall|i: int| 0 <= i < root@.signal_correspondence.len() implies (
        #[trigger] root@.signal_correspondence[i]).1 + offset <= usize::MAX by {
            assert(dag.main_view().signal_correspondence[i].1 + dag.main_view().entry.in_number
                <= usize::MAX);
        }
        Tree {
            dag,
            path,
            offset,
            node_id,
            signals: root.placed_signals(offset),
            constraints: copy_constraints(&root.constraints),
            preconditions: copy_all(&root.preconditions),
            preconditions_intermediates: copy_all(&root.preconditions_intermediates),
            postconditions_outputs: copy_all(&root.postconditions_outputs),
            postconditions_intermediates: copy_all(&root.postconditions_intermediates),
            facts: copy_all(&root.facts),
            tags_preconditions: copy_all(&root.tags_preconditions),
            tags_postconditions_outputs: copy_all(&root.tags_postconditions_outputs),
            tags_postconditions_intermediates: copy_all(&root.tags_postconditions_intermediates),
        }
    }

    /// The tree below `current` at the component that `edge` leads to: the
    /// node of the component, moved up to the place that the edge gives it
    /// in the numbering of `current`.
    pub fn go_to_subtree(current: &'a Tree<'a>, edge: &Edge) -> (r: Tree<'a>)
        requires
            edge@.goes_to < current.graph().nodes@.len(),
            current.offset + edge@.in_number <= usize::MAX,
            current.graph().nodes@[edge@.goes_to as int]@.fits_at(
                current.offset + edge@.in_number,
            ),
        ensures
            r.graph() == current.graph(),
            r.shows(edge@.goes_to, (current.offset + edge@.in_number) as usize),
            r.path@ == current.path@ + seq!['.'] + edge@.label,
    {
        let dag = current.dag;
        let node_id: usize = edge.goes_to;
        let node = &dag.nodes[node_id];
        let path = qualified(current.path.as_str(), edge.label.as_str());
        let offset: usize = current.offset + edge.in_number;
        Tree {
            dag,
            path,
            offset,
            node_id,
            signals: node.placed_signals(offset),
            constraints: place_constraints(&node.constraints, offset),
            preconditions: place_annotations(&node.preconditions, offset),
            preconditions_intermediates: place_annotations(
                &node.preconditions_intermediates,
                offset,
            ),
            postconditions_outputs: place_annotations(&node.postconditions_outputs, offset),
            postconditions_intermediates: place_annotations(
                &node.postconditions_intermediates,
                offset,
            ),
            facts: place_annotations(&node.facts, offset),
            tags_preconditions: place_annotations(&node.tags_preconditions, offset),
            tags_postconditions_outputs: place_annotations(
                &node.tags_postconditions_outputs,
                offset,
            ),
            tags_postconditions_intermediates: place_annotations(
                &node.tags_postconditions_intermediates,
                offset,
            ),
        }
    }

    /// The edges of the node that the tree shows.
    pub fn get_edges(tree: &'a Tree<'a>) -> (r: &'a Vec<Edge>)
        requires
            tree.node_id < tree.graph().adjacency@.len(),
        ensures
            *r == tree.graph().adjacency@[tree.node_id as int],
    {
        &tree.dag.adjacency[tree.node_id]
    }
}

impl<'a> Tree<'a> {
    /// Whether the tree is what `new` makes of the main component of its
    /// graph.
    pub open spec fn is_root(&self) -> bool {
        let node = self.graph().main_view();
        &&& self.graph().nodes@.len() > 0
        &&& self.node_id == self.graph().nodes@.len() - 1
        &&& self.offset == node.entry.in_number
        &&& rising(self.signals@)
        &&& self.signals@.to_multiset() == local_ids(
            node,
            self.offset as int,
            node.signal_correspondence.len(),
        ).to_multiset()
        &&& constraint_views(self.constraints@) == node.constraints
        &&& views(self.preconditions@) == node.preconditions
        &&& views(self.preconditions_intermediates@) == node.preconditions_intermediates
        &&& views(self.postconditions_outputs@) == node.postconditions_outputs
        &&& views(self.postconditions_intermediates@) == node.postconditions_intermediates
        &&& views(self.facts@) == node.facts
        &&& views(self.tags_preconditions@) == node.tags_preconditions
        &&& views(self.tags_postconditions_outputs@) == node.tags_postconditions_outputs
        &&& views(self.tags_postconditions_intermediates@)
            == node.tags_postconditions_intermediates
    }
}

impl DAG {
    /// Whether the tree below the node `node_id` at `offset` can be
    /// unfolded: every edge on the way leads to a node before the one it
    /// starts from, and every node can stand at the place that the edges
    /// to it give.
    pub open spec fn unfolds(&self, node_id: usize, offset: usize) -> bool
        decreases node_id,
    {
        node_id < self.adjacency@.len() ==> forall|i: int|
            0 <= i < self.adjacency@[node_id as int]@.len() ==> {
                let e = (#[trigger] self.adjacency@[node_id as int]@[i])@;
                &&& e.goes_to < node_id
                &&& e.goes_to < self.nodes@.len()
                &&& offset + e.in_number <= usize::MAX
                &&& self.nodes@[e.goes_to as int]@.fits_at(offset + e.in_number)
                &&& self.unfolds(e.goes_to, plus(offset, e.in_number))
            }
    }

    /// Whether `t` is the tree of template instances below the node
    /// `node_id` at `offset`: it has the names and the interface of the
    /// node, the signals of the node itself from `initial_signal` on, the
    /// constraints and annotations of the node at `offset` (for the root,
    /// as they stand), and for every edge of the node, in order, the tree
    /// below the component.
    pub open spec fn reflects(
        &self,
        t: TreeConstraints,
        node_id: usize,
        offset: usize,
        as_root: bool,
    ) -> bool
        decreases t,
    {
        let node = self.nodes@[node_id as int]@;
        let own = local_ids(node, offset as int, node.signal_correspondence.len());
        let edges = self.adjacency@[node_id as int]@;
        let place = |es: Seq<ExpressionView>|
            if as_root {
                es
            } else {
                placed_annotations(es, offset as int)
            };
        &&& t.node_id == node_id
        &&& t.template_name@ == node.template_name
        &&& t.pretty_template_name@ == node.pretty_template_name
        &&& t.number_inputs == node.inputs_length
        &&& t.number_outputs == node.outputs_length
        &&& t.number_signals == own.len()
        &&& own.len() > 0 ==> own.contains(t.initial_signal) && forall|k: int|
            0 <= k < own.len() ==> t.initial_signal <= #[trigger] own[k]
        &&& constraint_views(t.constraints@) == (if as_root {
            node.constraints
        } else {
            placed_constraints(node.constraints, offset as int)
        })
        &&& views(t.preconditions@) == place(node.preconditions)
        &&& views(t.preconditions_intermediates@) == place(node.preconditions_intermediates)
        &&& views(t.postconditions_intermediates@) == place(node.postconditions_intermediates)
        &&& views(t.postconditions_outputs@) == place(node.postconditions_outputs)
        &&& views(t.facts@) == place(node.facts)
        &&& views(t.tags_preconditions@) == place(node.tags_preconditions)
        &&& views(t.tags_postconditions_intermediates@) == place(
            node.tags_postconditions_intermediates,
        )
        &&& views(t.tags_postconditions_outputs@) == place(node.tags_postconditions_outputs)
        &&& t.subcomponents@.len() == edges.len()
        &&& forall|i: int|
            0 <= i < t.subcomponents@.len() ==> self.reflects(
                #[trigger] t.subcomponents@[i],
                edges[i]@.goes_to,
                plus(offset, edges[i]@.in_number),
                false,
            )
    }
}

/// The first of a rising list of signals is the least of the signals that
/// the list was sorted from.
proof fn lemma_first_is_least(sorted: Seq<usize>, given: Seq<usize>)
    requires
        rising(sorted),
        sorted.to_multiset() == given.to_multiset(),
    ensures
        sorted.len() == given.len(),
        given.len() > 0 ==> given.contains(sorted[0]) && forall|k: int|
            0 <= k < given.len() ==> sorted[0] <= #[trigger] given[k],
{
    sorted.to_multiset_ensures();
    given.to_multiset_ensures();
    if given.len() > 0 {
        assert(sorted.contains(sorted[0]));
        assert(sorted.to_multiset().count(sorted[0]) > 0);
        assert(given.to_multiset().count(sorted[0]) > 0);
        assert forall|k: int| 0 <= k < given.len() implies sorted[0] <= #[trigger] given[k] by {
            assert(given.contains(given[k]));
            assert(given.to_multiset().count(given[k]) > 0);
            assert(sorted.to_multiset().count(given[k]) > 0);
            assert(sorted.contains(given[k]));
            let j = choose|j: int| 0 <= j < sorted.len() && sorted[j] == given[k];
            assert(sorted[0] <= sorted[j]);
        }
    }
}

/// Fills `tree_constraints` with the tree of template instances below the
/// node that `tree` shows. Returns whether the tree could be unfolded;
/// where it could not, what `tree_constraints` holds is of no use.
pub fn map_tree_constraints(tree: &Tree, tree_constraints: &mut TreeConstraints) -> (ok: bool)
    requires
        tree.graph().wf(),
        tree.node_id < tree.graph().nodes@.len(),
        tree.is_root() || tree.shows(tree.node_id, tree.offset),
        old(tree_constraints).subcomponents@.len() == 0,
    ensures
        ok == tree.graph().unfolds(tree.node_id, tree.offset),
        ok && tree.is_root() ==> tree.graph().reflects(
            *final(tree_constraints),
            tree.node_id,
            tree.offset,
            true,
        ),
        ok && tree.shows(tree.node_id, tree.offset) ==> tree.graph().reflects(
            *final(tree_constraints),
            tree.node_id,
            tree.offset,
            false,
        ),
    decreases tree.node_id,
{
    let dag = tree.dag;
    let node = &dag.nodes[tree.node_id];
    proof {
        lemma_first_is_least(
            tree.signals@,
            local_ids(node@, tree.offset as int, node@.signal_correspondence.len()),
        );
    }
    tree_constraints.template_name = node.template_name.clone();
    tree_constraints.pretty_template_name = node.pretty_template_name.clone();
    tree_constraints.number_signals = tree.signals.len();
    tree_constraints.number_inputs = node.inputs_length;
    tree_constraints.number_outputs = node.outputs_length;
    tree_constraints.preconditions = copy_all(&tree.preconditions);
    tree_constraints.preconditions_intermediates = copy_all(&tree.preconditions_intermediates);
    tree_constraints.postconditions_intermediates = copy_all(&tree.postconditions_intermediates);
    tree_constraints.postconditions_outputs = copy_all(&tree.postconditions_outputs);
    tree_constraints.facts = copy_all(&tree.facts);
    tree_constraints.tags_preconditions = copy_all(&tree.tags_preconditions);
    tree_constraints.tags_postconditions_intermediates = copy_all(
        &tree.tags_postconditions_intermediates,
    );
    tree_constraints.tags_postconditions_outputs = copy_all(&tree.tags_postconditions_outputs);
    if tree.signals.len() > 0 {
        tree_constraints.initial_signal = tree.signals[0];
    }
    tree_constraints.node_id = tree.node_id;
    tree_constraints.constraints = copy_constraints(&tree.constraints);

    let edges = Tree::get_edges(tree);
    let mut i: usize = 0;
    while i < edges.len()
        invariant
            i <= edges.len(),
            dag == tree.graph(),
            dag.wf(),
            tree.node_id < dag.nodes@.len(),
            *edges == dag.adjacency@[tree.node_id as int],
            tree_constraints.subcomponents@.len() == i,
            forall|k: int|
                0 <= k < i ==> {
                    let e = (#[trigger] edges@[k])@;
                    &&& e.goes_to < tree.node_id
                    &&& e.goes_to < dag.nodes@.len()
                    &&& tree.offset + e.in_number <= usize::MAX
                    &&& dag.nodes@[e.goes_to as int]@.fits_at(tree.offset + e.in_number)
                    &&& dag.unfolds(e.goes_to, plus(tree.offset, e.in_number))
                },
            forall|k: int|
                0 <= k < i ==> dag.reflects(
                    #[trigger] tree_constraints.subcomponents@[k],
                    edges@[k]@.goes_to,
                    plus(tree.offset, edges@[k]@.in_number),
                    false,
                ),
            tree_constraints.node_id == tree.node_id,
            tree_constraints.template_name@ == dag.nodes@[tree.node_id as int]@.template_name,
            tree_constraints.pretty_template_name@ == dag.nodes@[tree.node_id
                as int]@.pretty_template_name,
            tree_constraints.number_inputs == dag.nodes@[tree.node_id as int]@.inputs_length,
            tree_constraints.number_outputs == dag.nodes@[tree.node_id as int]@.outputs_length,
            tree_constraints.number_signals == tree.signals@.len(),
            tree.signals@.len() > 0 ==> tree_constraints.initial_signal == tree.signals@[0],
            constraint_views(tree_constraints.constraints@) == constraint_views(tree.constraints@),
            views(tree_constraints.preconditions@) == views(tree.preconditions@),
            views(tree_constraints.preconditions_intermediates@) == views(
                tree.preconditions_intermediates@,
            ),
            views(tree_constraints.postconditions_intermediates@) == views(
                tree.postconditions_intermediates@,
            ),
            views(tree_constraints.postconditions_outputs@) == views(
                tree.postconditions_outputs@,
            ),
            views(tree_constraints.facts@) == views(tree.facts@),
            views(tree_constraints.tags_preconditions@) == views(tree.tags_preconditions@),
            views(tree_constraints.tags_postconditions_intermediates@) == views(
                tree.tags_postconditions_intermediates@,
            ),
            views(tree_constraints.tags_postconditions_outputs@) == views(
                tree.tags_postconditions_outputs@,
            ),
        decreases edges.len() - i,
    {
        let edge = &edges[i];
        let fits = edge.goes_to < tree.node_id && edge.in_number <= usize::MAX - tree.offset
            && dag.nodes[edge.goes_to].fits(tree.offset + edge.in_number);
        if !fits {
            proof {
                let e = dag.adjacency@[tree.node_id as int]@[i as int]@;
                assert(!(e.goes_to < tree.node_id && e.goes_to < dag.nodes@.len() && tree.offset
                    + e.in_number <= usize::MAX && dag.nodes@[e.goes_to as int]@.fits_at(
                    tree.offset + e.in_number,
                )));
            }
            return false;
        }
        let subtree = Tree::go_to_subtree(tree, edge);
        let mut subtree_constraints = TreeConstraints::default();
        let mapped = map_tree_constraints(&subtree, &mut subtree_constraints);
        if !mapped {
            proof {
                let e = dag.adjacency@[tree.node_id as int]@[i as int]@;
                assert(!dag.unfolds(e.goes_to, plus(tree.offset, e.in_number)));
            }
            return false;
        }
        tree_constraints.subcomponents.push(subtree_constraints);
        i += 1;
    }
    true
}

/// Every node of the tree below a node of the graph is itself the tree
/// below a node of the graph.
pub proof fn lemma_reflects_at(
    dag: &DAG,
    t: TreeConstraints,
    node_id: usize,
    offset: usize,
    as_root: bool,
    path: Seq<int>,
)
    requires
        dag.reflects(t, node_id, offset, as_root),
        node_at(t, path) is Some,
    ensures
        exists|id: usize, at: usize, root: bool| #[trigger]
            dag.reflects(node_at(t, path).unwrap(), id, at, root),
    decreases path.len(),
{
    if path.len() == 0 {
        assert(node_at(t, path) == Some(t));
        assert(dag.reflects(node_at(t, path).unwrap(), node_id, offset, as_root));
    } else {
        let edges = dag.adjacency@[node_id as int]@;
        let i = path[0];
        let below = t.subcomponents@[i];
        assert(0 <= i < t.subcomponents@.len());
        assert(node_at(t, path) == node_at(below, path.drop_first()));
        assert(dag.reflects(below, edges[i]@.goes_to, plus(offset, edges[i]@.in_number), false));
        lemma_reflects_at(
            dag,
            below,
            edges[i]@.goes_to,
            plus(offset, edges[i]@.in_number),
            false,
            path.drop_first(),
        );
        let (id, at, root) = choose|id: usize, at: usize, root: bool| #[trigger]
            dag.reflects(node_at(below, path.drop_first()).unwrap(), id, at, root);
        assert(dag.reflects(node_at(t, path).unwrap(), id, at, root));
    }
}

/// The tree that a graph unfolds to has uniform classes: the class of a
/// node of the tree is the node of the graph that it unfolds, and the
/// components of a node are the targets of the edges of that node of the
/// graph, in order.
pub proof fn lemma_unfolded_tree_is_uniform(
    dag: &DAG,
    t: TreeConstraints,
    node_id: usize,
    offset: usize,
    as_root: bool,
)
    requires
        dag.reflects(t, node_id, offset, as_root),
    ensures
        uniform(t),
{
    assert forall|p: Seq<int>, q: Seq<int>|
        (#[trigger] node_at(t, p)) is Some && (#[trigger] node_at(t, q)) is Some && node_at(
            t,
            p,
        ).unwrap().node_id == node_at(t, q).unwrap().node_id implies classes(
        node_at(t, p).unwrap().subcomponents@,
    ) == classes(node_at(t, q).unwrap().subcomponents@) by {
        let a = node_at(t, p).unwrap();
        let b = node_at(t, q).unwrap();
        lemma_reflects_at(dag, t, node_id, offset, as_root, p);
        lemma_reflects_at(dag, t, node_id, offset, as_root, q);
        let (ida, ata, roota) = choose|id: usize, at: usize, root: bool| #[trigger]
            dag.reflects(a, id, at, root);
        let (idb, atb, rootb) = choose|id: usize, at: usize, root: bool| #[trigger]
            dag.reflects(b, id, at, root);
        let edges = dag.adjacency@[ida as int]@;
        assert(ida == idb);
        assert forall|i: int| 0 <= i < a.subcomponents@.len() implies classes(
            a.subcomponents@,
        )[i] == classes(b.subcomponents@)[i] by {
            assert(dag.reflects(
                a.subcomponents@[i],
                edges[i]@.goes_to,
                plus(ata, edges[i]@.in_number),
                false,
            ));
            assert(dag.reflects(
                b.subcomponents@[i],
                edges[i]@.goes_to,
                plus(atb, edges[i]@.in_number),
                false,
            ));
        }
        assert(classes(a.subcomponents@) =~= classes(b.subcomponents@));
    }
}

/// The tree of template instances that the graph unfolds to, from its main
/// component down; none where a signal of the tree cannot be numbered.
pub fn map_to_constraint_tree(dag: &DAG) -> (r: Option<TreeConstraints>)
    requires
        dag.wf(),
        dag.nodes@.len() > 0,
    ensures
        r is Some <==> dag.main_view().fits_at(dag.main_view().entry.in_number as int)
            && dag.unfolds((dag.nodes@.len() - 1) as usize, dag.main_view().entry.in_number),
        r matches Some(t) ==> dag.reflects(
            t,
            (dag.nodes@.len() - 1) as usize,
            dag.main_view().entry.in_number,
            true,
        ) && uniform(t),
{
    let root = &dag.nodes[dag.nodes.len() - 1];
    if !root.fits(root.entry.in_number) {
        return None;
    }
    let tree = Tree::new(dag);
    let mut tree_constraints = TreeConstraints::default();
    if map_tree_constraints(&tree, &mut tree_constraints) {
        proof {
            lemma_unfolded_tree_is_uniform(
                dag,
                tree_constraints,
                (dag.nodes@.len() - 1) as usize,
                dag.main_view().entry.in_number,
                true,
            );
        }
        Some(tree_constraints)
    } else {
        None
    }
}

impl DAG {
    /// The tree of template instances that the graph unfolds to.
    pub fn map_to_constraint_tree(&self) -> (r: Option<TreeConstraints>)
        requires
            self.wf(),
            self.nodes@.len() > 0,
        ensures
            r is Some <==> self.main_view().fits_at(self.main_view().entry.in_number as int)
                && self.unfolds((self.nodes@.len() - 1) as usize, self.main_view().entry.in_number),
            r matches Some(t) ==> self.reflects(
                t,
                (self.nodes@.len() - 1) as usize,
                self.main_view().entry.in_number,
                true,
            ) && uniform(t),
    {
        self::map_to_constraint_tree(self)
    }
}

} // verus!
