//! The verification of one template instance: bound propagation and the
//! three obligations.
use vstd::prelude::*;
use std::collections::HashMap;
use std::collections::HashSet;
use num_bigint_dig::BigInt;
use crate::bigint::{value_of, big_from_u64, big_clone};
use crate::interval::Iv;
use crate::expression::{Expression, ExpressionView, views};
use crate::constraint::{Constraint, ConstraintView, constraint_views, reduced};
use crate::bounds::{ExecutedInequation, Signal2Bounds, bounds_of};
use crate::summary::{ExecutedImplication, implication_views};
use crate::smt::{Var, Formula, FormulaView, formula_views};
use crate::encoding::{
    assert_formula,
    conjoined,
    readings,
    unread,
    conjoin_readings,
    homologues,
    apply_deduction_rule_homologues,
};
use crate::obligation::{
    Inputs,
    Declared,
    primary_env,
    shadow_env,
    bounds_assertions,
    primary_vars,
    shadow_vars,
    declare_signals,
    constraints_encoding,
    insert_constraints,
    implications_encoding,
    insert_implications,
    agreements,
    agreement,
    safety_views,
    safety_encoding,
    insert_safety_implications,
};
use crate::propagation::{
    seeded_bounds,
    seed_bounds,
    rule_a_all,
    rule_b_passes,
    is_fixed_point,
    apply_integrity_domain,
    propagate_to_fixed_point,
};
use crate::solver::{solve, verdict_of, SolverOutcome};
use crate::propagation_laws::{
    no_zero_divisors,
    in_field,
    sound,
    well_shaped,
    all_say,
    plain_bounds,
    all_hold_of,
    holds_of,
    all_satisfied,
    canonical_constraint,
    distinct_signals,
    lemma_true_annotations_respected,
    lemma_propagation_sound,
    lemma_propagation_keeps_solutions,
    lemma_kept_satisfied,
    lemma_seeded_well_shaped,
    lemma_reduced_canonical,
};
use crate::verdict::PossibleResult;

verus! {

broadcast use vstd::std_specs::hash::group_hash_axioms;

/// One of the three obligations of a template.
#[derive(Clone, Copy, Debug, PartialEq, Eq, Structural)]
pub enum Obligation {
    /// The tags of the outputs follow from the tags of the inputs.
    Tags,
    /// The postconditions follow from the preconditions.
    Postconditions,
    /// The outputs are a function of the inputs.
    Safety,
}

/// What is to be verified of one template instance, and what is known of
/// it.
pub struct TemplateVerification {
    pub template_name: String,
    pub signals: Vec<usize>,
    pub initial_signal: usize,
    pub number_outputs: usize,
    pub number_inputs: usize,
    pub preconditions: Vec<Expression>,
    pub preconditions_intermediates: Vec<Expression>,
    pub postconditions_intermediates: Vec<Expression>,
    pub postconditions: Vec<Expression>,
    pub facts: Vec<Expression>,
    pub tags_preconditions: Vec<Expression>,
    pub tags_postconditions_intermediates: Vec<Expression>,
    pub tags_postconditions: Vec<Expression>,
    pub constraints: Vec<Constraint>,
    pub implications: Vec<ExecutedImplication>,
    pub tags_implications: Vec<ExecutedImplication>,
    pub implications_safety: Vec<(Vec<usize>, Vec<usize>)>,
    pub deductions: Signal2Bounds,
    pub field: BigInt,
    pub verification_timeout: u64,
    pub check_tags: bool,
    pub check_postconditions: bool,
    pub check_safety: bool,
    pub add_tags_info: bool,
    pub add_postconditions_info: bool,
    /// Whether back-substitution takes a signal whose interval reaches
    /// below zero to range over the whole field.
    pub apply_deduction_assigned: bool,
    /// The widest range that a quotient variable may have.
    pub quotient_limit: BigInt,
}

/// The formulas of an obligation, ready for the solver.
pub struct Encoding {
    pub assertions: Vec<Formula>,
    /// The variables whose values make a counterexample.
    pub watch: Vec<Var>,
    /// The number of annotations left out for want of a reading.
    pub left_out: usize,
    /// Whether every quotient variable is within the limit. Where one is
    /// not, there are no assertions.
    pub fits: bool,
}

/// What became of an attempt to discharge an obligation.
#[derive(Debug)]
pub struct ProofAttempt {
    pub result: PossibleResult,
    /// The number of annotations left out for want of a reading.
    pub left_out: usize,
    /// For a failed obligation, the watched variables with their values in
    /// the counterexample, each as the solver prints it; empty otherwise.
    pub model: Vec<(Var, Option<String>)>,
}

/// The variables of a counterexample, in order.
pub open spec fn model_vars(model: Seq<(Var, Option<String>)>) -> Seq<Var> {
    model.map_values(|e: (Var, Option<String>)| e.0)
}

/// The values of a counterexample, in order.
pub open spec fn model_values(model: Seq<(Var, Option<String>)>) -> Seq<Option<String>> {
    model.map_values(|e: (Var, Option<String>)| e.1)
}

/// Gives every watched variable its value: the pairs of the two lists,
/// place by place.
pub fn pair_up(watch: &Vec<Var>, values: Vec<Option<String>>) -> (r: Vec<(Var, Option<String>)>)
    requires
        values@.len() == watch@.len(),
    ensures
        r@.len() == watch@.len(),
        forall|k: int| 0 <= k < r@.len() ==> #[trigger] r@[k] == (watch@[k], values@[k]),
        model_vars(r@) == watch@,
        model_values(r@) == values@,
{
    let ghost given = values@;
    let mut values = values;
    let mut reversed: Vec<(Var, Option<String>)> = Vec::new();
    // values are taken from the end and put back in order
    while values.len() > 0
        invariant
            values@.len() <= watch@.len(),
            given.len() == watch@.len(),
            values@ == given.take(values@.len() as int),
            reversed@.len() == watch@.len() - values@.len(),
            forall|k: int|
                0 <= k < reversed@.len() ==> #[trigger] reversed@[k] == (
                    watch@[watch@.len() - 1 - k],
                    given[watch@.len() - 1 - k],
                ),
        decreases values.len(),
    {
        let at: usize = values.len() - 1;
        let value = values.pop().unwrap();
        assert(value == given[at as int]);
        assert(values@ =~= given.take(at as int));
        reversed.push((watch[at], value));
    }
    let mut model: Vec<(Var, Option<String>)> = Vec::new();
    while reversed.len() > 0
        invariant
            given.len() == watch@.len(),
            reversed@.len() + model@.len() == watch@.len(),
            forall|k: int|
                0 <= k < reversed@.len() ==> #[trigger] reversed@[k] == (
                    watch@[watch@.len() - 1 - k],
                    given[watch@.len() - 1 - k],
                ),
            forall|k: int| 0 <= k < model@.len() ==> #[trigger] model@[k] == (watch@[k], given[k]),
        decreases reversed.len(),
    {
        let ghost at = reversed@.len() - 1;
        let e = reversed.pop().unwrap();
        assert(e == (watch@[watch@.len() - 1 - at], given[watch@.len() - 1 - at]));
        model.push(e);
    }
    assert(model_vars(model@) =~= watch@);
    assert(model_values(model@) =~= given);
    model
}

/// What an answer of the solver makes of an obligation that was posed:
/// proved where the negated obligation cannot hold; failed where it can,
/// with every watched variable paired with its value in the model; unknown
/// where the solver gave no answer.
pub fn conclude(watch: &Vec<Var>, left_out: usize, outcome: SolverOutcome) -> (r: ProofAttempt)
    requires
        outcome matches SolverOutcome::Sat(values) ==> values@.len() == watch@.len(),
    ensures
        r.left_out == left_out,
        match outcome {
            SolverOutcome::Unsat => r.result == PossibleResult::VERIFIED && r.model@.len() == 0,
            SolverOutcome::Unknown => r.result == PossibleResult::UNKNOWN && r.model@.len() == 0,
            SolverOutcome::Sat(values) => {
                &&& r.result == PossibleResult::FAILED
                &&& model_vars(r.model@) == watch@
                &&& model_values(r.model@) == values@
            },
        },
{
    let result = verdict_of(&outcome);
    let model = match outcome {
        SolverOutcome::Sat(values) => pair_up(watch, values),
        _ => Vec::new(),
    };
    ProofAttempt { result, left_out, model }
}

/// The conjunction `acc.0` extended by the readings of `es`, and the count
/// `acc.1` by the number of annotations of `es` without a reading.
pub open spec fn also(
    acc: (FormulaView, nat),
    es: Seq<ExpressionView>,
    env: Map<usize, Var>,
    shadow: Option<Map<usize, Var>>,
    p: int,
) -> (FormulaView, nat) {
    (conjoined(acc.0, readings(es, env, shadow, p)), acc.1 + unread(es, env, shadow, p))
}

/// A constraint in canonical form: every coefficient in `[0, p)`, none zero.
pub open spec fn canonical(c: ConstraintView, p: int) -> ConstraintView {
    ConstraintView { a: reduced(c.a, p), b: reduced(c.b, p), c: reduced(c.c, p) }
}

/// A count as a machine word: itself where it fits, the largest word
/// otherwise.
pub open spec fn capped(n: nat) -> usize {
    if n <= usize::MAX { n as usize } else { usize::MAX }
}

impl TemplateVerification {
    /// Whether the template can be verified: the modulus is above one and
    /// the signals of its interface can be numbered.
    pub open spec fn wf(&self) -> bool {
        &&& value_of(self.field) > 1
        &&& self.initial_signal + self.number_outputs + self.number_inputs <= usize::MAX
    }

    /// The inputs of the template.
    pub open spec fn inputs(&self) -> Inputs {
        Inputs {
            first: (self.initial_signal + self.number_outputs) as usize,
            count: self.number_inputs,
        }
    }

    /// The outputs of the template.
    pub open spec fn outputs(&self) -> Seq<usize> {
        Seq::new(self.number_outputs as nat, |k: int| (self.initial_signal + k) as usize)
    }

    /// Whether `other` differs from this template in its bounds and its
    /// constraints at most.
    pub open spec fn same_but_deduced(&self, other: &TemplateVerification) -> bool {
        &&& self.template_name == other.template_name
        &&& self.signals == other.signals
        &&& self.initial_signal == other.initial_signal
        &&& self.number_outputs == other.number_outputs
        &&& self.number_inputs == other.number_inputs
        &&& self.preconditions == other.preconditions
        &&& self.preconditions_intermediates == other.preconditions_intermediates
        &&& self.postconditions_intermediates == other.postconditions_intermediates
        &&& self.postconditions == other.postconditions
        &&& self.facts == other.facts
        &&& self.tags_preconditions == other.tags_preconditions
        &&& self.tags_postconditions_intermediates == other.tags_postconditions_intermediates
        &&& self.tags_postconditions == other.tags_postconditions
        &&& self.implications == other.implications
        &&& self.tags_implications == other.tags_implications
        &&& self.implications_safety == other.implications_safety
        &&& self.field == other.field
        &&& self.verification_timeout == other.verification_timeout
        &&& self.check_tags == other.check_tags
        &&& self.check_postconditions == other.check_postconditions
        &&& self.check_safety == other.check_safety
        &&& self.add_tags_info == other.add_tags_info
        &&& self.add_postconditions_info == other.add_postconditions_info
        &&& self.apply_deduction_assigned == other.apply_deduction_assigned
        &&& self.quotient_limit == other.quotient_limit
    }

    /// Whether this is what bound propagation makes of `before`: nothing but
    /// the bounds and the constraints differ; the constraints are those that
    /// the integrity-domain rule leaves; and the bounds are a fixed point of
    /// linear back-substitution, reached from the seeded bounds by the
    /// integrity-domain rule and some number of passes, during which the
    /// entries of `changed` changed.
    pub open spec fn propagated(&self, before: &TemplateVerification, changed: Seq<usize>) -> bool {
        let p = value_of(before.field);
        let strict = before.apply_deduction_assigned;
        let seeded = seeded_bounds(
            bounds_of(before.deductions@),
            views(before.preconditions@),
            views(before.preconditions_intermediates@),
            views(before.facts@),
            p,
        );
        let a = rule_a_all(seeded, constraint_views(before.constraints@), p);
        &&& self.same_but_deduced(before)
        &&& constraint_views(self.constraints@) == a.1
        &&& exists|n: nat|
            (bounds_of(self.deductions@), changed) == #[trigger] rule_b_passes(
                a.0,
                a.1,
                p,
                strict,
                n,
            )
        &&& is_fixed_point(bounds_of(self.deductions@), a.1, p, strict)
    }

    /// Whether an obligation is asked for.
    pub open spec fn requested(&self, kind: Obligation) -> bool {
        match kind {
            Obligation::Tags => self.check_tags,
            Obligation::Postconditions => self.check_postconditions,
            Obligation::Safety => self.check_safety,
        }
    }

    /// Whether an obligation has nothing to prove.
    pub open spec fn vacuous(&self, kind: Obligation) -> bool {
        match kind {
            Obligation::Tags => self.tags_postconditions_intermediates@.len() == 0
                && self.tags_postconditions@.len() == 0,
            Obligation::Postconditions => self.postconditions_intermediates@.len() == 0
                && self.postconditions@.len() == 0,
            Obligation::Safety => false,
        }
    }

    /// Whether `r` can be what the solver makes of an obligation: too big
    /// exactly where the constraints have no encoding within the limit,
    /// otherwise proved, failed or unknown, with a counterexample exactly
    /// where it failed.
    pub open spec fn discharges(&self, kind: Obligation, r: ProofAttempt) -> bool {
        &&& (r.result == PossibleResult::TOO_BIG) == (self.problem(kind) is None)
        &&& (r.result == PossibleResult::TOO_BIG || r.result == PossibleResult::VERIFIED || r.result
            == PossibleResult::FAILED || r.result == PossibleResult::UNKNOWN)
        &&& r.result == PossibleResult::FAILED ==> model_vars(r.model@) == self.watched(kind)
        &&& r.result != PossibleResult::FAILED ==> r.model@.len() == 0
        &&& r.left_out == capped(self.left_out(kind))
    }

    /// Whether `r` answers an obligation: not studied where it is not asked
    /// for, nothing to verify where it is asked for and has nothing to
    /// prove, and otherwise what the solver makes of it.
    pub open spec fn answers(&self, kind: Obligation, r: ProofAttempt) -> bool {
        if !self.requested(kind) {
            r.result == PossibleResult::NOSTUDIED && r.model@.len() == 0 && r.left_out == 0
        } else if self.vacuous(kind) {
            r.result == PossibleResult::NOTHING && r.model@.len() == 0 && r.left_out == 0
        } else {
            self.discharges(kind, r)
        }
    }

    /// The second execution of an obligation, where it has one.
    pub open spec fn twin(&self, kind: Obligation) -> Option<Inputs> {
        if kind == Obligation::Safety { Some(self.inputs()) } else { None }
    }

    /// The variables of the second execution of an obligation.
    pub open spec fn shadow(&self, kind: Obligation) -> Option<Map<usize, Var>> {
        if kind == Obligation::Safety {
            Some(shadow_env(self.signals@, self.inputs()))
        } else {
            None
        }
    }

    /// What an obligation assumes of the signals, as one conjunction, and
    /// the number of assumptions left out: the preconditions on inputs and
    /// on intermediates, the tags of the inputs and the facts; for the
    /// postconditions and for safety also the tags to be proved, where
    /// `add_tags_info` is set; for safety also the postconditions, where
    /// `add_postconditions_info` is set.
    pub open spec fn assumed(&self, kind: Obligation) -> (FormulaView, nat) {
        let env = primary_env(self.signals@);
        let shadow = self.shadow(kind);
        let p = value_of(self.field);
        let base = also(
            also(
                also((FormulaView::Const(true), 0), views(self.preconditions@), env, shadow, p),
                views(self.preconditions_intermediates@),
                env,
                shadow,
                p,
            ),
            views(self.tags_preconditions@),
            env,
            shadow,
            p,
        );
        let tagged = if kind != Obligation::Tags && self.add_tags_info {
            also(
                also(base, views(self.tags_postconditions_intermediates@), env, shadow, p),
                views(self.tags_postconditions@),
                env,
                shadow,
                p,
            )
        } else {
            base
        };
        let posted = if kind == Obligation::Safety && self.add_postconditions_info {
            also(
                also(tagged, views(self.postconditions_intermediates@), env, shadow, p),
                views(self.postconditions@),
                env,
                shadow,
                p,
            )
        } else {
            tagged
        };
        also(posted, views(self.facts@), env, shadow, p)
    }

    /// What an obligation is to prove, as one conjunction, and the number
    /// of conditions left out: the tags of the outputs and of the
    /// intermediates; the postconditions on both; or that the outputs have
    /// the same values in both executions.
    pub open spec fn goal(&self, kind: Obligation) -> (FormulaView, nat) {
        let env = primary_env(self.signals@);
        let p = value_of(self.field);
        match kind {
            Obligation::Tags => also(
                also(
                    (FormulaView::Const(true), 0),
                    views(self.tags_postconditions@),
                    env,
                    None,
                    p,
                ),
                views(self.tags_postconditions_intermediates@),
                env,
                None,
                p,
            ),
            Obligation::Postconditions => also(
                also((FormulaView::Const(true), 0), views(self.postconditions@), env, None, p),
                views(self.postconditions_intermediates@),
                env,
                None,
                p,
            ),
            Obligation::Safety => (
                conjoined(FormulaView::Const(true), agreements(self.outputs(), self.inputs())),
                0,
            ),
        }
    }

    /// What an obligation takes from the components below: the summaries
    /// of their tags and of their postconditions, each where the obligation
    /// itself or the flag of its kind asks for it; for safety, before them,
    /// what the constraints say of two executions and the determinism of
    /// the components.
    pub open spec fn context(&self, kind: Obligation) -> Seq<FormulaView> {
        let env = primary_env(self.signals@);
        let p = value_of(self.field);
        let tags = implications_encoding(implication_views(self.tags_implications@), env, p);
        let posts = implications_encoding(implication_views(self.implications@), env, p);
        let none = Seq::<FormulaView>::empty();
        match kind {
            Obligation::Tags => tags + if self.check_postconditions { posts } else { none },
            Obligation::Postconditions => (if self.check_tags { tags } else { none }) + posts,
            Obligation::Safety => homologues(
                constraint_views(self.constraints@),
                env,
                shadow_env(self.signals@, self.inputs()),
                p,
            ) + safety_encoding(
                safety_views(self.implications_safety@),
                self.signals@,
                self.inputs(),
            ) + (if self.check_tags { tags } else { none }) + (if self.check_postconditions {
                posts
            } else {
                none
            }),
        }
    }

    /// The formulas of an obligation: the bounds of the signals, the
    /// assumptions, the constraints, the context, and the negated goal. There
    /// are none where the constraints have no encoding.
    pub open spec fn problem(&self, kind: Obligation) -> Option<Seq<FormulaView>> {
        let b = bounds_of(self.deductions@);
        let p = value_of(self.field);
        match constraints_encoding(
            constraint_views(self.constraints@),
            primary_env(self.signals@),
            self.shadow(kind),
            b,
            p,
            value_of(self.quotient_limit),
        ) {
            Some(encoded) => Some(
                bounds_assertions(self.signals@, b, p, self.twin(kind)) + seq![
                    self.assumed(kind).0,
                ] + encoded + self.context(kind) + seq![
                    FormulaView::Not(Box::new(self.goal(kind).0)),
                ],
            ),
            None => None,
        }
    }

    /// The variables whose values make a counterexample of an obligation.
    pub open spec fn watched(&self, kind: Obligation) -> Seq<Var> {
        primary_vars(self.signals@) + (if kind == Obligation::Safety {
            shadow_vars(self.signals@, self.inputs())
        } else {
            Seq::<Var>::empty()
        })
    }

    /// The number of annotations that an obligation leaves out.
    pub open spec fn left_out(&self, kind: Obligation) -> nat {
        self.assumed(kind).1 + self.goal(kind).1
    }

    /// The template with its constraints in canonical form, no bounds yet,
    /// and a limit of `2^20` on the range of a quotient variable.
    pub fn new(
        template_name: &String,
        signals: Vec<usize>,
        initial_signal: usize,
        number_outputs: usize,
        number_inputs: usize,
        constraints: Vec<Constraint>,
        preconditions: Vec<Expression>,
        preconditions_intermediates: Vec<Expression>,
        postconditions: Vec<Expression>,
        postconditions_intermediates: Vec<Expression>,
        facts: Vec<Expression>,
        tags_preconditions: Vec<Expression>,
        tags_postconditions_intermediates: Vec<Expression>,
        tags_postconditions: Vec<Expression>,
        implications: Vec<ExecutedImplication>,
        tags_implications: Vec<ExecutedImplication>,
        implications_safety: Vec<(Vec<usize>, Vec<usize>)>,
        field: &BigInt,
        verification_timeout: u64,
        check_tags: bool,
        check_postconditions: bool,
        check_safety: bool,
        add_tags_info: bool,
        add_postconditions_info: bool,
        apply_deduction_assigned: bool,
    ) -> (r: TemplateVerification)
        requires
            value_of(*field) > 1,
            initial_signal + number_outputs + number_inputs <= usize::MAX,
        ensures
            r.wf(),
            r.template_name@ == template_name@,
            r.signals == signals,
            r.initial_signal == initial_signal,
            r.number_outputs == number_outputs,
            r.number_inputs == number_inputs,
            r.preconditions == preconditions,
            r.preconditions_intermediates == preconditions_intermediates,
            r.postconditions == postconditions,
            r.postconditions_intermediates == postconditions_intermediates,
            r.facts == facts,
            r.tags_preconditions == tags_preconditions,
            r.tags_postconditions_intermediates == tags_postconditions_intermediates,
            r.tags_postconditions == tags_postconditions,
            r.implications == implications,
            r.tags_implications == tags_implications,
            r.implications_safety == implications_safety,
            constraint_views(r.constraints@) == constraint_views(constraints@).map_values(
                |c: ConstraintView| canonical(c, value_of(*field)),
            ),
            bounds_of(r.deductions@) == Map::<usize, Iv>::empty(),
            value_of(r.field) == value_of(*field),
            r.verification_timeout == verification_timeout,
            r.check_tags == check_tags,
            r.check_postconditions == check_postconditions,
            r.check_safety == check_safety,
            r.add_tags_info == add_tags_info,
            r.add_postconditions_info == add_postconditions_info,
            r.apply_deduction_assigned == apply_deduction_assigned,
            value_of(r.quotient_limit) == 1048576,
    {
        let mut fixed_constraints: Vec<Constraint> = Vec::new();
        let ghost given = constraint_views(constraints@);
        let ghost p = value_of(*field);
        let mut i: usize = 0;
        while i < constraints.len()
            invariant
                i <= constraints.len(),
                given == constraint_views(constraints@),
                p == value_of(*field),
                p > 1,
                fixed_constraints@.len() == i,
                forall|j: int|
                    0 <= j < i ==> (#[trigger] fixed_constraints@[j])@ == canonical(given[j], p),
            decreases constraints.len() - i,
        {
            let mut new_c = constraints[i].copy();
            Constraint::fix_constraint(&mut new_c, field);
            fixed_constraints.push(new_c);
            i += 1;
        }
        assert(constraint_views(fixed_constraints@) =~= given.map_values(
            |c: ConstraintView| canonical(c, p),
        ));
        let deductions: Signal2Bounds = HashMap::new();
        assert(bounds_of(deductions@) =~= Map::<usize, Iv>::empty());
        TemplateVerification {
            template_name: template_name.clone(),
            signals,
            initial_signal,
            number_outputs,
            number_inputs,
            preconditions,
            preconditions_intermediates,
            postconditions_intermediates,
            postconditions,
            facts,
            tags_preconditions,
            tags_postconditions_intermediates,
            tags_postconditions,
            constraints: fixed_constraints,
            implications,
            tags_implications,
            implications_safety,
            deductions,
            field: big_clone(field),
            verification_timeout,
            check_tags,
            check_postconditions,
            check_safety,
            add_tags_info,
            add_postconditions_info,
            apply_deduction_assigned,
            quotient_limit: big_from_u64(1048576),
        }
    }

    /// Seeds the bounds map: the constant signal is one, and the
    /// preconditions and facts give the intervals that they imply.
    pub fn initialize_bounds_preconditions(&mut self)
        ensures
            final(self).same_but_deduced(old(self)),
            final(self).constraints == old(self).constraints,
            bounds_of(final(self).deductions@) == seeded_bounds(
                bounds_of(old(self).deductions@),
                views(old(self).preconditions@),
                views(old(self).preconditions_intermediates@),
                views(old(self).facts@),
                value_of(old(self).field),
            ),
    {
        let ghost before = bounds_of(self.deductions@);
        let one = big_from_u64(1);
        self.deductions.insert(
            0,
            ExecutedInequation { signal: 0, min: big_clone(&one), max: one },
        );
        assert(bounds_of(self.deductions@) =~= before.insert(0, Iv { lo: 1, hi: 1 }));
        let mut init_signals: HashSet<usize> = HashSet::new();
        assert(init_signals@ =~= Set::<usize>::empty());
        seed_bounds(&mut self.deductions, &mut init_signals, &self.preconditions, &self.field);
        seed_bounds(
            &mut self.deductions,
            &mut init_signals,
            &self.preconditions_intermediates,
            &self.field,
        );
        seed_bounds(&mut self.deductions, &mut init_signals, &self.facts, &self.field);
    }

    /// Propagates bounds to a fixed point. The bounds map is seeded, the
    /// integrity-domain rule looks at every constraint once and takes out
    /// those that an interval states in full, and linear back-substitution
    /// is repeated over the constraints left until a pass changes nothing.
    /// Returns the signals whose entry changed during back-substitution.
    pub fn deduce_round(&mut self) -> (new_signal_bounds: Vec<usize>)
        requires
            old(self).wf(),
        ensures
            final(self).propagated(old(self), new_signal_bounds@),
    {
        let ghost p = value_of(self.field);
        let ghost strict = self.apply_deduction_assigned;
        let ghost given = constraint_views(self.constraints@);
        self.initialize_bounds_preconditions();
        let ghost seeded = bounds_of(self.deductions@);
        let kept = apply_integrity_domain(&mut self.deductions, &self.constraints, &self.field);
        self.constraints = kept;
        let ghost a = rule_a_all(seeded, given, p);
        assert(bounds_of(self.deductions@) == a.0);
        assert(constraint_views(self.constraints@) == a.1);
        let new_signal_bounds = propagate_to_fixed_point(
            &mut self.deductions,
            &self.constraints,
            &self.field,
            self.apply_deduction_assigned,
        );
        proof {
            let n = choose|n: nat|
                (bounds_of(self.deductions@), new_signal_bounds@) == #[trigger] rule_b_passes(
                    a.0,
                    a.1,
                    p,
                    strict,
                    n,
                );
            assert((bounds_of(self.deductions@), new_signal_bounds@) == rule_b_passes(
                a.0,
                a.1,
                p,
                strict,
                n,
            ));
        }
        new_signal_bounds
    }

    /// What an obligation assumes, as one conjunction, and the number of
    /// assumptions left out.
    fn assumptions(
        &self,
        kind: Obligation,
        env: &HashMap<usize, Var>,
        shadow: Option<&HashMap<usize, Var>>,
    ) -> (r: (Formula, usize))
        requires
            self.wf(),
            env@ == primary_env(self.signals@),
            self.shadow(kind) == (match shadow {
                Some(other) => Some(other@),
                None => None,
            }),
        ensures
            r.0@ == self.assumed(kind).0,
            r.1 == capped(self.assumed(kind).1),
    {
        let (f, n1) = conjoin_readings(
            Formula::Const(true),
            &self.preconditions,
            env,
            shadow,
            &self.field,
        );
        let (f, n2) = conjoin_readings(f, &self.preconditions_intermediates, env, shadow, &self.field);
        let (f, n3) = conjoin_readings(f, &self.tags_preconditions, env, shadow, &self.field);
        let mut left_out: usize = n1.saturating_add(n2).saturating_add(n3);
        let tags_too = match kind {
            Obligation::Tags => false,
            _ => self.add_tags_info,
        };
        let f = if tags_too {
            let (f, n4) = conjoin_readings(
                f,
                &self.tags_postconditions_intermediates,
                env,
                shadow,
                &self.field,
            );
            let (f, n5) = conjoin_readings(f, &self.tags_postconditions, env, shadow, &self.field);
            left_out = left_out.saturating_add(n4).saturating_add(n5);
            f
        } else {
            f
        };
        let posts_too = match kind {
            Obligation::Safety => self.add_postconditions_info,
            _ => false,
        };
        let f = if posts_too {
            let (f, n6) = conjoin_readings(
                f,
                &self.postconditions_intermediates,
                env,
                shadow,
                &self.field,
            );
            let (f, n7) = conjoin_readings(f, &self.postconditions, env, shadow, &self.field);
            left_out = left_out.saturating_add(n6).saturating_add(n7);
            f
        } else {
            f
        };
        let (f, n8) = conjoin_readings(f, &self.facts, env, shadow, &self.field);
        left_out = left_out.saturating_add(n8);
        (f, left_out)
    }

    /// What an obligation is to prove, as one conjunction, and the number
    /// of conditions left out.
    fn query(&self, kind: Obligation, env: &HashMap<usize, Var>) -> (r: (Formula, usize))
        requires
            self.wf(),
            env@ == primary_env(self.signals@),
        ensures
            r.0@ == self.goal(kind).0,
            r.1 == capped(self.goal(kind).1),
    {
        match kind {
            Obligation::Tags => {
                let (g, n1) = conjoin_readings(
                    Formula::Const(true),
                    &self.tags_postconditions,
                    env,
                    None,
                    &self.field,
                );
                let (g, n2) = conjoin_readings(
                    g,
                    &self.tags_postconditions_intermediates,
                    env,
                    None,
                    &self.field,
                );
                (g, n1.saturating_add(n2))
            },
            Obligation::Postconditions => {
                let (g, n1) = conjoin_readings(
                    Formula::Const(true),
                    &self.postconditions,
                    env,
                    None,
                    &self.field,
                );
                let (g, n2) = conjoin_readings(
                    g,
                    &self.postconditions_intermediates,
                    env,
                    None,
                    &self.field,
                );
                (g, n1.saturating_add(n2))
            },
            Obligation::Safety => {
                let inputs = Inputs {
                    first: self.initial_signal + self.number_outputs,
                    count: self.number_inputs,
                };
                let mut outputs: Vec<usize> = Vec::new();
                let mut k: usize = 0;
                while k < self.number_outputs
                    invariant
                        k <= self.number_outputs,
                        self.wf(),
                        outputs@ == self.outputs().take(k as int),
                    decreases self.number_outputs - k,
                {
                    outputs.push(self.initial_signal + k);
                    assert(outputs@ =~= self.outputs().take(k + 1));
                    k += 1;
                }
                assert(self.outputs().take(self.number_outputs as int) =~= self.outputs());
                (agreement(&outputs, inputs), 0)
            },
        }
    }

    /// Asserts what an obligation takes from the components below.
    fn insert_context(
        &self,
        kind: Obligation,
        assertions: &mut Vec<Formula>,
        env: &HashMap<usize, Var>,
        second: &HashMap<usize, Var>,
    )
        requires
            self.wf(),
            env@ == primary_env(self.signals@),
            kind == Obligation::Safety ==> second@ == shadow_env(self.signals@, self.inputs()),
        ensures
            formula_views(final(assertions)@) == formula_views(old(assertions)@) + self.context(
                kind,
            ),
    {
        let ghost before = formula_views(assertions@);
        let ghost p = value_of(self.field);
        let ghost tags = implications_encoding(implication_views(self.tags_implications@), env@, p);
        let ghost posts = implications_encoding(implication_views(self.implications@), env@, p);
        let ghost none = Seq::<FormulaView>::empty();
        match kind {
            Obligation::Tags => {
                insert_implications(&self.tags_implications, assertions, env, &self.field);
                if self.check_postconditions {
                    insert_implications(&self.implications, assertions, env, &self.field);
                    assert(formula_views(assertions@) =~= before + (tags + posts));
                } else {
                    assert(formula_views(assertions@) =~= before + (tags + none));
                }
            },
            Obligation::Postconditions => {
                if self.check_tags {
                    insert_implications(&self.tags_implications, assertions, env, &self.field);
                }
                insert_implications(&self.implications, assertions, env, &self.field);
                assert(formula_views(assertions@) =~= before + ((if self.check_tags {
                    tags
                } else {
                    none
                }) + posts));
            },
            Obligation::Safety => {
                let inputs = Inputs {
                    first: self.initial_signal + self.number_outputs,
                    count: self.number_inputs,
                };
                let ghost twins = homologues(constraint_views(self.constraints@), env@, second@, p);
                let ghost summaries = safety_encoding(
                    safety_views(self.implications_safety@),
                    self.signals@,
                    inputs,
                );
                apply_deduction_rule_homologues(
                    &self.constraints,
                    assertions,
                    env,
                    second,
                    &self.field,
                );
                insert_safety_implications(
                    &self.implications_safety,
                    assertions,
                    env,
                    inputs,
                    &self.signals,
                );
                if self.check_tags {
                    insert_implications(&self.tags_implications, assertions, env, &self.field);
                }
                if self.check_postconditions {
                    insert_implications(&self.implications, assertions, env, &self.field);
                }
                assert(formula_views(assertions@) =~= before + (twins + summaries + (if self.check_tags {
                    tags
                } else {
                    none
                }) + (if self.check_postconditions {
                    posts
                } else {
                    none
                })));
            },
        }
    }

    /// The formulas of an obligation.
    pub fn encode(&self, kind: Obligation) -> (e: Encoding)
        requires
            self.wf(),
        ensures
            e.fits == self.problem(kind) is Some,
            e.fits ==> formula_views(e.assertions@) == self.problem(kind).unwrap(),
            e.fits ==> e.watch@ == self.watched(kind),
            e.left_out == capped(self.left_out(kind)),
    {
        let safety = match kind {
            Obligation::Safety => true,
            _ => false,
        };
        let inputs = Inputs {
            first: self.initial_signal + self.number_outputs,
            count: self.number_inputs,
        };
        let twin = if safety { Some(inputs) } else { None };
        let declared = declare_signals(&self.signals, &self.deductions, &self.field, twin);
        let Declared { assertions, env, shadow: second, watch } = declared;
        let mut assertions = assertions;
        let shadow = if safety { Some(&second) } else { None };
        let ghost bounds_part = formula_views(assertions@);
        let (assumed, n1) = self.assumptions(kind, &env, shadow);
        let (goal, n2) = self.query(kind, &env);
        let left_out: usize = n1.saturating_add(n2);
        let ghost assumed_view = assumed@;
        let ghost goal_view = goal@;
        assert_formula(&mut assertions, assumed);
        let ghost with_assumed = formula_views(assertions@);
        let fits = insert_constraints(
            &self.constraints,
            &mut assertions,
            &env,
            shadow,
            &self.field,
            &self.deductions,
            &self.quotient_limit,
        );
        if !fits {
            return Encoding { assertions: Vec::new(), watch, left_out, fits: false };
        }
        let ghost encoded = constraints_encoding(
            constraint_views(self.constraints@),
            env@,
            self.shadow(kind),
            bounds_of(self.deductions@),
            value_of(self.field),
            value_of(self.quotient_limit),
        ).unwrap();
        self.insert_context(kind, &mut assertions, &env, &second);
        assert_formula(&mut assertions, Formula::not(goal));
        assert(formula_views(assertions@) =~= bounds_part + seq![assumed_view] + encoded
            + self.context(kind) + seq![FormulaView::Not(Box::new(goal_view))]);
        Encoding { assertions, watch, left_out, fits: true }
    }

    /// Poses an obligation to the solver. The obligation is too big where
    /// its constraints have no encoding within the limit; the solver is
    /// then not asked. Otherwise its answer decides.
    pub fn attempt(&self, kind: Obligation) -> (r: ProofAttempt)
        requires
            self.wf(),
        ensures
            self.discharges(kind, r),
    {
        let e = self.encode(kind);
        if !e.fits {
            return ProofAttempt {
                result: PossibleResult::TOO_BIG,
                left_out: e.left_out,
                model: Vec::new(),
            };
        }
        let outcome = solve(&e.assertions, self.verification_timeout, &e.watch);
        conclude(&e.watch, e.left_out, outcome)
    }

    /// Tries to prove that the tags of the outputs and intermediates follow.
    pub fn try_prove_tags(&self) -> (r: ProofAttempt)
        requires
            self.wf(),
        ensures
            self.discharges(Obligation::Tags, r),
            r.result == PossibleResult::FAILED ==> model_vars(r.model@) == primary_vars(
                self.signals@,
            ),
    {
        self.attempt(Obligation::Tags)
    }

    /// Tries to prove that the postconditions follow.
    pub fn try_prove_postconditions(&self) -> (r: ProofAttempt)
        requires
            self.wf(),
        ensures
            self.discharges(Obligation::Postconditions, r),
            r.result == PossibleResult::FAILED ==> model_vars(r.model@) == primary_vars(
                self.signals@,
            ),
    {
        self.attempt(Obligation::Postconditions)
    }

    /// Tries to prove that the outputs are a function of the inputs. A
    /// counterexample gives the values of the signals in the first
    /// execution, then their values in the second.
    pub fn try_prove_safety(&self) -> (r: ProofAttempt)
        requires
            self.wf(),
        ensures
            self.discharges(Obligation::Safety, r),
            r.result == PossibleResult::FAILED ==> model_vars(r.model@) == primary_vars(
                self.signals@,
            ) + shadow_vars(self.signals@, self.inputs()),
    {
        self.attempt(Obligation::Safety)
    }

    /// An answer without an attempt.
    fn unattempted(result: PossibleResult) -> (r: ProofAttempt)
        ensures
            r.result == result,
            r.model@.len() == 0,
            r.left_out == 0,
    {
        ProofAttempt { result, left_out: 0, model: Vec::new() }
    }

    /// Propagates bounds and then answers the three obligations: tags,
    /// postconditions, safety. An obligation that is not asked for is not
    /// studied; one that is asked for and has nothing to prove is answered
    /// without the solver.
    pub fn deduce(&mut self) -> (r: (ProofAttempt, ProofAttempt, ProofAttempt))
        requires
            old(self).wf(),
        ensures
            final(self).wf(),
            exists|changed: Seq<usize>| #[trigger] final(self).propagated(old(self), changed),
            final(self).answers(Obligation::Tags, r.0),
            final(self).answers(Obligation::Postconditions, r.1),
            final(self).answers(Obligation::Safety, r.2),
    {
        let changed = self.deduce_round();
        assert(self.propagated(old(self), changed@));
        let result_tags = if self.check_tags {
            if self.tags_postconditions_intermediates.len() == 0 && self.tags_postconditions.len()
                == 0 {
                Self::unattempted(PossibleResult::NOTHING)
            } else {
                self.try_prove_tags()
            }
        } else {
            Self::unattempted(PossibleResult::NOSTUDIED)
        };
        let result_post = if self.check_postconditions {
            if self.postconditions_intermediates.len() == 0 && self.postconditions.len() == 0 {
                Self::unattempted(PossibleResult::NOTHING)
            } else {
                self.try_prove_postconditions()
            }
        } else {
            Self::unattempted(PossibleResult::NOSTUDIED)
        };
        let result_safety = if self.check_safety {
            self.try_prove_safety()
        } else {
            Self::unattempted(PossibleResult::NOSTUDIED)
        };
        (result_tags, result_post, result_safety)
    }
}


/// Bound propagation on a template is sound. Let an assignment give every
/// signal a field element, keep every signal within the bounds that the
/// template had, make the assumptions and facts of the template true, and
/// satisfy its constraints. Then it keeps every signal within the bounds
/// that propagation leaves, and satisfies the constraints that propagation
/// leaves. The bounds that the template had are of the forms that
/// propagation gives, the annotations imply no interval that is negative
/// anywhere, and the constraints have field elements for coefficients and
/// no signal twice in `C`.
pub proof fn lemma_deduction_sound(
    before: &TemplateVerification,
    after: &TemplateVerification,
    changed: Seq<usize>,
    sigma: spec_fn(usize) -> int,
)
    requires
        after.propagated(before, changed),
        value_of(before.field) > 1,
        no_zero_divisors(value_of(before.field)),
        in_field(sigma, value_of(before.field)),
        sound(bounds_of(before.deductions@), sigma, value_of(before.field)),
        well_shaped(bounds_of(before.deductions@)),
        all_say(views(before.preconditions@), sigma),
        all_say(views(before.preconditions_intermediates@), sigma),
        all_say(views(before.facts@), sigma),
        plain_bounds(views(before.preconditions@), value_of(before.field)),
        plain_bounds(views(before.preconditions_intermediates@), value_of(before.field)),
        plain_bounds(views(before.facts@), value_of(before.field)),
        all_hold_of(constraint_views(before.constraints@), sigma, value_of(before.field)),
    ensures
        sound(bounds_of(after.deductions@), sigma, value_of(before.field)),
        all_satisfied(constraint_views(after.constraints@), sigma, value_of(before.field)),
{
    let p = value_of(before.field);
    let strict = before.apply_deduction_assigned;
    let cs = constraint_views(before.constraints@);
    let seeded = seeded_bounds(
        bounds_of(before.deductions@),
        views(before.preconditions@),
        views(before.preconditions_intermediates@),
        views(before.facts@),
        p,
    );
    let a = rule_a_all(seeded, cs, p);
    let n = choose|n: nat|
        (bounds_of(after.deductions@), changed) == #[trigger] rule_b_passes(
            a.0,
            a.1,
            p,
            strict,
            n,
        );
    lemma_true_annotations_respected(views(before.preconditions@), p, sigma);
    lemma_true_annotations_respected(views(before.preconditions_intermediates@), p, sigma);
    lemma_true_annotations_respected(views(before.facts@), p, sigma);
    lemma_propagation_sound(
        bounds_of(before.deductions@),
        views(before.preconditions@),
        views(before.preconditions_intermediates@),
        views(before.facts@),
        cs,
        p,
        strict,
        n,
        sigma,
    );
    assert forall|i: int| 0 <= i < cs.len() implies (#[trigger] cs[i]).satisfied(sigma, p) by {
        assert(holds_of(cs[i], sigma, p));
    }
    lemma_kept_satisfied(seeded, cs, p, sigma);
}

/// Bound propagation on a template keeps the solutions. Of the assignments
/// of field elements, those that satisfy every constraint of the template
/// and keep every signal within the bounds seeded from its annotations are
/// those that satisfy the constraints that propagation leaves and keep
/// every signal within the bounds that it leaves. The bounds that the
/// template had are of the forms that propagation gives, the annotations
/// imply no interval that is negative anywhere, and the constraints have
/// field elements for coefficients and no signal twice in `C`.
pub proof fn lemma_deduction_keeps_solutions(
    before: &TemplateVerification,
    after: &TemplateVerification,
    changed: Seq<usize>,
    sigma: spec_fn(usize) -> int,
)
    requires
        after.propagated(before, changed),
        value_of(before.field) > 1,
        no_zero_divisors(value_of(before.field)),
        in_field(sigma, value_of(before.field)),
        well_shaped(bounds_of(before.deductions@)),
        plain_bounds(views(before.preconditions@), value_of(before.field)),
        plain_bounds(views(before.preconditions_intermediates@), value_of(before.field)),
        plain_bounds(views(before.facts@), value_of(before.field)),
        forall|i: int|
            0 <= i < before.constraints@.len() ==> canonical_constraint(
                #[trigger] constraint_views(before.constraints@)[i],
                value_of(before.field),
            ) && distinct_signals(constraint_views(before.constraints@)[i].c),
    ensures
        (all_satisfied(constraint_views(before.constraints@), sigma, value_of(before.field))
            && sound(
            seeded_bounds(
                bounds_of(before.deductions@),
                views(before.preconditions@),
                views(before.preconditions_intermediates@),
                views(before.facts@),
                value_of(before.field),
            ),
            sigma,
            value_of(before.field),
        )) <==> (all_satisfied(
            constraint_views(after.constraints@),
            sigma,
            value_of(before.field),
        ) && sound(bounds_of(after.deductions@), sigma, value_of(before.field))),
{
    let p = value_of(before.field);
    let strict = before.apply_deduction_assigned;
    let cs = constraint_views(before.constraints@);
    let seeded = seeded_bounds(
        bounds_of(before.deductions@),
        views(before.preconditions@),
        views(before.preconditions_intermediates@),
        views(before.facts@),
        p,
    );
    let a = rule_a_all(seeded, cs, p);
    let n = choose|n: nat|
        (bounds_of(after.deductions@), changed) == #[trigger] rule_b_passes(
            a.0,
            a.1,
            p,
            strict,
            n,
        );
    assert(cs.len() == before.constraints@.len());
    lemma_seeded_well_shaped(
        bounds_of(before.deductions@),
        views(before.preconditions@),
        views(before.preconditions_intermediates@),
        views(before.facts@),
        p,
    );
    lemma_propagation_keeps_solutions(seeded, cs, p, strict, n, sigma);
}

/// A constraint in canonical form has field elements for coefficients, and
/// no signal twice in `C` where the constraint given has none twice. So
/// have the constraints of a template that was just made.
pub proof fn lemma_canonical_form(c: ConstraintView, p: int)
    requires
        p > 0,
    ensures
        canonical_constraint(canonical(c, p), p),
        distinct_signals(c.c) ==> distinct_signals(canonical(c, p).c),
{
    lemma_reduced_canonical(c.a, p);
    lemma_reduced_canonical(c.b, p);
    lemma_reduced_canonical(c.c, p);
}

} // verus!
