//! Bound propagation: from the annotations and constraints of a template to
//! an interval for as many signals as possible.
//!
//! The constant signal is one. Every assumption seeds the intervals that it
//! implies. The integrity-domain rule then looks at every constraint once
//! and takes out those that an interval states in full. Linear
//! back-substitution is repeated over the constraints that are left until a
//! whole pass changes nothing.
use vstd::prelude::*;
use std::collections::HashSet;
use num_bigint_dig::BigInt;
use crate::bigint::{value_of, big_clone};
use crate::interval::Iv;
use crate::expression::{Expression, ExpressionView, views};
use crate::constraint::{Constraint, ConstraintView, constraint_views};
use crate::bounds::{
    ExecutedInequation,
    Signal2Bounds,
    bounds_of,
    refined,
    refines,
    rule_a,
    rule_a_captures,
    rule_b,
    rule_b_terms,
    rule_b_candidate,
    update_bounds_signal,
    deduction_rule_integrity_domain,
    deduction_rule_apply_bounds_constraint,
};
use crate::annotation_bounds::{entries_of, implied_bounds, get_bounds_expression_bool};

verus! {

broadcast use vstd::std_specs::hash::group_hash_axioms;

/// The bounds map and the set of signals seeded so far, after one more
/// implied interval: the first interval of a signal replaces what was known
/// of it, every later one narrows it.
pub open spec fn seed_entry(st: (Map<usize, Iv>, Set<usize>), e: (usize, Iv), p: int) -> (
    Map<usize, Iv>,
    Set<usize>,
) {
    if st.1.contains(e.0) {
        (refined(st.0, e.0, e.1, p), st.1)
    } else {
        (st.0.insert(e.0, e.1), st.1.insert(e.0))
    }
}

/// Seeding with a list of implied intervals, in order.
pub open spec fn seed_entries(st: (Map<usize, Iv>, Set<usize>), es: Seq<(usize, Iv)>, p: int) -> (
    Map<usize, Iv>,
    Set<usize>,
)
    decreases es.len(),
{
    if es.len() == 0 {
        st
    } else {
        seed_entry(seed_entries(st, es.drop_last(), p), es.last(), p)
    }
}

/// Seeding with the intervals that a list of annotations implies, in order.
pub open spec fn seed_annotations(
    st: (Map<usize, Iv>, Set<usize>),
    annotations: Seq<ExpressionView>,
    p: int,
) -> (Map<usize, Iv>, Set<usize>)
    decreases annotations.len(),
{
    if annotations.len() == 0 {
        st
    } else {
        seed_entries(
            seed_annotations(st, annotations.drop_last(), p),
            implied_bounds(annotations.last(), p),
            p,
        )
    }
}

/// The bounds map with which propagation starts: the constant signal is
/// one, and the assumptions on inputs, the assumptions on intermediates and
/// the facts are seeded in this order.
pub open spec fn seeded_bounds(
    b: Map<usize, Iv>,
    preconditions: Seq<ExpressionView>,
    preconditions_intermediates: Seq<ExpressionView>,
    facts: Seq<ExpressionView>,
    p: int,
) -> Map<usize, Iv> {
    seed_annotations(
        seed_annotations(
            seed_annotations(
                (b.insert(0, Iv { lo: 1, hi: 1 }), Set::empty()),
                preconditions,
                p,
            ),
            preconditions_intermediates,
            p,
        ),
        facts,
        p,
    ).0
}

/// Seeds the bounds map with the intervals that `annotations` imply.
pub fn seed_bounds(
    deductions: &mut Signal2Bounds,
    init_signals: &mut HashSet<usize>,
    annotations: &Vec<Expression>,
    field: &BigInt,
)
    ensures
        (bounds_of(final(deductions)@), final(init_signals)@) == seed_annotations(
            (bounds_of(old(deductions)@), old(init_signals)@),
            views(annotations@),
            value_of(*field),
        ),
{
    let ghost start = (bounds_of(deductions@), init_signals@);
    let ghost all = views(annotations@);
    let ghost p = value_of(*field);
    let mut i: usize = 0;
    while i < annotations.len()
        invariant
            i <= annotations.len(),
            all == views(annotations@),
            p == value_of(*field),
            (bounds_of(deductions@), init_signals@) == seed_annotations(start, all.take(i as int), p),
        decreases annotations.len() - i,
    {
        proof {
            assert(all.take(i + 1).drop_last() =~= all.take(i as int));
            assert(all.take(i + 1).last() == annotations@[i as int]@);
        }
        let possible_bounds = get_bounds_expression_bool(&annotations[i], field);
        let ghost before = (bounds_of(deductions@), init_signals@);
        let ghost es = entries_of(possible_bounds@);
        let mut k: usize = 0;
        while k < possible_bounds.len()
            invariant
                k <= possible_bounds.len(),
                es == entries_of(possible_bounds@),
                p == value_of(*field),
                (bounds_of(deductions@), init_signals@) == seed_entries(
                    before,
                    es.take(k as int),
                    p,
                ),
            decreases possible_bounds.len() - k,
        {
            proof {
                assert(es.take(k + 1).drop_last() =~= es.take(k as int));
                assert(es.take(k + 1).last() == es[k as int]);
            }
            let signal: usize = possible_bounds[k].signal;
            let min = big_clone(&possible_bounds[k].min);
            let max = big_clone(&possible_bounds[k].max);
            if init_signals.contains(&signal) {
                update_bounds_signal(deductions, signal, min, max, field);
            } else {
                let ghost known = bounds_of(deductions@);
                let ghost iv = Iv { lo: value_of(min), hi: value_of(max) };
                deductions.insert(signal, ExecutedInequation { signal, min, max });
                init_signals.insert(signal);
                assert(bounds_of(deductions@) =~= known.insert(signal, iv));
            }
            k += 1;
        }
        assert(es.take(possible_bounds@.len() as int) =~= es);
        i += 1;
    }
    assert(all.take(annotations@.len() as int) =~= all);
}

/// The bounds map after the integrity-domain rule has looked at every
/// constraint in order, and the constraints that it leaves: those that no
/// interval states in full.
pub open spec fn rule_a_all(b: Map<usize, Iv>, cs: Seq<ConstraintView>, p: int) -> (
    Map<usize, Iv>,
    Seq<ConstraintView>,
)
    decreases cs.len(),
{
    if cs.len() == 0 {
        (b, Seq::empty())
    } else {
        let before = rule_a_all(b, cs.drop_last(), p);
        (
            rule_a(before.0, cs.last(), p),
            if rule_a_captures(before.0, cs.last(), p) {
                before.1
            } else {
                before.1.push(cs.last())
            },
        )
    }
}

/// One pass of linear back-substitution over the constraints, in order: the
/// bounds map after it and the signals whose entry changed.
pub open spec fn rule_b_pass(b: Map<usize, Iv>, cs: Seq<ConstraintView>, p: int, strict: bool) -> (
    Map<usize, Iv>,
    Seq<usize>,
)
    decreases cs.len(),
{
    if cs.len() == 0 {
        (b, Seq::empty())
    } else {
        let before = rule_b_pass(b, cs.drop_last(), p, strict);
        let step = rule_b(before.0, cs.last(), p, strict);
        (step.0, before.1 + step.1)
    }
}

/// `n` passes of linear back-substitution, one after the other.
pub open spec fn rule_b_passes(
    b: Map<usize, Iv>,
    cs: Seq<ConstraintView>,
    p: int,
    strict: bool,
    n: nat,
) -> (Map<usize, Iv>, Seq<usize>)
    decreases n,
{
    if n == 0 {
        (b, Seq::empty())
    } else {
        let before = rule_b_passes(b, cs, p, strict, (n - 1) as nat);
        let pass = rule_b_pass(before.0, cs, p, strict);
        (pass.0, before.1 + pass.1)
    }
}

/// Whether the bounds map is a fixed point of linear back-substitution: a
/// pass over the constraints changes no entry.
pub open spec fn is_fixed_point(b: Map<usize, Iv>, cs: Seq<ConstraintView>, p: int, strict: bool) -> bool {
    rule_b_pass(b, cs, p, strict).1.len() == 0
}

/// An interval that does not change the bounds map leaves it as it is.
pub proof fn lemma_refined_unchanged(b: Map<usize, Iv>, s: usize, new: Iv, p: int)
    requires
        !refines(b, s, new, p),
    ensures
        refined(b, s, new, p) == b,
{
    assert(refined(b, s, new, p) =~= b);
}

/// Back-substitution over the terms of a constraint that reports no change
/// leaves the bounds map as it is.
pub proof fn lemma_rule_b_terms_unchanged(
    b: Map<usize, Iv>,
    terms: Seq<(usize, int)>,
    limit: Iv,
    p: int,
    strict: bool,
)
    requires
        rule_b_terms(b, terms, limit, p, strict).1.len() == 0,
    ensures
        rule_b_terms(b, terms, limit, p, strict).0 == b,
    decreases terms.len(),
{
    if terms.len() > 0 {
        let before = rule_b_terms(b, terms.drop_last(), limit, p, strict);
        lemma_rule_b_terms_unchanged(b, terms.drop_last(), limit, p, strict);
        match rule_b_candidate(before.0, terms.last(), limit, p, strict) {
            Some(iv) => {
                lemma_refined_unchanged(before.0, terms.last().0, iv, p);
            },
            None => {},
        }
    }
}

/// A pass that reports no change leaves the bounds map as it is.
pub proof fn lemma_rule_b_pass_unchanged(b: Map<usize, Iv>, cs: Seq<ConstraintView>, p: int, strict: bool)
    requires
        rule_b_pass(b, cs, p, strict).1.len() == 0,
    ensures
        rule_b_pass(b, cs, p, strict).0 == b,
    decreases cs.len(),
{
    if cs.len() > 0 {
        let before = rule_b_pass(b, cs.drop_last(), p, strict);
        lemma_rule_b_pass_unchanged(b, cs.drop_last(), p, strict);
        lemma_rule_b_terms_unchanged(
            before.0,
            cs.last().c,
            crate::bounds::rule_b_limit(before.0, cs.last(), p, strict),
            p,
            strict,
        );
    }
}

/// Applies the integrity-domain rule to every constraint and returns the
/// constraints that are left.
pub fn apply_integrity_domain(
    deductions: &mut Signal2Bounds,
    constraints: &Vec<Constraint>,
    field: &BigInt,
) -> (kept: Vec<Constraint>)
    requires
        value_of(*field) > 1,
    ensures
        (bounds_of(final(deductions)@), constraint_views(kept@)) == rule_a_all(
            bounds_of(old(deductions)@),
            constraint_views(constraints@),
            value_of(*field),
        ),
{
    let ghost start = bounds_of(deductions@);
    let ghost cs = constraint_views(constraints@);
    let ghost p = value_of(*field);
    let mut kept: Vec<Constraint> = Vec::new();
    assert(constraint_views(kept@) =~= Seq::empty());
    let mut i: usize = 0;
    while i < constraints.len()
        invariant
            i <= constraints.len(),
            cs == constraint_views(constraints@),
            p == value_of(*field),
            p > 1,
            (bounds_of(deductions@), constraint_views(kept@)) == rule_a_all(
                start,
                cs.take(i as int),
                p,
            ),
        decreases constraints.len() - i,
    {
        proof {
            assert(cs.take(i + 1).drop_last() =~= cs.take(i as int));
            assert(cs.take(i + 1).last() == constraints@[i as int]@);
        }
        let should_remove = deduction_rule_integrity_domain(deductions, &constraints[i], field);
        if !should_remove {
            let ghost before = constraint_views(kept@);
            kept.push(constraints[i].copy());
            assert(constraint_views(kept@) =~= before.push(constraints@[i as int]@));
        }
        i += 1;
    }
    assert(cs.take(constraints@.len() as int) =~= cs);
    kept
}

/// One pass of linear back-substitution over the constraints.
pub fn apply_bounds_pass(
    deductions: &mut Signal2Bounds,
    constraints: &Vec<Constraint>,
    field: &BigInt,
    strict: bool,
) -> (updated: Vec<usize>)
    requires
        value_of(*field) > 0,
    ensures
        (bounds_of(final(deductions)@), updated@) == rule_b_pass(
            bounds_of(old(deductions)@),
            constraint_views(constraints@),
            value_of(*field),
            strict,
        ),
{
    let ghost start = bounds_of(deductions@);
    let ghost cs = constraint_views(constraints@);
    let ghost p = value_of(*field);
    let mut updated: Vec<usize> = Vec::new();
    let mut i: usize = 0;
    while i < constraints.len()
        invariant
            i <= constraints.len(),
            cs == constraint_views(constraints@),
            p == value_of(*field),
            p > 0,
            (bounds_of(deductions@), updated@) == rule_b_pass(start, cs.take(i as int), p, strict),
        decreases constraints.len() - i,
    {
        proof {
            assert(cs.take(i + 1).drop_last() =~= cs.take(i as int));
            assert(cs.take(i + 1).last() == constraints@[i as int]@);
        }
        let mut step = deduction_rule_apply_bounds_constraint(
            deductions,
            &constraints[i],
            field,
            strict,
        );
        updated.append(&mut step);
        i += 1;
    }
    assert(cs.take(constraints@.len() as int) =~= cs);
    updated
}

/// Repeats passes of linear back-substitution until one changes nothing,
/// and returns the signals whose entry changed, pass after pass.
pub fn propagate_to_fixed_point(
    deductions: &mut Signal2Bounds,
    constraints: &Vec<Constraint>,
    field: &BigInt,
    strict: bool,
) -> (new_signal_bounds: Vec<usize>)
    requires
        value_of(*field) > 0,
    ensures
        exists|n: nat|
            (bounds_of(final(deductions)@), new_signal_bounds@) == #[trigger] rule_b_passes(
                bounds_of(old(deductions)@),
                constraint_views(constraints@),
                value_of(*field),
                strict,
                n,
            ),
        is_fixed_point(
            bounds_of(final(deductions)@),
            constraint_views(constraints@),
            value_of(*field),
            strict,
        ),
{
    let ghost start = bounds_of(deductions@);
    let ghost cs = constraint_views(constraints@);
    let ghost p = value_of(*field);
    let mut new_signal_bounds: Vec<usize> = Vec::new();
    let ghost before_pass = start;
    let mut new_signal_bounds_iteration = apply_bounds_pass(deductions, constraints, field, strict);
    let ghost passes: nat = 0;
    assert(new_signal_bounds@ =~= rule_b_passes(start, cs, p, strict, 0).1);
    // Every pass but the last changes at least one entry, and each change is
    // recorded in the list returned, which cannot grow without end.
    while new_signal_bounds_iteration.len() > 0
        invariant
            cs == constraint_views(constraints@),
            p == value_of(*field),
            p > 0,
            (before_pass, new_signal_bounds@) == rule_b_passes(start, cs, p, strict, passes),
            (bounds_of(deductions@), new_signal_bounds_iteration@) == rule_b_pass(
                before_pass,
                cs,
                p,
                strict,
            ),
        decreases usize::MAX - new_signal_bounds.len(),
    {
        let ghost recorded = new_signal_bounds@;
        new_signal_bounds.append(&mut new_signal_bounds_iteration);
        let total: usize = new_signal_bounds.len();
        proof {
            assert(total > recorded.len());
            passes = passes + 1;
            before_pass = bounds_of(deductions@);
        }
        new_signal_bounds_iteration = apply_bounds_pass(deductions, constraints, field, strict);
    }
    proof {
        lemma_rule_b_pass_unchanged(before_pass, cs, p, strict);
        assert(bounds_of(deductions@) == before_pass);
    }
    new_signal_bounds
}

} // verus!
