//! The parts that the three obligations of a template are put together
//! from: the variables of the signals with their bounds, the assumptions,
//! the constraints, the summaries of the components, and the query.
use vstd::prelude::*;
use std::collections::HashMap;
use num_bigint_dig::BigInt;
use crate::bigint::value_of;
use crate::interval::Iv;

use crate::constraint::{Constraint, ConstraintView, constraint_views};
use crate::bounds::{Signal2Bounds, bounds_of};
use crate::summary::{ExecutedImplication, ImplicationView, implication_views};
use crate::smt::{Var, Term, Formula, TermView, FormulaView, formula_views};
use crate::encoding::{
    assert_formula,
    signal_formulas,
    insert_signal_bounds,
    constraint_covered,
    constraint_fits,
    constraint_encoding,
    constraint_is_covered,
    insert_constraint_in_smt,
    conjoined,
    implication_formulas,
    insert_implication_in_smt,
};

verus! {

broadcast use vstd::std_specs::hash::group_hash_axioms;

/// Which signals are shared by the two executions of a safety obligation:
/// the inputs, from `first` on, `count` of them.
#[derive(Clone, Copy, Debug)]
pub struct Inputs {
    pub first: usize,
    pub count: usize,
}

impl Inputs {
    /// Whether `s` is one of the inputs.
    pub open spec fn holds(self, s: usize) -> bool {
        self.first <= s < self.first + self.count
    }

    /// Whether `s` is one of the inputs.
    pub fn has(&self, s: usize) -> (r: bool)
        ensures
            r == self.holds(s),
    {
        s >= self.first && s - self.first < self.count
    }
}

/// The variable of a signal in the second execution: the variable of the
/// first execution for an input, a variable of its own for any other signal.
pub open spec fn shadow_var(s: usize, inputs: Inputs) -> Var {
    if inputs.holds(s) { Var::Signal(s) } else { Var::Shadow(s) }
}

/// The variables of the signals in the first execution.
pub open spec fn primary_env(signals: Seq<usize>) -> Map<usize, Var> {
    Map::new(|s: usize| signals.contains(s), |s: usize| Var::Signal(s))
}

/// The variables of the signals in the second execution.
pub open spec fn shadow_env(signals: Seq<usize>, inputs: Inputs) -> Map<usize, Var> {
    Map::new(|s: usize| signals.contains(s), |s: usize| shadow_var(s, inputs))
}

/// The formulas that keep the variables of the signals within their bounds,
/// signal by signal; with a second execution, the formulas of a signal are
/// followed by those of its second variable.
pub open spec fn bounds_assertions(
    signals: Seq<usize>,
    b: Map<usize, Iv>,
    p: int,
    twin: Option<Inputs>,
) -> Seq<FormulaView>
    decreases signals.len(),
{
    if signals.len() == 0 {
        Seq::empty()
    } else {
        let s = signals.last();
        bounds_assertions(signals.drop_last(), b, p, twin) + signal_formulas(Var::Signal(s), s, b, p)
            + match twin {
            Some(inputs) => signal_formulas(shadow_var(s, inputs), s, b, p),
            None => Seq::empty(),
        }
    }
}

/// The variables of the first execution, in the order of the signals.
pub open spec fn primary_vars(signals: Seq<usize>) -> Seq<Var> {
    signals.map_values(|s: usize| Var::Signal(s))
}

/// The variables of the second execution, in the order of the signals.
pub open spec fn shadow_vars(signals: Seq<usize>, inputs: Inputs) -> Seq<Var> {
    signals.map_values(|s: usize| shadow_var(s, inputs))
}

/// The variables of the signals and the assertions of their bounds.
pub struct Declared {
    pub assertions: Vec<Formula>,
    pub env: HashMap<usize, Var>,
    pub shadow: HashMap<usize, Var>,
    pub watch: Vec<Var>,
}

/// Gives every signal its variable, and its second variable where there is
/// a second execution, and asserts their bounds.
pub fn declare_signals(
    signals: &Vec<usize>,
    deductions: &Signal2Bounds,
    field: &BigInt,
    twin: Option<Inputs>,
) -> (r: Declared)
    ensures
        formula_views(r.assertions@) == bounds_assertions(
            signals@,
            bounds_of(deductions@),
            value_of(*field),
            twin,
        ),
        r.env@ == primary_env(signals@),
        r.shadow@ == (match twin {
            Some(inputs) => shadow_env(signals@, inputs),
            None => Map::<usize, Var>::empty(),
        }),
        r.watch@ == primary_vars(signals@) + (match twin {
            Some(inputs) => shadow_vars(signals@, inputs),
            None => Seq::<Var>::empty(),
        }),
{
    let ghost b = bounds_of(deductions@);
    let ghost p = value_of(*field);
    let mut assertions: Vec<Formula> = Vec::new();
    let mut env: HashMap<usize, Var> = HashMap::new();
    let mut shadow: HashMap<usize, Var> = HashMap::new();
    let mut watch: Vec<Var> = Vec::new();
    let mut second: Vec<Var> = Vec::new();
    assert(formula_views(assertions@) =~= bounds_assertions(signals@.take(0), b, p, twin));
    assert(env@ =~= primary_env(signals@.take(0)));
    let mut i: usize = 0;
    while i < signals.len()
        invariant
            i <= signals.len(),
            b == bounds_of(deductions@),
            p == value_of(*field),
            formula_views(assertions@) == bounds_assertions(signals@.take(i as int), b, p, twin),
            env@ == primary_env(signals@.take(i as int)),
            shadow@ == (match twin {
                Some(inputs) => shadow_env(signals@.take(i as int), inputs),
                None => Map::<usize, Var>::empty(),
            }),
            watch@ == primary_vars(signals@.take(i as int)),
            second@ == (match twin {
                Some(inputs) => shadow_vars(signals@.take(i as int), inputs),
                None => Seq::<Var>::empty(),
            }),
        decreases signals.len() - i,
    {
        let s: usize = signals[i];
        let ghost done = signals@.take(i as int);
        let ghost next = signals@.take(i + 1);
        proof {
            assert(next.drop_last() =~= done);
            assert(next.last() == s);
            assert(next =~= done.push(s));
        }
        let ghost so_far = formula_views(assertions@);
        insert_signal_bounds(&mut assertions, Var::Signal(s), s, deductions, field);
        env.insert(s, Var::Signal(s));
        watch.push(Var::Signal(s));
        proof {
            assert forall|x: usize| next.contains(x) == (done.contains(x) || x == s) by {
                if done.contains(x) {
                    let j = choose|j: int| 0 <= j < done.len() && done[j] == x;
                    assert(next[j] == x);
                }
                if x == s {
                    assert(next[i as int] == x);
                }
                if next.contains(x) {
                    let j = choose|j: int| 0 <= j < next.len() && next[j] == x;
                    if j < i {
                        assert(done[j] == x);
                    }
                }
            }
            assert(env@ =~= primary_env(next));
            assert(watch@ =~= primary_vars(next));
        }
        match twin {
            Some(inputs) => {
                let copy = if inputs.has(s) { Var::Signal(s) } else { Var::Shadow(s) };
                insert_signal_bounds(&mut assertions, copy, s, deductions, field);
                shadow.insert(s, copy);
                second.push(copy);
                proof {
                    assert(shadow@ =~= shadow_env(next, inputs));
                    assert(second@ =~= shadow_vars(next, inputs));
                    assert(formula_views(assertions@) =~= so_far + signal_formulas(
                        Var::Signal(s),
                        s,
                        b,
                        p,
                    ) + signal_formulas(copy, s, b, p));
                }
            },
            None => {
                assert(formula_views(assertions@) =~= so_far + signal_formulas(
                    Var::Signal(s),
                    s,
                    b,
                    p,
                ) + Seq::<FormulaView>::empty());
            },
        }
        i += 1;
    }
    assert(signals@.take(signals@.len() as int) =~= signals@);
    watch.append(&mut second);
    Declared { assertions, env, shadow, watch }
}

/// The formulas of the constraints, in order, each constraint being
/// numbered by its place. A constraint with a signal that has no variable is
/// left out. With a second execution, the formulas of a constraint over the
/// first variables, numbered `2 * i`, are followed by its formulas over the
/// second, numbered `2 * i + 1`. There is no encoding where the range of a
/// quotient variable is beyond the limit or a number does not fit a machine
/// word.
pub open spec fn constraints_encoding(
    cs: Seq<ConstraintView>,
    env: Map<usize, Var>,
    shadow: Option<Map<usize, Var>>,
    b: Map<usize, Iv>,
    p: int,
    limit: int,
) -> Option<Seq<FormulaView>>
    decreases cs.len(),
{
    if cs.len() == 0 {
        Some(Seq::empty())
    } else {
        let c = cs.last();
        let i = cs.len() - 1;
        match constraints_encoding(cs.drop_last(), env, shadow, b, p, limit) {
            None => None,
            Some(before) => match shadow {
                None => if !constraint_covered(c, env) {
                    Some(before)
                } else if constraint_fits(c, b, p, limit) {
                    Some(before + constraint_encoding(c, env, b, p, i as usize))
                } else {
                    None
                },
                Some(other) => if !constraint_covered(c, env) || !constraint_covered(c, other) {
                    Some(before)
                } else if constraint_fits(c, b, p, limit) && 2 * i + 1 <= usize::MAX {
                    Some(
                        before + constraint_encoding(c, env, b, p, (2 * i) as usize)
                            + constraint_encoding(c, other, b, p, (2 * i + 1) as usize),
                    )
                } else {
                    None
                },
            },
        }
    }
}

/// Adds the formulas of the constraints to `assertions`. Returns `false`
/// where the constraints have no encoding; `assertions` then holds nothing
/// that can be used.
pub fn insert_constraints(
    constraints: &Vec<Constraint>,
    assertions: &mut Vec<Formula>,
    env: &HashMap<usize, Var>,
    shadow: Option<&HashMap<usize, Var>>,
    field: &BigInt,
    deductions: &Signal2Bounds,
    limit: &BigInt,
) -> (fits: bool)
    requires
        value_of(*field) > 0,
    ensures
        match constraints_encoding(
            constraint_views(constraints@),
            env@,
            match shadow {
                Some(other) => Some(other@),
                None => None,
            },
            bounds_of(deductions@),
            value_of(*field),
            value_of(*limit),
        ) {
            Some(added) => fits && formula_views(final(assertions)@) == formula_views(
                old(assertions)@,
            ) + added,
            None => !fits,
        },
{
    let ghost before = formula_views(assertions@);
    let ghost cs = constraint_views(constraints@);
    let ghost b = bounds_of(deductions@);
    let ghost p = value_of(*field);
    let ghost lim = value_of(*limit);
    let ghost other_view: Option<Map<usize, Var>> = match shadow {
        Some(other) => Some(other@),
        None => None,
    };
    let mut i: usize = 0;
    assert(formula_views(assertions@) =~= before + Seq::<FormulaView>::empty());
    while i < constraints.len()
        invariant
            i <= constraints.len(),
            cs == constraint_views(constraints@),
            b == bounds_of(deductions@),
            p == value_of(*field),
            p > 0,
            lim == value_of(*limit),
            other_view == (match shadow {
                Some(other) => Some(other@),
                None => None,
            }),
            constraints_encoding(cs.take(i as int), env@, other_view, b, p, lim) matches Some(added)
                && formula_views(assertions@) == before + added,
        decreases constraints.len() - i,
    {
        let c = &constraints[i];
        let ghost done = constraints_encoding(cs.take(i as int), env@, other_view, b, p, lim).unwrap();
        proof {
            assert(cs.take(i + 1).drop_last() =~= cs.take(i as int));
            assert(cs.take(i + 1).last() == c@);
        }
        match shadow {
            None => {
                if constraint_is_covered(c, env) {
                    if !insert_constraint_in_smt(c, assertions, env, field, deductions, i, limit) {
                        proof {
                            lemma_no_encoding_from(cs, env@, other_view, b, p, lim, i + 1);
                        }
                        return false;
                    }
                    assert(formula_views(assertions@) =~= before + (done + constraint_encoding(
                        c@,
                        env@,
                        b,
                        p,
                        i,
                    )));
                }
            },
            Some(other) => {
                if constraint_is_covered(c, env) && constraint_is_covered(c, other) {
                    if i > (usize::MAX - 1) / 2 {
                        proof {
                            lemma_no_encoding_from(cs, env@, other_view, b, p, lim, i + 1);
                        }
                        return false;
                    }
                    let first: usize = 2 * i;
                    if !insert_constraint_in_smt(c, assertions, env, field, deductions, first, limit)
                        || !insert_constraint_in_smt(
                        c,
                        assertions,
                        other,
                        field,
                        deductions,
                        first + 1,
                        limit,
                    ) {
                        proof {
                            lemma_no_encoding_from(cs, env@, other_view, b, p, lim, i + 1);
                        }
                        return false;
                    }
                    assert(formula_views(assertions@) =~= before + (done + constraint_encoding(
                        c@,
                        env@,
                        b,
                        p,
                        first,
                    ) + constraint_encoding(c@, other@, b, p, (first + 1) as usize)));
                }
            },
        }
        i += 1;
    }
    assert(cs.take(constraints@.len() as int) =~= cs);
    true
}

/// Where the first `n` constraints have no encoding, all of them have none.
pub proof fn lemma_no_encoding_from(
    cs: Seq<ConstraintView>,
    env: Map<usize, Var>,
    shadow: Option<Map<usize, Var>>,
    b: Map<usize, Iv>,
    p: int,
    limit: int,
    n: int,
)
    requires
        0 <= n <= cs.len(),
        constraints_encoding(cs.take(n), env, shadow, b, p, limit) is None,
    ensures
        constraints_encoding(cs, env, shadow, b, p, limit) is None,
    decreases cs.len() - n,
{
    if n < cs.len() {
        assert(cs.take(n + 1).drop_last() =~= cs.take(n));
        lemma_no_encoding_from(cs, env, shadow, b, p, limit, n + 1);
    } else {
        assert(cs.take(n) =~= cs);
    }
}

/// The formulas of the summaries that have one, in the order of the
/// summaries.
pub open spec fn implications_encoding(is: Seq<ImplicationView>, env: Map<usize, Var>, p: int) -> Seq<
    FormulaView,
>
    decreases is.len(),
{
    if is.len() == 0 {
        Seq::empty()
    } else {
        implications_encoding(is.drop_last(), env, p) + implication_formulas(is.last(), env, p)
    }
}

/// Asserts the summaries of the components.
pub fn insert_implications(
    implications: &Vec<ExecutedImplication>,
    assertions: &mut Vec<Formula>,
    env: &HashMap<usize, Var>,
    field: &BigInt,
)
    requires
        value_of(*field) > 0,
    ensures
        formula_views(final(assertions)@) == formula_views(old(assertions)@)
            + implications_encoding(implication_views(implications@), env@, value_of(*field)),
{
    let ghost before = formula_views(assertions@);
    let ghost all = implication_views(implications@);
    let ghost p = value_of(*field);
    let mut i: usize = 0;
    assert(formula_views(assertions@) =~= before + implications_encoding(all.take(0), env@, p));
    while i < implications.len()
        invariant
            i <= implications.len(),
            all == implication_views(implications@),
            p == value_of(*field),
            p > 0,
            formula_views(assertions@) == before + implications_encoding(
                all.take(i as int),
                env@,
                p,
            ),
        decreases implications.len() - i,
    {
        proof {
            assert(all.take(i + 1).drop_last() =~= all.take(i as int));
            assert(all.take(i + 1).last() == implications@[i as int]@);
        }
        let ghost so_far = implications_encoding(all.take(i as int), env@, p);
        insert_implication_in_smt(&implications[i], assertions, env, field);
        assert(formula_views(assertions@) =~= before + (so_far + implication_formulas(
            implications@[i as int]@,
            env@,
            p,
        )));
        i += 1;
    }
    assert(all.take(implications@.len() as int) =~= all);
}

/// The formulas that say of each of the signals that it has the same value
/// in both executions.
pub open spec fn agreements(signals: Seq<usize>, inputs: Inputs) -> Seq<FormulaView> {
    signals.map_values(
        |s: usize| FormulaView::Eq(TermView::Var(Var::Signal(s)), TermView::Var(shadow_var(s, inputs))),
    )
}

/// The formula that says that the signals have the same values in both
/// executions.
pub fn agreement(signals: &Vec<usize>, inputs: Inputs) -> (f: Formula)
    ensures
        f@ == conjoined(FormulaView::Const(true), agreements(signals@, inputs)),
{
    let ghost all = agreements(signals@, inputs);
    let mut value = Formula::Const(true);
    let mut i: usize = 0;
    while i < signals.len()
        invariant
            i <= signals.len(),
            all == agreements(signals@, inputs),
            value@ == conjoined(FormulaView::Const(true), all.take(i as int)),
        decreases signals.len() - i,
    {
        proof {
            assert(all.take(i + 1).drop_last() =~= all.take(i as int));
            assert(all.take(i + 1).last() == all[i as int]);
        }
        let s: usize = signals[i];
        let copy = if inputs.has(s) { Var::Signal(s) } else { Var::Shadow(s) };
        let same = Formula::equal(Term::variable(Var::Signal(s)), Term::variable(copy));
        value = Formula::and(value, same);
        i += 1;
    }
    assert(all.take(signals@.len() as int) =~= all);
    value
}

/// Whether every one of the signals is among the declared ones.
pub open spec fn all_declared(signals: Seq<usize>, declared: Seq<usize>) -> bool {
    forall|i: int| 0 <= i < signals.len() ==> declared.contains(#[trigger] signals[i])
}

/// The formula of the determinism summary of a component: where the two
/// executions agree on its inputs, they agree on its outputs. There is none
/// where one of the signals is not declared.
pub open spec fn safety_formulas(
    summary: (Seq<usize>, Seq<usize>),
    declared: Seq<usize>,
    inputs: Inputs,
) -> Seq<FormulaView> {
    if all_declared(summary.0, declared) && all_declared(summary.1, declared) {
        seq![
            FormulaView::Implies(
                Box::new(conjoined(FormulaView::Const(true), agreements(summary.0, inputs))),
                Box::new(conjoined(FormulaView::Const(true), agreements(summary.1, inputs))),
            ),
        ]
    } else {
        Seq::empty()
    }
}

/// The contents of a list of determinism summaries.
pub open spec fn safety_views(s: Seq<(Vec<usize>, Vec<usize>)>) -> Seq<(Seq<usize>, Seq<usize>)> {
    s.map_values(|i: (Vec<usize>, Vec<usize>)| (i.0@, i.1@))
}

/// The formulas of the determinism summaries, in order.
pub open spec fn safety_encoding(
    summaries: Seq<(Seq<usize>, Seq<usize>)>,
    declared: Seq<usize>,
    inputs: Inputs,
) -> Seq<FormulaView>
    decreases summaries.len(),
{
    if summaries.len() == 0 {
        Seq::empty()
    } else {
        safety_encoding(summaries.drop_last(), declared, inputs) + safety_formulas(
            summaries.last(),
            declared,
            inputs,
        )
    }
}

/// Whether every one of `signals` has a variable in `env`.
fn signals_declared(signals: &Vec<usize>, env: &HashMap<usize, Var>, Ghost(declared): Ghost<
    Seq<usize>,
>) -> (r: bool)
    requires
        env@.dom() == primary_env(declared).dom(),
    ensures
        r == all_declared(signals@, declared),
{
    let mut i: usize = 0;
    while i < signals.len()
        invariant
            i <= signals.len(),
            env@.dom() == primary_env(declared).dom(),
            forall|j: int| 0 <= j < i ==> declared.contains(#[trigger] signals@[j]),
        decreases signals.len() - i,
    {
        if !env.contains_key(&signals[i]) {
            assert(!primary_env(declared).dom().contains(signals@[i as int]));
            return false;
        }
        assert(primary_env(declared).dom().contains(signals@[i as int]));
        i += 1;
    }
    true
}

/// Asserts the determinism summaries of the components.
pub fn insert_safety_implications(
    summaries: &Vec<(Vec<usize>, Vec<usize>)>,
    assertions: &mut Vec<Formula>,
    env: &HashMap<usize, Var>,
    inputs: Inputs,
    signals: &Vec<usize>,
)
    requires
        env@ == primary_env(signals@),
    ensures
        formula_views(final(assertions)@) == formula_views(old(assertions)@) + safety_encoding(
            safety_views(summaries@),
            signals@,
            inputs,
        ),
{
    let ghost declared = signals@;
    let ghost before = formula_views(assertions@);
    let ghost all = safety_views(summaries@);
    let mut i: usize = 0;
    assert(formula_views(assertions@) =~= before + safety_encoding(all.take(0), declared, inputs));
    while i < summaries.len()
        invariant
            i <= summaries.len(),
            all == safety_views(summaries@),
            env@ == primary_env(declared),
            formula_views(assertions@) == before + safety_encoding(
                all.take(i as int),
                declared,
                inputs,
            ),
        decreases summaries.len() - i,
    {
        proof {
            assert(all.take(i + 1).drop_last() =~= all.take(i as int));
            assert(all.take(i + 1).last() == (summaries@[i as int].0@, summaries@[i as int].1@));
        }
        let ghost so_far = safety_encoding(all.take(i as int), declared, inputs);
        let summary = &summaries[i];
        if signals_declared(&summary.0, env, Ghost(declared)) && signals_declared(
            &summary.1,
            env,
            Ghost(declared),
        ) {
            let left = agreement(&summary.0, inputs);
            let right = agreement(&summary.1, inputs);
            let f = Formula::implies(left, right);
            let ghost added = seq![f@];
            assert_formula(assertions, f);
            assert(formula_views(assertions@) =~= before + (so_far + added));
        } else {
            assert(formula_views(assertions@) =~= before + (so_far + Seq::<FormulaView>::empty()));
        }
        i += 1;
    }
    assert(all.take(summaries@.len() as int) =~= all);
}

} // verus!
