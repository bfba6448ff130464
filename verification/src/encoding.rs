//! The formulas that pose constraints, bounds and summaries to the solver.
//!
//! The solver reasons over the integers, the constraints hold modulo the
//! prime. A constraint `A * B = C (mod p)` is therefore posed as the integer
//! equation `C - A * B = k * p` with a quotient `k` of its own, whose range
//! is found from the intervals of `A`, `B` and `C`.
use vstd::prelude::*;
use std::collections::HashMap;
use num_bigint_dig::BigInt;
use crate::bigint::{value_of, big_from_u64, big_add, big_sub, big_eq, big_le, big_clone};
use crate::field::{to_signed, to_neg, div_floor};
use crate::interval::{Iv, iv_sub, iv_mul, compute_bounds_product, compute_bounds_difference};
use crate::constraint::{Constraint, ConstraintView, terms_of, constraint_views};
use crate::bounds::{Signal2Bounds, bounds_of, lin_bounds, compute_bounds_linear_expression_strict};
use crate::expression::{Expression, ExpressionView, views};
use crate::smt::{Var, Term, Formula, TermView, FormulaView, formula_views};
use crate::translation::{bool_formula, get_z3_expression_bool};
use crate::summary::{ExecutedImplication, ImplicationView};

verus! {

broadcast use vstd::std_specs::hash::group_hash_axioms;

/// Adds a formula to a list of assertions.
pub fn assert_formula(assertions: &mut Vec<Formula>, f: Formula)
    ensures
        formula_views(final(assertions)@) == formula_views(old(assertions)@).push(f@),
{
    let ghost before = formula_views(assertions@);
    let ghost fv = f@;
    assertions.push(f);
    assert(formula_views(assertions@) =~= before.push(fv));
}

/// The formula that keeps a variable within an interval. An interval that
/// reaches below zero stands for two ranges of field elements: the top of
/// the field, from `p + lo` up, and the bottom, from zero to `hi`.
pub open spec fn bound_formula(x: Var, iv: Iv, p: int) -> FormulaView {
    if iv.lo >= 0 {
        FormulaView::And(
            Box::new(FormulaView::Ge(TermView::Var(x), TermView::Const(iv.lo))),
            Box::new(FormulaView::Le(TermView::Var(x), TermView::Const(iv.hi))),
        )
    } else {
        FormulaView::Or(
            Box::new(
                FormulaView::And(
                    Box::new(FormulaView::Le(TermView::Const(p + iv.lo), TermView::Var(x))),
                    Box::new(FormulaView::Lt(TermView::Var(x), TermView::Const(p))),
                ),
            ),
            Box::new(
                FormulaView::And(
                    Box::new(FormulaView::Le(TermView::Const(0), TermView::Var(x))),
                    Box::new(FormulaView::Le(TermView::Var(x), TermView::Const(iv.hi))),
                ),
            ),
        )
    }
}

/// The formula that keeps the variable `signal` within `[min, max]`.
pub fn get_z3_condition_bounds(signal: Var, min: &BigInt, max: &BigInt, field: &BigInt) -> (r:
    Formula)
    ensures
        r@ == bound_formula(
            signal,
            Iv { lo: value_of(*min), hi: value_of(*max) },
            value_of(*field),
        ),
{
    let zero = big_from_u64(0);
    if big_le(&zero, min) {
        Formula::and(
            Formula::ge(Term::variable(signal), Term::constant(big_clone(min))),
            Formula::le(Term::variable(signal), Term::constant(big_clone(max))),
        )
    } else {
        Formula::or(
            Formula::and(
                Formula::le(Term::constant(big_add(field, min)), Term::variable(signal)),
                Formula::lt(Term::variable(signal), Term::constant(big_clone(field))),
            ),
            Formula::and(
                Formula::le(Term::constant(zero), Term::variable(signal)),
                Formula::le(Term::variable(signal), Term::constant(big_clone(max))),
            ),
        )
    }
}

/// The two formulas that keep a variable within the field.
pub open spec fn field_formulas(x: Var, p: int) -> Seq<FormulaView> {
    seq![
        FormulaView::Ge(TermView::Var(x), TermView::Const(0)),
        FormulaView::Lt(TermView::Var(x), TermView::Const(p)),
    ]
}

/// The formulas that keep a variable within the interval known for its
/// signal, or within the field where none is known.
pub open spec fn signal_formulas(x: Var, s: usize, b: Map<usize, Iv>, p: int) -> Seq<FormulaView> {
    if b.contains_key(s) {
        seq![bound_formula(x, b[s], p)]
    } else {
        field_formulas(x, p)
    }
}

/// Asserts that the variable `x` of the signal `s` lies within the bounds
/// known for `s`.
pub fn insert_signal_bounds(
    assertions: &mut Vec<Formula>,
    x: Var,
    s: usize,
    deductions: &Signal2Bounds,
    field: &BigInt,
)
    ensures
        formula_views(final(assertions)@) == formula_views(old(assertions)@) + signal_formulas(
            x,
            s,
            bounds_of(deductions@),
            value_of(*field),
        ),
{
    let ghost before = formula_views(assertions@);
    match deductions.get(&s) {
        None => {
            let low = Formula::ge(Term::variable(x), Term::constant(big_from_u64(0)));
            let high = Formula::lt(Term::variable(x), Term::constant(big_clone(field)));
            assert_formula(assertions, low);
            assert_formula(assertions, high);
            assert(formula_views(assertions@) =~= before + field_formulas(x, value_of(*field)));
        },
        Some(bounds) => {
            let condition = get_z3_condition_bounds(x, &bounds.min, &bounds.max, field);
            assert_formula(assertions, condition);
            assert(formula_views(assertions@) =~= before + seq![
                bound_formula(x, bounds_of(deductions@)[s], value_of(*field)),
            ]);
        },
    }
}

/// Whether every signal of a combination but the constant one has a
/// variable.
pub open spec fn covered(le: Seq<(usize, int)>, env: Map<usize, Var>) -> bool {
    forall|i: int| 0 <= i < le.len() && (#[trigger] le[i]).0 != 0 ==> env.contains_key(le[i].0)
}

/// Whether every signal of a constraint but the constant one has a variable.
pub open spec fn constraint_covered(c: ConstraintView, env: Map<usize, Var>) -> bool {
    covered(c.a, env) && covered(c.b, env) && covered(c.c, env)
}

/// The term of a linear combination: the sum of its terms from the left,
/// every coefficient being replaced by its signed representative.
pub open spec fn lin_term(le: Seq<(usize, int)>, env: Map<usize, Var>, p: int) -> TermView
    decreases le.len(),
{
    if le.len() == 0 {
        TermView::Const(0)
    } else {
        let c = TermView::Const(to_signed(le.last().1, p));
        TermView::Add(
            Box::new(lin_term(le.drop_last(), env, p)),
            Box::new(
                if le.last().0 == 0 {
                    c
                } else {
                    TermView::Mul(Box::new(TermView::Var(env[le.last().0])), Box::new(c))
                },
            ),
        )
    }
}

/// Whether every signal of `le` but the constant one has a variable.
pub fn terms_covered(le: &Vec<(usize, BigInt)>, env: &HashMap<usize, Var>) -> (r: bool)
    ensures
        r == covered(terms_of(le@), env@),
{
    let mut i: usize = 0;
    while i < le.len()
        invariant
            i <= le.len(),
            forall|j: int|
                0 <= j < i && (#[trigger] terms_of(le@)[j]).0 != 0 ==> env@.contains_key(
                    terms_of(le@)[j].0,
                ),
        decreases le.len() - i,
    {
        let s: usize = le[i].0;
        assert(terms_of(le@)[i as int].0 == s);
        if s != 0 && !env.contains_key(&s) {
            return false;
        }
        i += 1;
    }
    true
}

/// The term of the linear combination `le` over the variables of `env`.
pub fn linear_term(le: &Vec<(usize, BigInt)>, env: &HashMap<usize, Var>, field: &BigInt) -> (r:
    Term)
    requires
        value_of(*field) > 0,
        covered(terms_of(le@), env@),
    ensures
        r@ == lin_term(terms_of(le@), env@, value_of(*field)),
{
    let ghost all = terms_of(le@);
    let mut value = Term::constant(big_from_u64(0));
    let mut i: usize = 0;
    while i < le.len()
        invariant
            i <= le.len(),
            all == terms_of(le@),
            value_of(*field) > 0,
            covered(all, env@),
            value@ == lin_term(all.take(i as int), env@, value_of(*field)),
        decreases le.len() - i,
    {
        let signal: usize = le[i].0;
        proof {
            assert(all.take(i + 1).drop_last() =~= all.take(i as int));
            assert(all.take(i + 1).last() == all[i as int]);
            assert(all[i as int] == (signal, value_of(le@[i as int].1)));
        }
        let coefficient = Term::constant(to_neg(&le[i].1, field));
        let summand = if signal == 0 {
            coefficient
        } else {
            match env.get(&signal) {
                Some(x) => Term::times(Term::variable(*x), coefficient),
                None => coefficient,
            }
        };
        value = Term::plus(value, summand);
        i += 1;
    }
    assert(all.take(le@.len() as int) =~= all);
    value
}

/// The range of the quotients `k` for which `k * p` can lie in an interval:
/// from the lower end divided by `p` and rounded down to the upper end
/// divided by `p` and rounded up.
pub open spec fn quotient_iv(iv: Iv, p: int) -> Iv {
    Iv { lo: iv.lo / p, hi: -((-iv.hi) / p) }
}

/// The range of the quotients by `field` of the members of `[lo, hi]`.
pub fn quotient_range(lo: &BigInt, hi: &BigInt, field: &BigInt) -> (r: (BigInt, BigInt))
    requires
        value_of(*field) > 0,
    ensures
        (Iv { lo: value_of(r.0), hi: value_of(r.1) }) == quotient_iv(
            Iv { lo: value_of(*lo), hi: value_of(*hi) },
            value_of(*field),
        ),
{
    let zero = big_from_u64(0);
    let low = div_floor(lo, field);
    let negated = big_sub(&zero, hi);
    let high = big_sub(&zero, &div_floor(&negated, field));
    (low, high)
}

/// The formulas that keep a quotient variable within its range; none when
/// the range is a single integer, which then stands in place of the
/// variable.
pub open spec fn multiple_guards(q: Iv, k: Var) -> Seq<FormulaView> {
    if q.lo == q.hi {
        Seq::empty()
    } else {
        seq![
            FormulaView::Ge(TermView::Var(k), TermView::Const(q.lo)),
            FormulaView::Le(TermView::Var(k), TermView::Const(q.hi)),
        ]
    }
}

/// The equation `value = k * p`, the quotient being the variable `k` or the
/// single integer of its range.
pub open spec fn multiple_equation(value: TermView, q: Iv, k: Var, p: int) -> FormulaView {
    FormulaView::Eq(
        value,
        TermView::Mul(
            Box::new(if q.lo == q.hi { TermView::Const(q.lo) } else { TermView::Var(k) }),
            Box::new(TermView::Const(p)),
        ),
    )
}

/// Whether the range of a quotient is within the limit set for it.
pub open spec fn quotient_fits(q: Iv, limit: int) -> bool {
    q.hi - q.lo <= limit
}

/// Whether the range `[lo, hi]` of a quotient is within `limit`.
fn range_fits(lo: &BigInt, hi: &BigInt, limit: &BigInt) -> (r: bool)
    ensures
        r == quotient_fits(Iv { lo: value_of(*lo), hi: value_of(*hi) }, value_of(*limit)),
{
    let width = big_sub(hi, lo);
    big_le(&width, limit)
}

/// Poses `value = k * p`: asserts the range of the quotient where it is a
/// variable and returns the equation.
fn multiple_of_field(
    assertions: &mut Vec<Formula>,
    value: Term,
    lo: BigInt,
    hi: BigInt,
    k: Var,
    field: &BigInt,
) -> (equation: Formula)
    ensures
        formula_views(final(assertions)@) == formula_views(old(assertions)@) + multiple_guards(
            Iv { lo: value_of(lo), hi: value_of(hi) },
            k,
        ),
        equation@ == multiple_equation(
            value@,
            Iv { lo: value_of(lo), hi: value_of(hi) },
            k,
            value_of(*field),
        ),
{
    let ghost before = formula_views(assertions@);
    let modulus = Term::constant(big_clone(field));
    if big_eq(&lo, &hi) {
        assert(formula_views(assertions@) =~= before + Seq::<FormulaView>::empty());
        Formula::equal(value, Term::times(Term::constant(lo), modulus))
    } else {
        let low = Formula::ge(Term::variable(k), Term::constant(lo));
        let high = Formula::le(Term::variable(k), Term::constant(hi));
        let ghost guards = seq![low@, high@];
        assert_formula(assertions, low);
        assert_formula(assertions, high);
        assert(formula_views(assertions@) =~= before + guards);
        Formula::equal(value, Term::times(Term::variable(k), modulus))
    }
}

/// The intervals of `A`, `B` and `C` with which a constraint is encoded:
/// a signal whose interval reaches below zero ranges over the whole field.
pub open spec fn encoding_ranges(c: ConstraintView, b: Map<usize, Iv>, p: int) -> (Iv, Iv, Iv) {
    (lin_bounds(b, c.a, p, true), lin_bounds(b, c.b, p, true), lin_bounds(b, c.c, p, true))
}

/// Whether `C` is known to be zero, so that the constraint says no more than
/// that `A` or `B` vanishes modulo `p`.
pub open spec fn product_vanishes(c: ConstraintView, b: Map<usize, Iv>, p: int) -> bool {
    encoding_ranges(c, b, p).2 == (Iv { lo: 0, hi: 0 })
}

/// The range of the quotient of `C - A * B`.
pub open spec fn equation_quotient(c: ConstraintView, b: Map<usize, Iv>, p: int) -> Iv {
    let r = encoding_ranges(c, b, p);
    quotient_iv(iv_sub(r.2, iv_mul(r.0, r.1)), p)
}

/// Whether every quotient variable of the encoding of a constraint has a
/// range within the limit.
pub open spec fn constraint_fits(c: ConstraintView, b: Map<usize, Iv>, p: int, limit: int) -> bool {
    let r = encoding_ranges(c, b, p);
    &&& quotient_fits(quotient_iv(r.0, p), limit)
    &&& quotient_fits(quotient_iv(r.1, p), limit)
    &&& product_vanishes(c, b, p) || (quotient_fits(quotient_iv(r.2, p), limit) && quotient_fits(
        equation_quotient(c, b, p),
        limit,
    ))
}

/// The formulas that encode the constraint numbered `n`.
///
/// Where `C` is known to be zero: `A = k_a * p` or `B = k_b * p`. Otherwise
/// the same disjunction weakened by `C != k_c * p`, which holds because the
/// field has no zero divisors, followed by the equation
/// `C - A * B = k * p`. The ranges of the quotients come first.
pub open spec fn constraint_encoding(
    c: ConstraintView,
    env: Map<usize, Var>,
    b: Map<usize, Iv>,
    p: int,
    n: usize,
) -> Seq<FormulaView> {
    let r = encoding_ranges(c, b, p);
    let va = lin_term(c.a, env, p);
    let vb = lin_term(c.b, env, p);
    let vc = lin_term(c.c, env, p);
    let qa = quotient_iv(r.0, p);
    let qb = quotient_iv(r.1, p);
    let qc = quotient_iv(r.2, p);
    let a_vanishes = multiple_equation(va, qa, Var::QuotientA(n), p);
    let b_vanishes = multiple_equation(vb, qb, Var::QuotientB(n), p);
    if product_vanishes(c, b, p) {
        multiple_guards(qa, Var::QuotientA(n)) + multiple_guards(qb, Var::QuotientB(n)) + seq![
            FormulaView::Or(Box::new(a_vanishes), Box::new(b_vanishes)),
        ]
    } else {
        let q = equation_quotient(c, b, p);
        let c_vanishes = multiple_equation(vc, qc, Var::QuotientC(n), p);
        multiple_guards(qc, Var::QuotientC(n)) + multiple_guards(qa, Var::QuotientA(n))
            + multiple_guards(qb, Var::QuotientB(n)) + seq![
            FormulaView::Or(
                Box::new(
                    FormulaView::Or(
                        Box::new(FormulaView::Not(Box::new(c_vanishes))),
                        Box::new(a_vanishes),
                    ),
                ),
                Box::new(b_vanishes),
            ),
        ] + multiple_guards(q, Var::Quotient(n)) + seq![
            multiple_equation(
                TermView::Sub(
                    Box::new(vc),
                    Box::new(TermView::Mul(Box::new(va), Box::new(vb))),
                ),
                q,
                Var::Quotient(n),
                p,
            ),
        ]
    }
}

/// Encodes the constraint numbered `num_k` over the variables of
/// `signals_to_smt_symbols` and adds the formulas to `assertions`. Nothing
/// is added, and `false` returned, when the range of a quotient variable is
/// wider than `limit`.
pub fn insert_constraint_in_smt(
    constraint: &Constraint,
    assertions: &mut Vec<Formula>,
    signals_to_smt_symbols: &HashMap<usize, Var>,
    field: &BigInt,
    deductions: &Signal2Bounds,
    num_k: usize,
    limit: &BigInt,
) -> (fits: bool)
    requires
        value_of(*field) > 0,
        constraint_covered(constraint@, signals_to_smt_symbols@),
    ensures
        fits == constraint_fits(
            constraint@,
            bounds_of(deductions@),
            value_of(*field),
            value_of(*limit),
        ),
        formula_views(final(assertions)@) == if fits {
            formula_views(old(assertions)@) + constraint_encoding(
                constraint@,
                signals_to_smt_symbols@,
                bounds_of(deductions@),
                value_of(*field),
                num_k,
            )
        } else {
            formula_views(old(assertions)@)
        },
{
    let ghost before = formula_views(assertions@);
    let ghost p = value_of(*field);
    let ghost b = bounds_of(deductions@);
    let ghost env = signals_to_smt_symbols@;
    let ghost ranges = encoding_ranges(constraint@, b, p);
    let zero = big_from_u64(0);
    let (lower_limit_a, upper_limit_a) = compute_bounds_linear_expression_strict(
        deductions,
        &constraint.a,
        field,
    );
    let (lower_limit_b, upper_limit_b) = compute_bounds_linear_expression_strict(
        deductions,
        &constraint.b,
        field,
    );
    let (lower_limit_c, upper_limit_c) = compute_bounds_linear_expression_strict(
        deductions,
        &constraint.c,
        field,
    );
    let (lower_limit_ab, upper_limit_ab) = compute_bounds_product(
        &lower_limit_a,
        &upper_limit_a,
        &lower_limit_b,
        &upper_limit_b,
    );
    let (lower_limit, upper_limit) = compute_bounds_difference(
        &lower_limit_c,
        &upper_limit_c,
        &lower_limit_ab,
        &upper_limit_ab,
    );
    let (lower_limit_k, upper_limit_k) = quotient_range(&lower_limit, &upper_limit, field);
    let (lower_limit_k_a, upper_limit_k_a) = quotient_range(&lower_limit_a, &upper_limit_a, field);
    let (lower_limit_k_b, upper_limit_k_b) = quotient_range(&lower_limit_b, &upper_limit_b, field);
    let (lower_limit_k_c, upper_limit_k_c) = quotient_range(&lower_limit_c, &upper_limit_c, field);
    let vanishes = big_eq(&upper_limit_c, &lower_limit_c) && big_eq(&upper_limit_c, &zero);
    assert(vanishes == product_vanishes(constraint@, b, p));
    let fits = range_fits(&lower_limit_k_a, &upper_limit_k_a, limit) && range_fits(
        &lower_limit_k_b,
        &upper_limit_k_b,
        limit,
    ) && (vanishes || (range_fits(&lower_limit_k_c, &upper_limit_k_c, limit) && range_fits(
        &lower_limit_k,
        &upper_limit_k,
        limit,
    )));
    if !fits {
        return false;
    }
    let value_a = linear_term(&constraint.a, signals_to_smt_symbols, field);
    let value_b = linear_term(&constraint.b, signals_to_smt_symbols, field);
    let value_c = linear_term(&constraint.c, signals_to_smt_symbols, field);
    let ghost qa = quotient_iv(ranges.0, p);
    let ghost qb = quotient_iv(ranges.1, p);
    let ghost qc = quotient_iv(ranges.2, p);
    if vanishes {
        let a_vanishes = multiple_of_field(
            assertions,
            value_a,
            lower_limit_k_a,
            upper_limit_k_a,
            Var::QuotientA(num_k),
            field,
        );
        let b_vanishes = multiple_of_field(
            assertions,
            value_b,
            lower_limit_k_b,
            upper_limit_k_b,
            Var::QuotientB(num_k),
            field,
        );
        let either = Formula::or(a_vanishes, b_vanishes);
        assert_formula(assertions, either);
        assert(formula_views(assertions@) =~= before + constraint_encoding(
            constraint@,
            env,
            b,
            p,
            num_k,
        ));
    } else {
        let product = Term::times(value_a.copy(), value_b.copy());
        let difference = Term::minus(value_c.copy(), product);
        let c_vanishes = multiple_of_field(
            assertions,
            value_c,
            lower_limit_k_c,
            upper_limit_k_c,
            Var::QuotientC(num_k),
            field,
        );
        let a_vanishes = multiple_of_field(
            assertions,
            value_a,
            lower_limit_k_a,
            upper_limit_k_a,
            Var::QuotientA(num_k),
            field,
        );
        let b_vanishes = multiple_of_field(
            assertions,
            value_b,
            lower_limit_k_b,
            upper_limit_k_b,
            Var::QuotientB(num_k),
            field,
        );
        let either = Formula::or(Formula::or(Formula::not(c_vanishes), a_vanishes), b_vanishes);
        assert_formula(assertions, either);
        let equation = multiple_of_field(
            assertions,
            difference,
            lower_limit_k,
            upper_limit_k,
            Var::Quotient(num_k),
            field,
        );
        assert_formula(assertions, equation);
        assert(formula_views(assertions@) =~= before + constraint_encoding(
            constraint@,
            env,
            b,
            p,
            num_k,
        ));
    }
    true
}

/// The formula `l = r (mod p)`.
pub open spec fn congruent(l: TermView, r: TermView, p: int) -> FormulaView {
    FormulaView::Eq(
        TermView::Mod(
            Box::new(TermView::Sub(Box::new(l), Box::new(r))),
            Box::new(TermView::Const(p)),
        ),
        TermView::Const(0),
    )
}

/// The formula `t != 0 (mod p)`.
pub open spec fn nonzero(t: TermView, p: int) -> FormulaView {
    FormulaView::Not(
        Box::new(
            FormulaView::Eq(
                TermView::Mod(Box::new(t), Box::new(TermView::Const(p))),
                TermView::Const(0),
            ),
        ),
    )
}

/// What a constraint says of two executions, whose variables are those of
/// `env` and of `shadow`: where `A` and `B` agree modulo `p`, so does `C`;
/// where `A` and `C` agree and `A` does not vanish, `B` agrees; where `B`
/// and `C` agree and `B` does not vanish, `A` agrees.
pub open spec fn homologue_formulas(
    c: ConstraintView,
    env: Map<usize, Var>,
    shadow: Map<usize, Var>,
    p: int,
) -> Seq<FormulaView> {
    let va = lin_term(c.a, env, p);
    let vb = lin_term(c.b, env, p);
    let aa = congruent(va, lin_term(c.a, shadow, p), p);
    let bb = congruent(vb, lin_term(c.b, shadow, p), p);
    let cc = congruent(lin_term(c.c, env, p), lin_term(c.c, shadow, p), p);
    let or3 = |x: FormulaView, y: FormulaView, z: FormulaView|
        FormulaView::Or(Box::new(FormulaView::Or(Box::new(x), Box::new(y))), Box::new(z));
    let both = |x: FormulaView, y: FormulaView| FormulaView::And(Box::new(x), Box::new(y));
    let not = |x: FormulaView| FormulaView::Not(Box::new(x));
    seq![
        or3(not(aa), not(bb), cc),
        or3(not(both(aa, nonzero(va, p))), not(cc), bb),
        or3(not(both(bb, nonzero(vb, p))), not(cc), aa),
    ]
}

/// The homologue formulas of the constraints whose signals all have a
/// variable in both executions, in the order of the constraints.
pub open spec fn homologues(
    cs: Seq<ConstraintView>,
    env: Map<usize, Var>,
    shadow: Map<usize, Var>,
    p: int,
) -> Seq<FormulaView>
    decreases cs.len(),
{
    if cs.len() == 0 {
        Seq::empty()
    } else if constraint_covered(cs.last(), env) && constraint_covered(cs.last(), shadow) {
        homologues(cs.drop_last(), env, shadow, p) + homologue_formulas(cs.last(), env, shadow, p)
    } else {
        homologues(cs.drop_last(), env, shadow, p)
    }
}

/// Whether every signal of `constraint` but the constant one has a variable.
pub fn constraint_is_covered(constraint: &Constraint, env: &HashMap<usize, Var>) -> (r: bool)
    ensures
        r == constraint_covered(constraint@, env@),
{
    terms_covered(&constraint.a, env) && terms_covered(&constraint.b, env) && terms_covered(
        &constraint.c,
        env,
    )
}

/// The formula `l = r (mod p)`.
fn congruence(l: Term, r: Term, field: &BigInt) -> (f: Formula)
    ensures
        f@ == congruent(l@, r@, value_of(*field)),
{
    Formula::equal(
        Term::modulo(Term::minus(l, r), Term::constant(big_clone(field))),
        Term::constant(big_from_u64(0)),
    )
}

/// The formula `t != 0 (mod p)`.
fn not_multiple(t: Term, field: &BigInt) -> (f: Formula)
    ensures
        f@ == nonzero(t@, value_of(*field)),
{
    Formula::not(
        Formula::equal(
            Term::modulo(t, Term::constant(big_clone(field))),
            Term::constant(big_from_u64(0)),
        ),
    )
}

/// Relates two executions through every constraint: asserts, for each
/// constraint that both sets of variables cover, that agreement of two of
/// `A`, `B` and `C` modulo the field forces agreement of the third.
pub fn apply_deduction_rule_homologues(
    constraints: &Vec<Constraint>,
    assertions: &mut Vec<Formula>,
    signals_to_smt_symbols_1: &HashMap<usize, Var>,
    signals_to_smt_symbols_2: &HashMap<usize, Var>,
    field: &BigInt,
)
    requires
        value_of(*field) > 0,
    ensures
        formula_views(final(assertions)@) == formula_views(old(assertions)@) + homologues(
            constraint_views(constraints@),
            signals_to_smt_symbols_1@,
            signals_to_smt_symbols_2@,
            value_of(*field),
        ),
{
    let ghost before = formula_views(assertions@);
    let ghost cs = constraint_views(constraints@);
    let ghost env = signals_to_smt_symbols_1@;
    let ghost shadow = signals_to_smt_symbols_2@;
    let ghost p = value_of(*field);
    let mut i: usize = 0;
    assert(formula_views(assertions@) =~= before + homologues(cs.take(0), env, shadow, p));
    while i < constraints.len()
        invariant
            i <= constraints.len(),
            cs == constraint_views(constraints@),
            env == signals_to_smt_symbols_1@,
            shadow == signals_to_smt_symbols_2@,
            p == value_of(*field),
            p > 0,
            formula_views(assertions@) == before + homologues(cs.take(i as int), env, shadow, p),
        decreases constraints.len() - i,
    {
        let c = &constraints[i];
        proof {
            assert(cs.take(i + 1).drop_last() =~= cs.take(i as int));
            assert(cs.take(i + 1).last() == c@);
        }
        if constraint_is_covered(c, signals_to_smt_symbols_1) && constraint_is_covered(
            c,
            signals_to_smt_symbols_2,
        ) {
            let ghost so_far = formula_views(assertions@);
            let value_a = linear_term(&c.a, signals_to_smt_symbols_1, field);
            let value_b = linear_term(&c.b, signals_to_smt_symbols_1, field);
            let value_c = linear_term(&c.c, signals_to_smt_symbols_1, field);
            let value_a1 = linear_term(&c.a, signals_to_smt_symbols_2, field);
            let value_b1 = linear_term(&c.b, signals_to_smt_symbols_2, field);
            let value_c1 = linear_term(&c.c, signals_to_smt_symbols_2, field);
            let condition_a_not_zero = not_multiple(value_a.copy(), field);
            let condition_b_not_zero = not_multiple(value_b.copy(), field);
            let condition_aa = congruence(value_a, value_a1, field);
            let condition_bb = congruence(value_b, value_b1, field);
            let condition_cc = congruence(value_c, value_c1, field);
            let first = Formula::or(
                Formula::or(Formula::not(condition_aa.copy()), Formula::not(condition_bb.copy())),
                condition_cc.copy(),
            );
            let second = Formula::or(
                Formula::or(
                    Formula::not(Formula::and(condition_aa.copy(), condition_a_not_zero)),
                    Formula::not(condition_cc.copy()),
                ),
                condition_bb.copy(),
            );
            let third = Formula::or(
                Formula::or(
                    Formula::not(Formula::and(condition_bb, condition_b_not_zero)),
                    Formula::not(condition_cc),
                ),
                condition_aa,
            );
            let ghost added = seq![first@, second@, third@];
            assert(added =~= homologue_formulas(c@, env, shadow, p));
            assert_formula(assertions, first);
            assert_formula(assertions, second);
            assert_formula(assertions, third);
            assert(formula_views(assertions@) =~= so_far + added);
        }
        i += 1;
    }
    assert(cs.take(constraints@.len() as int) =~= cs);
}

/// The conjunction of `acc` with the formulas of `fs`, built from the left.
pub open spec fn conjoined(acc: FormulaView, fs: Seq<FormulaView>) -> FormulaView
    decreases fs.len(),
{
    if fs.len() == 0 {
        acc
    } else {
        FormulaView::And(Box::new(conjoined(acc, fs.drop_last())), Box::new(fs.last()))
    }
}

/// The readings of the annotations that have one, in the order of the
/// annotations. With a second set of variables, the reading of an annotation
/// over the first set is followed by its reading over the second.
pub open spec fn readings(
    es: Seq<ExpressionView>,
    env: Map<usize, Var>,
    shadow: Option<Map<usize, Var>>,
    p: int,
) -> Seq<FormulaView>
    decreases es.len(),
{
    if es.len() == 0 {
        Seq::empty()
    } else {
        let first = match bool_formula(es.last(), env, p) {
            Some(f) => seq![f],
            None => Seq::empty(),
        };
        let second = match shadow {
            Some(other) => match bool_formula(es.last(), other, p) {
                Some(f) => seq![f],
                None => Seq::empty(),
            },
            None => Seq::empty(),
        };
        readings(es.drop_last(), env, shadow, p) + first + second
    }
}

/// The number of annotations that have no reading over one of the sets of
/// variables.
pub open spec fn unread(
    es: Seq<ExpressionView>,
    env: Map<usize, Var>,
    shadow: Option<Map<usize, Var>>,
    p: int,
) -> nat
    decreases es.len(),
{
    if es.len() == 0 {
        0
    } else {
        let fails = bool_formula(es.last(), env, p) is None || (shadow matches Some(other)
            && bool_formula(es.last(), other, p) is None);
        unread(es.drop_last(), env, shadow, p) + if fails { 1nat } else { 0nat }
    }
}

/// At most as many annotations have no reading as there are annotations.
pub proof fn lemma_unread_bound(
    es: Seq<ExpressionView>,
    env: Map<usize, Var>,
    shadow: Option<Map<usize, Var>>,
    p: int,
)
    ensures
        unread(es, env, shadow, p) <= es.len(),
    decreases es.len(),
{
    if es.len() > 0 {
        lemma_unread_bound(es.drop_last(), env, shadow, p);
    }
}

/// Conjoining the formulas of two lists one after the other conjoins the
/// formulas of the joined list.
pub proof fn lemma_conjoined_append(acc: FormulaView, fs: Seq<FormulaView>, gs: Seq<FormulaView>)
    ensures
        conjoined(conjoined(acc, fs), gs) == conjoined(acc, fs + gs),
    decreases gs.len(),
{
    if gs.len() == 0 {
        assert(fs + gs =~= fs);
    } else {
        lemma_conjoined_append(acc, fs, gs.drop_last());
        assert((fs + gs).drop_last() =~= fs + gs.drop_last());
        assert((fs + gs).last() == gs.last());
    }
}

/// Conjoins to `acc` the readings of the annotations `es`, over `env` and,
/// where there is one, over `shadow`. An annotation without a reading is
/// left out and counted.
pub fn conjoin_readings(
    acc: Formula,
    es: &Vec<Expression>,
    env: &HashMap<usize, Var>,
    shadow: Option<&HashMap<usize, Var>>,
    field: &BigInt,
) -> (r: (Formula, usize))
    requires
        value_of(*field) > 0,
    ensures
        r.0@ == conjoined(
            acc@,
            readings(
                views(es@),
                env@,
                match shadow {
                    Some(other) => Some(other@),
                    None => None,
                },
                value_of(*field),
            ),
        ),
        r.1 == unread(
            views(es@),
            env@,
            match shadow {
                Some(other) => Some(other@),
                None => None,
            },
            value_of(*field),
        ),
{
    let ghost all = views(es@);
    let ghost start = acc@;
    let ghost p = value_of(*field);
    let ghost other_view: Option<Map<usize, Var>> = match shadow {
        Some(other) => Some(other@),
        None => None,
    };
    let mut value = acc;
    let mut left_out: usize = 0;
    let mut i: usize = 0;
    while i < es.len()
        invariant
            i <= es.len(),
            all == views(es@),
            p == value_of(*field),
            p > 0,
            other_view == (match shadow {
                Some(other) => Some(other@),
                None => None,
            }),
            value@ == conjoined(start, readings(all.take(i as int), env@, other_view, p)),
            left_out == unread(all.take(i as int), env@, other_view, p),
        decreases es.len() - i,
    {
        proof {
            assert(all.take(i + 1).drop_last() =~= all.take(i as int));
            assert(all.take(i + 1).last() == es@[i as int]@);
            lemma_unread_bound(all.take(i as int), env@, other_view, p);
        }
        let ghost done = readings(all.take(i as int), env@, other_view, p);
        let mut failed = false;
        let ghost first: Seq<FormulaView> = Seq::empty();
        match get_z3_expression_bool(&es[i], env, field) {
            Ok(f) => {
                proof {
                    first = seq![f@];
                    assert((done + first).drop_last() =~= done);
                }
                value = Formula::and(value, f);
            },
            Err(_) => {
                failed = true;
                assert(done + first =~= done);
            },
        }
        assert(value@ == conjoined(start, done + first));
        let ghost second: Seq<FormulaView> = Seq::empty();
        match shadow {
            Some(other) => match get_z3_expression_bool(&es[i], other, field) {
                Ok(f) => {
                    proof {
                        second = seq![f@];
                        assert((done + first + second).drop_last() =~= done + first);
                    }
                    value = Formula::and(value, f);
                },
                Err(_) => {
                    failed = true;
                    assert(done + first + second =~= done + first);
                },
            },
            None => {
                assert(done + first + second =~= done + first);
            },
        }
        if failed {
            left_out += 1;
        }
        i += 1;
    }
    assert(all.take(es@.len() as int) =~= all);
    (value, left_out)
}

/// The formula of an implication all of whose conditions have a reading;
/// none where a condition has no reading.
pub open spec fn implication_formula(i: ImplicationView, env: Map<usize, Var>, p: int) -> Option<
    FormulaView,
> {
    if unread(i.left, env, None, p) == 0 && unread(i.right, env, None, p) == 0 {
        Some(
            FormulaView::Implies(
                Box::new(conjoined(FormulaView::Const(true), readings(i.left, env, None, p))),
                Box::new(conjoined(FormulaView::Const(true), readings(i.right, env, None, p))),
            ),
        )
    } else {
        None
    }
}

/// The formulas of an implication: one, or none.
pub open spec fn implication_formulas(i: ImplicationView, env: Map<usize, Var>, p: int) -> Seq<
    FormulaView,
> {
    match implication_formula(i, env, p) {
        Some(f) => seq![f],
        None => Seq::empty(),
    }
}

/// Asserts the summary of a component. An implication with a condition that
/// has no reading is left out as a whole, and `false` is returned: asserted
/// with fewer conditions on its left it would claim too much.
pub fn insert_implication_in_smt(
    implication: &ExecutedImplication,
    assertions: &mut Vec<Formula>,
    signals_to_smt_symbols: &HashMap<usize, Var>,
    field: &BigInt,
) -> (inserted: bool)
    requires
        value_of(*field) > 0,
    ensures
        inserted == implication_formula(
            implication@,
            signals_to_smt_symbols@,
            value_of(*field),
        ) is Some,
        formula_views(final(assertions)@) == formula_views(old(assertions)@)
            + implication_formulas(implication@, signals_to_smt_symbols@, value_of(*field)),
{
    let ghost before = formula_views(assertions@);
    let (value_left, left_out) = conjoin_readings(
        Formula::Const(true),
        &implication.left,
        signals_to_smt_symbols,
        None,
        field,
    );
    let (value_right, right_out) = conjoin_readings(
        Formula::Const(true),
        &implication.right,
        signals_to_smt_symbols,
        None,
        field,
    );
    if left_out == 0 && right_out == 0 {
        let f = Formula::implies(value_left, value_right);
        let ghost added = seq![f@];
        assert_formula(assertions, f);
        assert(formula_views(assertions@) =~= before + added);
        true
    } else {
        assert(formula_views(assertions@) =~= before + Seq::<FormulaView>::empty());
        false
    }
}

} // verus!
