//! Per-signal bounds and the rules that deduce them from constraints.
//!
//! A bounds map gives some signals an interval. A signal without an entry
//! ranges over the whole field. An interval with a negative lower end stands
//! for the field elements whose signed representative lies in it.
use vstd::prelude::*;
use std::collections::HashMap;
use num_bigint_dig::BigInt;
use crate::bigint::{
    value_of,
    is_inverse,
    big_from_u64,
    big_add,
    big_sub,
    big_mul,
    big_lt,
    big_le,
    big_eq,
    big_clone,
};
use crate::field::{
    half,
    same_round,
    invertible,
    is_positive,
    check_same_field_round,
    modulus,
    mod_div,
    prefix_sub,
};
use crate::interval::{
    Iv,
    iv_add,
    iv_sub,
    iv_mul,
    iv_meet,
    min2,
    max2,
    compute_bounds_product,
    compute_bounds_difference,
};
use crate::constraint::{Constraint, ConstraintView, terms_of};
use vstd::arithmetic::div_mod::{
    lemma_mul_mod_noop_left,
    lemma_mul_mod_noop_right,
    lemma_add_mod_noop,
    lemma_mod_twice,
    lemma_small_mod,
    lemma_mod_equivalence,
    lemma_mod_bound,
};

verus! {

broadcast use vstd::std_specs::hash::group_hash_axioms;

/// The interval known for one signal.
#[derive(Debug)]
pub struct ExecutedInequation {
    pub signal: usize,
    pub min: BigInt,
    pub max: BigInt,
}

impl View for ExecutedInequation {
    type V = Iv;

    open spec fn view(&self) -> Iv {
        Iv { lo: value_of(self.min), hi: value_of(self.max) }
    }
}

impl ExecutedInequation {
    /// Narrows the interval to its common part with `[new_min, new_max]` and
    /// says whether it became smaller.
    pub fn update_bounds(&mut self, new_min: BigInt, new_max: BigInt) -> (changed: bool)
        ensures
            final(self)@ == iv_meet(old(self)@, Iv { lo: value_of(new_min), hi: value_of(new_max) }),
            final(self).signal == old(self).signal,
            changed == (old(self)@.lo < value_of(new_min) || old(self)@.hi > value_of(new_max)),
    {
        let mut changed = false;
        if big_lt(&self.min, &new_min) {
            self.min = new_min;
            changed = true;
        }
        if big_lt(&new_max, &self.max) {
            self.max = new_max;
            changed = true;
        }
        changed
    }

    /// A copy of the entry.
    pub fn copy(&self) -> (r: ExecutedInequation)
        ensures
            r@ == self@,
            r.signal == self.signal,
    {
        ExecutedInequation {
            signal: self.signal,
            min: big_clone(&self.min),
            max: big_clone(&self.max),
        }
    }
}

/// The bounds known for the signals of a template.
pub type Signal2Bounds = HashMap<usize, ExecutedInequation>;

/// The mathematical content of a bounds map.
pub open spec fn bounds_of(m: Map<usize, ExecutedInequation>) -> Map<usize, Iv> {
    Map::new(|s: usize| m.contains_key(s), |s: usize| m[s]@)
}

/// The whole field as an interval.
pub open spec fn full_range(p: int) -> Iv {
    Iv { lo: 0, hi: p - 1 }
}

/// The interval of a signal: its entry, or the whole field.
pub open spec fn range_or_full(b: Map<usize, Iv>, s: usize, p: int) -> Iv {
    if b.contains_key(s) { b[s] } else { full_range(p) }
}

/// The interval of a signal read strictly: its entry when that is not
/// negative anywhere, the whole field otherwise.
pub open spec fn strict_range(b: Map<usize, Iv>, s: usize, p: int) -> Iv {
    if b.contains_key(s) && b[s].lo >= 0 { b[s] } else { full_range(p) }
}

/// The interval of `c * x` for `x` in `r`, the coefficient `c` being read as
/// its signed representative.
pub open spec fn scaled(c: int, r: Iv, p: int) -> Iv {
    if c <= half(p) {
        Iv { lo: c * r.lo, hi: c * r.hi }
    } else {
        Iv { lo: -((p - c) * r.hi), hi: -((p - c) * r.lo) }
    }
}

/// The interval of a linear combination, summed term by term from the
/// intervals of its signals.
pub open spec fn lin_bounds(b: Map<usize, Iv>, le: Seq<(usize, int)>, p: int, strict: bool) -> Iv
    decreases le.len(),
{
    if le.len() == 0 {
        Iv { lo: 0, hi: 0 }
    } else {
        let r = if strict {
            strict_range(b, le.last().0, p)
        } else {
            range_or_full(b, le.last().0, p)
        };
        iv_add(lin_bounds(b, le.drop_last(), p, strict), scaled(le.last().1, r, p))
    }
}

/// What a new interval for `s` makes of the bounds map: the interval is
/// recorded for a signal without an entry and met with an existing entry,
/// unless the entry reaches below zero and the new interval reaches the
/// top of the field, in which case their common part may not be an interval
/// and the entry stays.
pub open spec fn refined(b: Map<usize, Iv>, s: usize, new: Iv, p: int) -> Map<usize, Iv> {
    if !b.contains_key(s) {
        b.insert(s, new)
    } else if !(b[s].lo < 0 && new.hi >= p - 1) {
        b.insert(s, iv_meet(b[s], new))
    } else {
        b
    }
}

/// Whether a new interval for `s` changes the bounds map.
pub open spec fn refines(b: Map<usize, Iv>, s: usize, new: Iv, p: int) -> bool {
    if !b.contains_key(s) {
        true
    } else if !(b[s].lo < 0 && new.hi >= p - 1) {
        b[s].lo < new.lo || b[s].hi > new.hi
    } else {
        false
    }
}

/// Records the interval `[min, max]` for `signal` and says whether the
/// bounds map changed.
pub fn update_bounds_signal(
    deductions: &mut Signal2Bounds,
    signal: usize,
    min: BigInt,
    max: BigInt,
    field: &BigInt,
) -> (changed: bool)
    ensures
        bounds_of(final(deductions)@) == refined(
            bounds_of(old(deductions)@),
            signal,
            Iv { lo: value_of(min), hi: value_of(max) },
            value_of(*field),
        ),
        changed == refines(
            bounds_of(old(deductions)@),
            signal,
            Iv { lo: value_of(min), hi: value_of(max) },
            value_of(*field),
        ),
{
    let ghost before = deductions@;
    let ghost new = Iv { lo: value_of(min), hi: value_of(max) };
    let current = match deductions.get(&signal) {
        None => None,
        Some(bounds) => Some(bounds.copy()),
    };
    match current {
        None => {
            deductions.insert(signal, ExecutedInequation { signal, min, max });
            assert(bounds_of(deductions@) =~= bounds_of(before).insert(signal, new));
            true
        },
        Some(mut bounds) => {
            let zero = big_from_u64(0);
            let one = big_from_u64(1);
            let top = big_sub(field, &one);
            if !(big_lt(&bounds.min, &zero) && big_le(&top, &max)) {
                let changed = bounds.update_bounds(min, max);
                let ghost met = bounds@;
                deductions.insert(signal, bounds);
                assert(bounds_of(deductions@) =~= bounds_of(before).insert(signal, met));
                changed
            } else {
                assert(bounds_of(deductions@) =~= bounds_of(before));
                false
            }
        },
    }
}

/// The interval of the linear combination `le` under the bounds known.
pub fn compute_bounds_linear_expression(
    deductions: &Signal2Bounds,
    le: &Vec<(usize, BigInt)>,
    field: &BigInt,
) -> (r: (BigInt, BigInt))
    requires
        value_of(*field) > 0,
    ensures
        (Iv { lo: value_of(r.0), hi: value_of(r.1) }) == lin_bounds(
            bounds_of(deductions@),
            terms_of(le@),
            value_of(*field),
            false,
        ),
{
    linear_expression_bounds(deductions, le, field, false)
}

/// The interval of the linear combination `le` when every signal whose
/// interval reaches below zero is taken to range over the whole field.
pub fn compute_bounds_linear_expression_strict(
    deductions: &Signal2Bounds,
    le: &Vec<(usize, BigInt)>,
    field: &BigInt,
) -> (r: (BigInt, BigInt))
    requires
        value_of(*field) > 0,
    ensures
        (Iv { lo: value_of(r.0), hi: value_of(r.1) }) == lin_bounds(
            bounds_of(deductions@),
            terms_of(le@),
            value_of(*field),
            true,
        ),
{
    linear_expression_bounds(deductions, le, field, true)
}

/// The interval of one signal, in either reading.
fn signal_range(deductions: &Signal2Bounds, signal: usize, field: &BigInt, strict: bool) -> (r: (
    BigInt,
    BigInt,
))
    ensures
        (Iv { lo: value_of(r.0), hi: value_of(r.1) }) == (if strict {
            strict_range(bounds_of(deductions@), signal, value_of(*field))
        } else {
            range_or_full(bounds_of(deductions@), signal, value_of(*field))
        }),
{
    let zero = big_from_u64(0);
    let one = big_from_u64(1);
    match deductions.get(&signal) {
        Some(bounds) => {
            if !strict || big_le(&zero, &bounds.min) {
                (big_clone(&bounds.min), big_clone(&bounds.max))
            } else {
                (zero, big_sub(field, &one))
            }
        },
        None => (zero, big_sub(field, &one)),
    }
}

fn linear_expression_bounds(
    deductions: &Signal2Bounds,
    le: &Vec<(usize, BigInt)>,
    field: &BigInt,
    strict: bool,
) -> (r: (BigInt, BigInt))
    requires
        value_of(*field) > 0,
    ensures
        (Iv { lo: value_of(r.0), hi: value_of(r.1) }) == lin_bounds(
            bounds_of(deductions@),
            terms_of(le@),
            value_of(*field),
            strict,
        ),
{
    let mut lower_limit = big_from_u64(0);
    let mut upper_limit = big_from_u64(0);
    let mut i: usize = 0;
    while i < le.len()
        invariant
            i <= le.len(),
            value_of(*field) > 0,
            (Iv { lo: value_of(lower_limit), hi: value_of(upper_limit) }) == lin_bounds(
                bounds_of(deductions@),
                terms_of(le@).take(i as int),
                value_of(*field),
                strict,
            ),
        decreases le.len() - i,
    {
        let signal: usize = le[i].0;
        let coef = &le[i].1;
        let (min, max) = signal_range(deductions, signal, field, strict);
        proof {
            let all = terms_of(le@);
            assert(all.take(i + 1).drop_last() =~= all.take(i as int));
            assert(all.take(i + 1).last() == (signal, value_of(*coef)));
        }
        if is_positive(coef, field) {
            upper_limit = big_add(&upper_limit, &big_mul(coef, &max));
            lower_limit = big_add(&lower_limit, &big_mul(coef, &min));
        } else {
            let neg_coef = big_sub(field, coef);
            upper_limit = big_sub(&upper_limit, &big_mul(&neg_coef, &min));
            lower_limit = big_sub(&lower_limit, &big_mul(&neg_coef, &max));
        }
        i += 1;
    }
    assert(terms_of(le@).take(le@.len() as int) =~= terms_of(le@));
    (lower_limit, upper_limit)
}

/// Whether a linear combination is one signal times a coefficient, with or
/// without a constant.
pub open spec fn single_signal(le: Seq<(usize, int)>) -> bool {
    (le.len() == 1 && le[0].0 != 0) || (le.len() == 2 && ((le[0].0 == 0) != (le[1].0 == 0)))
}

/// The term of the signal in a combination of one signal.
pub open spec fn signal_term(le: Seq<(usize, int)>) -> (usize, int) {
    if le[0].0 != 0 { le[0] } else { le[1] }
}

/// The constant of a combination of one signal.
pub open spec fn constant_term(le: Seq<(usize, int)>) -> int {
    if le.len() == 1 { 0 } else if le[0].0 == 0 { le[0].1 } else { le[1].1 }
}

/// Whether the field element `v` makes a combination of one signal vanish.
pub open spec fn is_root(le: Seq<(usize, int)>, v: int, p: int) -> bool {
    0 <= v < p && (signal_term(le).1 * v + constant_term(le)) % p == 0
}

/// Whether a combination is of one signal and can be solved for it.
pub open spec fn solvable(le: Seq<(usize, int)>, p: int) -> bool {
    single_signal(le) && invertible(signal_term(le).1 % p, p)
}

/// The field element that makes a solvable combination vanish.
pub open spec fn root_of(le: Seq<(usize, int)>, p: int) -> int {
    choose|v: int| is_root(le, v, p)
}

/// An inverse of the coefficient gives a root of `coef * v + c0`.
pub proof fn lemma_root_from_inverse(coef: int, c0: int, x: int, p: int)
    requires
        p > 1,
        is_inverse(coef % p, x, p),
    ensures
        (coef * ((((-c0) % p) * x) % p) + c0) % p == 0,
{
    let a = (-c0) % p;
    let v = (a * x) % p;
    lemma_mod_bound(-c0, p);
    lemma_mul_mod_noop_left(coef, x, p);
    assert((coef * x) % p == 1);
    lemma_mul_mod_noop_right(coef, a * x, p);
    assert(coef * (a * x) == a * (coef * x)) by (nonlinear_arith);
    lemma_mul_mod_noop_right(a, coef * x, p);
    assert(a * 1 == a) by (nonlinear_arith);
    lemma_mod_twice(-c0, p);
    assert((coef * v) % p == a);
    lemma_add_mod_noop(coef * v, c0, p);
    lemma_add_mod_noop(-c0, c0, p);
    lemma_small_mod(0, p as nat);
}

/// A combination whose coefficient has an inverse has one root only.
pub proof fn lemma_root_unique(le: Seq<(usize, int)>, v1: int, v2: int, p: int)
    requires
        p > 1,
        solvable(le, p),
        is_root(le, v1, p),
        is_root(le, v2, p),
    ensures
        v1 == v2,
{
    let coef = signal_term(le).1;
    let c0 = constant_term(le);
    let x = choose|x: int| #[trigger] is_inverse(coef % p, x, p);
    let d = v1 - v2;
    lemma_mod_equivalence(coef * v1 + c0, coef * v2 + c0, p);
    assert((coef * v1 + c0) - (coef * v2 + c0) == coef * d) by (nonlinear_arith)
        requires
            d == v1 - v2,
    ;
    assert((coef * d) % p == 0);
    lemma_mul_mod_noop_right(x, coef * d, p);
    assert(x * 0 == 0) by (nonlinear_arith);
    lemma_small_mod(0, p as nat);
    assert((x * (coef * d)) % p == 0);
    assert(x * (coef * d) == (coef * x) * d) by (nonlinear_arith);
    lemma_mul_mod_noop_left(coef, x, p);
    lemma_mul_mod_noop_left(coef * x, d, p);
    assert(1 * d == d) by (nonlinear_arith);
    assert(d % p == 0);
    lemma_mod_equivalence(v1, v2, p);
    lemma_small_mod(v1 as nat, p as nat);
    lemma_small_mod(v2 as nat, p as nat);
}

/// A solvable combination has a root, and `root_of` is one.
pub proof fn lemma_root_exists(le: Seq<(usize, int)>, p: int)
    requires
        p > 1,
        solvable(le, p),
    ensures
        is_root(le, root_of(le, p), p),
{
    let coef = signal_term(le).1;
    let c0 = constant_term(le);
    let x = choose|x: int| #[trigger] is_inverse(coef % p, x, p);
    lemma_root_from_inverse(coef, c0, x, p);
    let v = (((-c0) % p) * x) % p;
    lemma_mod_bound(((-c0) % p) * x, p);
    assert(is_root(le, v, p));
}

/// Solves a combination of one signal for that signal: the signal and the
/// field element that makes the combination vanish. There is no solution
/// when the combination has another shape or the coefficient has no inverse.
pub fn solve_signal_plus_coef(a: &Vec<(usize, BigInt)>, field: &BigInt) -> (r: Option<
    (usize, BigInt),
>)
    requires
        value_of(*field) > 1,
    ensures
        r is Some <==> solvable(terms_of(a@), value_of(*field)),
        r matches Some(found) ==> found.0 == signal_term(terms_of(a@)).0 && value_of(found.1)
            == root_of(terms_of(a@), value_of(*field)),
{
    let ghost le = terms_of(a@);
    let ghost p = value_of(*field);
    let shape = if a.len() == 1 {
        a[0].0 != 0
    } else if a.len() == 2 {
        (a[0].0 == 0) != (a[1].0 == 0)
    } else {
        false
    };
    assert(shape == single_signal(le));
    if !shape {
        return None;
    }
    let zero = big_from_u64(0);
    let at: usize = if a[0].0 != 0 { 0 } else { 1 };
    let to_solve_signal: usize = a[at].0;
    let coef_signal = &a[at].1;
    let coef_indep = if a.len() == 1 { &zero } else { &a[1 - at].1 };
    assert(signal_term(le) == (to_solve_signal, value_of(*coef_signal)));
    assert(constant_term(le) == value_of(*coef_indep));
    let negated = prefix_sub(coef_indep, field);
    match mod_div(&negated, coef_signal, field) {
        Some(value) => {
            proof {
                let coef = value_of(*coef_signal);
                let x = choose|x: int| #[trigger]
                    is_inverse(coef % p, x, p) && value_of(value) == (value_of(negated) * x) % p;
                lemma_root_from_inverse(coef, value_of(*coef_indep), x, p);
                assert(is_root(le, value_of(value), p));
                lemma_root_unique(le, value_of(value), root_of(le, p), p);
            }
            Some((to_solve_signal, value))
        },
        None => None,
    }
}

/// Whether a constraint has the form `(s - alpha) * (s - beta) = 0`.
pub open spec fn rule_a_matches(c: ConstraintView, p: int) -> bool {
    &&& solvable(c.a, p)
    &&& solvable(c.b, p)
    &&& signal_term(c.a).0 == signal_term(c.b).0
    &&& c.c.len() == 0
}

/// The smaller root of `(s - alpha) * (s - beta) = 0`.
pub open spec fn low_root(c: ConstraintView, p: int) -> int {
    min2(root_of(c.a, p), root_of(c.b, p))
}

/// The larger root of `(s - alpha) * (s - beta) = 0`.
pub open spec fn high_root(c: ConstraintView, p: int) -> int {
    max2(root_of(c.a, p), root_of(c.b, p))
}

/// Whether the roots are `0` and `p - 1`, which are neighbours through
/// zero.
pub open spec fn roots_around_zero(c: ConstraintView, p: int) -> bool {
    high_root(c, p) - low_root(c, p) == p - 1 && p > 2
}

/// The interval that `(s - alpha) * (s - beta) = 0` gives to `s`: from the
/// smaller root to the larger, but `[-1, 0]` for the roots `0` and `p - 1`.
pub open spec fn rule_a_interval(c: ConstraintView, p: int) -> Iv {
    if roots_around_zero(c, p) {
        Iv { lo: -1, hi: 0 }
    } else {
        Iv { lo: low_root(c, p), hi: high_root(c, p) }
    }
}

/// The bounds map after the integrity-domain rule has looked at a
/// constraint. The interval of a constraint of the form is recorded; for the
/// roots `0` and `p - 1` only where the signal has no entry yet, since
/// `[-1, 0]` and an entry need not have an interval in common.
pub open spec fn rule_a(b: Map<usize, Iv>, c: ConstraintView, p: int) -> Map<usize, Iv> {
    if !rule_a_matches(c, p) {
        b
    } else if !roots_around_zero(c, p) {
        refined(b, signal_term(c.a).0, rule_a_interval(c, p), p)
    } else if b.contains_key(signal_term(c.a).0) {
        b
    } else {
        b.insert(signal_term(c.a).0, rule_a_interval(c, p))
    }
}

/// Whether the entry that the rule leaves for the signal states all that
/// the constraint does: the roots differ by one as field elements and their
/// interval was recorded.
pub open spec fn rule_a_captures(b: Map<usize, Iv>, c: ConstraintView, p: int) -> bool {
    let s = signal_term(c.a).0;
    &&& rule_a_matches(c, p)
    &&& if roots_around_zero(c, p) {
        !b.contains_key(s)
    } else {
        &&& high_root(c, p) - low_root(c, p) == 1
        &&& !(b.contains_key(s) && b[s].lo < 0 && high_root(c, p) >= p - 1)
    }
}

/// The integrity-domain rule. A constraint `(s - alpha) * (s - beta) = 0`
/// bounds `s` by its two roots, the field having no zero divisors. Returns
/// whether the entry of `s` now says as much as the constraint, so that the
/// constraint need not be kept.
pub fn deduction_rule_integrity_domain(
    deductions: &mut Signal2Bounds,
    constraint: &Constraint,
    field: &BigInt,
) -> (completely_studied: bool)
    requires
        value_of(*field) > 1,
    ensures
        bounds_of(final(deductions)@) == rule_a(
            bounds_of(old(deductions)@),
            constraint@,
            value_of(*field),
        ),
        completely_studied == rule_a_captures(
            bounds_of(old(deductions)@),
            constraint@,
            value_of(*field),
        ),
{
    if constraint.c.len() != 0 {
        return false;
    }
    let solved_a = solve_signal_plus_coef(&constraint.a, field);
    let solved_b = solve_signal_plus_coef(&constraint.b, field);
    match (solved_a, solved_b) {
        (Some((a_signal, a_value)), Some((b_signal, b_value))) => {
            if a_signal != b_signal {
                return false;
            }
            let ghost before = bounds_of(deductions@);
            let zero = big_from_u64(0);
            let one = big_from_u64(1);
            let two = big_from_u64(2);
            let top = big_sub(field, &one);
            let a_larger = big_lt(&b_value, &a_value);
            let (low, high) = if a_larger { (b_value, a_value) } else { (a_value, b_value) };
            let gap = big_sub(&high, &low);
            if big_eq(&gap, &top) && big_lt(&two, field) {
                if deductions.contains_key(&a_signal) {
                    false
                } else {
                    let minus_one = big_sub(&zero, &one);
                    deductions.insert(
                        a_signal,
                        ExecutedInequation { signal: a_signal, min: minus_one, max: zero },
                    );
                    assert(bounds_of(deductions@) =~= before.insert(
                        a_signal,
                        Iv { lo: -1, hi: 0 },
                    ));
                    true
                }
            } else {
                let neighbours = big_eq(&gap, &one);
                let skipped = match deductions.get(&a_signal) {
                    Some(bounds) => big_lt(&bounds.min, &zero) && big_le(&top, &high),
                    None => false,
                };
                update_bounds_signal(deductions, a_signal, low, high, field);
                neighbours && !skipped
            }
        },
        _ => false,
    }
}

/// The interval of `C - A * B` under the bounds known.
pub open spec fn rule_b_limit(b: Map<usize, Iv>, c: ConstraintView, p: int, strict: bool) -> Iv {
    iv_sub(
        lin_bounds(b, c.c, p, strict),
        iv_mul(lin_bounds(b, c.a, p, strict), lin_bounds(b, c.b, p, strict)),
    )
}

/// The interval that a constraint gives to the signal of a term of `C` whose
/// coefficient is `1` or `-1`: what is left of `C - A * B` without the term,
/// negated for the coefficient `1`, provided its two ends lie in the same
/// modular round; the ends are then reduced modulo `p`. The share of the
/// term is taken from the range of its signal, read as `limit` was.
pub open spec fn rule_b_candidate(
    b: Map<usize, Iv>,
    t: (usize, int),
    limit: Iv,
    p: int,
    strict: bool,
) -> Option<Iv> {
    let cur = if strict { strict_range(b, t.0, p) } else { range_or_full(b, t.0, p) };
    if t.1 == 1 {
        let lo = p - (limit.hi - cur.hi);
        let hi = p - (limit.lo - cur.lo);
        if same_round(lo, hi, p) { Some(Iv { lo: lo % p, hi: hi % p }) } else { None }
    } else if t.1 == p - 1 {
        let lo = limit.lo + cur.hi;
        let hi = limit.hi + cur.lo;
        if same_round(lo, hi, p) { Some(Iv { lo: lo % p, hi: hi % p }) } else { None }
    } else {
        None
    }
}

/// The bounds map after back-substitution has gone through the given terms
/// of `C`, and the signals whose entry changed, in the order of the terms.
pub open spec fn rule_b_terms(
    b: Map<usize, Iv>,
    terms: Seq<(usize, int)>,
    limit: Iv,
    p: int,
    strict: bool,
) -> (Map<usize, Iv>, Seq<usize>)
    decreases terms.len(),
{
    if terms.len() == 0 {
        (b, Seq::empty())
    } else {
        let before = rule_b_terms(b, terms.drop_last(), limit, p, strict);
        match rule_b_candidate(before.0, terms.last(), limit, p, strict) {
            Some(iv) => (
                refined(before.0, terms.last().0, iv, p),
                if refines(before.0, terms.last().0, iv, p) {
                    before.1.push(terms.last().0)
                } else {
                    before.1
                },
            ),
            None => before,
        }
    }
}

/// The bounds map after linear back-substitution on one constraint, and the
/// signals whose entry changed.
pub open spec fn rule_b(b: Map<usize, Iv>, c: ConstraintView, p: int, strict: bool) -> (
    Map<usize, Iv>,
    Seq<usize>,
) {
    rule_b_terms(b, c.c, rule_b_limit(b, c, p, strict), p, strict)
}

/// Linear back-substitution. From the intervals of `A`, `B` and `C` the rule
/// bounds `C - A * B`, and solves for every signal of `C` whose coefficient
/// is `1` or `-1`. Returns the signals whose entry changed. With `strict`,
/// a signal whose entry reaches below zero is taken to range over the whole
/// field, in the intervals of `A`, `B` and `C` and in its own share of `C`.
pub fn deduction_rule_apply_bounds_constraint(
    deductions: &mut Signal2Bounds,
    constraint: &Constraint,
    field: &BigInt,
    strict: bool,
) -> (updated_signals: Vec<usize>)
    requires
        value_of(*field) > 0,
    ensures
        (bounds_of(final(deductions)@), updated_signals@) == rule_b(
            bounds_of(old(deductions)@),
            constraint@,
            value_of(*field),
            strict,
        ),
{
    let ghost start = bounds_of(deductions@);
    let ghost p = value_of(*field);
    let mut updated_signals: Vec<usize> = Vec::new();
    let (lower_limit_a, upper_limit_a) = linear_expression_bounds(
        deductions,
        &constraint.a,
        field,
        strict,
    );
    let (lower_limit_b, upper_limit_b) = linear_expression_bounds(
        deductions,
        &constraint.b,
        field,
        strict,
    );
    let (lower_limit_ab, upper_limit_ab) = compute_bounds_product(
        &lower_limit_a,
        &upper_limit_a,
        &lower_limit_b,
        &upper_limit_b,
    );
    let (lower_limit_c, upper_limit_c) = linear_expression_bounds(
        deductions,
        &constraint.c,
        field,
        strict,
    );
    let (lower_limit, upper_limit) = compute_bounds_difference(
        &lower_limit_c,
        &upper_limit_c,
        &lower_limit_ab,
        &upper_limit_ab,
    );
    let ghost limit = Iv { lo: value_of(lower_limit), hi: value_of(upper_limit) };
    assert(limit == rule_b_limit(start, constraint@, p, strict));
    let one = big_from_u64(1);
    let minus_one = big_sub(field, &one);
    let c = &constraint.c;
    let mut i: usize = 0;
    while i < c.len()
        invariant
            i <= c.len(),
            p == value_of(*field),
            p > 0,
            value_of(one) == 1,
            value_of(minus_one) == p - 1,
            limit == (Iv { lo: value_of(lower_limit), hi: value_of(upper_limit) }),
            (bounds_of(deductions@), updated_signals@) == rule_b_terms(
                start,
                terms_of(c@).take(i as int),
                limit,
                p,
                strict,
            ),
        decreases c.len() - i,
    {
        let signal: usize = c[i].0;
        let coef = &c[i].1;
        proof {
            let all = terms_of(c@);
            assert(all.take(i + 1).drop_last() =~= all.take(i as int));
            assert(all.take(i + 1).last() == (signal, value_of(*coef)));
        }
        let is_one = big_eq(coef, &one);
        if is_one || big_eq(coef, &minus_one) {
            let (min, max) = signal_range(deductions, signal, field, strict);
            let (low, high) = if is_one {
                (
                    big_sub(field, &big_sub(&upper_limit, &max)),
                    big_sub(field, &big_sub(&lower_limit, &min)),
                )
            } else {
                (big_add(&lower_limit, &max), big_add(&upper_limit, &min))
            };
            if check_same_field_round(&low, &high, field) {
                let pos_min = modulus(&low, field);
                let pos_max = modulus(&high, field);
                if update_bounds_signal(deductions, signal, pos_min, pos_max, field) {
                    updated_signals.push(signal);
                }
            }
        }
        i += 1;
    }
    assert(terms_of(c@).take(c@.len() as int) =~= terms_of(c@));
    updated_signals
}

} // verus!
