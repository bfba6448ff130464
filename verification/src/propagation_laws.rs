//! What bound propagation means: statements about every assignment of the
//! signals that satisfies the constraints.
use vstd::prelude::*;
use vstd::arithmetic::div_mod::{
    lemma_fundamental_div_mod,
    lemma_mod_multiples_vanish,
    lemma_mul_mod_noop_general,
    lemma_sub_mod_noop,
    lemma_add_mod_noop,
    lemma_small_mod,
    lemma_mod_bound,
    lemma_mod_equivalence,
};
use crate::field::{to_signed, half};
use crate::interval::{Iv, iv_mul, iv_join, lemma_iv_mul_sound};
use crate::constraint::{ConstraintView, lin_value, signal_value, reduced};
use crate::bounds::{
    lin_bounds,
    range_or_full,
    strict_range,
    scaled,
    refined,
    single_signal,
    signal_term,
    constant_term,
    is_root,
    root_of,
    lemma_root_exists,
    lemma_root_unique,
    rule_a_matches,
    rule_a_interval,
    rule_a,
    rule_a_captures,
    roots_around_zero,
    rule_b_limit,
    rule_b_candidate,
    rule_b_terms,
    rule_b,
};
use crate::encoding_laws::{in_bound, canonical_terms};
use crate::propagation::{
    rule_a_all,
    rule_b_pass,
    rule_b_passes,
    seed_entry,
    seed_entries,
    seed_annotations,
    seeded_bounds,
};
use crate::expression::{ExpressionView, ExpressionInfixOpcode};
use crate::annotation_bounds::{
    implied_bounds,
    comparison_bound,
    find_entry,
    with_entry,
    with_entries,
    met_with,
    merge_and,
    merge_or_onto,
};
use vstd::arithmetic::div_mod::lemma_div_is_ordered;

verus! {

/// Whether a product vanishes modulo `p`.
pub open spec fn vanishes(a: int, b: int, p: int) -> bool {
    (a * b) % p == 0
}

/// Whether the integers modulo `p` have no zero divisors, as they do for a
/// prime `p`: a product vanishes only where a factor does.
pub open spec fn no_zero_divisors(p: int) -> bool {
    forall|a: int, b: int| #[trigger] vanishes(a, b, p) ==> a % p == 0 || b % p == 0
}

/// Whether an assignment gives every signal a field element.
pub open spec fn in_field(sigma: spec_fn(usize) -> int, p: int) -> bool {
    forall|s: usize| 0 <= #[trigger] sigma(s) < p
}

/// The value of a combination of one signal: its coefficient times the
/// value of the signal, plus its constant.
pub proof fn lemma_single_signal_value(le: Seq<(usize, int)>, sigma: spec_fn(usize) -> int)
    requires
        single_signal(le),
    ensures
        lin_value(le, sigma) == signal_term(le).1 * sigma(signal_term(le).0) + constant_term(le),
{
    reveal_with_fuel(lin_value, 3);
    if le.len() == 1 {
        assert(le.drop_last().len() == 0);
    } else {
        assert(le.drop_last().len() == 1);
        assert(le.drop_last().drop_last().len() == 0);
        assert(le.drop_last().last() == le[0]);
        assert(le.last() == le[1]);
        if le[0].0 == 0 {
            assert(le[0].1 * 1 == le[0].1) by (nonlinear_arith);
        } else {
            assert(le[1].1 * 1 == le[1].1) by (nonlinear_arith);
        }
    }
}

/// A constraint that the integrity-domain rule takes out is redundant: an
/// assignment that keeps the signal within the entry that the rule leaves
/// for it satisfies the constraint.
pub proof fn lemma_rule_a_redundant(
    b: Map<usize, Iv>,
    c: ConstraintView,
    p: int,
    sigma: spec_fn(usize) -> int,
)
    requires
        p > 1,
        in_field(sigma, p),
        rule_a_captures(b, c, p),
        in_bound(sigma(signal_term(c.a).0), rule_a(b, c, p)[signal_term(c.a).0], p),
    ensures
        c.satisfied(sigma, p),
{
    let s = signal_term(c.a).0;
    let v = sigma(s);
    let alpha = root_of(c.a, p);
    let beta = root_of(c.b, p);
    lemma_root_exists(c.a, p);
    lemma_root_exists(c.b, p);
    assert(0 <= v < p);
    // the entry left for the signal holds the two roots and nothing else
    assert(v == alpha || v == beta);
    lemma_single_signal_value(c.a, sigma);
    lemma_single_signal_value(c.b, sigma);
    let av = lin_value(c.a, sigma);
    let bv = lin_value(c.b, sigma);
    assert(lin_value(c.c, sigma) == 0);
    assert(av % p == 0 || bv % p == 0);
    lemma_mul_mod_noop_general(av, bv, p);
    assert(((av % p) * (bv % p)) == 0) by (nonlinear_arith)
        requires
            av % p == 0 || bv % p == 0,
    ;
    lemma_small_mod(0, p as nat);
}

/// The integrity-domain rule is sound: an assignment that satisfies a
/// constraint of the form gives the signal one of the two roots, and so a
/// value within the interval of the rule.
pub proof fn lemma_rule_a_interval_sound(c: ConstraintView, p: int, sigma: spec_fn(usize) -> int)
    requires
        p > 1,
        no_zero_divisors(p),
        in_field(sigma, p),
        rule_a_matches(c, p),
        c.satisfied(sigma, p),
    ensures
        sigma(signal_term(c.a).0) == root_of(c.a, p) || sigma(signal_term(c.a).0) == root_of(
            c.b,
            p,
        ),
        in_bound(sigma(signal_term(c.a).0), rule_a_interval(c, p), p),
{
    let s = signal_term(c.a).0;
    let v = sigma(s);
    lemma_root_exists(c.a, p);
    lemma_root_exists(c.b, p);
    lemma_single_signal_value(c.a, sigma);
    lemma_single_signal_value(c.b, sigma);
    let av = lin_value(c.a, sigma);
    let bv = lin_value(c.b, sigma);
    assert(lin_value(c.c, sigma) == 0);
    assert(vanishes(av, bv, p));
    assert(0 <= v < p);
    if av % p == 0 {
        assert(is_root(c.a, v, p));
        lemma_root_unique(c.a, v, root_of(c.a, p), p);
    } else {
        assert(is_root(c.b, v, p));
        lemma_root_unique(c.b, v, root_of(c.b, p), p);
    }
}

/// Whether an assignment keeps every signal that has an entry within its
/// entry.
pub open spec fn sound(b: Map<usize, Iv>, sigma: spec_fn(usize) -> int, p: int) -> bool {
    forall|s: usize| #[trigger] b.contains_key(s) ==> in_bound(signal_value(sigma, s), b[s], p)
}

/// Whether every entry is an interval that is not negative anywhere or the
/// interval `[-1, 0]`, the forms that propagation gives to its entries.
pub open spec fn well_shaped(b: Map<usize, Iv>) -> bool {
    forall|s: usize| #[trigger]
        b.contains_key(s) ==> b[s].lo >= 0 || b[s] == (Iv { lo: -1, hi: 0 })
}

/// Recording an interval that is not negative anywhere and holds the value
/// of the signal keeps the bounds map sound and well shaped.
pub proof fn lemma_refined_sound(
    b: Map<usize, Iv>,
    s: usize,
    new: Iv,
    p: int,
    sigma: spec_fn(usize) -> int,
)
    requires
        p > 1,
        in_field(sigma, p),
        sound(b, sigma, p),
        well_shaped(b),
        new.lo >= 0,
        new.contains(signal_value(sigma, s)),
    ensures
        sound(refined(b, s, new, p), sigma, p),
        well_shaped(refined(b, s, new, p)),
{
    let after = refined(b, s, new, p);
    let v = signal_value(sigma, s);
    assert(0 <= v < p) by {
        if s != 0 {
            assert(0 <= sigma(s) < p);
        }
    }
    assert forall|t: usize| #[trigger] after.contains_key(t) implies in_bound(
        signal_value(sigma, t),
        after[t],
        p,
    ) && (after[t].lo >= 0 || after[t] == (Iv { lo: -1, hi: 0 })) by {
        if t != s {
            assert(b.contains_key(t));
        } else if b.contains_key(s) {
            assert(in_bound(v, b[s], p));
        }
    }
}

/// The integrity-domain rule keeps the bounds map sound and well shaped.
pub proof fn lemma_rule_a_sound(
    b: Map<usize, Iv>,
    c: ConstraintView,
    p: int,
    sigma: spec_fn(usize) -> int,
)
    requires
        p > 1,
        no_zero_divisors(p),
        in_field(sigma, p),
        sound(b, sigma, p),
        well_shaped(b),
        c.satisfied(sigma, p),
    ensures
        sound(rule_a(b, c, p), sigma, p),
        well_shaped(rule_a(b, c, p)),
{
    if rule_a_matches(c, p) {
        let s = signal_term(c.a).0;
        lemma_rule_a_interval_sound(c, p, sigma);
        lemma_root_exists(c.a, p);
        lemma_root_exists(c.b, p);
        assert(s != 0);
        if !roots_around_zero(c, p) {
            lemma_refined_sound(b, s, rule_a_interval(c, p), p, sigma);
        } else if !b.contains_key(s) {
            let after = rule_a(b, c, p);
            assert forall|t: usize| #[trigger] after.contains_key(t) implies in_bound(
                signal_value(sigma, t),
                after[t],
                p,
            ) && (after[t].lo >= 0 || after[t] == (Iv { lo: -1, hi: 0 })) by {
                if t != s {
                    assert(b.contains_key(t));
                }
            }
        }
    }
}

/// The representative of the value of a signal that lies within the range
/// read for the signal: the value itself, or the value less `p` where the
/// entry of the signal is `[-1, 0]` and the value is `p - 1`.
pub open spec fn rep(b: Map<usize, Iv>, sigma: spec_fn(usize) -> int, s: usize, p: int) -> int {
    let v = signal_value(sigma, s);
    if range_or_full(b, s, p).contains(v) { v } else { v - p }
}

/// The value of a combination when every coefficient and every signal is
/// replaced by its representative.
pub open spec fn signed_value(
    le: Seq<(usize, int)>,
    b: Map<usize, Iv>,
    sigma: spec_fn(usize) -> int,
    p: int,
) -> int
    decreases le.len(),
{
    if le.len() == 0 {
        0
    } else {
        signed_value(le.drop_last(), b, sigma, p) + to_signed(le.last().1, p) * rep(
            b,
            sigma,
            le.last().0,
            p,
        )
    }
}

/// The representative of a signal lies within the range read for the
/// signal and is congruent to the value of the signal.
pub proof fn lemma_rep(b: Map<usize, Iv>, sigma: spec_fn(usize) -> int, s: usize, p: int)
    requires
        p > 1,
        in_field(sigma, p),
        sound(b, sigma, p),
        well_shaped(b),
    ensures
        range_or_full(b, s, p).contains(rep(b, sigma, s, p)),
        rep(b, sigma, s, p) % p == signal_value(sigma, s) % p,
        0 <= signal_value(sigma, s) < p,
{
    let v = signal_value(sigma, s);
    if s != 0 {
        assert(0 <= sigma(s) < p);
    }
    if b.contains_key(s) {
        assert(in_bound(v, b[s], p));
    }
    if rep(b, sigma, s, p) != v {
        lemma_mod_multiples_vanish(-1, v, p);
    }
}

/// A term with its coefficient and signal replaced by their representatives
/// lies within the scaled range of the signal.
pub proof fn lemma_term_in_scaled(
    t: (usize, int),
    b: Map<usize, Iv>,
    sigma: spec_fn(usize) -> int,
    p: int,
)
    requires
        p > 1,
        0 <= t.1 < p,
        in_field(sigma, p),
        sound(b, sigma, p),
        well_shaped(b),
    ensures
        scaled(t.1, range_or_full(b, t.0, p), p).contains(to_signed(t.1, p) * rep(b, sigma, t.0, p)),
{
    lemma_rep(b, sigma, t.0, p);
    let c = t.1;
    let r = range_or_full(b, t.0, p);
    let x = rep(b, sigma, t.0, p);
    if c <= half(p) {
        assert(c * r.lo <= c * x <= c * r.hi) by (nonlinear_arith)
            requires
                0 <= c,
                r.lo <= x <= r.hi,
        ;
    } else {
        let n = p - c;
        assert((c - p) * x == -(n * x)) by (nonlinear_arith)
            requires
                n == p - c,
        ;
        assert(n * r.lo <= n * x <= n * r.hi) by (nonlinear_arith)
            requires
                0 <= n,
                r.lo <= x <= r.hi,
        ;
    }
}

/// The value of a combination over the representatives lies within the
/// interval of the combination.
pub proof fn lemma_signed_value_in_bounds(
    le: Seq<(usize, int)>,
    b: Map<usize, Iv>,
    sigma: spec_fn(usize) -> int,
    p: int,
)
    requires
        p > 1,
        canonical_terms(le, p),
        in_field(sigma, p),
        sound(b, sigma, p),
        well_shaped(b),
    ensures
        lin_bounds(b, le, p, false).contains(signed_value(le, b, sigma, p)),
    decreases le.len(),
{
    if le.len() > 0 {
        let rest = le.drop_last();
        assert forall|i: int| 0 <= i < rest.len() implies 0 <= (#[trigger] rest[i]).1 < p by {
            assert(rest[i] == le[i]);
        }
        lemma_signed_value_in_bounds(rest, b, sigma, p);
        assert(le[le.len() - 1] == le.last());
        lemma_term_in_scaled(le.last(), b, sigma, p);
    }
}

/// The value of a combination over the representatives is congruent to its
/// value under the assignment.
pub proof fn lemma_signed_value_congruent(
    le: Seq<(usize, int)>,
    b: Map<usize, Iv>,
    sigma: spec_fn(usize) -> int,
    p: int,
)
    requires
        p > 1,
        in_field(sigma, p),
        sound(b, sigma, p),
        well_shaped(b),
    ensures
        signed_value(le, b, sigma, p) % p == lin_value(le, sigma) % p,
    decreases le.len(),
{
    if le.len() > 0 {
        let rest = le.drop_last();
        lemma_signed_value_congruent(rest, b, sigma, p);
        let c = le.last().1;
        let s = le.last().0;
        let x = rep(b, sigma, s, p);
        let v = signal_value(sigma, s);
        lemma_rep(b, sigma, s, p);
        lemma_mul_mod_noop_general(to_signed(c, p), x, p);
        lemma_mul_mod_noop_general(c, v, p);
        if to_signed(c, p) != c {
            lemma_mod_multiples_vanish(-1, c, p);
        }
        lemma_add_mod_noop(signed_value(rest, b, sigma, p), to_signed(c, p) * x, p);
        lemma_add_mod_noop(lin_value(rest, sigma), c * v, p);
    }
}

/// The value of a combination over the representatives, less one of its
/// terms, lies within the interval of the combination less the scaled range
/// of that term.
pub proof fn lemma_signed_value_without(
    le: Seq<(usize, int)>,
    j: int,
    b: Map<usize, Iv>,
    sigma: spec_fn(usize) -> int,
    p: int,
)
    requires
        p > 1,
        0 <= j < le.len(),
        canonical_terms(le, p),
        in_field(sigma, p),
        sound(b, sigma, p),
        well_shaped(b),
    ensures
        ({
            let z = to_signed(le[j].1, p) * rep(b, sigma, le[j].0, p);
            let sc = scaled(le[j].1, range_or_full(b, le[j].0, p), p);
            let all = lin_bounds(b, le, p, false);
            all.lo - sc.lo <= signed_value(le, b, sigma, p) - z <= all.hi - sc.hi
        }),
    decreases le.len(),
{
    let rest = le.drop_last();
    assert forall|i: int| 0 <= i < rest.len() implies 0 <= (#[trigger] rest[i]).1 < p by {
        assert(rest[i] == le[i]);
    }
    assert(le[le.len() - 1] == le.last());
    if j == le.len() - 1 {
        lemma_signed_value_in_bounds(rest, b, sigma, p);
    } else {
        assert(rest[j] == le[j]);
        lemma_signed_value_without(rest, j, b, sigma, p);
        lemma_term_in_scaled(le.last(), b, sigma, p);
    }
}

/// Within one modular round, reducing modulo `p` keeps the order.
pub proof fn lemma_mod_in_round(x: int, lo: int, hi: int, p: int)
    requires
        p > 0,
        lo <= x <= hi,
        lo / p == hi / p,
    ensures
        lo % p <= x % p <= hi % p,
{
    lemma_div_is_ordered(lo, x, p);
    lemma_div_is_ordered(x, hi, p);
    lemma_fundamental_div_mod(lo, p);
    lemma_fundamental_div_mod(x, p);
    lemma_fundamental_div_mod(hi, p);
}

/// Whether every coefficient of a constraint is a field element.
pub open spec fn canonical_constraint(c: ConstraintView, p: int) -> bool {
    canonical_terms(c.a, p) && canonical_terms(c.b, p) && canonical_terms(c.c, p)
}

/// Linear back-substitution is sound for one term: the interval that a
/// satisfied constraint gives to a signal of `C` holds the value of the
/// signal, and is not negative anywhere.
pub proof fn lemma_rule_b_candidate_sound(
    b: Map<usize, Iv>,
    c: ConstraintView,
    j: int,
    p: int,
    sigma: spec_fn(usize) -> int,
)
    requires
        p > 1,
        0 <= j < c.c.len(),
        canonical_constraint(c, p),
        in_field(sigma, p),
        sound(b, sigma, p),
        well_shaped(b),
        c.satisfied(sigma, p),
    ensures
        rule_b_candidate(b, c.c[j], rule_b_limit(b, c, p, false), p, false) matches Some(iv)
            ==> iv.lo >= 0 && iv.contains(signal_value(sigma, c.c[j].0)),
{
    let limit = rule_b_limit(b, c, p, false);
    let t = c.c[j];
    let s = t.0;
    match rule_b_candidate(b, t, limit, p, false) {
        None => {},
        Some(iv) => {
            let cur = range_or_full(b, s, p);
            let v = signal_value(sigma, s);
            let r = rep(b, sigma, s, p);
            let a1 = signed_value(c.a, b, sigma, p);
            let b1 = signed_value(c.b, b, sigma, p);
            let c1 = signed_value(c.c, b, sigma, p);
            let ab = iv_mul(lin_bounds(b, c.a, p, false), lin_bounds(b, c.b, p, false));
            let cb = lin_bounds(b, c.c, p, false);
            lemma_signed_value_in_bounds(c.a, b, sigma, p);
            lemma_signed_value_in_bounds(c.b, b, sigma, p);
            lemma_iv_mul_sound(
                lin_bounds(b, c.a, p, false),
                lin_bounds(b, c.b, p, false),
                a1,
                b1,
            );
            lemma_signed_value_without(c.c, j, b, sigma, p);
            lemma_rep(b, sigma, s, p);
            // the representatives satisfy the constraint modulo p
            lemma_signed_value_congruent(c.a, b, sigma, p);
            lemma_signed_value_congruent(c.b, b, sigma, p);
            lemma_signed_value_congruent(c.c, b, sigma, p);
            let av = lin_value(c.a, sigma);
            let bv = lin_value(c.b, sigma);
            let cv = lin_value(c.c, sigma);
            lemma_mul_mod_noop_general(a1, b1, p);
            lemma_mul_mod_noop_general(av, bv, p);
            lemma_sub_mod_noop(a1 * b1, c1, p);
            lemma_sub_mod_noop(av * bv, cv, p);
            assert((a1 * b1 - c1) % p == 0);
            lemma_fundamental_div_mod(p, 2);
            if t.1 == 1 {
                assert(to_signed(1, p) == 1);
                assert(1 * r == r) by (nonlinear_arith);
                assert(1 * cur.lo == cur.lo && 1 * cur.hi == cur.hi) by (nonlinear_arith);
                let w = (c1 - r) - a1 * b1;
                let x = p - w;
                let lo = p - (limit.hi - cur.hi);
                let hi = p - (limit.lo - cur.lo);
                assert(lo <= x <= hi);
                // r = x + (a1 * b1 - c1) + ... is congruent to x
                assert(r - x == (c1 - a1 * b1) - p);
                lemma_mod_equivalence(a1 * b1, c1, p);
                lemma_mod_equivalence(c1, a1 * b1, p);
                lemma_mod_multiples_vanish(-1, c1 - a1 * b1, p);
                lemma_mod_equivalence(r, x, p);
                lemma_small_mod(v as nat, p as nat);
                assert(v == x % p);
                lemma_mod_in_round(x, lo, hi, p);
                lemma_mod_bound(lo, p);
            } else {
                assert(t.1 == p - 1);
                assert(p > 2);
                assert(to_signed(p - 1, p) == -1);
                assert((-1) * r == -r) by (nonlinear_arith);
                assert(1 * cur.lo == cur.lo && 1 * cur.hi == cur.hi) by (nonlinear_arith);
                let w = (c1 + r) - a1 * b1;
                let lo = limit.lo + cur.hi;
                let hi = limit.hi + cur.lo;
                assert(lo <= w <= hi);
                assert(r - w == a1 * b1 - c1);
                lemma_mod_equivalence(r, w, p);
                lemma_small_mod(v as nat, p as nat);
                assert(v == w % p);
                lemma_mod_in_round(w, lo, hi, p);
                lemma_mod_bound(lo, p);
            }
        },
    }
}

/// The entries of a bounds map that are not negative anywhere.
pub open spec fn plain_part(b: Map<usize, Iv>) -> Map<usize, Iv> {
    Map::new(|s: usize| b.contains_key(s) && b[s].lo >= 0, |s: usize| b[s])
}

/// The interval of a combination read strictly is its interval under the
/// entries that are not negative anywhere.
pub proof fn lemma_strict_is_plain(b: Map<usize, Iv>, le: Seq<(usize, int)>, p: int)
    ensures
        lin_bounds(b, le, p, true) == lin_bounds(plain_part(b), le, p, false),
    decreases le.len(),
{
    if le.len() > 0 {
        lemma_strict_is_plain(b, le.drop_last(), p);
    }
}

/// Strict back-substitution is sound for one term: the interval that a
/// satisfied constraint gives to a signal of `C` holds the value of the
/// signal, and is not negative anywhere.
pub proof fn lemma_rule_b_candidate_sound_strict(
    b: Map<usize, Iv>,
    c: ConstraintView,
    j: int,
    p: int,
    sigma: spec_fn(usize) -> int,
)
    requires
        p > 1,
        0 <= j < c.c.len(),
        canonical_constraint(c, p),
        in_field(sigma, p),
        sound(b, sigma, p),
        well_shaped(b),
        c.satisfied(sigma, p),
    ensures
        rule_b_candidate(b, c.c[j], rule_b_limit(b, c, p, true), p, true) matches Some(iv)
            ==> iv.lo >= 0 && iv.contains(signal_value(sigma, c.c[j].0)),
{
    let plain = plain_part(b);
    lemma_strict_is_plain(b, c.a, p);
    lemma_strict_is_plain(b, c.b, p);
    lemma_strict_is_plain(b, c.c, p);
    assert(rule_b_limit(b, c, p, true) == rule_b_limit(plain, c, p, false));
    assert(strict_range(b, c.c[j].0, p) == range_or_full(plain, c.c[j].0, p));
    assert forall|s: usize| #[trigger] plain.contains_key(s) implies in_bound(
        signal_value(sigma, s),
        plain[s],
        p,
    ) by {
        assert(b.contains_key(s));
    }
    lemma_rule_b_candidate_sound(plain, c, j, p, sigma);
}

/// Whether no signal occurs twice in a combination.
pub open spec fn distinct_signals(le: Seq<(usize, int)>) -> bool {
    forall|i: int, j: int| 0 <= i < j < le.len() ==> (#[trigger] le[i]).0 != (#[trigger] le[j]).0
}

/// Whether a constraint has field elements for coefficients and no signal
/// twice in `C`, and is satisfied by the assignment.
pub open spec fn holds_of(c: ConstraintView, sigma: spec_fn(usize) -> int, p: int) -> bool {
    canonical_constraint(c, p) && distinct_signals(c.c) && c.satisfied(sigma, p)
}

/// Whether every constraint of a list is such a constraint.
pub open spec fn all_hold_of(cs: Seq<ConstraintView>, sigma: spec_fn(usize) -> int, p: int) -> bool {
    forall|i: int| 0 <= i < cs.len() ==> holds_of(#[trigger] cs[i], sigma, p)
}

/// Whether two bounds maps say the same of a signal.
pub open spec fn same_entry(a: Map<usize, Iv>, b: Map<usize, Iv>, s: usize) -> bool {
    a.contains_key(s) == b.contains_key(s) && (b.contains_key(s) ==> a[s] == b[s])
}

/// Back-substitution through the first `k` terms of `C` keeps the bounds map
/// sound and well shaped, and leaves the entry of every signal that is not
/// among those terms.
pub proof fn lemma_rule_b_terms_sound(
    b: Map<usize, Iv>,
    c: ConstraintView,
    k: int,
    p: int,
    strict: bool,
    sigma: spec_fn(usize) -> int,
)
    requires
        p > 1,
        0 <= k <= c.c.len(),
        holds_of(c, sigma, p),
        in_field(sigma, p),
        sound(b, sigma, p),
        well_shaped(b),
    ensures
        ({
            let r = rule_b_terms(b, c.c.take(k), rule_b_limit(b, c, p, strict), p, strict);
            &&& sound(r.0, sigma, p)
            &&& well_shaped(r.0)
            &&& forall|s: usize|
                (forall|i: int| 0 <= i < k ==> (#[trigger] c.c[i]).0 != s) ==> #[trigger] same_entry(
                    r.0,
                    b,
                    s,
                )
        }),
    decreases k,
{
    let limit = rule_b_limit(b, c, p, strict);
    let terms = c.c.take(k);
    if k > 0 {
        lemma_rule_b_terms_sound(b, c, k - 1, p, strict, sigma);
        assert(terms.drop_last() =~= c.c.take(k - 1));
        assert(terms.last() == c.c[k - 1]);
        let before = rule_b_terms(b, c.c.take(k - 1), limit, p, strict);
        let t = c.c[k - 1];
        let s = t.0;
        assert(same_entry(before.0, b, s)) by {
            assert forall|i: int| 0 <= i < k - 1 implies (#[trigger] c.c[i]).0 != s by {
                assert(c.c[i].0 != c.c[k - 1].0);
            }
        }
        assert(range_or_full(before.0, s, p) == range_or_full(b, s, p));
        assert(strict_range(before.0, s, p) == strict_range(b, s, p));
        assert(rule_b_candidate(before.0, t, limit, p, strict) == rule_b_candidate(
            b,
            t,
            limit,
            p,
            strict,
        ));
        if strict {
            lemma_rule_b_candidate_sound_strict(b, c, k - 1, p, sigma);
        } else {
            lemma_rule_b_candidate_sound(b, c, k - 1, p, sigma);
        }
        let r = rule_b_terms(b, terms, limit, p, strict);
        match rule_b_candidate(b, t, limit, p, strict) {
            Some(iv) => {
                lemma_refined_sound(before.0, s, iv, p, sigma);
                assert(r.0 == refined(before.0, s, iv, p));
            },
            None => {
                assert(r.0 == before.0);
            },
        }
        assert forall|u: usize|
            (forall|i: int| 0 <= i < k ==> (#[trigger] c.c[i]).0 != u) implies #[trigger] same_entry(
            r.0,
            b,
            u,
        ) by {
            assert(c.c[k - 1].0 != u);
            assert(same_entry(before.0, b, u));
        }
    } else {
        assert(forall|s: usize| #[trigger] same_entry(b, b, s));
    }
}

/// Linear back-substitution on a satisfied constraint keeps the bounds map
/// sound and well shaped, in either reading of the ranges.
pub proof fn lemma_rule_b_sound(
    b: Map<usize, Iv>,
    c: ConstraintView,
    p: int,
    strict: bool,
    sigma: spec_fn(usize) -> int,
)
    requires
        p > 1,
        holds_of(c, sigma, p),
        in_field(sigma, p),
        sound(b, sigma, p),
        well_shaped(b),
    ensures
        sound(rule_b(b, c, p, strict).0, sigma, p),
        well_shaped(rule_b(b, c, p, strict).0),
{
    lemma_rule_b_terms_sound(b, c, c.c.len() as int, p, strict, sigma);
    assert(c.c.take(c.c.len() as int) =~= c.c);
}

/// A pass of linear back-substitution over satisfied constraints keeps the
/// bounds map sound and well shaped, in either reading of the ranges.
pub proof fn lemma_rule_b_pass_sound(
    b: Map<usize, Iv>,
    cs: Seq<ConstraintView>,
    p: int,
    strict: bool,
    sigma: spec_fn(usize) -> int,
)
    requires
        p > 1,
        all_hold_of(cs, sigma, p),
        in_field(sigma, p),
        sound(b, sigma, p),
        well_shaped(b),
    ensures
        sound(rule_b_pass(b, cs, p, strict).0, sigma, p),
        well_shaped(rule_b_pass(b, cs, p, strict).0),
    decreases cs.len(),
{
    if cs.len() > 0 {
        let rest = cs.drop_last();
        assert forall|i: int| 0 <= i < rest.len() implies holds_of(#[trigger] rest[i], sigma, p) by {
            assert(rest[i] == cs[i]);
        }
        lemma_rule_b_pass_sound(b, rest, p, strict, sigma);
        assert(holds_of(cs[cs.len() - 1], sigma, p));
        lemma_rule_b_sound(rule_b_pass(b, rest, p, strict).0, cs.last(), p, strict, sigma);
    }
}

/// Any number of passes of linear back-substitution over satisfied
/// constraints keeps the bounds map sound and well shaped, in either
/// reading of the ranges.
pub proof fn lemma_rule_b_passes_sound(
    b: Map<usize, Iv>,
    cs: Seq<ConstraintView>,
    p: int,
    strict: bool,
    n: nat,
    sigma: spec_fn(usize) -> int,
)
    requires
        p > 1,
        all_hold_of(cs, sigma, p),
        in_field(sigma, p),
        sound(b, sigma, p),
        well_shaped(b),
    ensures
        sound(rule_b_passes(b, cs, p, strict, n).0, sigma, p),
        well_shaped(rule_b_passes(b, cs, p, strict, n).0),
    decreases n,
{
    if n > 0 {
        lemma_rule_b_passes_sound(b, cs, p, strict, (n - 1) as nat, sigma);
        lemma_rule_b_pass_sound(
            rule_b_passes(b, cs, p, strict, (n - 1) as nat).0,
            cs,
            p,
            strict,
            sigma,
        );
    }
}

/// The integrity-domain rule, applied to satisfied constraints one after
/// the other, keeps the bounds map sound and well shaped, and the
/// constraints that it leaves are satisfied constraints.
pub proof fn lemma_rule_a_all_sound(
    b: Map<usize, Iv>,
    cs: Seq<ConstraintView>,
    p: int,
    sigma: spec_fn(usize) -> int,
)
    requires
        p > 1,
        no_zero_divisors(p),
        all_hold_of(cs, sigma, p),
        in_field(sigma, p),
        sound(b, sigma, p),
        well_shaped(b),
    ensures
        sound(rule_a_all(b, cs, p).0, sigma, p),
        well_shaped(rule_a_all(b, cs, p).0),
        all_hold_of(rule_a_all(b, cs, p).1, sigma, p),
    decreases cs.len(),
{
    if cs.len() > 0 {
        assert forall|i: int| 0 <= i < cs.drop_last().len() implies holds_of(
            #[trigger] cs.drop_last()[i],
            sigma,
            p,
        ) by {
            assert(cs.drop_last()[i] == cs[i]);
        }
        lemma_rule_a_all_sound(b, cs.drop_last(), p, sigma);
        assert(holds_of(cs[cs.len() - 1], sigma, p));
        let before = rule_a_all(b, cs.drop_last(), p);
        lemma_rule_a_sound(before.0, cs.last(), p, sigma);
        let after = rule_a_all(b, cs, p);
        assert forall|i: int| 0 <= i < after.1.len() implies holds_of(
            #[trigger] after.1[i],
            sigma,
            p,
        ) by {
            if i < before.1.len() {
                assert(after.1[i] == before.1[i]);
            }
        }
    }
}

/// Whether the assignment satisfies every constraint of a list.
pub open spec fn all_satisfied(cs: Seq<ConstraintView>, sigma: spec_fn(usize) -> int, p: int) -> bool {
    forall|i: int| 0 <= i < cs.len() ==> (#[trigger] cs[i]).satisfied(sigma, p)
}

/// The integrity-domain rule never widens an entry: a field element within
/// the entry that the rule leaves for a signal lies within the entry that
/// the rule found.
pub proof fn lemma_rule_a_narrows(b: Map<usize, Iv>, c: ConstraintView, p: int, s: usize, v: int)
    requires
        p > 1,
        0 <= v < p,
        b.contains_key(s),
        in_bound(v, rule_a(b, c, p)[s], p),
    ensures
        rule_a(b, c, p).contains_key(s),
        in_bound(v, b[s], p),
{
}

/// The integrity-domain rule, applied to satisfied constraints one after
/// the other, keeps the bounds map sound and well shaped.
pub proof fn lemma_rule_a_all_keeps_sound(
    b: Map<usize, Iv>,
    cs: Seq<ConstraintView>,
    p: int,
    sigma: spec_fn(usize) -> int,
)
    requires
        p > 1,
        no_zero_divisors(p),
        all_satisfied(cs, sigma, p),
        in_field(sigma, p),
        sound(b, sigma, p),
        well_shaped(b),
    ensures
        sound(rule_a_all(b, cs, p).0, sigma, p),
        well_shaped(rule_a_all(b, cs, p).0),
        all_satisfied(rule_a_all(b, cs, p).1, sigma, p),
    decreases cs.len(),
{
    if cs.len() > 0 {
        assert forall|i: int| 0 <= i < cs.drop_last().len() implies (#[trigger] cs.drop_last()[i]).satisfied(
            sigma,
            p,
        ) by {
            assert(cs.drop_last()[i] == cs[i]);
        }
        lemma_rule_a_all_keeps_sound(b, cs.drop_last(), p, sigma);
        assert(cs[cs.len() - 1].satisfied(sigma, p));
        let before = rule_a_all(b, cs.drop_last(), p);
        lemma_rule_a_sound(before.0, cs.last(), p, sigma);
        let after = rule_a_all(b, cs, p);
        assert forall|i: int| 0 <= i < after.1.len() implies (#[trigger] after.1[i]).satisfied(
            sigma,
            p,
        ) by {
            if i < before.1.len() {
                assert(after.1[i] == before.1[i]);
            }
        }
    }
}

/// The constraints that the integrity-domain rule takes out of a list are
/// redundant: an assignment that satisfies the constraints that the rule
/// leaves, and keeps every signal within the bounds that the rule leaves,
/// satisfies every constraint of the list and keeps every signal within the
/// bounds that the rule found.
pub proof fn lemma_rule_a_all_redundant(
    b: Map<usize, Iv>,
    cs: Seq<ConstraintView>,
    p: int,
    sigma: spec_fn(usize) -> int,
)
    requires
        p > 1,
        in_field(sigma, p),
        sound(rule_a_all(b, cs, p).0, sigma, p),
        all_satisfied(rule_a_all(b, cs, p).1, sigma, p),
    ensures
        all_satisfied(cs, sigma, p),
        sound(b, sigma, p),
    decreases cs.len(),
{
    if cs.len() > 0 {
        let rest = cs.drop_last();
        let c = cs.last();
        let before = rule_a_all(b, rest, p);
        let after = rule_a_all(b, cs, p);
        assert(after.0 == rule_a(before.0, c, p));
        assert forall|s: usize| #[trigger] before.0.contains_key(s) implies in_bound(
            signal_value(sigma, s),
            before.0[s],
            p,
        ) by {
            let v = signal_value(sigma, s);
            assert(0 <= v < p) by {
                if s != 0 {
                    assert(0 <= sigma(s) < p);
                }
            }
            assert(after.0.contains_key(s));
            lemma_rule_a_narrows(before.0, c, p, s, v);
        }
        assert forall|i: int| 0 <= i < before.1.len() implies (#[trigger] before.1[i]).satisfied(
            sigma,
            p,
        ) by {
            assert(after.1[i] == before.1[i]);
        }
        lemma_rule_a_all_redundant(b, rest, p, sigma);
        if rule_a_captures(before.0, c, p) {
            let s = signal_term(c.a).0;
            lemma_root_exists(c.a, p);
            lemma_root_exists(c.b, p);
            assert(s != 0);
            assert(after.0.contains_key(s));
            assert(in_bound(signal_value(sigma, s), after.0[s], p));
            lemma_rule_a_redundant(before.0, c, p, sigma);
        } else {
            assert(after.1.last() == c);
            assert(after.1[after.1.len() - 1].satisfied(sigma, p));
        }
        assert forall|i: int| 0 <= i < cs.len() implies (#[trigger] cs[i]).satisfied(sigma, p) by {
            if i < rest.len() {
                assert(rest[i] == cs[i]);
            }
        }
    }
}

/// The constraints that the integrity-domain rule leaves are constraints of
/// the list: an assignment that satisfies every constraint satisfies them.
pub proof fn lemma_kept_satisfied(
    b: Map<usize, Iv>,
    cs: Seq<ConstraintView>,
    p: int,
    sigma: spec_fn(usize) -> int,
)
    requires
        all_satisfied(cs, sigma, p),
    ensures
        all_satisfied(rule_a_all(b, cs, p).1, sigma, p),
    decreases cs.len(),
{
    if cs.len() > 0 {
        let rest = cs.drop_last();
        assert forall|i: int| 0 <= i < rest.len() implies (#[trigger] rest[i]).satisfied(sigma, p) by {
            assert(rest[i] == cs[i]);
        }
        lemma_kept_satisfied(b, rest, p, sigma);
        let before = rule_a_all(b, rest, p);
        let after = rule_a_all(b, cs, p);
        assert(cs[cs.len() - 1].satisfied(sigma, p));
        assert forall|i: int| 0 <= i < after.1.len() implies (#[trigger] after.1[i]).satisfied(
            sigma,
            p,
        ) by {
            if i < before.1.len() {
                assert(after.1[i] == before.1[i]);
            }
        }
    }
}

/// The integrity-domain rule changes nothing for the assignments of field
/// elements: those that satisfy every constraint and keep every signal
/// within the bounds are those that satisfy the constraints that the rule
/// leaves and keep every signal within the bounds that the rule leaves.
pub proof fn lemma_rule_a_all_equivalent(
    b: Map<usize, Iv>,
    cs: Seq<ConstraintView>,
    p: int,
    sigma: spec_fn(usize) -> int,
)
    requires
        p > 1,
        no_zero_divisors(p),
        in_field(sigma, p),
        well_shaped(b),
    ensures
        (all_satisfied(cs, sigma, p) && sound(b, sigma, p)) <==> (all_satisfied(
            rule_a_all(b, cs, p).1,
            sigma,
            p,
        ) && sound(rule_a_all(b, cs, p).0, sigma, p)),
{
    if all_satisfied(cs, sigma, p) && sound(b, sigma, p) {
        lemma_rule_a_all_keeps_sound(b, cs, p, sigma);
    }
    if all_satisfied(rule_a_all(b, cs, p).1, sigma, p) && sound(rule_a_all(b, cs, p).0, sigma, p) {
        lemma_rule_a_all_redundant(b, cs, p, sigma);
    }
}

/// An interval that is recorded never widens an entry: a field element
/// within the entry that is left for a signal lies within the entry that
/// was found.
pub proof fn lemma_refined_narrows(b: Map<usize, Iv>, s: usize, new: Iv, p: int, t: usize, v: int)
    requires
        p > 1,
        0 <= v < p,
        b.contains_key(t),
        in_bound(v, refined(b, s, new, p)[t], p),
    ensures
        refined(b, s, new, p).contains_key(t),
        in_bound(v, b[t], p),
{
}

/// An assignment that keeps every signal within the bounds that
/// back-substitution leaves keeps every signal within the bounds that it
/// found.
pub proof fn lemma_rule_b_terms_narrows(
    b: Map<usize, Iv>,
    terms: Seq<(usize, int)>,
    limit: Iv,
    p: int,
    strict: bool,
    sigma: spec_fn(usize) -> int,
)
    requires
        p > 1,
        in_field(sigma, p),
        sound(rule_b_terms(b, terms, limit, p, strict).0, sigma, p),
    ensures
        sound(b, sigma, p),
    decreases terms.len(),
{
    if terms.len() > 0 {
        let before = rule_b_terms(b, terms.drop_last(), limit, p, strict);
        let after = rule_b_terms(b, terms, limit, p, strict);
        assert forall|t: usize| #[trigger] before.0.contains_key(t) implies in_bound(
            signal_value(sigma, t),
            before.0[t],
            p,
        ) by {
            let v = signal_value(sigma, t);
            assert(0 <= v < p) by {
                if t != 0 {
                    assert(0 <= sigma(t) < p);
                }
            }
            match rule_b_candidate(before.0, terms.last(), limit, p, strict) {
                Some(iv) => {
                    assert(after.0.contains_key(t));
                    lemma_refined_narrows(before.0, terms.last().0, iv, p, t, v);
                },
                None => {},
            }
        }
        lemma_rule_b_terms_narrows(b, terms.drop_last(), limit, p, strict, sigma);
    }
}

/// An assignment that keeps every signal within the bounds that a pass of
/// back-substitution leaves keeps every signal within the bounds that the
/// pass found.
pub proof fn lemma_rule_b_pass_narrows(
    b: Map<usize, Iv>,
    cs: Seq<ConstraintView>,
    p: int,
    strict: bool,
    sigma: spec_fn(usize) -> int,
)
    requires
        p > 1,
        in_field(sigma, p),
        sound(rule_b_pass(b, cs, p, strict).0, sigma, p),
    ensures
        sound(b, sigma, p),
    decreases cs.len(),
{
    if cs.len() > 0 {
        let before = rule_b_pass(b, cs.drop_last(), p, strict);
        lemma_rule_b_terms_narrows(
            before.0,
            cs.last().c,
            rule_b_limit(before.0, cs.last(), p, strict),
            p,
            strict,
            sigma,
        );
        lemma_rule_b_pass_narrows(b, cs.drop_last(), p, strict, sigma);
    }
}

/// An assignment that keeps every signal within the bounds that passes of
/// back-substitution leave keeps every signal within the bounds that they
/// found.
pub proof fn lemma_rule_b_passes_narrows(
    b: Map<usize, Iv>,
    cs: Seq<ConstraintView>,
    p: int,
    strict: bool,
    n: nat,
    sigma: spec_fn(usize) -> int,
)
    requires
        p > 1,
        in_field(sigma, p),
        sound(rule_b_passes(b, cs, p, strict, n).0, sigma, p),
    ensures
        sound(b, sigma, p),
    decreases n,
{
    if n > 0 {
        let before = rule_b_passes(b, cs, p, strict, (n - 1) as nat);
        lemma_rule_b_pass_narrows(before.0, cs, p, strict, sigma);
        lemma_rule_b_passes_narrows(b, cs, p, strict, (n - 1) as nat, sigma);
    }
}

/// Bound propagation keeps the solutions. Of the assignments of field
/// elements, those that satisfy every constraint and keep every signal
/// within the bounds given are those that satisfy the constraints that the
/// integrity-domain rule leaves and keep every signal within the bounds
/// that the rule and any number of passes of back-substitution leave. The
/// constraints have field elements for coefficients and no signal twice in
/// `C`. This holds in either reading of the ranges.
pub proof fn lemma_propagation_keeps_solutions(
    b: Map<usize, Iv>,
    cs: Seq<ConstraintView>,
    p: int,
    strict: bool,
    n: nat,
    sigma: spec_fn(usize) -> int,
)
    requires
        p > 1,
        no_zero_divisors(p),
        in_field(sigma, p),
        well_shaped(b),
        forall|i: int|
            0 <= i < cs.len() ==> canonical_constraint(#[trigger] cs[i], p) && distinct_signals(
                cs[i].c,
            ),
    ensures
        (all_satisfied(cs, sigma, p) && sound(b, sigma, p)) <==> ({
            let a = rule_a_all(b, cs, p);
            all_satisfied(a.1, sigma, p) && sound(
                rule_b_passes(a.0, a.1, p, strict, n).0,
                sigma,
                p,
            )
        }),
{
    let a = rule_a_all(b, cs, p);
    if all_satisfied(cs, sigma, p) && sound(b, sigma, p) {
        assert forall|i: int| 0 <= i < cs.len() implies holds_of(#[trigger] cs[i], sigma, p) by {
            assert(cs[i].satisfied(sigma, p));
        }
        lemma_rule_a_all_sound(b, cs, p, sigma);
        lemma_rule_b_passes_sound(a.0, a.1, p, strict, n, sigma);
        assert forall|i: int| 0 <= i < a.1.len() implies (#[trigger] a.1[i]).satisfied(sigma, p) by {
            assert(holds_of(a.1[i], sigma, p));
        }
    }
    if all_satisfied(a.1, sigma, p) && sound(rule_b_passes(a.0, a.1, p, strict, n).0, sigma, p) {
        lemma_rule_b_passes_narrows(a.0, a.1, p, strict, n, sigma);
        lemma_rule_a_all_redundant(b, cs, p, sigma);
    }
}

/// Whether the assignment keeps every signal within every interval that an
/// annotation of the list implies, and none of these intervals is negative
/// anywhere.
pub open spec fn respects(annotations: Seq<ExpressionView>, sigma: spec_fn(usize) -> int, p: int) -> bool {
    forall|i: int, k: int|
        0 <= i < annotations.len() && 0 <= k < implied_bounds(annotations[i], p).len() ==> {
            let e = #[trigger] implied_bounds(annotations[i], p)[k];
            e.1.lo >= 0 && e.1.contains(signal_value(sigma, e.0))
        }
}

/// Seeding with intervals that hold the values of their signals keeps the
/// bounds map sound and well shaped.
pub proof fn lemma_seed_entries_sound(
    st: (Map<usize, Iv>, Set<usize>),
    es: Seq<(usize, Iv)>,
    p: int,
    sigma: spec_fn(usize) -> int,
)
    requires
        p > 1,
        in_field(sigma, p),
        sound(st.0, sigma, p),
        well_shaped(st.0),
        forall|k: int|
            0 <= k < es.len() ==> (#[trigger] es[k]).1.lo >= 0 && es[k].1.contains(
                signal_value(sigma, es[k].0),
            ),
    ensures
        sound(seed_entries(st, es, p).0, sigma, p),
        well_shaped(seed_entries(st, es, p).0),
    decreases es.len(),
{
    if es.len() > 0 {
        assert forall|k: int| 0 <= k < es.drop_last().len() implies (
        #[trigger] es.drop_last()[k]).1.lo >= 0 && es.drop_last()[k].1.contains(
            signal_value(sigma, es.drop_last()[k].0),
        ) by {
            assert(es.drop_last()[k] == es[k]);
        }
        lemma_seed_entries_sound(st, es.drop_last(), p, sigma);
        let before = seed_entries(st, es.drop_last(), p);
        let e = es.last();
        assert(es[es.len() - 1] == e);
        let after = seed_entry(before, e, p);
        if before.1.contains(e.0) {
            lemma_refined_sound(before.0, e.0, e.1, p, sigma);
        } else {
            assert forall|t: usize| #[trigger] after.0.contains_key(t) implies in_bound(
                signal_value(sigma, t),
                after.0[t],
                p,
            ) && (after.0[t].lo >= 0 || after.0[t] == (Iv { lo: -1, hi: 0 })) by {
                if t != e.0 {
                    assert(before.0.contains_key(t));
                }
            }
        }
    }
}

/// Seeding with annotations that the assignment respects keeps the bounds
/// map sound and well shaped.
pub proof fn lemma_seed_annotations_sound(
    st: (Map<usize, Iv>, Set<usize>),
    annotations: Seq<ExpressionView>,
    p: int,
    sigma: spec_fn(usize) -> int,
)
    requires
        p > 1,
        in_field(sigma, p),
        sound(st.0, sigma, p),
        well_shaped(st.0),
        respects(annotations, sigma, p),
    ensures
        sound(seed_annotations(st, annotations, p).0, sigma, p),
        well_shaped(seed_annotations(st, annotations, p).0),
    decreases annotations.len(),
{
    if annotations.len() > 0 {
        let rest = annotations.drop_last();
        assert forall|i: int, k: int|
            0 <= i < rest.len() && 0 <= k < implied_bounds(rest[i], p).len() implies {
            let e = #[trigger] implied_bounds(rest[i], p)[k];
            e.1.lo >= 0 && e.1.contains(signal_value(sigma, e.0))
        } by {
            assert(rest[i] == annotations[i]);
            let e = implied_bounds(annotations[i], p)[k];
        }
        lemma_seed_annotations_sound(st, rest, p, sigma);
        let es = implied_bounds(annotations.last(), p);
        assert forall|k: int| 0 <= k < es.len() implies (#[trigger] es[k]).1.lo >= 0
            && es[k].1.contains(signal_value(sigma, es[k].0)) by {
            let e = implied_bounds(annotations[annotations.len() - 1], p)[k];
        }
        lemma_seed_entries_sound(seed_annotations(st, rest, p), es, p, sigma);
    }
}

/// Seeding with intervals that are not negative anywhere keeps the bounds
/// map well shaped.
pub proof fn lemma_seed_entries_well_shaped(
    st: (Map<usize, Iv>, Set<usize>),
    es: Seq<(usize, Iv)>,
    p: int,
)
    requires
        well_shaped(st.0),
        forall|k: int| 0 <= k < es.len() ==> (#[trigger] es[k]).1.lo >= 0,
    ensures
        well_shaped(seed_entries(st, es, p).0),
    decreases es.len(),
{
    if es.len() > 0 {
        assert forall|k: int| 0 <= k < es.drop_last().len() implies (#[trigger] es.drop_last()[k]).1.lo
            >= 0 by {
            assert(es.drop_last()[k] == es[k]);
        }
        lemma_seed_entries_well_shaped(st, es.drop_last(), p);
        let before = seed_entries(st, es.drop_last(), p);
        let e = es.last();
        assert(es[es.len() - 1] == e);
        let after = seed_entry(before, e, p);
        assert forall|t: usize| #[trigger] after.0.contains_key(t) implies after.0[t].lo >= 0
            || after.0[t] == (Iv { lo: -1, hi: 0 }) by {
            if t != e.0 {
                assert(before.0.contains_key(t));
            } else if before.0.contains_key(t) {
                assert(before.0[t].lo >= 0 || before.0[t] == (Iv { lo: -1, hi: 0 }));
            }
        }
    }
}

/// Seeding with annotations that imply no interval that is negative
/// anywhere keeps the bounds map well shaped.
pub proof fn lemma_seed_annotations_well_shaped(
    st: (Map<usize, Iv>, Set<usize>),
    annotations: Seq<ExpressionView>,
    p: int,
)
    requires
        well_shaped(st.0),
        plain_bounds(annotations, p),
    ensures
        well_shaped(seed_annotations(st, annotations, p).0),
    decreases annotations.len(),
{
    if annotations.len() > 0 {
        let rest = annotations.drop_last();
        assert forall|i: int, k: int|
            0 <= i < rest.len() && 0 <= k < implied_bounds(rest[i], p).len() implies (
        #[trigger] implied_bounds(rest[i], p)[k]).1.lo >= 0 by {
            assert(rest[i] == annotations[i]);
            assert(implied_bounds(annotations[i], p)[k].1.lo >= 0);
        }
        lemma_seed_annotations_well_shaped(st, rest, p);
        let last = annotations.len() - 1;
        assert(annotations.last() == annotations[last]);
        assert forall|k: int| 0 <= k < implied_bounds(annotations.last(), p).len() implies (
        #[trigger] implied_bounds(annotations.last(), p)[k]).1.lo >= 0 by {
            assert(implied_bounds(annotations[last], p)[k].1.lo >= 0);
        }
        lemma_seed_entries_well_shaped(
            seed_annotations(st, rest, p),
            implied_bounds(annotations.last(), p),
            p,
        );
    }
}

/// The bounds map with which propagation starts is well shaped where the
/// bounds map given is and the annotations imply no interval that is
/// negative anywhere.
pub proof fn lemma_seeded_well_shaped(
    b: Map<usize, Iv>,
    preconditions: Seq<ExpressionView>,
    preconditions_intermediates: Seq<ExpressionView>,
    facts: Seq<ExpressionView>,
    p: int,
)
    requires
        well_shaped(b),
        plain_bounds(preconditions, p),
        plain_bounds(preconditions_intermediates, p),
        plain_bounds(facts, p),
    ensures
        well_shaped(seeded_bounds(b, preconditions, preconditions_intermediates, facts, p)),
{
    let start = (b.insert(0, Iv { lo: 1, hi: 1 }), Set::<usize>::empty());
    assert forall|t: usize| #[trigger] start.0.contains_key(t) implies start.0[t].lo >= 0
        || start.0[t] == (Iv { lo: -1, hi: 0 }) by {
        if t != 0 {
            assert(b.contains_key(t));
        }
    }
    lemma_seed_annotations_well_shaped(start, preconditions, p);
    let one = seed_annotations(start, preconditions, p);
    lemma_seed_annotations_well_shaped(one, preconditions_intermediates, p);
    let two = seed_annotations(one, preconditions_intermediates, p);
    lemma_seed_annotations_well_shaped(two, facts, p);
}

/// The signals of the terms that are left when coefficients are reduced
/// are signals of the terms given.
pub proof fn lemma_reduced_signals(le: Seq<(usize, int)>, p: int, k: int)
    requires
        p > 0,
        0 <= k < reduced(le, p).len(),
    ensures
        exists|j: int| 0 <= j < le.len() && (#[trigger] le[j]).0 == reduced(le, p)[k].0,
        0 <= reduced(le, p)[k].1 < p,
    decreases le.len(),
{
    if le.len() > 0 {
        let rest = le.drop_last();
        if k < reduced(rest, p).len() {
            lemma_reduced_signals(rest, p, k);
            let j = choose|j: int| 0 <= j < rest.len() && (#[trigger] rest[j]).0 == reduced(
                rest,
                p,
            )[k].0;
            assert(le[j] == rest[j]);
        } else {
            assert(le[le.len() - 1].0 == reduced(le, p)[k].0);
            lemma_mod_bound(le.last().1, p);
        }
    }
}

/// Terms with reduced coefficients have field elements for coefficients,
/// and no signal twice where the terms given have none twice.
pub proof fn lemma_reduced_canonical(le: Seq<(usize, int)>, p: int)
    requires
        p > 0,
    ensures
        canonical_terms(reduced(le, p), p),
        distinct_signals(le) ==> distinct_signals(reduced(le, p)),
    decreases le.len(),
{
    assert forall|i: int| 0 <= i < reduced(le, p).len() implies 0 <= (#[trigger] reduced(le, p)[i]).1
        < p by {
        lemma_reduced_signals(le, p, i);
    }
    if le.len() > 0 && distinct_signals(le) {
        let rest = le.drop_last();
        assert forall|i: int, j: int| 0 <= i < j < rest.len() implies (#[trigger] rest[i]).0 != (
        #[trigger] rest[j]).0 by {
            assert(rest[i] == le[i]);
            assert(rest[j] == le[j]);
        }
        lemma_reduced_canonical(rest, p);
        let r = reduced(le, p);
        let before = reduced(rest, p);
        assert forall|i: int, j: int| 0 <= i < j < r.len() implies (#[trigger] r[i]).0 != (
        #[trigger] r[j]).0 by {
            if j < before.len() {
                assert(r[i] == before[i]);
                assert(r[j] == before[j]);
            } else {
                assert(r[i] == before[i]);
                lemma_reduced_signals(rest, p, i);
                let at = choose|at: int| 0 <= at < rest.len() && (#[trigger] rest[at]).0
                    == before[i].0;
                assert(rest[at] == le[at]);
                assert(le[at].0 != le[le.len() - 1].0);
            }
        }
    }
}

/// Bound propagation is sound. Let an assignment give every signal a field
/// element, satisfy the constraints, and respect the intervals that the
/// assumptions imply. Then it keeps every signal within the entry that
/// propagation leaves for it: the bounds map seeded from the assumptions,
/// taken through the integrity-domain rule and through any number of passes
/// of linear back-substitution, is sound, in either reading of the ranges.
pub proof fn lemma_propagation_sound(
    b: Map<usize, Iv>,
    preconditions: Seq<ExpressionView>,
    preconditions_intermediates: Seq<ExpressionView>,
    facts: Seq<ExpressionView>,
    cs: Seq<ConstraintView>,
    p: int,
    strict: bool,
    n: nat,
    sigma: spec_fn(usize) -> int,
)
    requires
        p > 1,
        no_zero_divisors(p),
        in_field(sigma, p),
        sound(b, sigma, p),
        well_shaped(b),
        respects(preconditions, sigma, p),
        respects(preconditions_intermediates, sigma, p),
        respects(facts, sigma, p),
        all_hold_of(cs, sigma, p),
    ensures
        ({
            let seeded = seeded_bounds(b, preconditions, preconditions_intermediates, facts, p);
            let a = rule_a_all(seeded, cs, p);
            sound(rule_b_passes(a.0, a.1, p, strict, n).0, sigma, p)
        }),
{
    let start = (b.insert(0, Iv { lo: 1, hi: 1 }), Set::<usize>::empty());
    assert forall|t: usize| #[trigger] start.0.contains_key(t) implies in_bound(
        signal_value(sigma, t),
        start.0[t],
        p,
    ) && (start.0[t].lo >= 0 || start.0[t] == (Iv { lo: -1, hi: 0 })) by {
        if t != 0 {
            assert(b.contains_key(t));
        }
    }
    lemma_seed_annotations_sound(start, preconditions, p, sigma);
    let one = seed_annotations(start, preconditions, p);
    lemma_seed_annotations_sound(one, preconditions_intermediates, p, sigma);
    let two = seed_annotations(one, preconditions_intermediates, p);
    lemma_seed_annotations_sound(two, facts, p, sigma);
    let seeded = seeded_bounds(b, preconditions, preconditions_intermediates, facts, p);
    lemma_rule_a_all_sound(seeded, cs, p, sigma);
    let a = rule_a_all(seeded, cs, p);
    lemma_rule_b_passes_sound(a.0, a.1, p, strict, n, sigma);
}

/// What a comparison says of two integers.
pub open spec fn compares(op: ExpressionInfixOpcode, l: int, r: int) -> bool {
    match op {
        ExpressionInfixOpcode::LesserEq => l <= r,
        ExpressionInfixOpcode::GreaterEq => l >= r,
        ExpressionInfixOpcode::Lesser => l < r,
        ExpressionInfixOpcode::Greater => l > r,
        ExpressionInfixOpcode::Eq => l == r,
        _ => true,
    }
}

/// The integer that a literal or a signal stands for under an assignment.
pub open spec fn operand(e: ExpressionView, sigma: spec_fn(usize) -> int) -> int {
    match e {
        ExpressionView::Number(_, v) => v,
        ExpressionView::Variable(_, s) => signal_value(sigma, s),
        _ => 0,
    }
}

/// The interval that a comparison of a signal with a literal implies holds
/// the value of the signal under every assignment of field elements of
/// which the comparison is true.
pub proof fn lemma_comparison_bound_sound(
    op: ExpressionInfixOpcode,
    l: ExpressionView,
    r: ExpressionView,
    p: int,
    sigma: spec_fn(usize) -> int,
)
    requires
        p > 1,
        in_field(sigma, p),
        compares(op, operand(l, sigma), operand(r, sigma)),
    ensures
        comparison_bound(op, l, r, p) matches Some(e) ==> e.1.contains(signal_value(sigma, e.0)),
{
    match comparison_bound(op, l, r, p) {
        Some(e) => {
            if e.0 != 0 {
                assert(0 <= sigma(e.0) < p);
            }
        },
        None => {},
    }
}


/// Whether a comparison has a signal on one side and a literal on the
/// other, so that it bounds the signal.
pub open spec fn bounding(l: ExpressionView, r: ExpressionView) -> bool {
    (l is Number && r is Variable) || (l is Variable && r is Number)
}

/// What an annotation says of an assignment at the places where bounds are
/// read from it: both sides of a conjunction are said, one side of a
/// disjunction is, and a comparison of a signal with a literal is true of
/// the value of the signal. Any other expression says nothing.
pub open spec fn says(e: ExpressionView, sigma: spec_fn(usize) -> int) -> bool
    decreases e,
{
    match e {
        ExpressionView::InfixOp(_, l, op, r) => match op {
            ExpressionInfixOpcode::BoolAnd | ExpressionInfixOpcode::BitAnd => says(*l, sigma)
                && says(*r, sigma),
            ExpressionInfixOpcode::BoolOr | ExpressionInfixOpcode::BitOr => says(*l, sigma)
                || says(*r, sigma),
            _ => bounding(*l, *r) ==> compares(op, operand(*l, sigma), operand(*r, sigma)),
        },
        _ => true,
    }
}

/// Whether every interval of a list holds the value of its signal.
pub open spec fn all_contain(es: Seq<(usize, Iv)>, sigma: spec_fn(usize) -> int) -> bool {
    forall|k: int| 0 <= k < es.len() ==> (#[trigger] es[k]).1.contains(signal_value(sigma, es[k].0))
}

/// The entry found for a signal is an entry of the list, for that signal.
pub proof fn lemma_find_entry(l: Seq<(usize, Iv)>, s: usize)
    ensures
        find_entry(l, s) matches Some(i) ==> 0 <= i < l.len() && l[i].0 == s,
    decreases l.len(),
{
    if l.len() > 0 {
        lemma_find_entry(l.drop_last(), s);
        match find_entry(l.drop_last(), s) {
            Some(i) => {
                assert(l.drop_last()[i] == l[i]);
            },
            None => {},
        }
    }
}

/// Setting entries that hold the values of their signals in a list of such
/// entries gives a list of such entries.
pub proof fn lemma_with_entries_contain(
    l: Seq<(usize, Iv)>,
    xs: Seq<(usize, Iv)>,
    sigma: spec_fn(usize) -> int,
)
    requires
        all_contain(l, sigma),
        all_contain(xs, sigma),
    ensures
        all_contain(with_entries(l, xs), sigma),
    decreases xs.len(),
{
    if xs.len() > 0 {
        assert forall|k: int| 0 <= k < xs.drop_last().len() implies (
        #[trigger] xs.drop_last()[k]).1.contains(signal_value(sigma, xs.drop_last()[k].0)) by {
            assert(xs.drop_last()[k] == xs[k]);
        }
        lemma_with_entries_contain(l, xs.drop_last(), sigma);
        let before = with_entries(l, xs.drop_last());
        let x = xs.last();
        assert(xs[xs.len() - 1] == x);
        lemma_find_entry(before, x.0);
        let after = with_entry(before, x.0, x.1);
        assert forall|k: int| 0 <= k < after.len() implies (#[trigger] after[k]).1.contains(
            signal_value(sigma, after[k].0),
        ) by {
            if k < before.len() && after[k] != (x.0, x.1) {
                assert(after[k] == before[k]);
            }
        }
    }
}

/// Meeting a list of entries that hold the values of their signals with
/// such entries gives a list of such entries.
pub proof fn lemma_met_with_contain(
    l: Seq<(usize, Iv)>,
    ys: Seq<(usize, Iv)>,
    sigma: spec_fn(usize) -> int,
)
    requires
        all_contain(l, sigma),
        all_contain(ys, sigma),
    ensures
        all_contain(met_with(l, ys), sigma),
    decreases ys.len(),
{
    if ys.len() > 0 {
        assert forall|k: int| 0 <= k < ys.drop_last().len() implies (
        #[trigger] ys.drop_last()[k]).1.contains(signal_value(sigma, ys.drop_last()[k].0)) by {
            assert(ys.drop_last()[k] == ys[k]);
        }
        lemma_met_with_contain(l, ys.drop_last(), sigma);
        let before = met_with(l, ys.drop_last());
        let y = ys.last();
        assert(ys[ys.len() - 1] == y);
        lemma_find_entry(before, y.0);
        let after = met_with(l, ys);
        assert forall|k: int| 0 <= k < after.len() implies (#[trigger] after[k]).1.contains(
            signal_value(sigma, after[k].0),
        ) by {
            match find_entry(before, y.0) {
                Some(i) => {
                    if k != i {
                        assert(after[k] == before[k]);
                    } else {
                        assert(before[i].1.contains(signal_value(sigma, before[i].0)));
                    }
                },
                None => {
                    if k < before.len() {
                        assert(after[k] == before[k]);
                    }
                },
            }
        }
    }
}

/// The bounds of a disjunction hold the values of their signals where the
/// bounds of one of its sides do: each is the least interval that holds an
/// interval of either side.
pub proof fn lemma_merge_or_contain(
    acc: Seq<(usize, Iv)>,
    left: Seq<(usize, Iv)>,
    right: Seq<(usize, Iv)>,
    sigma: spec_fn(usize) -> int,
)
    requires
        all_contain(acc, sigma),
        all_contain(left, sigma) || all_contain(right, sigma),
    ensures
        all_contain(merge_or_onto(acc, left, right), sigma),
    decreases left.len(),
{
    if left.len() > 0 {
        let rest = left.drop_last();
        if all_contain(left, sigma) {
            assert forall|k: int| 0 <= k < rest.len() implies (#[trigger] rest[k]).1.contains(
                signal_value(sigma, rest[k].0),
            ) by {
                assert(rest[k] == left[k]);
            }
        }
        lemma_merge_or_contain(acc, rest, right, sigma);
        let before = merge_or_onto(acc, rest, right);
        let x = left.last();
        assert(left[left.len() - 1] == x);
        lemma_find_entry(right, x.0);
        match find_entry(right, x.0) {
            Some(j) => {
                let joined = iv_join(x.1, right[j].1);
                assert(joined.contains(signal_value(sigma, x.0))) by {
                    if all_contain(left, sigma) {
                        assert(x.1.contains(signal_value(sigma, x.0)));
                    } else {
                        assert(right[j].1.contains(signal_value(sigma, right[j].0)));
                    }
                }
                lemma_find_entry(before, x.0);
                let after = with_entry(before, x.0, joined);
                assert forall|k: int| 0 <= k < after.len() implies (#[trigger] after[k]).1.contains(
                    signal_value(sigma, after[k].0),
                ) by {
                    if k < before.len() && after[k] != (x.0, joined) {
                        assert(after[k] == before[k]);
                    }
                }
            },
            None => {},
        }
    }
}

/// The intervals that an annotation implies hold the values of their
/// signals under every assignment of field elements of which the
/// annotation is true, whichever side of a disjunction makes it so.
pub proof fn lemma_implied_bounds_sound(e: ExpressionView, p: int, sigma: spec_fn(usize) -> int)
    requires
        p > 1,
        in_field(sigma, p),
        says(e, sigma),
    ensures
        all_contain(implied_bounds(e, p), sigma),
    decreases e,
{
    let none = Seq::<(usize, Iv)>::empty();
    match e {
        ExpressionView::InfixOp(_, l, op, r) => {
            match op {
                ExpressionInfixOpcode::BoolAnd | ExpressionInfixOpcode::BitAnd => {
                    lemma_implied_bounds_sound(*l, p, sigma);
                    lemma_implied_bounds_sound(*r, p, sigma);
                    lemma_with_entries_contain(none, implied_bounds(*l, p), sigma);
                    lemma_met_with_contain(
                        with_entries(none, implied_bounds(*l, p)),
                        implied_bounds(*r, p),
                        sigma,
                    );
                },
                ExpressionInfixOpcode::BoolOr | ExpressionInfixOpcode::BitOr => {
                    if says(*l, sigma) {
                        lemma_implied_bounds_sound(*l, p, sigma);
                    } else {
                        lemma_implied_bounds_sound(*r, p, sigma);
                    }
                    lemma_merge_or_contain(
                        none,
                        implied_bounds(*l, p),
                        implied_bounds(*r, p),
                        sigma,
                    );
                },
                _ => {
                    if bounding(*l, *r) {
                        lemma_comparison_bound_sound(op, *l, *r, p, sigma);
                    }
                },
            }
        },
        _ => {},
    }
}

/// Whether no interval that an annotation of the list implies is negative
/// anywhere.
pub open spec fn plain_bounds(annotations: Seq<ExpressionView>, p: int) -> bool {
    forall|i: int, k: int|
        0 <= i < annotations.len() && 0 <= k < implied_bounds(annotations[i], p).len() ==> (
        #[trigger] implied_bounds(annotations[i], p)[k]).1.lo >= 0
}

/// Whether every annotation of the list is true of the assignment.
pub open spec fn all_say(annotations: Seq<ExpressionView>, sigma: spec_fn(usize) -> int) -> bool {
    forall|i: int| 0 <= i < annotations.len() ==> says(#[trigger] annotations[i], sigma)
}

/// An assignment of field elements respects the intervals of the
/// annotations that are true of it, where the annotations imply no
/// interval that is negative anywhere.
pub proof fn lemma_true_annotations_respected(
    annotations: Seq<ExpressionView>,
    p: int,
    sigma: spec_fn(usize) -> int,
)
    requires
        p > 1,
        in_field(sigma, p),
        all_say(annotations, sigma),
        plain_bounds(annotations, p),
    ensures
        respects(annotations, sigma, p),
{
    assert forall|i: int, k: int|
        0 <= i < annotations.len() && 0 <= k < implied_bounds(annotations[i], p).len() implies {
        let e = #[trigger] implied_bounds(annotations[i], p)[k];
        e.1.lo >= 0 && e.1.contains(signal_value(sigma, e.0))
    } by {
        lemma_implied_bounds_sound(annotations[i], p, sigma);
    }
}

/// Bound propagation is sound for every assignment of field elements that
/// satisfies the constraints and makes the assumptions true, the
/// assumptions implying no interval that is negative anywhere. This holds
/// in either reading of the ranges.
pub proof fn lemma_propagation_sound_of_assumptions(
    preconditions: Seq<ExpressionView>,
    preconditions_intermediates: Seq<ExpressionView>,
    facts: Seq<ExpressionView>,
    cs: Seq<ConstraintView>,
    p: int,
    strict: bool,
    n: nat,
    sigma: spec_fn(usize) -> int,
)
    requires
        p > 1,
        no_zero_divisors(p),
        in_field(sigma, p),
        all_say(preconditions, sigma),
        all_say(preconditions_intermediates, sigma),
        all_say(facts, sigma),
        plain_bounds(preconditions, p),
        plain_bounds(preconditions_intermediates, p),
        plain_bounds(facts, p),
        all_hold_of(cs, sigma, p),
    ensures
        ({
            let seeded = seeded_bounds(
                Map::<usize, Iv>::empty(),
                preconditions,
                preconditions_intermediates,
                facts,
                p,
            );
            let a = rule_a_all(seeded, cs, p);
            sound(rule_b_passes(a.0, a.1, p, strict, n).0, sigma, p)
        }),
{
    lemma_true_annotations_respected(preconditions, p, sigma);
    lemma_true_annotations_respected(preconditions_intermediates, p, sigma);
    lemma_true_annotations_respected(facts, p, sigma);
    lemma_propagation_sound(
        Map::<usize, Iv>::empty(),
        preconditions,
        preconditions_intermediates,
        facts,
        cs,
        p,
        strict,
        n,
        sigma,
    );
}

} // verus!
