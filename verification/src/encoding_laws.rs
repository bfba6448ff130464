//! What the encodings mean: statements about every model of the formulas.
use vstd::prelude::*;
use vstd::arithmetic::div_mod::{
    lemma_div_is_ordered,
    lemma_fundamental_div_mod,
    lemma_mod_multiples_vanish,
    lemma_mul_mod_noop_general,
    lemma_sub_mod_noop,
    lemma_add_mod_noop,
    lemma_small_mod,
    lemma_mod_multiples_basic,
};
use crate::field::{to_signed, half};
use crate::interval::{Iv, iv_mul, iv_sub, lemma_iv_mul_sound};
use crate::constraint::{ConstraintView, lin_value, signal_value};
use crate::bounds::{lin_bounds, strict_range, scaled};
use crate::smt::{Var, TermView, FormulaView, term_value, holds, all_hold};
use crate::propagation_laws::{no_zero_divisors, vanishes};
use crate::encoding::{
    congruent,
    nonzero,
    homologue_formulas,
    homologues,
    constraint_covered,
    bound_formula,
    lin_term,
    multiple_guards,
    multiple_equation,
    quotient_iv,
    constraint_encoding,
    encoding_ranges,
    product_vanishes,
    equation_quotient,
    conjoined,
};

verus! {

/// Whether the field element `v` lies in an interval: between its ends
/// where the interval is not negative anywhere; in the top of the field
/// from `p + lo` on, or in the bottom up to `hi`, where it reaches below
/// zero.
pub open spec fn in_bound(v: int, iv: Iv, p: int) -> bool {
    if iv.lo >= 0 {
        iv.lo <= v <= iv.hi
    } else {
        (p + iv.lo <= v < p) || (0 <= v <= iv.hi)
    }
}

/// The bound assertion of a variable holds in a model exactly when the
/// value of the variable lies in the interval. For an interval `[lo, hi]`
/// with `lo < 0 <= hi` these are the values from `p + lo` to `p - 1` and
/// from `0` to `hi`.
pub proof fn lemma_bound_formula(x: Var, iv: Iv, p: int, m: spec_fn(Var) -> int)
    ensures
        holds(bound_formula(x, iv, p), m) == in_bound(m(x), iv, p),
        iv.lo < 0 <= iv.hi ==> (holds(bound_formula(x, iv, p), m) <==> (p + iv.lo <= m(x) <= p - 1
            || 0 <= m(x) <= iv.hi)),
{
    reveal_with_fuel(holds, 4);
    reveal_with_fuel(term_value, 2);
}

/// The assignment of the signals that a model gives through their
/// variables.
pub open spec fn assignment(env: Map<usize, Var>, m: spec_fn(Var) -> int) -> spec_fn(usize) -> int {
    |s: usize| m(env[s])
}

/// Whether every coefficient of a combination is a field element.
pub open spec fn canonical_terms(le: Seq<(usize, int)>, p: int) -> bool {
    forall|i: int| 0 <= i < le.len() ==> 0 <= (#[trigger] le[i]).1 < p
}

/// The term of a linear combination has, modulo `p`, the value of the
/// combination under the assignment that the model gives.
pub proof fn lemma_lin_term_value(
    le: Seq<(usize, int)>,
    env: Map<usize, Var>,
    p: int,
    m: spec_fn(Var) -> int,
)
    requires
        p > 0,
    ensures
        term_value(lin_term(le, env, p), m) % p == lin_value(le, assignment(env, m)) % p,
    decreases le.len(),
{
    reveal_with_fuel(term_value, 4);
    if le.len() > 0 {
        let rest = le.drop_last();
        lemma_lin_term_value(rest, env, p, m);
        let c = le.last().1;
        let s = le.last().0;
        let x = signal_value(assignment(env, m), s);
        let a = term_value(lin_term(rest, env, p), m);
        let b = lin_value(rest, assignment(env, m));
        let signed = to_signed(c, p);
        // the summand of the term is signed * x, whichever the signal is
        assert(term_value(lin_term(le, env, p), m) == a + (if s == 0 {
            signed
        } else {
            m(env[s]) * signed
        }));
        assert(m(env[s]) * signed == signed * m(env[s])) by (nonlinear_arith);
        assert(signed * 1 == signed) by (nonlinear_arith);
        assert(term_value(lin_term(le, env, p), m) == a + signed * x);
        // signed is c or c - p
        if signed != c {
            assert(signed * x == c * x + (-x) * p) by (nonlinear_arith)
                requires
                    signed == c - p,
            ;
            lemma_mod_multiples_vanish(-x, c * x, p);
        }
        assert((signed * x) % p == (c * x) % p);
        lemma_add_mod_noop(a, signed * x, p);
        lemma_add_mod_noop(b, c * x, p);
    }
}

/// The value of the term of a linear combination lies in the interval of
/// the combination, when the coefficients are field elements, the constant
/// signal is within its range, and the model keeps every variable within
/// the range read for its signal.
pub proof fn lemma_lin_term_in_bounds(
    le: Seq<(usize, int)>,
    env: Map<usize, Var>,
    b: Map<usize, Iv>,
    p: int,
    m: spec_fn(Var) -> int,
)
    requires
        p > 0,
        canonical_terms(le, p),
        strict_range(b, 0, p).contains(1),
        forall|i: int|
            0 <= i < le.len() && (#[trigger] le[i]).0 != 0 ==> strict_range(b, le[i].0, p).contains(
                m(env[le[i].0]),
            ),
    ensures
        lin_bounds(b, le, p, true).contains(term_value(lin_term(le, env, p), m)),
    decreases le.len(),
{
    reveal_with_fuel(term_value, 4);
    if le.len() > 0 {
        let rest = le.drop_last();
        assert forall|i: int| 0 <= i < rest.len() && (#[trigger] rest[i]).0 != 0 implies strict_range(
            b,
            rest[i].0,
            p,
        ).contains(m(env[rest[i].0])) by {
            assert(rest[i] == le[i]);
        }
        assert forall|i: int| 0 <= i < rest.len() implies 0 <= (#[trigger] rest[i]).1 < p by {
            assert(rest[i] == le[i]);
        }
        lemma_lin_term_in_bounds(rest, env, b, p, m);
        let c = le.last().1;
        let s = le.last().0;
        let r = strict_range(b, s, p);
        let x = if s == 0 { 1 } else { m(env[s]) };
        let signed = to_signed(c, p);
        let a = term_value(lin_term(rest, env, p), m);
        assert(le[le.len() - 1] == le.last());
        assert(r.contains(x));
        assert(0 <= c < p);
        assert(m(env[s]) * signed == signed * m(env[s])) by (nonlinear_arith);
        assert(signed * 1 == signed) by (nonlinear_arith);
        assert(term_value(lin_term(le, env, p), m) == a + signed * x);
        if c <= half(p) {
            assert(c * r.lo <= c * x <= c * r.hi) by (nonlinear_arith)
                requires
                    0 <= c,
                    r.lo <= x <= r.hi,
            ;
        } else {
            let n = p - c;
            assert(signed * x == -(n * x)) by (nonlinear_arith)
                requires
                    signed == c - p,
                    n == p - c,
            ;
            assert(n * r.lo <= n * x <= n * r.hi) by (nonlinear_arith)
                requires
                    0 <= n,
                    r.lo <= x <= r.hi,
            ;
        }
        assert(scaled(c, r, p).contains(signed * x));
    }
}

/// An equation `value = k * p` makes the value a multiple of `p`.
proof fn lemma_multiple_equation(value: TermView, q: Iv, k: Var, p: int, m: spec_fn(Var) -> int)
    requires
        p > 0,
        holds(multiple_equation(value, q, k, p), m),
    ensures
        term_value(value, m) % p == 0,
{
    reveal_with_fuel(holds, 2);
    reveal_with_fuel(term_value, 3);
    let quotient = if q.lo == q.hi { q.lo } else { m(k) };
    assert(term_value(value, m) == quotient * p);
    lemma_mod_multiples_basic(quotient, p);
}

/// Every model of the encoding of a constraint satisfies the constraint
/// modulo `p`: the product of the values of `A` and `B` is congruent to the
/// value of `C`. The coefficients of `C` are taken to be field elements and
/// the model to keep the signals of `C` within the ranges that the encoding
/// reads for them, as the bound assertions of the signals make it do.
pub proof fn lemma_constraint_encoding_sound(
    c: ConstraintView,
    env: Map<usize, Var>,
    b: Map<usize, Iv>,
    p: int,
    n: usize,
    m: spec_fn(Var) -> int,
)
    requires
        p > 0,
        canonical_terms(c.c, p),
        strict_range(b, 0, p).contains(1),
        forall|i: int|
            0 <= i < c.c.len() && (#[trigger] c.c[i]).0 != 0 ==> strict_range(
                b,
                c.c[i].0,
                p,
            ).contains(m(env[c.c[i].0])),
        all_hold(constraint_encoding(c, env, b, p, n), m),
    ensures
        (term_value(lin_term(c.a, env, p), m) * term_value(lin_term(c.b, env, p), m) - term_value(
            lin_term(c.c, env, p),
            m,
        )) % p == 0,
        c.satisfied(assignment(env, m), p),
{
    let fs = constraint_encoding(c, env, b, p, n);
    let r = encoding_ranges(c, b, p);
    let va = lin_term(c.a, env, p);
    let vb = lin_term(c.b, env, p);
    let vc = lin_term(c.c, env, p);
    let a = term_value(va, m);
    let bv = term_value(vb, m);
    let cv = term_value(vc, m);
    let qa = quotient_iv(r.0, p);
    let qb = quotient_iv(r.1, p);
    let qc = quotient_iv(r.2, p);
    let a_vanishes = multiple_equation(va, qa, Var::QuotientA(n), p);
    let b_vanishes = multiple_equation(vb, qb, Var::QuotientB(n), p);
    if product_vanishes(c, b, p) {
        let either = FormulaView::Or(Box::new(a_vanishes), Box::new(b_vanishes));
        assert(fs[fs.len() - 1] == either);
        assert(holds(either, m));
        reveal_with_fuel(holds, 2);
        lemma_lin_term_in_bounds(c.c, env, b, p, m);
        assert(cv == 0);
        if holds(a_vanishes, m) {
            lemma_multiple_equation(va, qa, Var::QuotientA(n), p, m);
        } else {
            lemma_multiple_equation(vb, qb, Var::QuotientB(n), p, m);
        }
        lemma_mul_mod_noop_general(a, bv, p);
        assert(((a % p) * (bv % p)) == 0) by (nonlinear_arith)
            requires
                a % p == 0 || bv % p == 0,
        ;
        lemma_small_mod(0, p as nat);
        assert((a * bv - cv) % p == 0);
    } else {
        let q = equation_quotient(c, b, p);
        let difference = TermView::Sub(
            Box::new(vc),
            Box::new(TermView::Mul(Box::new(va), Box::new(vb))),
        );
        let equation = multiple_equation(difference, q, Var::Quotient(n), p);
        assert(fs[fs.len() - 1] == equation);
        assert(holds(equation, m));
        lemma_multiple_equation(difference, q, Var::Quotient(n), p, m);
        reveal_with_fuel(term_value, 3);
        assert(term_value(difference, m) == cv - a * bv);
        lemma_sub_mod_noop(0, cv - a * bv, p);
        lemma_small_mod(0, p as nat);
        assert((a * bv - cv) == 0 - (cv - a * bv));
    }
    let sigma = assignment(env, m);
    lemma_lin_term_value(c.a, env, p, m);
    lemma_lin_term_value(c.b, env, p, m);
    lemma_lin_term_value(c.c, env, p, m);
    let sa = lin_value(c.a, sigma);
    let sb = lin_value(c.b, sigma);
    let sc = lin_value(c.c, sigma);
    lemma_mul_mod_noop_general(a, bv, p);
    lemma_mul_mod_noop_general(sa, sb, p);
    lemma_sub_mod_noop(a * bv, cv, p);
    lemma_sub_mod_noop(sa * sb, sc, p);
}

/// The model that gives the four quotient variables of the encoding
/// numbered `n` the given values, and every other variable its value in
/// `m`.
pub open spec fn with_quotients(
    m: spec_fn(Var) -> int,
    n: usize,
    k: int,
    ka: int,
    kb: int,
    kc: int,
) -> spec_fn(Var) -> int {
    |x: Var|
        if x == Var::Quotient(n) {
            k
        } else if x == Var::QuotientA(n) {
            ka
        } else if x == Var::QuotientB(n) {
            kb
        } else if x == Var::QuotientC(n) {
            kc
        } else {
            m(x)
        }
}

/// Whether a variable stands for a signal, in the first or the second
/// execution.
pub open spec fn signal_var(x: Var) -> bool {
    x is Signal || x is Shadow
}

/// Whether every signal of a combination but the constant one has the
/// variable of a signal, and the model keeps that variable within the
/// range that the encoding reads for the signal.
pub open spec fn kept_in_range(
    le: Seq<(usize, int)>,
    env: Map<usize, Var>,
    b: Map<usize, Iv>,
    p: int,
    m: spec_fn(Var) -> int,
) -> bool {
    forall|i: int|
        0 <= i < le.len() && (#[trigger] le[i]).0 != 0 ==> signal_var(env[le[i].0])
            && strict_range(b, le[i].0, p).contains(m(env[le[i].0]))
}

/// The term of a combination has the same value in two models that agree
/// on the variables of its signals.
proof fn lemma_lin_term_same(
    le: Seq<(usize, int)>,
    env: Map<usize, Var>,
    p: int,
    m: spec_fn(Var) -> int,
    w: spec_fn(Var) -> int,
)
    requires
        forall|i: int| 0 <= i < le.len() && (#[trigger] le[i]).0 != 0 ==> w(env[le[i].0]) == m(
            env[le[i].0],
        ),
    ensures
        term_value(lin_term(le, env, p), w) == term_value(lin_term(le, env, p), m),
    decreases le.len(),
{
    reveal_with_fuel(term_value, 4);
    if le.len() > 0 {
        let rest = le.drop_last();
        assert forall|i: int| 0 <= i < rest.len() && (#[trigger] rest[i]).0 != 0 implies w(
            env[rest[i].0],
        ) == m(env[rest[i].0]) by {
            assert(rest[i] == le[i]);
        }
        lemma_lin_term_same(rest, env, p, m, w);
        assert(le[le.len() - 1] == le.last());
    }
}

/// The quotient by `p` of a member of an interval lies in the range of the
/// quotients of the interval, and gives the member back where the member is
/// a multiple of `p`.
proof fn lemma_quotient_in_range(iv: Iv, x: int, p: int)
    requires
        p > 0,
        iv.contains(x),
    ensures
        quotient_iv(iv, p).contains(x / p),
        x % p == 0 ==> x == (x / p) * p,
{
    lemma_div_is_ordered(iv.lo, x, p);
    lemma_div_is_ordered(-iv.hi, -x, p);
    lemma_fundamental_div_mod(x, p);
    lemma_fundamental_div_mod(-x, p);
    let d = x / p;
    let e = (-x) / p;
    assert(e <= -d) by (nonlinear_arith)
        requires
            p > 0,
            x == p * d + x % p,
            -x == p * e + (-x) % p,
            0 <= x % p,
            0 <= (-x) % p,
    ;
    assert(p * d == d * p) by (nonlinear_arith);
}

/// A quotient variable with a value in its range meets the guards of the
/// range.
proof fn lemma_guards_hold(q: Iv, k: Var, w: spec_fn(Var) -> int)
    requires
        q.contains(w(k)),
    ensures
        all_hold(multiple_guards(q, k), w),
{
    reveal_with_fuel(holds, 2);
    reveal_with_fuel(term_value, 2);
}

/// The equation `value = k * p` holds where the value is the value of the
/// quotient variable times `p` and that value lies in the range of the
/// quotient.
proof fn lemma_multiple_equation_holds(value: TermView, q: Iv, k: Var, p: int, w: spec_fn(Var) -> int)
    requires
        q.contains(w(k)),
        term_value(value, w) == w(k) * p,
    ensures
        holds(multiple_equation(value, q, k, p), w),
{
    reveal_with_fuel(holds, 2);
    reveal_with_fuel(term_value, 3);
}

/// Two lists of formulas that hold make one list of formulas that hold.
proof fn lemma_all_hold_concat(xs: Seq<FormulaView>, ys: Seq<FormulaView>, w: spec_fn(Var) -> int)
    requires
        all_hold(xs, w),
        all_hold(ys, w),
    ensures
        all_hold(xs + ys, w),
{
    assert forall|i: int| 0 <= i < (xs + ys).len() implies holds(#[trigger] (xs + ys)[i], w) by {
        if i < xs.len() {
            assert((xs + ys)[i] == xs[i]);
        } else {
            assert((xs + ys)[i] == ys[i - xs.len()]);
        }
    }
}

/// The encoding of a constraint excludes no solution. Let a model keep the
/// variables of the signals within the ranges that the encoding reads for
/// them, and let the assignment that it gives satisfy the constraint modulo
/// `p`, the integers modulo `p` having no zero divisors. Then the model that
/// differs in the four quotient variables of the encoding alone, each being
/// given the quotient of the value that it divides, makes every formula of
/// the encoding hold.
pub proof fn lemma_constraint_encoding_complete(
    c: ConstraintView,
    env: Map<usize, Var>,
    b: Map<usize, Iv>,
    p: int,
    n: usize,
    m: spec_fn(Var) -> int,
) -> (w: spec_fn(Var) -> int)
    requires
        p > 1,
        no_zero_divisors(p),
        canonical_terms(c.a, p),
        canonical_terms(c.b, p),
        canonical_terms(c.c, p),
        strict_range(b, 0, p).contains(1),
        kept_in_range(c.a, env, b, p, m),
        kept_in_range(c.b, env, b, p, m),
        kept_in_range(c.c, env, b, p, m),
        c.satisfied(assignment(env, m), p),
    ensures
        all_hold(constraint_encoding(c, env, b, p, n), w),
        forall|x: Var| signal_var(x) ==> #[trigger] w(x) == m(x),
        w == with_quotients(
            m,
            n,
            (term_value(lin_term(c.c, env, p), m) - term_value(lin_term(c.a, env, p), m)
                * term_value(lin_term(c.b, env, p), m)) / p,
            term_value(lin_term(c.a, env, p), m) / p,
            term_value(lin_term(c.b, env, p), m) / p,
            term_value(lin_term(c.c, env, p), m) / p,
        ),
{
    let r = encoding_ranges(c, b, p);
    let va = lin_term(c.a, env, p);
    let vb = lin_term(c.b, env, p);
    let vc = lin_term(c.c, env, p);
    let a = term_value(va, m);
    let bv = term_value(vb, m);
    let cv = term_value(vc, m);
    let d = cv - a * bv;
    let w = with_quotients(m, n, d / p, a / p, bv / p, cv / p);
    let qa = quotient_iv(r.0, p);
    let qb = quotient_iv(r.1, p);
    let qc = quotient_iv(r.2, p);
    // the terms have the same values in both models, within their ranges
    lemma_lin_term_same(c.a, env, p, m, w);
    lemma_lin_term_same(c.b, env, p, m, w);
    lemma_lin_term_same(c.c, env, p, m, w);
    lemma_lin_term_in_bounds(c.a, env, b, p, m);
    lemma_lin_term_in_bounds(c.b, env, b, p, m);
    lemma_lin_term_in_bounds(c.c, env, b, p, m);
    lemma_iv_mul_sound(r.0, r.1, a, bv);
    // the values satisfy the constraint modulo p
    let sigma = assignment(env, m);
    lemma_lin_term_value(c.a, env, p, m);
    lemma_lin_term_value(c.b, env, p, m);
    lemma_lin_term_value(c.c, env, p, m);
    let sa = lin_value(c.a, sigma);
    let sb = lin_value(c.b, sigma);
    let sc = lin_value(c.c, sigma);
    lemma_mul_mod_noop_general(a, bv, p);
    lemma_mul_mod_noop_general(sa, sb, p);
    lemma_sub_mod_noop(a * bv, cv, p);
    lemma_sub_mod_noop(sa * sb, sc, p);
    assert((a * bv - cv) % p == 0);
    lemma_sub_mod_noop(0, a * bv - cv, p);
    lemma_small_mod(0, p as nat);
    assert(d == 0 - (a * bv - cv));
    assert(d % p == 0);
    lemma_quotient_in_range(r.0, a, p);
    lemma_quotient_in_range(r.1, bv, p);
    lemma_quotient_in_range(r.2, cv, p);
    lemma_quotient_in_range(iv_sub(r.2, iv_mul(r.0, r.1)), d, p);
    lemma_guards_hold(qa, Var::QuotientA(n), w);
    lemma_guards_hold(qb, Var::QuotientB(n), w);
    let a_vanishes = multiple_equation(va, qa, Var::QuotientA(n), p);
    let b_vanishes = multiple_equation(vb, qb, Var::QuotientB(n), p);
    // where C is a multiple of p, A or B is one
    if cv % p == 0 {
        lemma_sub_mod_noop(a * bv - cv, -cv, p);
        lemma_sub_mod_noop(0, cv, p);
        assert((a * bv) % p == 0) by {
            lemma_mod_multiples_vanish(cv / p, a * bv - cv, p);
            assert(a * bv == p * (cv / p) + (a * bv - cv)) by (nonlinear_arith)
                requires
                    cv == (cv / p) * p,
            ;
        }
        assert(vanishes(a, bv, p));
        if a % p == 0 {
            lemma_multiple_equation_holds(va, qa, Var::QuotientA(n), p, w);
        } else {
            lemma_multiple_equation_holds(vb, qb, Var::QuotientB(n), p, w);
        }
        assert(holds(a_vanishes, w) || holds(b_vanishes, w));
    }
    reveal_with_fuel(holds, 3);
    if product_vanishes(c, b, p) {
        assert(cv == 0);
        let either = FormulaView::Or(Box::new(a_vanishes), Box::new(b_vanishes));
        assert(holds(either, w));
        let last = seq![either];
        assert(all_hold(last, w));
        lemma_all_hold_concat(
            multiple_guards(qa, Var::QuotientA(n)),
            multiple_guards(qb, Var::QuotientB(n)),
            w,
        );
        lemma_all_hold_concat(
            multiple_guards(qa, Var::QuotientA(n)) + multiple_guards(qb, Var::QuotientB(n)),
            last,
            w,
        );
    } else {
        let q = equation_quotient(c, b, p);
        let c_vanishes = multiple_equation(vc, qc, Var::QuotientC(n), p);
        let lemma_formula = FormulaView::Or(
            Box::new(
                FormulaView::Or(
                    Box::new(FormulaView::Not(Box::new(c_vanishes))),
                    Box::new(a_vanishes),
                ),
            ),
            Box::new(b_vanishes),
        );
        if cv % p != 0 {
            if holds(c_vanishes, w) {
                lemma_multiple_equation(vc, qc, Var::QuotientC(n), p, w);
            }
            assert(!holds(c_vanishes, w));
        }
        assert(holds(lemma_formula, w));
        let difference = TermView::Sub(
            Box::new(vc),
            Box::new(TermView::Mul(Box::new(va), Box::new(vb))),
        );
        let equation = multiple_equation(difference, q, Var::Quotient(n), p);
        assert(term_value(difference, w) == d) by {
            reveal_with_fuel(term_value, 3);
        }
        lemma_multiple_equation_holds(difference, q, Var::Quotient(n), p, w);
        lemma_guards_hold(qc, Var::QuotientC(n), w);
        lemma_guards_hold(q, Var::Quotient(n), w);
        let g1 = multiple_guards(qc, Var::QuotientC(n));
        let g2 = multiple_guards(qa, Var::QuotientA(n));
        let g3 = multiple_guards(qb, Var::QuotientB(n));
        let l = seq![lemma_formula];
        let g4 = multiple_guards(q, Var::Quotient(n));
        let e = seq![equation];
        assert(all_hold(l, w));
        assert(all_hold(e, w));
        lemma_all_hold_concat(g1, g2, w);
        lemma_all_hold_concat(g1 + g2, g3, w);
        lemma_all_hold_concat(g1 + g2 + g3, l, w);
        lemma_all_hold_concat(g1 + g2 + g3 + l, g4, w);
        lemma_all_hold_concat(g1 + g2 + g3 + l + g4, e, w);
    }
    w
}

/// The encoding of a constraint is exact. Let a model keep the variables of
/// the signals within the ranges that the encoding reads for them. Then
/// the assignment that it gives satisfies the constraint modulo `p`
/// exactly where the four quotient variables of the encoding can be given
/// values with which every formula of the encoding holds.
pub proof fn lemma_constraint_encoding_exact(
    c: ConstraintView,
    env: Map<usize, Var>,
    b: Map<usize, Iv>,
    p: int,
    n: usize,
    m: spec_fn(Var) -> int,
)
    requires
        p > 1,
        no_zero_divisors(p),
        canonical_terms(c.a, p),
        canonical_terms(c.b, p),
        canonical_terms(c.c, p),
        strict_range(b, 0, p).contains(1),
        kept_in_range(c.a, env, b, p, m),
        kept_in_range(c.b, env, b, p, m),
        kept_in_range(c.c, env, b, p, m),
    ensures
        c.satisfied(assignment(env, m), p) <==> exists|k: int, ka: int, kb: int, kc: int|
            all_hold(
                constraint_encoding(c, env, b, p, n),
                #[trigger] with_quotients(m, n, k, ka, kb, kc),
            ),
{
    if c.satisfied(assignment(env, m), p) {
        let w = lemma_constraint_encoding_complete(c, env, b, p, n, m);
    }
    if exists|k: int, ka: int, kb: int, kc: int|
        all_hold(
            constraint_encoding(c, env, b, p, n),
            #[trigger] with_quotients(m, n, k, ka, kb, kc),
        ) {
        let (k, ka, kb, kc) = choose|k: int, ka: int, kb: int, kc: int|
            all_hold(
                constraint_encoding(c, env, b, p, n),
                #[trigger] with_quotients(m, n, k, ka, kb, kc),
            );
        let w = with_quotients(m, n, k, ka, kb, kc);
        lemma_constraint_encoding_sound(c, env, b, p, n, w);
        lemma_lin_term_same(c.a, env, p, m, w);
        lemma_lin_term_same(c.b, env, p, m, w);
        lemma_lin_term_same(c.c, env, p, m, w);
        let a = term_value(lin_term(c.a, env, p), m);
        let bv = term_value(lin_term(c.b, env, p), m);
        let cv = term_value(lin_term(c.c, env, p), m);
        let sigma = assignment(env, m);
        lemma_lin_term_value(c.a, env, p, m);
        lemma_lin_term_value(c.b, env, p, m);
        lemma_lin_term_value(c.c, env, p, m);
        let sa = lin_value(c.a, sigma);
        let sb = lin_value(c.b, sigma);
        let sc = lin_value(c.c, sigma);
        lemma_mul_mod_noop_general(a, bv, p);
        lemma_mul_mod_noop_general(sa, sb, p);
        lemma_sub_mod_noop(a * bv, cv, p);
        lemma_sub_mod_noop(sa * sb, sc, p);
    }
}

/// A sum of four multiples of `p` is a multiple of `p`.
proof fn lemma_sum_of_multiples(w: int, x: int, y: int, z: int, p: int)
    requires
        p > 0,
        w % p == 0,
        x % p == 0,
        y % p == 0,
        z % p == 0,
    ensures
        (w + x + y + z) % p == 0,
{
    lemma_fundamental_div_mod(w, p);
    lemma_fundamental_div_mod(x, p);
    lemma_fundamental_div_mod(y, p);
    lemma_fundamental_div_mod(z, p);
    let k = w / p + x / p + y / p + z / p;
    assert(w + x + y + z == k * p) by (nonlinear_arith)
        requires
            w == p * (w / p),
            x == p * (x / p),
            y == p * (y / p),
            z == p * (z / p),
            k == w / p + x / p + y / p + z / p,
    ;
    lemma_mod_multiples_basic(k, p);
}

/// A multiple of `p` times any integer, and the negative of a multiple of
/// `p`, are multiples of `p`.
proof fn lemma_multiple_scaled(x: int, f: int, p: int)
    requires
        p > 0,
        x % p == 0,
    ensures
        (x * f) % p == 0,
        (f * x) % p == 0,
        (-x) % p == 0,
{
    lemma_fundamental_div_mod(x, p);
    let k = x / p;
    assert(x * f == (k * f) * p) by (nonlinear_arith)
        requires
            x == p * k,
    ;
    assert(f * x == (k * f) * p) by (nonlinear_arith)
        requires
            x == p * k,
    ;
    assert(-x == (-k) * p) by (nonlinear_arith)
        requires
            x == p * k,
    ;
    lemma_mod_multiples_basic(k * f, p);
    lemma_mod_multiples_basic(-k, p);
}

/// What two solutions of `a * b = c` modulo `p` have in common, the
/// integers modulo `p` having no zero divisors: where the factors agree
/// the products do, and where one factor and the product agree and that
/// factor does not vanish, the other factor agrees.
proof fn lemma_two_solutions(a: int, b: int, c: int, a2: int, b2: int, c2: int, p: int)
    requires
        p > 1,
        no_zero_divisors(p),
        (a * b - c) % p == 0,
        (a2 * b2 - c2) % p == 0,
    ensures
        (a - a2) % p == 0 && (b - b2) % p == 0 ==> (c - c2) % p == 0,
        (a - a2) % p == 0 && a % p != 0 && (c - c2) % p == 0 ==> (b - b2) % p == 0,
        (b - b2) % p == 0 && b % p != 0 && (c - c2) % p == 0 ==> (a - a2) % p == 0,
{
    lemma_multiple_scaled(a * b - c, 1, p);
    if (a - a2) % p == 0 && (b - b2) % p == 0 {
        lemma_multiple_scaled(b - b2, a, p);
        lemma_multiple_scaled(a - a2, b2, p);
        lemma_sum_of_multiples(-(a * b - c), a * (b - b2), (a - a2) * b2, a2 * b2 - c2, p);
        assert(c - c2 == -(a * b - c) + a * (b - b2) + (a - a2) * b2 + (a2 * b2 - c2))
            by (nonlinear_arith);
    }
    if (a - a2) % p == 0 && a % p != 0 && (c - c2) % p == 0 {
        lemma_multiple_scaled(a2 * b2 - c2, 1, p);
        lemma_multiple_scaled(a - a2, b2, p);
        lemma_multiple_scaled((a - a2) * b2, 1, p);
        lemma_sum_of_multiples(a * b - c, c - c2, -(a2 * b2 - c2), -((a - a2) * b2), p);
        assert(a * (b - b2) == (a * b - c) + (c - c2) + (-(a2 * b2 - c2)) + (-((a - a2) * b2)))
            by (nonlinear_arith);
        assert(vanishes(a, b - b2, p));
    }
    if (b - b2) % p == 0 && b % p != 0 && (c - c2) % p == 0 {
        lemma_multiple_scaled(a2 * b2 - c2, 1, p);
        lemma_multiple_scaled(b - b2, a2, p);
        lemma_multiple_scaled(a2 * (b - b2), 1, p);
        lemma_sum_of_multiples(a * b - c, c - c2, -(a2 * b2 - c2), -(a2 * (b - b2)), p);
        assert(b * (a - a2) == (a * b - c) + (c - c2) + (-(a2 * b2 - c2)) + (-(a2 * (b - b2))))
            by (nonlinear_arith);
        assert(vanishes(b, a - a2, p));
    }
}

/// The homologue formulas of a constraint hold of two executions that each
/// satisfy the constraint. Let the assignments that a model gives through
/// the variables of the first and of the second execution both satisfy the
/// constraint modulo `p`, the integers modulo `p` having no zero divisors.
/// Then the three formulas hold in the model.
pub proof fn lemma_homologue_formulas_hold(
    c: ConstraintView,
    env: Map<usize, Var>,
    shadow: Map<usize, Var>,
    p: int,
    m: spec_fn(Var) -> int,
)
    requires
        p > 1,
        no_zero_divisors(p),
        c.satisfied(assignment(env, m), p),
        c.satisfied(assignment(shadow, m), p),
    ensures
        all_hold(homologue_formulas(c, env, shadow, p), m),
{
    let va = lin_term(c.a, env, p);
    let vb = lin_term(c.b, env, p);
    let vc = lin_term(c.c, env, p);
    let wa = lin_term(c.a, shadow, p);
    let wb = lin_term(c.b, shadow, p);
    let wc = lin_term(c.c, shadow, p);
    let a = term_value(va, m);
    let b = term_value(vb, m);
    let cv = term_value(vc, m);
    let a2 = term_value(wa, m);
    let b2 = term_value(wb, m);
    let c2 = term_value(wc, m);
    lemma_terms_satisfy(c, env, p, m);
    lemma_terms_satisfy(c, shadow, p, m);
    lemma_two_solutions(a, b, cv, a2, b2, c2, p);
    let aa = congruent(va, wa, p);
    let bb = congruent(vb, wb, p);
    let cc = congruent(vc, wc, p);
    assert(holds(aa, m) == ((a - a2) % p == 0)) by {
        reveal_with_fuel(holds, 2);
        reveal_with_fuel(term_value, 4);
    }
    assert(holds(bb, m) == ((b - b2) % p == 0)) by {
        reveal_with_fuel(holds, 2);
        reveal_with_fuel(term_value, 4);
    }
    assert(holds(cc, m) == ((cv - c2) % p == 0)) by {
        reveal_with_fuel(holds, 2);
        reveal_with_fuel(term_value, 4);
    }
    assert(holds(nonzero(va, p), m) == (a % p != 0)) by {
        reveal_with_fuel(holds, 3);
        reveal_with_fuel(term_value, 3);
    }
    assert(holds(nonzero(vb, p), m) == (b % p != 0)) by {
        reveal_with_fuel(holds, 3);
        reveal_with_fuel(term_value, 3);
    }
    let fs = homologue_formulas(c, env, shadow, p);
    assert(fs.len() == 3);
    assert(holds(fs[0], m)) by {
        reveal_with_fuel(holds, 4);
    }
    assert(holds(fs[1], m)) by {
        reveal_with_fuel(holds, 5);
    }
    assert(holds(fs[2], m)) by {
        reveal_with_fuel(holds, 5);
    }
}

/// The homologue formulas of a list of constraints hold of two executions
/// that each satisfy every constraint of the list.
pub proof fn lemma_homologues_hold(
    cs: Seq<ConstraintView>,
    env: Map<usize, Var>,
    shadow: Map<usize, Var>,
    p: int,
    m: spec_fn(Var) -> int,
)
    requires
        p > 1,
        no_zero_divisors(p),
        forall|i: int|
            0 <= i < cs.len() ==> (#[trigger] cs[i]).satisfied(assignment(env, m), p)
                && cs[i].satisfied(assignment(shadow, m), p),
    ensures
        all_hold(homologues(cs, env, shadow, p), m),
    decreases cs.len(),
{
    if cs.len() > 0 {
        let rest = cs.drop_last();
        assert forall|i: int| 0 <= i < rest.len() implies (#[trigger] rest[i]).satisfied(
            assignment(env, m),
            p,
        ) && rest[i].satisfied(assignment(shadow, m), p) by {
            assert(rest[i] == cs[i]);
        }
        lemma_homologues_hold(rest, env, shadow, p, m);
        assert(cs[cs.len() - 1].satisfied(assignment(env, m), p));
        if constraint_covered(cs.last(), env) && constraint_covered(cs.last(), shadow) {
            lemma_homologue_formulas_hold(cs.last(), env, shadow, p, m);
            lemma_all_hold_concat(
                homologues(rest, env, shadow, p),
                homologue_formulas(cs.last(), env, shadow, p),
                m,
            );
        }
    }
}

/// The terms of a constraint satisfy the constraint modulo `p` in a model
/// whose assignment does.
proof fn lemma_terms_satisfy(c: ConstraintView, env: Map<usize, Var>, p: int, m: spec_fn(Var) -> int)
    requires
        p > 0,
        c.satisfied(assignment(env, m), p),
    ensures
        (term_value(lin_term(c.a, env, p), m) * term_value(lin_term(c.b, env, p), m) - term_value(
            lin_term(c.c, env, p),
            m,
        )) % p == 0,
{
    let a = term_value(lin_term(c.a, env, p), m);
    let bv = term_value(lin_term(c.b, env, p), m);
    let cv = term_value(lin_term(c.c, env, p), m);
    let sigma = assignment(env, m);
    lemma_lin_term_value(c.a, env, p, m);
    lemma_lin_term_value(c.b, env, p, m);
    lemma_lin_term_value(c.c, env, p, m);
    let sa = lin_value(c.a, sigma);
    let sb = lin_value(c.b, sigma);
    let sc = lin_value(c.c, sigma);
    lemma_mul_mod_noop_general(a, bv, p);
    lemma_mul_mod_noop_general(sa, sb, p);
    lemma_sub_mod_noop(a * bv, cv, p);
    lemma_sub_mod_noop(sa * sb, sc, p);
}

/// A conjunction built on `acc` holds exactly where `acc` and every formula
/// that was conjoined to it hold.
pub proof fn lemma_conjoined_holds(acc: FormulaView, fs: Seq<FormulaView>, m: spec_fn(Var) -> int)
    ensures
        holds(conjoined(acc, fs), m) == (holds(acc, m) && all_hold(fs, m)),
    decreases fs.len(),
{
    if fs.len() > 0 {
        lemma_conjoined_holds(acc, fs.drop_last(), m);
        if all_hold(fs.drop_last(), m) && holds(fs.last(), m) {
            assert forall|i: int| 0 <= i < fs.len() implies holds(#[trigger] fs[i], m) by {
                if i < fs.len() - 1 {
                    assert(fs.drop_last()[i] == fs[i]);
                }
            }
        }
        if all_hold(fs, m) {
            assert forall|i: int| 0 <= i < fs.drop_last().len() implies holds(
                #[trigger] fs.drop_last()[i],
                m,
            ) by {
                assert(fs.drop_last()[i] == fs[i]);
            }
            assert(holds(fs[fs.len() - 1], m));
        }
    }
}

} // verus!
