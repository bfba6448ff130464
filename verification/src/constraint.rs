//! Rank-1 constraints over the prime field.
//!
//! A constraint is a triple of linear combinations `(A, B, C)` and asserts
//! `A * B = C (mod p)`. A linear combination is a list of terms, each a
//! signal with its coefficient; signal `0` is the constant one, so its
//! coefficient is the constant of the combination.
use vstd::prelude::*;
use num_bigint_dig::BigInt;
use crate::bigint::{value_of, big_clone, big_from_u64, big_eq};
use crate::field::modulus;
use vstd::arithmetic::div_mod::{lemma_mul_mod_noop_left, lemma_add_mod_noop, lemma_mod_twice, lemma_small_mod};

verus! {

/// The mathematical content of a linear combination: its terms with every
/// coefficient replaced by the integer it stands for.
pub open spec fn terms_of(lc: Seq<(usize, BigInt)>) -> Seq<(usize, int)> {
    lc.map_values(|t: (usize, BigInt)| (t.0, value_of(t.1)))
}

/// The value that an assignment gives to a signal; signal `0` is always one.
pub open spec fn signal_value(sigma: spec_fn(usize) -> int, s: usize) -> int {
    if s == 0 { 1 } else { sigma(s) }
}

/// The value of a linear combination under an assignment of the signals.
pub open spec fn lin_value(le: Seq<(usize, int)>, sigma: spec_fn(usize) -> int) -> int
    decreases le.len(),
{
    if le.len() == 0 {
        0
    } else {
        lin_value(le.drop_last(), sigma) + le.last().1 * signal_value(sigma, le.last().0)
    }
}

/// The terms with every coefficient reduced modulo `p` and the terms whose
/// coefficient vanishes left out.
pub open spec fn reduced(le: Seq<(usize, int)>, p: int) -> Seq<(usize, int)>
    decreases le.len(),
{
    if le.len() == 0 {
        Seq::empty()
    } else if le.last().1 % p == 0 {
        reduced(le.drop_last(), p)
    } else {
        reduced(le.drop_last(), p).push((le.last().0, le.last().1 % p))
    }
}

/// The terms with every signal but the constant one moved up by `offset`.
pub open spec fn moved(le: Seq<(usize, int)>, offset: int) -> Seq<(usize, int)> {
    le.map_values(|t: (usize, int)| if t.0 == 0 { t } else { ((t.0 + offset) as usize, t.1) })
}

/// Whether every signal of the terms is at most `bound`.
pub open spec fn signals_within(le: Seq<(usize, int)>, bound: int) -> bool {
    forall|i: int| 0 <= i < le.len() ==> (#[trigger] le[i]).0 <= bound
}

/// A rank-1 constraint `A * B = C`.
#[derive(Debug)]
pub struct Constraint {
    pub a: Vec<(usize, BigInt)>,
    pub b: Vec<(usize, BigInt)>,
    pub c: Vec<(usize, BigInt)>,
}

/// The mathematical content of a constraint.
pub struct ConstraintView {
    pub a: Seq<(usize, int)>,
    pub b: Seq<(usize, int)>,
    pub c: Seq<(usize, int)>,
}

impl ConstraintView {
    /// Whether the assignment satisfies the constraint modulo `p`.
    pub open spec fn satisfied(self, sigma: spec_fn(usize) -> int, p: int) -> bool {
        (lin_value(self.a, sigma) * lin_value(self.b, sigma) - lin_value(self.c, sigma)) % p == 0
    }
}

impl View for Constraint {
    type V = ConstraintView;

    open spec fn view(&self) -> ConstraintView {
        ConstraintView { a: terms_of(self.a@), b: terms_of(self.b@), c: terms_of(self.c@) }
    }
}

/// The contents of a list of constraints.
pub open spec fn constraint_views(s: Seq<Constraint>) -> Seq<ConstraintView> {
    s.map_values(|c: Constraint| c@)
}

/// A copy of a linear combination.
pub fn copy_terms(le: &Vec<(usize, BigInt)>) -> (r: Vec<(usize, BigInt)>)
    ensures
        terms_of(r@) == terms_of(le@),
{
    let mut out: Vec<(usize, BigInt)> = Vec::new();
    let mut i: usize = 0;
    while i < le.len()
        invariant
            i <= le.len(),
            out@.len() == i,
            forall|j: int| 0 <= j < i ==> out@[j].0 == le@[j].0 && value_of(out@[j].1) == value_of(
                le@[j].1,
            ),
        decreases le.len() - i,
    {
        out.push((le[i].0, big_clone(&le[i].1)));
        i += 1;
    }
    assert(terms_of(out@) =~= terms_of(le@));
    out
}

/// The combination with its coefficients brought into `[0, p)` and its
/// vanishing terms removed.
pub fn fix_terms(le: &Vec<(usize, BigInt)>, field: &BigInt) -> (r: Vec<(usize, BigInt)>)
    requires
        value_of(*field) > 0,
    ensures
        terms_of(r@) == reduced(terms_of(le@), value_of(*field)),
{
    let zero = big_from_u64(0);
    let mut out: Vec<(usize, BigInt)> = Vec::new();
    let mut i: usize = 0;
    while i < le.len()
        invariant
            i <= le.len(),
            value_of(zero) == 0,
            value_of(*field) > 0,
            terms_of(out@) == reduced(terms_of(le@).take(i as int), value_of(*field)),
        decreases le.len() - i,
    {
        let coef = modulus(&le[i].1, field);
        proof {
            let all = terms_of(le@);
            assert(all.take(i + 1).drop_last() =~= all.take(i as int));
            assert(all.take(i + 1).last() == all[i as int]);
        }
        if !big_eq(&coef, &zero) {
            let ghost before = out@;
            out.push((le[i].0, coef));
            assert(terms_of(out@) =~= terms_of(before).push((le@[i as int].0, value_of(coef))));
        }
        i += 1;
    }
    assert(terms_of(le@).take(le@.len() as int) =~= terms_of(le@));
    out
}

/// The combination with every signal but the constant one moved up by
/// `offset`.
pub fn offset_terms(le: &Vec<(usize, BigInt)>, offset: usize) -> (r: Vec<(usize, BigInt)>)
    requires
        signals_within(terms_of(le@), usize::MAX - offset),
    ensures
        terms_of(r@) == moved(terms_of(le@), offset as int),
{
    let mut out: Vec<(usize, BigInt)> = Vec::new();
    let mut i: usize = 0;
    while i < le.len()
        invariant
            i <= le.len(),
            out@.len() == i,
            signals_within(terms_of(le@), usize::MAX - offset),
            forall|j: int|
                0 <= j < i ==> (#[trigger] out@[j]).0 == (if le@[j].0 == 0 {
                    0
                } else {
                    le@[j].0 + offset
                }) && value_of(out@[j].1) == value_of(le@[j].1),
        decreases le.len() - i,
    {
        let s: usize = le[i].0;
        assert(terms_of(le@)[i as int].0 == s);
        let moved_signal: usize = if s == 0 { 0 } else { s + offset };
        out.push((moved_signal, big_clone(&le[i].1)));
        i += 1;
    }
    assert(terms_of(out@) =~= moved(terms_of(le@), offset as int));
    out
}

impl Constraint {
    /// The constraint `a * b = c`.
    pub fn new(a: Vec<(usize, BigInt)>, b: Vec<(usize, BigInt)>, c: Vec<(usize, BigInt)>) -> (r:
        Constraint)
        ensures
            r.a == a,
            r.b == b,
            r.c == c,
    {
        Constraint { a, b, c }
    }

    pub fn a(&self) -> (r: &Vec<(usize, BigInt)>)
        ensures
            *r == self.a,
    {
        &self.a
    }

    pub fn b(&self) -> (r: &Vec<(usize, BigInt)>)
        ensures
            *r == self.b,
    {
        &self.b
    }

    pub fn c(&self) -> (r: &Vec<(usize, BigInt)>)
        ensures
            *r == self.c,
    {
        &self.c
    }

    /// Whether the constraint has no term at all.
    pub fn is_empty(&self) -> (r: bool)
        ensures
            r == (self@.a.len() == 0 && self@.b.len() == 0 && self@.c.len() == 0),
    {
        self.a.len() == 0 && self.b.len() == 0 && self.c.len() == 0
    }

    /// A copy of the constraint.
    pub fn copy(&self) -> (r: Constraint)
        ensures
            r@ == self@,
    {
        Constraint { a: copy_terms(&self.a), b: copy_terms(&self.b), c: copy_terms(&self.c) }
    }

    /// Brings the coefficients of the constraint to canonical reduced form:
    /// each in `[0, p)`, none zero.
    pub fn fix_constraint(constraint: &mut Constraint, field: &BigInt)
        requires
            value_of(*field) > 0,
        ensures
            final(constraint)@ == (ConstraintView {
                a: reduced(old(constraint)@.a, value_of(*field)),
                b: reduced(old(constraint)@.b, value_of(*field)),
                c: reduced(old(constraint)@.c, value_of(*field)),
            }),
    {
        let a = fix_terms(&constraint.a, field);
        let b = fix_terms(&constraint.b, field);
        let c = fix_terms(&constraint.c, field);
        constraint.a = a;
        constraint.b = b;
        constraint.c = c;
    }

    /// A copy of the constraint with its signals moved up by `offset`; the
    /// constant signal stays.
    pub fn apply_offset(&self, offset: usize) -> (r: Constraint)
        requires
            signals_within(self@.a, usize::MAX - offset),
            signals_within(self@.b, usize::MAX - offset),
            signals_within(self@.c, usize::MAX - offset),
        ensures
            r@ == (ConstraintView {
                a: moved(self@.a, offset as int),
                b: moved(self@.b, offset as int),
                c: moved(self@.c, offset as int),
            }),
    {
        Constraint {
            a: offset_terms(&self.a, offset),
            b: offset_terms(&self.b, offset),
            c: offset_terms(&self.c, offset),
        }
    }
}

/// A copy of every constraint of a list.
pub fn copy_constraints(list: &Vec<Constraint>) -> (r: Vec<Constraint>)
    ensures
        constraint_views(r@) == constraint_views(list@),
{
    let mut out: Vec<Constraint> = Vec::new();
    let mut i: usize = 0;
    while i < list.len()
        invariant
            i <= list.len(),
            out@.len() == i,
            forall|j: int| 0 <= j < i ==> out@[j]@ == list@[j]@,
        decreases list.len() - i,
    {
        out.push(list[i].copy());
        i += 1;
    }
    assert(constraint_views(out@) =~= constraint_views(list@));
    out
}

/// Reducing the coefficients of a combination modulo `p` does not change its
/// value modulo `p`.
pub proof fn lemma_reduced_value(le: Seq<(usize, int)>, sigma: spec_fn(usize) -> int, p: int)
    requires
        p > 0,
    ensures
        lin_value(reduced(le, p), sigma) % p == lin_value(le, sigma) % p,
    decreases le.len(),
{
    if le.len() > 0 {
        let rest = le.drop_last();
        lemma_reduced_value(rest, sigma, p);
        let c = le.last().1;
        let v = signal_value(sigma, le.last().0);
        let l = lin_value(rest, sigma);
        let r = lin_value(reduced(rest, p), sigma);
        lemma_mul_mod_noop_left(c, v, p);
        lemma_add_mod_noop(l, c * v, p);
        assert(lin_value(le, sigma) == l + c * v);
        if c % p == 0 {
            assert((c % p) * v == 0) by (nonlinear_arith)
                requires
                    c % p == 0,
            ;
            lemma_mod_twice(l, p);
            lemma_small_mod(0, p as nat);
            assert((c * v) % p == 0);
            assert((l + c * v) % p == l % p);
            assert(reduced(le, p) == reduced(rest, p));
        } else {
            let red = reduced(le, p);
            assert(red.drop_last() =~= reduced(rest, p));
            assert(red.last() == (le.last().0, c % p));
            assert(lin_value(red, sigma) == r + (c % p) * v);
            lemma_add_mod_noop(r, (c % p) * v, p);
            assert((r + (c % p) * v) % p == (l + c * v) % p);
        }
    } else {
        assert(reduced(le, p) =~= le);
    }
}

} // verus!
