//! Integer terms and formulas handed to the solver, and what they mean.
//!
//! An obligation is posed to the solver as a list of formulas over integer
//! variables. The terms and formulas are plain data; `term_value` and
//! `holds` give them the meaning that the solver gives to linear integer
//! arithmetic, so that statements about an encoding can be proved of the
//! data itself.
use vstd::prelude::*;
use num_bigint_dig::BigInt;
use crate::bigint::{value_of, big_clone};

verus! {

/// An integer variable of an obligation.
#[derive(Clone, Copy, Debug, PartialEq, Eq, Structural)]
pub enum Var {
    /// The value of a signal.
    Signal(usize),
    /// The value of a signal in the second of two executions.
    Shadow(usize),
    /// The quotient by the modulus of `C - A * B` in the numbered encoding
    /// of a constraint.
    Quotient(usize),
    /// The quotient by the modulus of `A` in a numbered encoding.
    QuotientA(usize),
    /// The quotient by the modulus of `B` in a numbered encoding.
    QuotientB(usize),
    /// The quotient by the modulus of `C` in a numbered encoding.
    QuotientC(usize),
}

/// An integer term.
#[derive(Debug)]
pub enum Term {
    Const(BigInt),
    Var(Var),
    Add(Box<Term>, Box<Term>),
    Sub(Box<Term>, Box<Term>),
    Mul(Box<Term>, Box<Term>),
    Div(Box<Term>, Box<Term>),
    Mod(Box<Term>, Box<Term>),
    Neg(Box<Term>),
}

/// A formula over integer terms.
#[derive(Debug)]
pub enum Formula {
    Const(bool),
    Le(Term, Term),
    Lt(Term, Term),
    Ge(Term, Term),
    Gt(Term, Term),
    Eq(Term, Term),
    Iff(Box<Formula>, Box<Formula>),
    And(Box<Formula>, Box<Formula>),
    Or(Box<Formula>, Box<Formula>),
    Implies(Box<Formula>, Box<Formula>),
    Not(Box<Formula>),
}

/// The mathematical content of a term.
pub enum TermView {
    Const(int),
    Var(Var),
    Add(Box<TermView>, Box<TermView>),
    Sub(Box<TermView>, Box<TermView>),
    Mul(Box<TermView>, Box<TermView>),
    Div(Box<TermView>, Box<TermView>),
    Mod(Box<TermView>, Box<TermView>),
    Neg(Box<TermView>),
}

/// The mathematical content of a formula.
pub enum FormulaView {
    Const(bool),
    Le(TermView, TermView),
    Lt(TermView, TermView),
    Ge(TermView, TermView),
    Gt(TermView, TermView),
    Eq(TermView, TermView),
    Iff(Box<FormulaView>, Box<FormulaView>),
    And(Box<FormulaView>, Box<FormulaView>),
    Or(Box<FormulaView>, Box<FormulaView>),
    Implies(Box<FormulaView>, Box<FormulaView>),
    Not(Box<FormulaView>),
}

impl Term {
    /// The mathematical content of the term.
    pub open spec fn content(self) -> TermView
        decreases self,
    {
        match self {
            Term::Const(v) => TermView::Const(value_of(v)),
            Term::Var(x) => TermView::Var(x),
            Term::Add(l, r) => TermView::Add(Box::new(l.content()), Box::new(r.content())),
            Term::Sub(l, r) => TermView::Sub(Box::new(l.content()), Box::new(r.content())),
            Term::Mul(l, r) => TermView::Mul(Box::new(l.content()), Box::new(r.content())),
            Term::Div(l, r) => TermView::Div(Box::new(l.content()), Box::new(r.content())),
            Term::Mod(l, r) => TermView::Mod(Box::new(l.content()), Box::new(r.content())),
            Term::Neg(r) => TermView::Neg(Box::new(r.content())),
        }
    }

    /// The term of a constant.
    pub fn constant(v: BigInt) -> (r: Term)
        ensures
            r@ == TermView::Const(value_of(v)),
    {
        Term::Const(v)
    }

    /// The term of a variable.
    pub fn variable(x: Var) -> (r: Term)
        ensures
            r@ == TermView::Var(x),
    {
        Term::Var(x)
    }

    /// The sum `l + r`.
    pub fn plus(l: Term, r: Term) -> (t: Term)
        ensures
            t@ == TermView::Add(Box::new(l@), Box::new(r@)),
    {
        Term::Add(Box::new(l), Box::new(r))
    }

    /// The difference `l - r`.
    pub fn minus(l: Term, r: Term) -> (t: Term)
        ensures
            t@ == TermView::Sub(Box::new(l@), Box::new(r@)),
    {
        Term::Sub(Box::new(l), Box::new(r))
    }

    /// The product `l * r`.
    pub fn times(l: Term, r: Term) -> (t: Term)
        ensures
            t@ == TermView::Mul(Box::new(l@), Box::new(r@)),
    {
        Term::Mul(Box::new(l), Box::new(r))
    }

    /// The residue `l mod r`.
    pub fn modulo(l: Term, r: Term) -> (t: Term)
        ensures
            t@ == TermView::Mod(Box::new(l@), Box::new(r@)),
    {
        Term::Mod(Box::new(l), Box::new(r))
    }

    /// A copy of the term.
    pub fn copy(&self) -> (r: Term)
        ensures
            r@ == self@,
        decreases self,
    {
        match self {
            Term::Const(v) => Term::Const(big_clone(v)),
            Term::Var(x) => Term::Var(*x),
            Term::Add(l, r) => Term::Add(Box::new(l.copy()), Box::new(r.copy())),
            Term::Sub(l, r) => Term::Sub(Box::new(l.copy()), Box::new(r.copy())),
            Term::Mul(l, r) => Term::Mul(Box::new(l.copy()), Box::new(r.copy())),
            Term::Div(l, r) => Term::Div(Box::new(l.copy()), Box::new(r.copy())),
            Term::Mod(l, r) => Term::Mod(Box::new(l.copy()), Box::new(r.copy())),
            Term::Neg(r) => Term::Neg(Box::new(r.copy())),
        }
    }
}

impl View for Term {
    type V = TermView;

    open spec fn view(&self) -> TermView {
        self.content()
    }
}

impl Formula {
    /// The mathematical content of the formula.
    pub open spec fn content(self) -> FormulaView
        decreases self,
    {
        match self {
            Formula::Const(b) => FormulaView::Const(b),
            Formula::Le(l, r) => FormulaView::Le(l@, r@),
            Formula::Lt(l, r) => FormulaView::Lt(l@, r@),
            Formula::Ge(l, r) => FormulaView::Ge(l@, r@),
            Formula::Gt(l, r) => FormulaView::Gt(l@, r@),
            Formula::Eq(l, r) => FormulaView::Eq(l@, r@),
            Formula::Iff(l, r) => FormulaView::Iff(Box::new(l.content()), Box::new(r.content())),
            Formula::And(l, r) => FormulaView::And(Box::new(l.content()), Box::new(r.content())),
            Formula::Or(l, r) => FormulaView::Or(Box::new(l.content()), Box::new(r.content())),
            Formula::Implies(l, r) => FormulaView::Implies(
                Box::new(l.content()),
                Box::new(r.content()),
            ),
            Formula::Not(r) => FormulaView::Not(Box::new(r.content())),
        }
    }

    /// The formula `l <= r`.
    pub fn le(l: Term, r: Term) -> (f: Formula)
        ensures
            f@ == FormulaView::Le(l@, r@),
    {
        Formula::Le(l, r)
    }

    /// The formula `l < r`.
    pub fn lt(l: Term, r: Term) -> (f: Formula)
        ensures
            f@ == FormulaView::Lt(l@, r@),
    {
        Formula::Lt(l, r)
    }

    /// The formula `l >= r`.
    pub fn ge(l: Term, r: Term) -> (f: Formula)
        ensures
            f@ == FormulaView::Ge(l@, r@),
    {
        Formula::Ge(l, r)
    }

    /// The formula `l = r`.
    pub fn equal(l: Term, r: Term) -> (f: Formula)
        ensures
            f@ == FormulaView::Eq(l@, r@),
    {
        Formula::Eq(l, r)
    }

    /// The conjunction of two formulas.
    pub fn and(l: Formula, r: Formula) -> (f: Formula)
        ensures
            f@ == FormulaView::And(Box::new(l@), Box::new(r@)),
    {
        Formula::And(Box::new(l), Box::new(r))
    }

    /// The disjunction of two formulas.
    pub fn or(l: Formula, r: Formula) -> (f: Formula)
        ensures
            f@ == FormulaView::Or(Box::new(l@), Box::new(r@)),
    {
        Formula::Or(Box::new(l), Box::new(r))
    }

    /// The implication from `l` to `r`.
    pub fn implies(l: Formula, r: Formula) -> (f: Formula)
        ensures
            f@ == FormulaView::Implies(Box::new(l@), Box::new(r@)),
    {
        Formula::Implies(Box::new(l), Box::new(r))
    }

    /// The negation of a formula.
    pub fn not(r: Formula) -> (f: Formula)
        ensures
            f@ == FormulaView::Not(Box::new(r@)),
    {
        Formula::Not(Box::new(r))
    }

    /// A copy of the formula.
    pub fn copy(&self) -> (r: Formula)
        ensures
            r@ == self@,
        decreases self,
    {
        match self {
            Formula::Const(b) => Formula::Const(*b),
            Formula::Le(l, r) => Formula::Le(l.copy(), r.copy()),
            Formula::Lt(l, r) => Formula::Lt(l.copy(), r.copy()),
            Formula::Ge(l, r) => Formula::Ge(l.copy(), r.copy()),
            Formula::Gt(l, r) => Formula::Gt(l.copy(), r.copy()),
            Formula::Eq(l, r) => Formula::Eq(l.copy(), r.copy()),
            Formula::Iff(l, r) => Formula::Iff(Box::new(l.copy()), Box::new(r.copy())),
            Formula::And(l, r) => Formula::And(Box::new(l.copy()), Box::new(r.copy())),
            Formula::Or(l, r) => Formula::Or(Box::new(l.copy()), Box::new(r.copy())),
            Formula::Implies(l, r) => Formula::Implies(Box::new(l.copy()), Box::new(r.copy())),
            Formula::Not(r) => Formula::Not(Box::new(r.copy())),
        }
    }
}

impl View for Formula {
    type V = FormulaView;

    open spec fn view(&self) -> FormulaView {
        self.content()
    }
}

/// The contents of a list of formulas.
pub open spec fn formula_views(s: Seq<Formula>) -> Seq<FormulaView> {
    s.map_values(|f: Formula| f@)
}

/// The value of a term when the variables have the values that `m` gives.
/// Division and modulus are those of the integers with a remainder that is
/// never negative.
pub open spec fn term_value(t: TermView, m: spec_fn(Var) -> int) -> int
    decreases t,
{
    match t {
        TermView::Const(v) => v,
        TermView::Var(x) => m(x),
        TermView::Add(l, r) => term_value(*l, m) + term_value(*r, m),
        TermView::Sub(l, r) => term_value(*l, m) - term_value(*r, m),
        TermView::Mul(l, r) => term_value(*l, m) * term_value(*r, m),
        TermView::Div(l, r) => term_value(*l, m) / term_value(*r, m),
        TermView::Mod(l, r) => term_value(*l, m) % term_value(*r, m),
        TermView::Neg(r) => -term_value(*r, m),
    }
}

/// Whether a formula holds when the variables have the values that `m`
/// gives.
pub open spec fn holds(f: FormulaView, m: spec_fn(Var) -> int) -> bool
    decreases f,
{
    match f {
        FormulaView::Const(b) => b,
        FormulaView::Le(l, r) => term_value(l, m) <= term_value(r, m),
        FormulaView::Lt(l, r) => term_value(l, m) < term_value(r, m),
        FormulaView::Ge(l, r) => term_value(l, m) >= term_value(r, m),
        FormulaView::Gt(l, r) => term_value(l, m) > term_value(r, m),
        FormulaView::Eq(l, r) => term_value(l, m) == term_value(r, m),
        FormulaView::Iff(l, r) => holds(*l, m) == holds(*r, m),
        FormulaView::And(l, r) => holds(*l, m) && holds(*r, m),
        FormulaView::Or(l, r) => holds(*l, m) || holds(*r, m),
        FormulaView::Implies(l, r) => holds(*l, m) ==> holds(*r, m),
        FormulaView::Not(r) => !holds(*r, m),
    }
}

/// Whether every formula of a list holds.
pub open spec fn all_hold(fs: Seq<FormulaView>, m: spec_fn(Var) -> int) -> bool {
    forall|i: int| 0 <= i < fs.len() ==> holds(#[trigger] fs[i], m)
}

} // verus!
