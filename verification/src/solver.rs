//! Posing a list of formulas to the Z3 solver.
//!
//! The formulas are rebuilt as terms of the solver, one constructor of the
//! solver's library for each node. Those constructors stop the program when
//! they are given terms of two different solver contexts; the contracts
//! below follow the context that every term belongs to, and the verified
//! code proves that the contexts never mix. They also follow what every
//! term of the solver is built from, so that what is asserted to the solver
//! is known to be the list of formulas, node for node.
use vstd::prelude::*;
use num_bigint_dig::BigInt;
use z3::ast::Ast;
use crate::bigint::value_of;
use crate::smt::{Var, Term, Formula, TermView, FormulaView, formula_views};
use crate::verdict::PossibleResult;

verus! {

#[verifier::external_type_specification]
#[verifier::external_body]
pub struct ExConfig(z3::Config);

#[verifier::external_type_specification]
#[verifier::external_body]
pub struct ExContext(z3::Context);

#[verifier::external_type_specification]
#[verifier::external_body]
pub struct ExSolver<'ctx>(z3::Solver<'ctx>);

#[verifier::external_type_specification]
#[verifier::external_body]
pub struct ExModel<'ctx>(z3::Model<'ctx>);

#[verifier::external_type_specification]
#[verifier::external_body]
pub struct ExInt<'ctx>(z3::ast::Int<'ctx>);

#[verifier::external_type_specification]
#[verifier::external_body]
pub struct ExBool<'ctx>(z3::ast::Bool<'ctx>);

/// The identity of a solver context.
pub uninterp spec fn context_key(ctx: &z3::Context) -> int;

/// The identity of the context that an integer term of the solver belongs to.
pub uninterp spec fn int_home(t: &z3::ast::Int) -> int;

/// The identity of the context that a formula of the solver belongs to.
pub uninterp spec fn bool_home(t: &z3::ast::Bool) -> int;

/// An integer term as the solver holds it: a numeral, a constant known by
/// its name, or an operator of the solver on terms.
pub enum SolverTerm {
    Numeral(int),
    Named(Seq<char>),
    Add(Box<SolverTerm>, Box<SolverTerm>),
    Sub(Box<SolverTerm>, Box<SolverTerm>),
    Mul(Box<SolverTerm>, Box<SolverTerm>),
    Div(Box<SolverTerm>, Box<SolverTerm>),
    Mod(Box<SolverTerm>, Box<SolverTerm>),
    Neg(Box<SolverTerm>),
}

/// A formula as the solver holds it.
pub enum SolverFormula {
    Const(bool),
    Le(SolverTerm, SolverTerm),
    Lt(SolverTerm, SolverTerm),
    Ge(SolverTerm, SolverTerm),
    Gt(SolverTerm, SolverTerm),
    Eq(SolverTerm, SolverTerm),
    Iff(Box<SolverFormula>, Box<SolverFormula>),
    And(Box<SolverFormula>, Box<SolverFormula>),
    Or(Box<SolverFormula>, Box<SolverFormula>),
    Implies(Box<SolverFormula>, Box<SolverFormula>),
    Not(Box<SolverFormula>),
}

/// What an integer term of the solver is built from.
pub uninterp spec fn int_denotes(t: &z3::ast::Int) -> SolverTerm;

/// What a formula of the solver is built from.
pub uninterp spec fn bool_denotes(t: &z3::ast::Bool) -> SolverFormula;

/// The formulas asserted to a solver, in the order of their assertion.
pub uninterp spec fn solver_assertions(s: z3::Solver) -> Seq<SolverFormula>;

/// The identity of the context that a solver belongs to.
pub uninterp spec fn solver_home(s: z3::Solver) -> int;

/// The identity of the context that a model belongs to.
pub uninterp spec fn model_home(m: z3::Model) -> int;

/// The time limit of a query that a configuration records, in
/// milliseconds. The largest number of 32 bits stands for no limit.
pub uninterp spec fn config_timeout(c: z3::Config) -> u64;

/// The time limit of a query in a context, in milliseconds. The largest
/// number of 32 bits stands for no limit.
pub uninterp spec fn context_timeout(ctx: &z3::Context) -> u64;

/// The longest time limit that can be set, in milliseconds: the solver
/// reads the limit as a C `long`, which has 32 bits on some machines, and
/// keeps it in 32 bits.
pub const MAX_TIMEOUT: u64 = 2147483647;

/// The time limit that a query gets when `timeout` milliseconds are asked
/// for: as many, but not more than the longest limit.
pub open spec fn time_limit(timeout: u64) -> u64 {
    if timeout <= MAX_TIMEOUT { timeout } else { MAX_TIMEOUT }
}

/// The character of a decimal digit.
pub open spec fn digit(d: nat) -> char {
    if d == 0 {
        '0'
    } else if d == 1 {
        '1'
    } else if d == 2 {
        '2'
    } else if d == 3 {
        '3'
    } else if d == 4 {
        '4'
    } else if d == 5 {
        '5'
    } else if d == 6 {
        '6'
    } else if d == 7 {
        '7'
    } else if d == 8 {
        '8'
    } else {
        '9'
    }
}

/// The decimal numeral of a number, without leading zeros.
pub open spec fn decimal_text(n: nat) -> Seq<char>
    decreases n,
{
    if n < 10 {
        seq![digit(n)]
    } else {
        decimal_text(n / 10).push(digit(n % 10))
    }
}

/// The name of the solver constant of a variable: a prefix for the kind of
/// the variable, followed by its number in decimal.
pub open spec fn var_symbol(x: Var) -> Seq<char> {
    match x {
        Var::Signal(s) => "s_"@ + decimal_text(s as nat),
        Var::Shadow(s) => "saux_"@ + decimal_text(s as nat),
        Var::Quotient(n) => "k_"@ + decimal_text(n as nat),
        Var::QuotientA(n) => "ka_"@ + decimal_text(n as nat),
        Var::QuotientB(n) => "kb_"@ + decimal_text(n as nat),
        Var::QuotientC(n) => "kc_"@ + decimal_text(n as nat),
    }
}

/// The term of the solver that a term is rebuilt as: node for node, a
/// variable as the constant of its name.
pub open spec fn lowered_term(t: TermView) -> SolverTerm
    decreases t,
{
    match t {
        TermView::Const(v) => SolverTerm::Numeral(v),
        TermView::Var(x) => SolverTerm::Named(var_symbol(x)),
        TermView::Add(l, r) => SolverTerm::Add(
            Box::new(lowered_term(*l)),
            Box::new(lowered_term(*r)),
        ),
        TermView::Sub(l, r) => SolverTerm::Sub(
            Box::new(lowered_term(*l)),
            Box::new(lowered_term(*r)),
        ),
        TermView::Mul(l, r) => SolverTerm::Mul(
            Box::new(lowered_term(*l)),
            Box::new(lowered_term(*r)),
        ),
        TermView::Div(l, r) => SolverTerm::Div(
            Box::new(lowered_term(*l)),
            Box::new(lowered_term(*r)),
        ),
        TermView::Mod(l, r) => SolverTerm::Mod(
            Box::new(lowered_term(*l)),
            Box::new(lowered_term(*r)),
        ),
        TermView::Neg(r) => SolverTerm::Neg(Box::new(lowered_term(*r))),
    }
}

/// The formula of the solver that a formula is rebuilt as, node for node.
pub open spec fn lowered_formula(f: FormulaView) -> SolverFormula
    decreases f,
{
    match f {
        FormulaView::Const(b) => SolverFormula::Const(b),
        FormulaView::Le(l, r) => SolverFormula::Le(lowered_term(l), lowered_term(r)),
        FormulaView::Lt(l, r) => SolverFormula::Lt(lowered_term(l), lowered_term(r)),
        FormulaView::Ge(l, r) => SolverFormula::Ge(lowered_term(l), lowered_term(r)),
        FormulaView::Gt(l, r) => SolverFormula::Gt(lowered_term(l), lowered_term(r)),
        FormulaView::Eq(l, r) => SolverFormula::Eq(lowered_term(l), lowered_term(r)),
        FormulaView::Iff(l, r) => SolverFormula::Iff(
            Box::new(lowered_formula(*l)),
            Box::new(lowered_formula(*r)),
        ),
        FormulaView::And(l, r) => SolverFormula::And(
            Box::new(lowered_formula(*l)),
            Box::new(lowered_formula(*r)),
        ),
        FormulaView::Or(l, r) => SolverFormula::Or(
            Box::new(lowered_formula(*l)),
            Box::new(lowered_formula(*r)),
        ),
        FormulaView::Implies(l, r) => SolverFormula::Implies(
            Box::new(lowered_formula(*l)),
            Box::new(lowered_formula(*r)),
        ),
        FormulaView::Not(r) => SolverFormula::Not(Box::new(lowered_formula(*r))),
    }
}

/// The formulas of the solver that a list of formulas is rebuilt as.
pub open spec fn lowered_formulas(fs: Seq<FormulaView>) -> Seq<SolverFormula> {
    fs.map_values(|f: FormulaView| lowered_formula(f))
}

/// Whether a text holds no NUL character, so that it can name a symbol of
/// the solver.
pub open spec fn no_nul(s: Seq<char>) -> bool {
    forall|i: int| 0 <= i < s.len() ==> s[i] != '\0'
}

/// The answer of the solver to a satisfiability query.
#[derive(Clone, Copy, Debug, PartialEq, Eq, Structural)]
pub enum CheckResult {
    Sat,
    Unsat,
    Unknown,
}

/// `Config::new`: a fresh configuration, which records no time limit.
#[verifier::external_body]
fn z3_config() -> (r: z3::Config)
    ensures
        config_timeout(r) == 4294967295,
{
    z3::Config::new()
}

/// `Config::set_timeout_msec`: records the time limit of a query, in
/// milliseconds. The solver reads the number with `strtol` and keeps it in
/// 32 bits, so a number beyond the longest limit would not be recorded as
/// it is.
#[verifier::external_body]
fn z3_set_timeout(cfg: &mut z3::Config, ms: u64)
    requires
        ms <= MAX_TIMEOUT,
    ensures
        config_timeout(*final(cfg)) == ms,
{
    cfg.set_timeout_msec(ms)
}

/// `Context::new`: a fresh context with the given configuration, and so
/// with the time limit that the configuration records.
#[verifier::external_body]
fn z3_context(cfg: &z3::Config) -> (r: z3::Context)
    ensures
        context_timeout(&r) == config_timeout(*cfg),
{
    z3::Context::new(cfg)
}

/// `Solver::new`: a solver of the context, without assertions.
#[verifier::external_body]
fn z3_solver<'c>(ctx: &'c z3::Context) -> (r: z3::Solver<'c>)
    ensures
        solver_home(r) == context_key(ctx),
        solver_assertions(r) == Seq::<SolverFormula>::empty(),
{
    z3::Solver::new(ctx)
}

/// `Int::new_const`: the integer constant of the context that is named by
/// the prefix followed by the index in decimal. The library turns the name
/// into a C string and stops on a NUL character in it.
#[verifier::external_body]
fn z3_int_const<'c>(ctx: &'c z3::Context, prefix: &str, index: usize) -> (r: z3::ast::Int<'c>)
    requires
        no_nul(prefix@),
    ensures
        int_home(&r) == context_key(ctx),
        int_denotes(&r) == SolverTerm::Named(prefix@ + decimal_text(index as nat)),
{
    z3::ast::Int::new_const(ctx, format!("{}{}", prefix, index))
}

/// `Int::from_str` on the decimal text of a big integer: the numeral of the
/// context. The solver refuses a text that holds a character which no
/// number has; the decimal text of an integer, with or without a sign,
/// holds none, so there always is a numeral.
#[verifier::external_body]
fn z3_numeral<'c>(ctx: &'c z3::Context, value: &BigInt) -> (r: Option<z3::ast::Int<'c>>)
    ensures
        r is Some,
        r matches Some(t) ==> int_home(&t) == context_key(ctx) && int_denotes(&t)
            == SolverTerm::Numeral(value_of(*value)),
{
    z3::ast::Int::from_str(ctx, &value.to_string())
}

/// `Int::add` on two terms of the context.
#[verifier::external_body]
fn z3_add<'c>(ctx: &'c z3::Context, a: &z3::ast::Int<'c>, b: &z3::ast::Int<'c>) -> (r:
    z3::ast::Int<'c>)
    requires
        int_home(a) == context_key(ctx),
        int_home(b) == context_key(ctx),
    ensures
        int_home(&r) == context_key(ctx),
        int_denotes(&r) == SolverTerm::Add(Box::new(int_denotes(a)), Box::new(int_denotes(b))),
{
    z3::ast::Int::add(ctx, &[a, b])
}

/// `Int::sub` on two terms of the context.
#[verifier::external_body]
fn z3_sub<'c>(ctx: &'c z3::Context, a: &z3::ast::Int<'c>, b: &z3::ast::Int<'c>) -> (r:
    z3::ast::Int<'c>)
    requires
        int_home(a) == context_key(ctx),
        int_home(b) == context_key(ctx),
    ensures
        int_home(&r) == context_key(ctx),
        int_denotes(&r) == SolverTerm::Sub(Box::new(int_denotes(a)), Box::new(int_denotes(b))),
{
    z3::ast::Int::sub(ctx, &[a, b])
}

/// `Int::mul` on two terms of the context.
#[verifier::external_body]
fn z3_mul<'c>(ctx: &'c z3::Context, a: &z3::ast::Int<'c>, b: &z3::ast::Int<'c>) -> (r:
    z3::ast::Int<'c>)
    requires
        int_home(a) == context_key(ctx),
        int_home(b) == context_key(ctx),
    ensures
        int_home(&r) == context_key(ctx),
        int_denotes(&r) == SolverTerm::Mul(Box::new(int_denotes(a)), Box::new(int_denotes(b))),
{
    z3::ast::Int::mul(ctx, &[a, b])
}

/// `Int::div` on two terms of one context: their integer quotient.
#[verifier::external_body]
fn z3_div<'c>(a: &z3::ast::Int<'c>, b: &z3::ast::Int<'c>) -> (r: z3::ast::Int<'c>)
    requires
        int_home(a) == int_home(b),
    ensures
        int_home(&r) == int_home(a),
        int_denotes(&r) == SolverTerm::Div(Box::new(int_denotes(a)), Box::new(int_denotes(b))),
{
    a.div(b)
}

/// `Int::modulo` on two terms of one context: the residue of the first
/// modulo the second.
#[verifier::external_body]
fn z3_modulo<'c>(a: &z3::ast::Int<'c>, b: &z3::ast::Int<'c>) -> (r: z3::ast::Int<'c>)
    requires
        int_home(a) == int_home(b),
    ensures
        int_home(&r) == int_home(a),
        int_denotes(&r) == SolverTerm::Mod(Box::new(int_denotes(a)), Box::new(int_denotes(b))),
{
    a.modulo(b)
}

/// `Int::unary_minus`: the negated term, in the same context.
#[verifier::external_body]
fn z3_neg<'c>(a: &z3::ast::Int<'c>) -> (r: z3::ast::Int<'c>)
    ensures
        int_home(&r) == int_home(a),
        int_denotes(&r) == SolverTerm::Neg(Box::new(int_denotes(a))),
{
    a.unary_minus()
}

/// `Int::le` on two terms of one context.
#[verifier::external_body]
fn z3_le<'c>(a: &z3::ast::Int<'c>, b: &z3::ast::Int<'c>) -> (r: z3::ast::Bool<'c>)
    requires
        int_home(a) == int_home(b),
    ensures
        bool_home(&r) == int_home(a),
        bool_denotes(&r) == SolverFormula::Le(int_denotes(a), int_denotes(b)),
{
    a.le(b)
}

/// `Int::lt` on two terms of one context.
#[verifier::external_body]
fn z3_lt<'c>(a: &z3::ast::Int<'c>, b: &z3::ast::Int<'c>) -> (r: z3::ast::Bool<'c>)
    requires
        int_home(a) == int_home(b),
    ensures
        bool_home(&r) == int_home(a),
        bool_denotes(&r) == SolverFormula::Lt(int_denotes(a), int_denotes(b)),
{
    a.lt(b)
}

/// `Int::ge` on two terms of one context.
#[verifier::external_body]
fn z3_ge<'c>(a: &z3::ast::Int<'c>, b: &z3::ast::Int<'c>) -> (r: z3::ast::Bool<'c>)
    requires
        int_home(a) == int_home(b),
    ensures
        bool_home(&r) == int_home(a),
        bool_denotes(&r) == SolverFormula::Ge(int_denotes(a), int_denotes(b)),
{
    a.ge(b)
}

/// `Int::gt` on two terms of one context.
#[verifier::external_body]
fn z3_gt<'c>(a: &z3::ast::Int<'c>, b: &z3::ast::Int<'c>) -> (r: z3::ast::Bool<'c>)
    requires
        int_home(a) == int_home(b),
    ensures
        bool_home(&r) == int_home(a),
        bool_denotes(&r) == SolverFormula::Gt(int_denotes(a), int_denotes(b)),
{
    a.gt(b)
}

/// `Ast::_eq` on two integer terms of one context: their equality. The
/// library stops where the sorts of the two sides differ, which two integer
/// terms of one context cannot.
#[verifier::external_body]
fn z3_int_eq<'c>(a: &z3::ast::Int<'c>, b: &z3::ast::Int<'c>) -> (r: z3::ast::Bool<'c>)
    requires
        int_home(a) == int_home(b),
    ensures
        bool_home(&r) == int_home(a),
        bool_denotes(&r) == SolverFormula::Eq(int_denotes(a), int_denotes(b)),
{
    a._eq(b)
}

/// `Bool::from_bool`: the constant formula of the context.
#[verifier::external_body]
fn z3_bool<'c>(ctx: &'c z3::Context, b: bool) -> (r: z3::ast::Bool<'c>)
    ensures
        bool_home(&r) == context_key(ctx),
        bool_denotes(&r) == SolverFormula::Const(b),
{
    z3::ast::Bool::from_bool(ctx, b)
}

/// `Bool::iff` on two formulas of one context.
#[verifier::external_body]
fn z3_iff<'c>(a: &z3::ast::Bool<'c>, b: &z3::ast::Bool<'c>) -> (r: z3::ast::Bool<'c>)
    requires
        bool_home(a) == bool_home(b),
    ensures
        bool_home(&r) == bool_home(a),
        bool_denotes(&r) == SolverFormula::Iff(
            Box::new(bool_denotes(a)),
            Box::new(bool_denotes(b)),
        ),
{
    a.iff(b)
}

/// `Bool::and` on two formulas of the context.
#[verifier::external_body]
fn z3_and<'c>(ctx: &'c z3::Context, a: &z3::ast::Bool<'c>, b: &z3::ast::Bool<'c>) -> (r:
    z3::ast::Bool<'c>)
    requires
        bool_home(a) == context_key(ctx),
        bool_home(b) == context_key(ctx),
    ensures
        bool_home(&r) == context_key(ctx),
        bool_denotes(&r) == SolverFormula::And(
            Box::new(bool_denotes(a)),
            Box::new(bool_denotes(b)),
        ),
{
    z3::ast::Bool::and(ctx, &[a, b])
}

/// `Bool::or` on two formulas of the context.
#[verifier::external_body]
fn z3_or<'c>(ctx: &'c z3::Context, a: &z3::ast::Bool<'c>, b: &z3::ast::Bool<'c>) -> (r:
    z3::ast::Bool<'c>)
    requires
        bool_home(a) == context_key(ctx),
        bool_home(b) == context_key(ctx),
    ensures
        bool_home(&r) == context_key(ctx),
        bool_denotes(&r) == SolverFormula::Or(
            Box::new(bool_denotes(a)),
            Box::new(bool_denotes(b)),
        ),
{
    z3::ast::Bool::or(ctx, &[a, b])
}

/// `Bool::implies` on two formulas of one context.
#[verifier::external_body]
fn z3_implies<'c>(a: &z3::ast::Bool<'c>, b: &z3::ast::Bool<'c>) -> (r: z3::ast::Bool<'c>)
    requires
        bool_home(a) == bool_home(b),
    ensures
        bool_home(&r) == bool_home(a),
        bool_denotes(&r) == SolverFormula::Implies(
            Box::new(bool_denotes(a)),
            Box::new(bool_denotes(b)),
        ),
{
    a.implies(b)
}

/// `Bool::not`: the negated formula, in the same context.
#[verifier::external_body]
fn z3_not<'c>(a: &z3::ast::Bool<'c>) -> (r: z3::ast::Bool<'c>)
    ensures
        bool_home(&r) == bool_home(a),
        bool_denotes(&r) == SolverFormula::Not(Box::new(bool_denotes(a))),
{
    a.not()
}

/// `Solver::assert`: adds a formula of the solver's context to the
/// assertions of the solver.
#[verifier::external_body]
fn z3_assert<'c>(solver: &mut z3::Solver<'c>, f: &z3::ast::Bool<'c>)
    requires
        bool_home(f) == solver_home(*old(solver)),
    ensures
        solver_home(*final(solver)) == solver_home(*old(solver)),
        solver_assertions(*final(solver)) == solver_assertions(*old(solver)).push(bool_denotes(f)),
{
    solver.assert(f)
}

/// `Solver::check`: asks whether the assertions can hold together. The
/// answer depends on the time that the solver is given.
#[verifier::external_body]
fn z3_check<'c>(solver: &z3::Solver<'c>) -> CheckResult {
    match solver.check() {
        z3::SatResult::Sat => CheckResult::Sat,
        z3::SatResult::Unsat => CheckResult::Unsat,
        z3::SatResult::Unknown => CheckResult::Unknown,
    }
}

/// `Solver::get_model`: the model of the last query, where there is one.
/// It belongs to the context of the solver.
#[verifier::external_body]
fn z3_model<'c>(solver: &z3::Solver<'c>) -> (r: Option<z3::Model<'c>>)
    ensures
        r matches Some(m) ==> model_home(m) == solver_home(*solver),
{
    solver.get_model()
}

/// `Model::eval` on an integer term of the model's context, and the text
/// of what it gives.
#[verifier::external_body]
fn z3_value<'c>(model: &z3::Model<'c>, t: &z3::ast::Int<'c>) -> (r: Option<String>)
    requires
        int_home(t) == model_home(*model),
{
    match model.eval(t) {
        Some(v) => Some(v.to_string()),
        None => None,
    }
}

/// What the solver made of an obligation.
#[derive(Debug)]
pub enum SolverOutcome {
    /// The assertions can hold together; the values of the watched
    /// variables in one model, each as the solver prints it.
    Sat(Vec<Option<String>>),
    /// The assertions cannot hold together.
    Unsat,
    /// The solver gave no answer.
    Unknown,
}

/// The solver constant of a variable.
fn variable_to_z3<'c>(ctx: &'c z3::Context, x: Var) -> (r: z3::ast::Int<'c>)
    ensures
        int_home(&r) == context_key(ctx),
        int_denotes(&r) == SolverTerm::Named(var_symbol(x)),
{
    proof {
        reveal_strlit("s_");
        reveal_strlit("saux_");
        reveal_strlit("k_");
        reveal_strlit("ka_");
        reveal_strlit("kb_");
        reveal_strlit("kc_");
    }
    match x {
        Var::Signal(s) => z3_int_const(ctx, "s_", s),
        Var::Shadow(s) => z3_int_const(ctx, "saux_", s),
        Var::Quotient(n) => z3_int_const(ctx, "k_", n),
        Var::QuotientA(n) => z3_int_const(ctx, "ka_", n),
        Var::QuotientB(n) => z3_int_const(ctx, "kb_", n),
        Var::QuotientC(n) => z3_int_const(ctx, "kc_", n),
    }
}

/// The numeral of an integer in the context.
fn numeral_to_z3<'c>(ctx: &'c z3::Context, v: &BigInt) -> (r: z3::ast::Int<'c>)
    ensures
        int_home(&r) == context_key(ctx),
        int_denotes(&r) == SolverTerm::Numeral(value_of(*v)),
{
    match z3_numeral(ctx, v) {
        Some(t) => t,
        None => unreached(),
    }
}

/// Rebuilds a term as a term of the solver in the context, node for node.
fn term_to_z3<'c>(ctx: &'c z3::Context, t: &Term) -> (r: z3::ast::Int<'c>)
    ensures
        int_home(&r) == context_key(ctx),
        int_denotes(&r) == lowered_term(t@),
    decreases t,
{
    match t {
        Term::Const(v) => numeral_to_z3(ctx, v),
        Term::Var(x) => variable_to_z3(ctx, *x),
        Term::Neg(r) => {
            let a = term_to_z3(ctx, r);
            z3_neg(&a)
        },
        Term::Add(l, r) => {
            let a = term_to_z3(ctx, l);
            let b = term_to_z3(ctx, r);
            z3_add(ctx, &a, &b)
        },
        Term::Sub(l, r) => {
            let a = term_to_z3(ctx, l);
            let b = term_to_z3(ctx, r);
            z3_sub(ctx, &a, &b)
        },
        Term::Mul(l, r) => {
            let a = term_to_z3(ctx, l);
            let b = term_to_z3(ctx, r);
            z3_mul(ctx, &a, &b)
        },
        Term::Div(l, r) => {
            let a = term_to_z3(ctx, l);
            let b = term_to_z3(ctx, r);
            z3_div(&a, &b)
        },
        Term::Mod(l, r) => {
            let a = term_to_z3(ctx, l);
            let b = term_to_z3(ctx, r);
            z3_modulo(&a, &b)
        },
    }
}

/// Rebuilds a formula as a formula of the solver in the context, node for
/// node.
fn formula_to_z3<'c>(ctx: &'c z3::Context, f: &Formula) -> (r: z3::ast::Bool<'c>)
    ensures
        bool_home(&r) == context_key(ctx),
        bool_denotes(&r) == lowered_formula(f@),
    decreases f,
{
    match f {
        Formula::Const(b) => z3_bool(ctx, *b),
        Formula::Le(l, r) => {
            let a = term_to_z3(ctx, l);
            let b = term_to_z3(ctx, r);
            z3_le(&a, &b)
        },
        Formula::Lt(l, r) => {
            let a = term_to_z3(ctx, l);
            let b = term_to_z3(ctx, r);
            z3_lt(&a, &b)
        },
        Formula::Ge(l, r) => {
            let a = term_to_z3(ctx, l);
            let b = term_to_z3(ctx, r);
            z3_ge(&a, &b)
        },
        Formula::Gt(l, r) => {
            let a = term_to_z3(ctx, l);
            let b = term_to_z3(ctx, r);
            z3_gt(&a, &b)
        },
        Formula::Eq(l, r) => {
            let a = term_to_z3(ctx, l);
            let b = term_to_z3(ctx, r);
            z3_int_eq(&a, &b)
        },
        Formula::Iff(l, r) => {
            let a = formula_to_z3(ctx, l);
            let b = formula_to_z3(ctx, r);
            z3_iff(&a, &b)
        },
        Formula::And(l, r) => {
            let a = formula_to_z3(ctx, l);
            let b = formula_to_z3(ctx, r);
            z3_and(ctx, &a, &b)
        },
        Formula::Or(l, r) => {
            let a = formula_to_z3(ctx, l);
            let b = formula_to_z3(ctx, r);
            z3_or(ctx, &a, &b)
        },
        Formula::Implies(l, r) => {
            let a = formula_to_z3(ctx, l);
            let b = formula_to_z3(ctx, r);
            z3_implies(&a, &b)
        },
        Formula::Not(r) => {
            let a = formula_to_z3(ctx, r);
            z3_not(&a)
        },
    }
}

/// A solver of the context to which the formulas are asserted, node for
/// node and in order.
fn pose<'c>(ctx: &'c z3::Context, assertions: &Vec<Formula>) -> (solver: z3::Solver<'c>)
    ensures
        solver_home(solver) == context_key(ctx),
        solver_assertions(solver) == lowered_formulas(formula_views(assertions@)),
{
    let ghost all = formula_views(assertions@);
    let mut solver = z3_solver(ctx);
    let mut i: usize = 0;
    assert(solver_assertions(solver) =~= lowered_formulas(all.take(0)));
    while i < assertions.len()
        invariant
            i <= assertions.len(),
            all == formula_views(assertions@),
            solver_home(solver) == context_key(ctx),
            solver_assertions(solver) == lowered_formulas(all.take(i as int)),
        decreases assertions.len() - i,
    {
        assert(all[i as int] == assertions@[i as int]@);
        let f = formula_to_z3(ctx, &assertions[i]);
        z3_assert(&mut solver, &f);
        assert(solver_assertions(solver) =~= lowered_formulas(all.take(i + 1)));
        i += 1;
    }
    assert(all.take(assertions@.len() as int) =~= all);
    solver
}

/// The values of the watched variables in the model of the solver, in the
/// order of `watch`; no value where the solver has no model or the model
/// gives none.
fn read_model<'c>(ctx: &'c z3::Context, solver: &z3::Solver<'c>, watch: &Vec<Var>) -> (values: Vec<
    Option<String>,
>)
    requires
        solver_home(*solver) == context_key(ctx),
    ensures
        values@.len() == watch@.len(),
{
    let mut values: Vec<Option<String>> = Vec::new();
    let model = z3_model(solver);
    let mut k: usize = 0;
    while k < watch.len()
        invariant
            k <= watch.len(),
            values@.len() == k,
            model matches Some(m) ==> model_home(m) == context_key(ctx),
        decreases watch.len() - k,
    {
        let value = match &model {
            Some(m) => {
                let x = variable_to_z3(ctx, watch[k]);
                z3_value(m, &x)
            },
            None => None,
        };
        values.push(value);
        k += 1;
    }
    values
}

/// What an answer of the solver makes of an obligation: the values read
/// from the model where the assertions can hold together, and the answer
/// itself otherwise.
pub fn outcome_of(answer: CheckResult, values: Vec<Option<String>>) -> (r: SolverOutcome)
    ensures
        r == (match answer {
            CheckResult::Sat => SolverOutcome::Sat(values),
            CheckResult::Unsat => SolverOutcome::Unsat,
            CheckResult::Unknown => SolverOutcome::Unknown,
        }),
{
    match answer {
        CheckResult::Sat => SolverOutcome::Sat(values),
        CheckResult::Unsat => SolverOutcome::Unsat,
        CheckResult::Unknown => SolverOutcome::Unknown,
    }
}

/// A fresh context in which a query has `timeout` milliseconds, or the
/// longest limit where `timeout` is beyond it.
fn limited_context(timeout: u64) -> (ctx: z3::Context)
    ensures
        context_timeout(&ctx) == time_limit(timeout),
{
    let limit: u64 = if timeout <= MAX_TIMEOUT { timeout } else { MAX_TIMEOUT };
    let mut cfg = z3_config();
    z3_set_timeout(&mut cfg, limit);
    z3_context(&cfg)
}

/// Asks the solver whether the assertions can hold together, giving it
/// `timeout` milliseconds, or `MAX_TIMEOUT` where `timeout` is beyond that.
/// The formulas are asserted to a fresh solver, node for node and in order.
/// Where the assertions can hold together, the values of the variables in
/// `watch` are read from the model that the solver found, in the order of
/// `watch`.
pub fn solve(assertions: &Vec<Formula>, timeout: u64, watch: &Vec<Var>) -> (r: SolverOutcome)
    ensures
        r matches SolverOutcome::Sat(values) ==> values@.len() == watch@.len(),
{
    let ctx = limited_context(timeout);
    let solver = pose(&ctx, assertions);
    let answer = z3_check(&solver);
    let values = match answer {
        CheckResult::Sat => read_model(&ctx, &solver, watch),
        _ => Vec::new(),
    };
    outcome_of(answer, values)
}

/// The verdict that an answer of the solver gives to an obligation: proved
/// where the negated obligation cannot hold, failed where it can, unknown
/// where the solver gave no answer.
pub fn verdict_of(outcome: &SolverOutcome) -> (r: PossibleResult)
    ensures
        r == (match *outcome {
            SolverOutcome::Unsat => PossibleResult::VERIFIED,
            SolverOutcome::Sat(_) => PossibleResult::FAILED,
            SolverOutcome::Unknown => PossibleResult::UNKNOWN,
        }),
{
    match outcome {
        SolverOutcome::Unsat => PossibleResult::VERIFIED,
        SolverOutcome::Sat(_) => PossibleResult::FAILED,
        SolverOutcome::Unknown => PossibleResult::UNKNOWN,
    }
}

} // verus!
