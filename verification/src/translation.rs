//! Reading annotations as solver terms.
//!
//! An expression in integer position becomes an integer term, one in boolean
//! position a formula. Not every expression has a reading: an operator may
//! have none in the position, a shift may be by something else than a
//! literal, a signal may have no variable. Such an expression is reported as
//! untranslatable and the caller leaves the annotation out.
use vstd::prelude::*;
use vstd::arithmetic::power::pow;
use std::collections::HashMap;
use num_bigint_dig::BigInt;
use crate::bigint::{value_of, big_from_u64, big_eq, big_to_usize, big_pow};
use crate::field::{to_signed, to_neg};
use crate::expression::{Expression, ExpressionView, ExpressionInfixOpcode, ExpressionPrefixOpcode};
use crate::smt::{Var, Term, Formula, TermView, FormulaView};

verus! {

broadcast use vstd::std_specs::hash::group_hash_axioms;

/// The number of places of a shift: the value of a literal that is not
/// negative and fits a machine word.
pub open spec fn shift_amount(e: ExpressionView) -> Option<nat> {
    match e {
        ExpressionView::Number(_, v) => if 0 <= v <= usize::MAX {
            Some(v as nat)
        } else {
            None
        },
        _ => None,
    }
}

/// The integer term that an expression stands for, if it has one. A literal
/// stands for its signed representative; a signal for its variable; a shift
/// by a literal for a multiplication or division by a power of two.
pub open spec fn int_term(e: ExpressionView, env: Map<usize, Var>, p: int) -> Option<TermView>
    decreases e,
{
    match e {
        ExpressionView::Number(_, v) => Some(TermView::Const(to_signed(v, p))),
        ExpressionView::Variable(_, s) => if env.contains_key(s) {
            Some(TermView::Var(env[s]))
        } else {
            None
        },
        ExpressionView::InfixOp(_, l, op, r) => match (int_term(*l, env, p), int_term(*r, env, p)) {
            (Some(lt), Some(rt)) => match op {
                ExpressionInfixOpcode::Mul => Some(TermView::Mul(Box::new(lt), Box::new(rt))),
                ExpressionInfixOpcode::Add => Some(TermView::Add(Box::new(lt), Box::new(rt))),
                ExpressionInfixOpcode::Sub => Some(TermView::Sub(Box::new(lt), Box::new(rt))),
                ExpressionInfixOpcode::Mod => Some(TermView::Mod(Box::new(lt), Box::new(rt))),
                ExpressionInfixOpcode::IntDiv => Some(TermView::Div(Box::new(lt), Box::new(rt))),
                ExpressionInfixOpcode::ShiftL => match shift_amount(*r) {
                    Some(k) => Some(
                        TermView::Mul(Box::new(lt), Box::new(TermView::Const(pow(2, k)))),
                    ),
                    None => None,
                },
                ExpressionInfixOpcode::ShiftR => match shift_amount(*r) {
                    Some(k) => Some(
                        TermView::Div(Box::new(lt), Box::new(TermView::Const(pow(2, k)))),
                    ),
                    None => None,
                },
                _ => None,
            },
            _ => None,
        },
        ExpressionView::PrefixOp(_, op, r) => match int_term(*r, env, p) {
            Some(rt) => if op == ExpressionPrefixOpcode::Sub {
                Some(TermView::Neg(Box::new(rt)))
            } else {
                None
            },
            None => None,
        },
    }
}

/// The formula that an expression stands for, if it has one. A literal
/// stands for `false` when it is zero and for `true` otherwise; a signal for
/// its being different from zero. An equality is read between integers where
/// both sides have an integer reading and between formulas otherwise.
pub open spec fn bool_formula(e: ExpressionView, env: Map<usize, Var>, p: int) -> Option<
    FormulaView,
>
    decreases e,
{
    match e {
        ExpressionView::Number(_, v) => Some(FormulaView::Const(v != 0)),
        ExpressionView::Variable(_, s) => if env.contains_key(s) {
            Some(
                FormulaView::Not(
                    Box::new(FormulaView::Eq(TermView::Var(env[s]), TermView::Const(0))),
                ),
            )
        } else {
            None
        },
        ExpressionView::InfixOp(_, l, op, r) => match op {
            ExpressionInfixOpcode::LesserEq
            | ExpressionInfixOpcode::GreaterEq
            | ExpressionInfixOpcode::Lesser
            | ExpressionInfixOpcode::Greater => match (int_term(*l, env, p), int_term(*r, env, p)) {
                (Some(lt), Some(rt)) => Some(
                    match op {
                        ExpressionInfixOpcode::LesserEq => FormulaView::Le(lt, rt),
                        ExpressionInfixOpcode::GreaterEq => FormulaView::Ge(lt, rt),
                        ExpressionInfixOpcode::Lesser => FormulaView::Lt(lt, rt),
                        _ => FormulaView::Gt(lt, rt),
                    },
                ),
                _ => None,
            },
            ExpressionInfixOpcode::Eq | ExpressionInfixOpcode::NotEq => {
                let equal = match (int_term(*l, env, p), int_term(*r, env, p)) {
                    (Some(lt), Some(rt)) => Some(FormulaView::Eq(lt, rt)),
                    _ => match (bool_formula(*l, env, p), bool_formula(*r, env, p)) {
                        (Some(lf), Some(rf)) => Some(FormulaView::Iff(Box::new(lf), Box::new(rf))),
                        _ => None,
                    },
                };
                match equal {
                    Some(f) => if op == ExpressionInfixOpcode::Eq {
                        Some(f)
                    } else {
                        Some(FormulaView::Not(Box::new(f)))
                    },
                    None => None,
                }
            },
            ExpressionInfixOpcode::BoolOr
            | ExpressionInfixOpcode::BitOr
            | ExpressionInfixOpcode::BoolAnd
            | ExpressionInfixOpcode::BitAnd
            | ExpressionInfixOpcode::BoolImplication => match (
                bool_formula(*l, env, p),
                bool_formula(*r, env, p),
            ) {
                (Some(lf), Some(rf)) => Some(
                    match op {
                        ExpressionInfixOpcode::BoolOr | ExpressionInfixOpcode::BitOr => FormulaView::Or(
                            Box::new(lf),
                            Box::new(rf),
                        ),
                        ExpressionInfixOpcode::BoolAnd
                        | ExpressionInfixOpcode::BitAnd => FormulaView::And(
                            Box::new(lf),
                            Box::new(rf),
                        ),
                        _ => FormulaView::Implies(Box::new(lf), Box::new(rf)),
                    },
                ),
                _ => None,
            },
            _ => None,
        },
        ExpressionView::PrefixOp(_, op, r) => match bool_formula(*r, env, p) {
            Some(rf) => if op == ExpressionPrefixOpcode::BoolNot {
                Some(FormulaView::Not(Box::new(rf)))
            } else {
                None
            },
            None => None,
        },
    }
}

/// The power of two that a shift by the literal `expr` multiplies or divides
/// by; none when `expr` is no literal or its value is no number of places.
fn shift_factor(expr: &Expression) -> (r: Option<Term>)
    ensures
        match r {
            Some(t) => shift_amount(expr@) matches Some(k) && t@ == TermView::Const(pow(2, k)),
            None => shift_amount(expr@) is None,
        },
{
    match expr {
        Expression::Number(_, value) => match big_to_usize(value) {
            Some(k) => {
                let two = big_from_u64(2);
                Some(Term::Const(big_pow(&two, k)))
            },
            None => None,
        },
        _ => None,
    }
}

/// Reads `expr` as an integer term over the variables that
/// `signals_to_smt_symbols` gives to the signals.
pub fn get_z3_expression_int(
    expr: &Expression,
    signals_to_smt_symbols: &HashMap<usize, Var>,
    field: &BigInt,
) -> (r: Result<Term, ()>)
    requires
        value_of(*field) > 0,
    ensures
        match r {
            Ok(t) => int_term(expr@, signals_to_smt_symbols@, value_of(*field)) == Some(t@),
            Err(_) => int_term(expr@, signals_to_smt_symbols@, value_of(*field)) is None,
        },
    decreases expr,
{
    match expr {
        Expression::Number(_, v) => Ok(Term::Const(to_neg(v, field))),
        Expression::Variable { signal, .. } => match signals_to_smt_symbols.get(signal) {
            Some(x) => Ok(Term::Var(*x)),
            None => Err(()),
        },
        Expression::InfixOp { lhe, infix_op, rhe, .. } => {
            let l = match get_z3_expression_int(lhe, signals_to_smt_symbols, field) {
                Ok(t) => t,
                Err(_) => {
                    return Err(());
                },
            };
            let r = match get_z3_expression_int(rhe, signals_to_smt_symbols, field) {
                Ok(t) => t,
                Err(_) => {
                    return Err(());
                },
            };
            match infix_op {
                ExpressionInfixOpcode::Mul => Ok(Term::Mul(Box::new(l), Box::new(r))),
                ExpressionInfixOpcode::Add => Ok(Term::Add(Box::new(l), Box::new(r))),
                ExpressionInfixOpcode::Sub => Ok(Term::Sub(Box::new(l), Box::new(r))),
                ExpressionInfixOpcode::Mod => Ok(Term::Mod(Box::new(l), Box::new(r))),
                ExpressionInfixOpcode::IntDiv => Ok(Term::Div(Box::new(l), Box::new(r))),
                ExpressionInfixOpcode::ShiftL => match shift_factor(rhe) {
                    Some(factor) => Ok(Term::Mul(Box::new(l), Box::new(factor))),
                    None => Err(()),
                },
                ExpressionInfixOpcode::ShiftR => match shift_factor(rhe) {
                    Some(factor) => Ok(Term::Div(Box::new(l), Box::new(factor))),
                    None => Err(()),
                },
                _ => Err(()),
            }
        },
        Expression::PrefixOp { prefix_op, rhe, .. } => {
            match get_z3_expression_int(rhe, signals_to_smt_symbols, field) {
                Ok(r) => match prefix_op {
                    ExpressionPrefixOpcode::Sub => Ok(Term::Neg(Box::new(r))),
                    _ => Err(()),
                },
                Err(_) => Err(()),
            }
        },
    }
}

/// Reads `expr` as a formula over the variables that
/// `signals_to_smt_symbols` gives to the signals.
pub fn get_z3_expression_bool(
    expr: &Expression,
    signals_to_smt_symbols: &HashMap<usize, Var>,
    field: &BigInt,
) -> (r: Result<Formula, ()>)
    requires
        value_of(*field) > 0,
    ensures
        match r {
            Ok(f) => bool_formula(expr@, signals_to_smt_symbols@, value_of(*field)) == Some(f@),
            Err(_) => bool_formula(expr@, signals_to_smt_symbols@, value_of(*field)) is None,
        },
    decreases expr,
{
    match expr {
        Expression::Number(_, v) => {
            let zero = big_from_u64(0);
            Ok(Formula::Const(!big_eq(v, &zero)))
        },
        Expression::Variable { signal, .. } => match signals_to_smt_symbols.get(signal) {
            Some(x) => {
                let is_zero = Formula::Eq(Term::Var(*x), Term::Const(big_from_u64(0)));
                assert(is_zero@ == FormulaView::Eq(TermView::Var(*x), TermView::Const(0)));
                Ok(Formula::Not(Box::new(is_zero)))
            },
            None => Err(()),
        },
        Expression::InfixOp { lhe, infix_op, rhe, .. } => {
            match infix_op {
                ExpressionInfixOpcode::LesserEq
                | ExpressionInfixOpcode::GreaterEq
                | ExpressionInfixOpcode::Lesser
                | ExpressionInfixOpcode::Greater => {
                    let l = match get_z3_expression_int(lhe, signals_to_smt_symbols, field) {
                        Ok(t) => t,
                        Err(_) => {
                            return Err(());
                        },
                    };
                    let r = match get_z3_expression_int(rhe, signals_to_smt_symbols, field) {
                        Ok(t) => t,
                        Err(_) => {
                            return Err(());
                        },
                    };
                    let f = match infix_op {
                        ExpressionInfixOpcode::LesserEq => Formula::Le(l, r),
                        ExpressionInfixOpcode::GreaterEq => Formula::Ge(l, r),
                        ExpressionInfixOpcode::Lesser => Formula::Lt(l, r),
                        _ => Formula::Gt(l, r),
                    };
                    assert(bool_formula(expr@, signals_to_smt_symbols@, value_of(*field)) == Some(f@));
                    Ok(f)
                },
                ExpressionInfixOpcode::Eq | ExpressionInfixOpcode::NotEq => {
                    let l_int = get_z3_expression_int(lhe, signals_to_smt_symbols, field);
                    let r_int = get_z3_expression_int(rhe, signals_to_smt_symbols, field);
                    let ghost reading = match (
                        int_term(lhe@, signals_to_smt_symbols@, value_of(*field)),
                        int_term(rhe@, signals_to_smt_symbols@, value_of(*field)),
                    ) {
                        (Some(lt), Some(rt)) => Some(FormulaView::Eq(lt, rt)),
                        _ => match (
                            bool_formula(lhe@, signals_to_smt_symbols@, value_of(*field)),
                            bool_formula(rhe@, signals_to_smt_symbols@, value_of(*field)),
                        ) {
                            (Some(lf), Some(rf)) => Some(
                                FormulaView::Iff(Box::new(lf), Box::new(rf)),
                            ),
                            _ => None,
                        },
                    };
                    let equal = match (l_int, r_int) {
                        (Ok(l), Ok(r)) => {
                            let f = Formula::Eq(l, r);
                            assert(reading == Some(f@));
                            f
                        },
                        _ => {
                            let l = match get_z3_expression_bool(
                                lhe,
                                signals_to_smt_symbols,
                                field,
                            ) {
                                Ok(f) => f,
                                Err(_) => {
                                    return Err(());
                                },
                            };
                            let r = match get_z3_expression_bool(
                                rhe,
                                signals_to_smt_symbols,
                                field,
                            ) {
                                Ok(f) => f,
                                Err(_) => {
                                    return Err(());
                                },
                            };
                            let f = Formula::Iff(Box::new(l), Box::new(r));
                            assert(reading == Some(f@));
                            f
                        },
                    };
                    assert(reading == Some(equal@));
                    let f = match infix_op {
                        ExpressionInfixOpcode::Eq => equal,
                        _ => Formula::Not(Box::new(equal)),
                    };
                    assert(bool_formula(expr@, signals_to_smt_symbols@, value_of(*field)) == Some(f@));
                    Ok(f)
                },
                ExpressionInfixOpcode::BoolOr
                | ExpressionInfixOpcode::BitOr
                | ExpressionInfixOpcode::BoolAnd
                | ExpressionInfixOpcode::BitAnd
                | ExpressionInfixOpcode::BoolImplication => {
                    let l = match get_z3_expression_bool(lhe, signals_to_smt_symbols, field) {
                        Ok(f) => f,
                        Err(_) => {
                            return Err(());
                        },
                    };
                    let r = match get_z3_expression_bool(rhe, signals_to_smt_symbols, field) {
                        Ok(f) => f,
                        Err(_) => {
                            return Err(());
                        },
                    };
                    let f = match infix_op {
                        ExpressionInfixOpcode::BoolOr | ExpressionInfixOpcode::BitOr => Formula::Or(
                            Box::new(l),
                            Box::new(r),
                        ),
                        ExpressionInfixOpcode::BoolAnd | ExpressionInfixOpcode::BitAnd => Formula::And(
                            Box::new(l),
                            Box::new(r),
                        ),
                        _ => Formula::Implies(Box::new(l), Box::new(r)),
                    };
                    assert(bool_formula(expr@, signals_to_smt_symbols@, value_of(*field)) == Some(f@));
                    Ok(f)
                },
                _ => Err(()),
            }
        },
        Expression::PrefixOp { prefix_op, rhe, .. } => {
            match get_z3_expression_bool(rhe, signals_to_smt_symbols, field) {
                Ok(r) => match prefix_op {
                    ExpressionPrefixOpcode::BoolNot => Ok(Formula::Not(Box::new(r))),
                    _ => Err(()),
                },
                Err(_) => Err(()),
            }
        },
    }
}

} // verus!
