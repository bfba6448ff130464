//! The intervals that an annotation implies for the signals it compares
//! with literals.
//!
//! An assumption such as `k <= s` or `s < k` bounds the signal `s`. A
//! conjunction bounds every signal that either side bounds, by the common
//! part of the two intervals where both do. A disjunction bounds only the
//! signals that both sides bound, each by the least interval that holds
//! the two intervals: whichever side is true, the signal lies in it.
use vstd::prelude::*;
use num_bigint_dig::BigInt;
use crate::bigint::{value_of, big_from_u64, big_add, big_sub, big_clone};
use crate::interval::{Iv, iv_meet, iv_join, big_min, big_max};
use crate::expression::{Expression, ExpressionView, ExpressionInfixOpcode};
use crate::bounds::ExecutedInequation;

verus! {

/// One side of a comparison, as far as bounds are concerned.
#[derive(Debug)]
pub enum PossibleBounds {
    Signal(usize),
    Number(BigInt),
    NoBound,
}

/// The mathematical content of a list of intervals: each signal with its
/// interval, in the order of the list.
pub open spec fn entries_of(l: Seq<ExecutedInequation>) -> Seq<(usize, Iv)> {
    l.map_values(|e: ExecutedInequation| (e.signal, e@))
}

/// The place of the first entry for `s`, if there is one.
pub open spec fn find_entry(l: Seq<(usize, Iv)>, s: usize) -> Option<int>
    decreases l.len(),
{
    if l.len() == 0 {
        None
    } else {
        match find_entry(l.drop_last(), s) {
            Some(i) => Some(i),
            None => if l.last().0 == s { Some(l.len() - 1) } else { None },
        }
    }
}

/// The list with the interval of `s` set to `iv`: in place where `s` has an
/// entry, at the end otherwise.
pub open spec fn with_entry(l: Seq<(usize, Iv)>, s: usize, iv: Iv) -> Seq<(usize, Iv)> {
    match find_entry(l, s) {
        Some(i) => l.update(i, (s, iv)),
        None => l.push((s, iv)),
    }
}

/// The list with every entry of `xs` set in it, one after the other.
pub open spec fn with_entries(l: Seq<(usize, Iv)>, xs: Seq<(usize, Iv)>) -> Seq<(usize, Iv)>
    decreases xs.len(),
{
    if xs.len() == 0 {
        l
    } else {
        with_entry(with_entries(l, xs.drop_last()), xs.last().0, xs.last().1)
    }
}

/// The list after each entry of `ys` has been met with the entry of the same
/// signal, or added where the signal has none.
pub open spec fn met_with(l: Seq<(usize, Iv)>, ys: Seq<(usize, Iv)>) -> Seq<(usize, Iv)>
    decreases ys.len(),
{
    if ys.len() == 0 {
        l
    } else {
        let before = met_with(l, ys.drop_last());
        match find_entry(before, ys.last().0) {
            Some(i) => before.update(i, (ys.last().0, iv_meet(before[i].1, ys.last().1))),
            None => before.push(ys.last()),
        }
    }
}

/// The bounds implied by a conjunction, built on `acc`: every entry of
/// `left`, then every entry of `right`, met with the entry of the same signal
/// where there is one.
pub open spec fn merge_and_onto(
    acc: Seq<(usize, Iv)>,
    left: Seq<(usize, Iv)>,
    right: Seq<(usize, Iv)>,
) -> Seq<(usize, Iv)> {
    met_with(with_entries(acc, left), right)
}

/// The bounds implied by a conjunction.
pub open spec fn merge_and(left: Seq<(usize, Iv)>, right: Seq<(usize, Iv)>) -> Seq<(usize, Iv)> {
    merge_and_onto(Seq::empty(), left, right)
}

/// The bounds implied by a disjunction, built on `acc`: the signals of
/// `left` that `right` bounds too, each with the least interval that holds
/// its two intervals. A signal that only one side bounds gets no entry.
pub open spec fn merge_or_onto(
    acc: Seq<(usize, Iv)>,
    left: Seq<(usize, Iv)>,
    right: Seq<(usize, Iv)>,
) -> Seq<(usize, Iv)>
    decreases left.len(),
{
    if left.len() == 0 {
        acc
    } else {
        let before = merge_or_onto(acc, left.drop_last(), right);
        match find_entry(right, left.last().0) {
            Some(j) => with_entry(before, left.last().0, iv_join(left.last().1, right[j].1)),
            None => before,
        }
    }
}

/// The bounds implied by a disjunction.
pub open spec fn merge_or(left: Seq<(usize, Iv)>, right: Seq<(usize, Iv)>) -> Seq<(usize, Iv)> {
    merge_or_onto(Seq::empty(), left, right)
}

/// The interval that a comparison of a literal with a signal gives to the
/// signal; none for any other pair of operands or any other operator.
pub open spec fn comparison_bound(
    op: ExpressionInfixOpcode,
    l: ExpressionView,
    r: ExpressionView,
    p: int,
) -> Option<(usize, Iv)> {
    match (l, r) {
        (ExpressionView::Number(_, v), ExpressionView::Variable(_, s)) => match op {
            ExpressionInfixOpcode::LesserEq => Some((s, Iv { lo: v, hi: p - 1 })),
            ExpressionInfixOpcode::GreaterEq => Some((s, Iv { lo: 0, hi: v })),
            ExpressionInfixOpcode::Lesser => Some((s, Iv { lo: v + 1, hi: p - 1 })),
            ExpressionInfixOpcode::Greater => Some((s, Iv { lo: 0, hi: v - 1 })),
            ExpressionInfixOpcode::Eq => Some((s, Iv { lo: v, hi: v })),
            _ => None,
        },
        (ExpressionView::Variable(_, s), ExpressionView::Number(_, v)) => match op {
            ExpressionInfixOpcode::LesserEq => Some((s, Iv { lo: 0, hi: v })),
            ExpressionInfixOpcode::GreaterEq => Some((s, Iv { lo: v, hi: p - 1 })),
            ExpressionInfixOpcode::Lesser => Some((s, Iv { lo: 0, hi: v - 1 })),
            ExpressionInfixOpcode::Greater => Some((s, Iv { lo: v + 1, hi: p - 1 })),
            ExpressionInfixOpcode::Eq => Some((s, Iv { lo: v, hi: v })),
            _ => None,
        },
        _ => None,
    }
}

/// The bounds that an annotation implies.
pub open spec fn implied_bounds(e: ExpressionView, p: int) -> Seq<(usize, Iv)>
    decreases e,
{
    match e {
        ExpressionView::InfixOp(_, l, op, r) => match op {
            ExpressionInfixOpcode::BoolOr | ExpressionInfixOpcode::BitOr => merge_or(
                implied_bounds(*l, p),
                implied_bounds(*r, p),
            ),
            ExpressionInfixOpcode::BoolAnd | ExpressionInfixOpcode::BitAnd => merge_and(
                implied_bounds(*l, p),
                implied_bounds(*r, p),
            ),
            _ => match comparison_bound(op, *l, *r, p) {
                Some(b) => seq![b],
                None => Seq::empty(),
            },
        },
        _ => Seq::empty(),
    }
}

/// An entry found in a part of a list is the entry found in the whole list.
pub proof fn lemma_find_entry_prefix(l: Seq<(usize, Iv)>, s: usize, n: int)
    requires
        0 <= n <= l.len(),
        find_entry(l.take(n), s) is Some,
    ensures
        find_entry(l, s) == find_entry(l.take(n), s),
    decreases l.len() - n,
{
    if n < l.len() {
        assert(l.take(n + 1).drop_last() =~= l.take(n));
        lemma_find_entry_prefix(l, s, n + 1);
    } else {
        assert(l.take(n) =~= l);
    }
}

/// The place of the first entry for `signal` in a list.
pub fn find_signal(list: &Vec<ExecutedInequation>, signal: usize) -> (r: Option<usize>)
    ensures
        match r {
            Some(i) => find_entry(entries_of(list@), signal) == Some(i as int) && i < list@.len()
                && list@[i as int].signal == signal,
            None => find_entry(entries_of(list@), signal) is None,
        },
{
    let ghost l = entries_of(list@);
    let mut i: usize = 0;
    while i < list.len()
        invariant
            i <= list.len(),
            l == entries_of(list@),
            find_entry(l.take(i as int), signal) is None,
        decreases list.len() - i,
    {
        proof {
            assert(l.take(i + 1).drop_last() =~= l.take(i as int));
            assert(l.take(i + 1).last() == l[i as int]);
        }
        if list[i].signal == signal {
            proof {
                lemma_find_entry_prefix(l, signal, i + 1);
            }
            return Some(i);
        }
        i += 1;
    }
    assert(l.take(list@.len() as int) =~= l);
    None
}

/// Sets the interval of `signal` in a list.
pub fn set_signal(list: &mut Vec<ExecutedInequation>, signal: usize, min: BigInt, max: BigInt)
    ensures
        entries_of(final(list)@) == with_entry(
            entries_of(old(list)@),
            signal,
            Iv { lo: value_of(min), hi: value_of(max) },
        ),
{
    let ghost before = entries_of(list@);
    let ghost iv = Iv { lo: value_of(min), hi: value_of(max) };
    match find_signal(list, signal) {
        Some(i) => {
            list[i] = ExecutedInequation { signal, min, max };
            assert(entries_of(list@) =~= before.update(i as int, (signal, iv)));
        },
        None => {
            list.push(ExecutedInequation { signal, min, max });
            assert(entries_of(list@) =~= before.push((signal, iv)));
        },
    }
}

/// How an operand of a comparison can bound or be bounded: a literal, a
/// signal, or neither.
pub fn get_bounds_expression_int(expr: &Expression) -> (r: PossibleBounds)
    ensures
        match r {
            PossibleBounds::Number(v) => expr@ matches ExpressionView::Number(_, w) && value_of(v)
                == w,
            PossibleBounds::Signal(s) => expr@ matches ExpressionView::Variable(_, t) && s == t,
            PossibleBounds::NoBound => !(expr@ is Number) && !(expr@ is Variable),
        },
{
    match expr {
        Expression::Number(_, v) => PossibleBounds::Number(big_clone(v)),
        Expression::Variable { signal, .. } => PossibleBounds::Signal(*signal),
        _ => PossibleBounds::NoBound,
    }
}

/// Records in `map` the bounds of a disjunction whose sides imply `left` and
/// `right`.
pub fn update_bounds_or(
    map: &mut Vec<ExecutedInequation>,
    left: Vec<ExecutedInequation>,
    right: Vec<ExecutedInequation>,
)
    ensures
        entries_of(final(map)@) == merge_or_onto(
            entries_of(old(map)@),
            entries_of(left@),
            entries_of(right@),
        ),
{
    let ghost acc = entries_of(map@);
    let ghost l = entries_of(left@);
    let ghost r = entries_of(right@);
    let mut i: usize = 0;
    while i < left.len()
        invariant
            i <= left.len(),
            l == entries_of(left@),
            r == entries_of(right@),
            entries_of(map@) == merge_or_onto(acc, l.take(i as int), r),
        decreases left.len() - i,
    {
        proof {
            assert(l.take(i + 1).drop_last() =~= l.take(i as int));
            assert(l.take(i + 1).last() == l[i as int]);
        }
        match find_signal(&right, left[i].signal) {
            Some(j) => {
                let min = big_min(big_clone(&left[i].min), big_clone(&right[j].min));
                let max = big_max(big_clone(&left[i].max), big_clone(&right[j].max));
                assert(r[j as int].1 == right@[j as int]@);
                set_signal(map, left[i].signal, min, max);
            },
            None => {},
        }
        i += 1;
    }
    assert(l.take(left@.len() as int) =~= l);
}

/// Records in `map` the bounds of a conjunction whose sides imply `left` and
/// `right`.
pub fn update_bounds_and(
    map: &mut Vec<ExecutedInequation>,
    left: Vec<ExecutedInequation>,
    right: Vec<ExecutedInequation>,
)
    ensures
        entries_of(final(map)@) == merge_and_onto(
            entries_of(old(map)@),
            entries_of(left@),
            entries_of(right@),
        ),
{
    let ghost acc = entries_of(map@);
    let ghost l = entries_of(left@);
    let ghost r = entries_of(right@);
    let mut i: usize = 0;
    while i < left.len()
        invariant
            i <= left.len(),
            l == entries_of(left@),
            entries_of(map@) == with_entries(acc, l.take(i as int)),
        decreases left.len() - i,
    {
        proof {
            assert(l.take(i + 1).drop_last() =~= l.take(i as int));
            assert(l.take(i + 1).last() == l[i as int]);
        }
        set_signal(map, left[i].signal, big_clone(&left[i].min), big_clone(&left[i].max));
        i += 1;
    }
    assert(l.take(left@.len() as int) =~= l);
    let ghost start = entries_of(map@);
    let mut k: usize = 0;
    while k < right.len()
        invariant
            k <= right.len(),
            r == entries_of(right@),
            entries_of(map@) == met_with(start, r.take(k as int)),
        decreases right.len() - k,
    {
        proof {
            assert(r.take(k + 1).drop_last() =~= r.take(k as int));
            assert(r.take(k + 1).last() == r[k as int]);
        }
        let ghost before = entries_of(map@);
        let signal: usize = right[k].signal;
        match find_signal(map, signal) {
            Some(at) => {
                let min = big_max(big_clone(&map[at].min), big_clone(&right[k].min));
                let max = big_min(big_clone(&map[at].max), big_clone(&right[k].max));
                let ghost iv = Iv { lo: value_of(min), hi: value_of(max) };
                map[at] = ExecutedInequation { signal, min, max };
                assert(entries_of(map@) =~= before.update(at as int, (signal, iv)));
            },
            None => {
                map.push(right[k].copy());
                assert(entries_of(map@) =~= before.push(r[k as int]));
            },
        }
        k += 1;
    }
    assert(r.take(right@.len() as int) =~= r);
}

/// The bounds that the annotation `expr` implies for the signals it
/// compares with literals.
pub fn get_bounds_expression_bool(expr: &Expression, field: &BigInt) -> (map: Vec<
    ExecutedInequation,
>)
    ensures
        entries_of(map@) == implied_bounds(expr@, value_of(*field)),
    decreases expr,
{
    let mut map: Vec<ExecutedInequation> = Vec::new();
    assert(entries_of(map@) =~= Seq::empty());
    match expr {
        Expression::InfixOp { lhe, infix_op, rhe, .. } => {
            match infix_op {
                ExpressionInfixOpcode::BoolOr | ExpressionInfixOpcode::BitOr => {
                    let bounds_l = get_bounds_expression_bool(lhe, field);
                    let bounds_r = get_bounds_expression_bool(rhe, field);
                    update_bounds_or(&mut map, bounds_l, bounds_r);
                },
                ExpressionInfixOpcode::BoolAnd | ExpressionInfixOpcode::BitAnd => {
                    let bounds_l = get_bounds_expression_bool(lhe, field);
                    let bounds_r = get_bounds_expression_bool(rhe, field);
                    update_bounds_and(&mut map, bounds_l, bounds_r);
                },
                ExpressionInfixOpcode::LesserEq
                | ExpressionInfixOpcode::GreaterEq
                | ExpressionInfixOpcode::Lesser
                | ExpressionInfixOpcode::Greater
                | ExpressionInfixOpcode::Eq => {
                    let zero = big_from_u64(0);
                    let one = big_from_u64(1);
                    let top = big_sub(field, &one);
                    let l_bound = get_bounds_expression_int(lhe);
                    let r_bound = get_bounds_expression_int(rhe);
                    // `number_left` tells on which side the literal stands.
                    let found = match (l_bound, r_bound) {
                        (PossibleBounds::Number(v), PossibleBounds::Signal(s)) => Some(
                            (s, v, true),
                        ),
                        (PossibleBounds::Signal(s), PossibleBounds::Number(v)) => Some(
                            (s, v, false),
                        ),
                        _ => None,
                    };
                    match found {
                        Some((s, v, number_left)) => {
                            let (min, max) = match infix_op {
                                ExpressionInfixOpcode::LesserEq => if number_left {
                                    (v, top)
                                } else {
                                    (zero, v)
                                },
                                ExpressionInfixOpcode::GreaterEq => if number_left {
                                    (zero, v)
                                } else {
                                    (v, top)
                                },
                                ExpressionInfixOpcode::Lesser => if number_left {
                                    (big_add(&v, &one), top)
                                } else {
                                    (zero, big_sub(&v, &one))
                                },
                                ExpressionInfixOpcode::Greater => if number_left {
                                    (zero, big_sub(&v, &one))
                                } else {
                                    (big_add(&v, &one), top)
                                },
                                _ => (big_clone(&v), v),
                            };
                            let ghost iv = Iv { lo: value_of(min), hi: value_of(max) };
                            map.push(ExecutedInequation { signal: s, min, max });
                            assert(entries_of(map@) =~= seq![(s, iv)]);
                        },
                        None => {},
                    }
                },
                _ => {},
            }
        },
        _ => {},
    }
    map
}

} // verus!
