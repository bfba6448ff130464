//! The annotation language: expressions over signals that state what a
//! template assumes and what it promises.
//!
//! An expression carries no type. Its shape decides whether it is read as an
//! integer term or as a predicate; the readings themselves are defined where
//! expressions are turned into solver terms.
use vstd::prelude::*;
use num_bigint_dig::BigInt;
use crate::bigint::{value_of, big_clone};

verus! {

/// Where an expression stands in the source text.
#[derive(Clone, Copy, Debug)]
pub struct Meta {
    pub elem_id: usize,
    pub start: usize,
    pub end: usize,
    pub file_id: Option<usize>,
}

impl Meta {
    /// A location record for the text between `start` and `end`, not yet
    /// attached to a file.
    pub fn new(start: usize, end: usize) -> (r: Meta)
        ensures
            r == (Meta { elem_id: 0, start, end, file_id: None }),
    {
        Meta { elem_id: 0, start, end, file_id: None }
    }

    /// Attaches the record to a file.
    pub fn set_file_id(&mut self, file_id: usize)
        ensures
            *final(self) == (Meta { file_id: Some(file_id), ..*old(self) }),
    {
        self.file_id = Some(file_id);
    }
}

#[derive(Clone, Copy, Debug, PartialEq, Eq, Structural)]
pub enum ExpressionInfixOpcode {
    Mul,
    Div,
    Add,
    Sub,
    Pow,
    IntDiv,
    Mod,
    ShiftL,
    ShiftR,
    LesserEq,
    GreaterEq,
    Lesser,
    Greater,
    Eq,
    NotEq,
    BoolOr,
    BoolAnd,
    BitOr,
    BitAnd,
    BitXor,
    BoolImplication,
}

#[derive(Clone, Copy, Debug, PartialEq, Eq, Structural)]
pub enum ExpressionPrefixOpcode {
    Sub,
    BoolNot,
    Complement,
}

/// An annotation expression. A variable names a signal by its identifier.
#[derive(Debug)]
pub enum Expression {
    Number(Meta, BigInt),
    Variable { meta: Meta, signal: usize },
    InfixOp { meta: Meta, lhe: Box<Expression>, infix_op: ExpressionInfixOpcode, rhe: Box<Expression> },
    PrefixOp { meta: Meta, prefix_op: ExpressionPrefixOpcode, rhe: Box<Expression> },
}

/// The mathematical content of an expression: the same tree with every
/// literal replaced by the integer it stands for.
pub enum ExpressionView {
    Number(Meta, int),
    Variable(Meta, usize),
    InfixOp(Meta, Box<ExpressionView>, ExpressionInfixOpcode, Box<ExpressionView>),
    PrefixOp(Meta, ExpressionPrefixOpcode, Box<ExpressionView>),
}

impl Expression {
    /// The mathematical content of the expression.
    pub open spec fn content(self) -> ExpressionView
        decreases self,
    {
        match self {
            Expression::Number(meta, v) => ExpressionView::Number(meta, value_of(v)),
            Expression::Variable { meta, signal } => ExpressionView::Variable(meta, signal),
            Expression::InfixOp { meta, lhe, infix_op, rhe } => ExpressionView::InfixOp(
                meta,
                Box::new(lhe.content()),
                infix_op,
                Box::new(rhe.content()),
            ),
            Expression::PrefixOp { meta, prefix_op, rhe } => ExpressionView::PrefixOp(
                meta,
                prefix_op,
                Box::new(rhe.content()),
            ),
        }
    }
}

impl View for Expression {
    type V = ExpressionView;

    open spec fn view(&self) -> ExpressionView {
        self.content()
    }
}

/// The contents of a list of expressions.
pub open spec fn views(s: Seq<Expression>) -> Seq<ExpressionView> {
    s.map_values(|e: Expression| e@)
}

impl ExpressionView {
    /// The location record of the root.
    pub open spec fn meta(self) -> Meta {
        match self {
            ExpressionView::Number(meta, _) => meta,
            ExpressionView::Variable(meta, _) => meta,
            ExpressionView::InfixOp(meta, _, _, _) => meta,
            ExpressionView::PrefixOp(meta, _, _) => meta,
        }
    }

    /// The tree with another location record at its root.
    pub open spec fn with_meta(self, meta: Meta) -> ExpressionView {
        match self {
            ExpressionView::Number(_, v) => ExpressionView::Number(meta, v),
            ExpressionView::Variable(_, s) => ExpressionView::Variable(meta, s),
            ExpressionView::InfixOp(_, l, op, r) => ExpressionView::InfixOp(meta, l, op, r),
            ExpressionView::PrefixOp(_, op, r) => ExpressionView::PrefixOp(meta, op, r),
        }
    }

    /// The number of nodes of the tree.
    pub open spec fn size(self) -> nat
        decreases self,
    {
        match self {
            ExpressionView::Number(_, _) => 1,
            ExpressionView::Variable(_, _) => 1,
            ExpressionView::InfixOp(_, l, _, r) => 1 + l.size() + r.size(),
            ExpressionView::PrefixOp(_, _, r) => 1 + r.size(),
        }
    }

    /// Whether an implication occurs anywhere in the tree.
    pub open spec fn has_implication(self) -> bool
        decreases self,
    {
        match self {
            ExpressionView::Number(_, _) => false,
            ExpressionView::Variable(_, _) => false,
            ExpressionView::InfixOp(_, l, op, r) => op == ExpressionInfixOpcode::BoolImplication
                || l.has_implication() || r.has_implication(),
            ExpressionView::PrefixOp(_, _, r) => r.has_implication(),
        }
    }

    /// Whether every signal that the tree names is at most `bound`.
    pub open spec fn signals_at_most(self, bound: int) -> bool
        decreases self,
    {
        match self {
            ExpressionView::Number(_, _) => true,
            ExpressionView::Variable(_, s) => s <= bound,
            ExpressionView::InfixOp(_, l, _, r) => l.signals_at_most(bound) && r.signals_at_most(
                bound,
            ),
            ExpressionView::PrefixOp(_, _, r) => r.signals_at_most(bound),
        }
    }

    /// The tree with every signal identifier moved up by `offset`.
    pub open spec fn shifted(self, offset: int) -> ExpressionView
        recommends
            self.signals_at_most(usize::MAX - offset),
        decreases self,
    {
        match self {
            ExpressionView::Number(meta, v) => ExpressionView::Number(meta, v),
            ExpressionView::Variable(meta, s) => ExpressionView::Variable(
                meta,
                (s + offset) as usize,
            ),
            ExpressionView::InfixOp(meta, l, op, r) => ExpressionView::InfixOp(
                meta,
                Box::new(l.shifted(offset)),
                op,
                Box::new(r.shifted(offset)),
            ),
            ExpressionView::PrefixOp(meta, op, r) => ExpressionView::PrefixOp(
                meta,
                op,
                Box::new(r.shifted(offset)),
            ),
        }
    }

    /// The tree after its nodes have been numbered in pre-order from `first`
    /// and attached to the file `file_id`.
    pub open spec fn filled(self, file_id: usize, first: int) -> ExpressionView
        decreases self,
    {
        let stamp = |meta: Meta| Meta { elem_id: first as usize, file_id: Some(file_id), ..meta };
        match self {
            ExpressionView::Number(meta, v) => ExpressionView::Number(stamp(meta), v),
            ExpressionView::Variable(meta, s) => ExpressionView::Variable(stamp(meta), s),
            ExpressionView::InfixOp(meta, l, op, r) => ExpressionView::InfixOp(
                stamp(meta),
                Box::new(l.filled(file_id, first + 1)),
                op,
                Box::new(r.filled(file_id, first + 1 + l.size())),
            ),
            ExpressionView::PrefixOp(meta, op, r) => ExpressionView::PrefixOp(
                stamp(meta),
                op,
                Box::new(r.filled(file_id, first + 1)),
            ),
        }
    }
}

impl Expression {
    /// The location record of the root.
    pub fn get_meta(&self) -> (r: &Meta)
        ensures
            *r == self@.meta(),
    {
        match self {
            Expression::Number(meta, _) => meta,
            Expression::Variable { meta, .. } => meta,
            Expression::InfixOp { meta, .. } => meta,
            Expression::PrefixOp { meta, .. } => meta,
        }
    }

    pub fn is_infix(&self) -> (r: bool)
        ensures
            r == (self@ is InfixOp),
    {
        match self {
            Expression::InfixOp { .. } => true,
            _ => false,
        }
    }

    pub fn is_prefix(&self) -> (r: bool)
        ensures
            r == (self@ is PrefixOp),
    {
        match self {
            Expression::PrefixOp { .. } => true,
            _ => false,
        }
    }

    pub fn is_variable(&self) -> (r: bool)
        ensures
            r == (self@ is Variable),
    {
        match self {
            Expression::Variable { .. } => true,
            _ => false,
        }
    }

    pub fn is_number(&self) -> (r: bool)
        ensures
            r == (self@ is Number),
    {
        match self {
            Expression::Number(..) => true,
            _ => false,
        }
    }

    /// A copy of the whole tree.
    pub fn copy(&self) -> (r: Expression)
        ensures
            r@ == self@,
        decreases self,
    {
        match self {
            Expression::Number(meta, v) => Expression::Number(*meta, big_clone(v)),
            Expression::Variable { meta, signal } => Expression::Variable {
                meta: *meta,
                signal: *signal,
            },
            Expression::InfixOp { meta, lhe, infix_op, rhe } => Expression::InfixOp {
                meta: *meta,
                lhe: Box::new(lhe.copy()),
                infix_op: *infix_op,
                rhe: Box::new(rhe.copy()),
            },
            Expression::PrefixOp { meta, prefix_op, rhe } => Expression::PrefixOp {
                meta: *meta,
                prefix_op: *prefix_op,
                rhe: Box::new(rhe.copy()),
            },
        }
    }

    /// Whether an implication occurs anywhere in the expression.
    pub fn contains_implication_expression(&self) -> (r: bool)
        ensures
            r == self@.has_implication(),
        decreases self,
    {
        match self {
            Expression::InfixOp { lhe, infix_op, rhe, .. } => {
                *infix_op == ExpressionInfixOpcode::BoolImplication
                    || lhe.contains_implication_expression()
                    || rhe.contains_implication_expression()
            },
            Expression::PrefixOp { rhe, .. } => rhe.contains_implication_expression(),
            _ => false,
        }
    }

    /// Whether the expression speaks only of signals up to `max_io_value`.
    pub fn check_condition_io_signals(&self, max_io_value: usize) -> (r: bool)
        ensures
            r == self@.signals_at_most(max_io_value as int),
        decreases self,
    {
        match self {
            Expression::Number(..) => true,
            Expression::Variable { signal, .. } => *signal <= max_io_value,
            Expression::InfixOp { lhe, rhe, .. } => {
                lhe.check_condition_io_signals(max_io_value) && rhe.check_condition_io_signals(
                    max_io_value,
                )
            },
            Expression::PrefixOp { rhe, .. } => rhe.check_condition_io_signals(max_io_value),
        }
    }

    /// An owned copy of the expression in which every signal identifier is
    /// moved up by `offset`. The shifted identifiers must be representable.
    pub fn apply_offset(&self, offset: usize) -> (r: Expression)
        requires
            self@.signals_at_most(usize::MAX - offset),
        ensures
            r@ == self@.shifted(offset as int),
        decreases self,
    {
        match self {
            Expression::Number(meta, v) => Expression::Number(*meta, big_clone(v)),
            Expression::Variable { meta, signal } => Expression::Variable {
                meta: *meta,
                signal: *signal + offset,
            },
            Expression::InfixOp { meta, lhe, infix_op, rhe } => Expression::InfixOp {
                meta: *meta,
                lhe: Box::new(lhe.apply_offset(offset)),
                infix_op: *infix_op,
                rhe: Box::new(rhe.apply_offset(offset)),
            },
            Expression::PrefixOp { meta, prefix_op, rhe } => Expression::PrefixOp {
                meta: *meta,
                prefix_op: *prefix_op,
                rhe: Box::new(rhe.apply_offset(offset)),
            },
        }
    }

    /// The location record of the root, to be changed.
    pub fn get_mut_meta(&mut self) -> (r: &mut Meta)
        ensures
            *r == old(self)@.meta(),
            final(self)@ == old(self)@.with_meta(*final(r)),
    {
        match self {
            Expression::Number(meta, _) => meta,
            Expression::Variable { meta, .. } => meta,
            Expression::InfixOp { meta, .. } => meta,
            Expression::PrefixOp { meta, .. } => meta,
        }
    }

    /// Numbers the nodes of the expression in pre-order, starting at
    /// `*element_id`, attaches each to the file `file_id`, and leaves in
    /// `*element_id` the first number not used.
    pub fn fill(&mut self, file_id: usize, element_id: &mut usize)
        requires
            *old(element_id) + old(self)@.size() <= usize::MAX,
        ensures
            final(self)@ == old(self)@.filled(file_id, *old(element_id) as int),
            *final(element_id) == *old(element_id) + old(self)@.size(),
        decreases *old(self),
    {
        let id: usize = *element_id;
        *element_id = id + 1;
        match self {
            Expression::Number(meta, _) => {
                meta.elem_id = id;
                meta.file_id = Some(file_id);
            },
            Expression::Variable { meta, .. } => {
                meta.elem_id = id;
                meta.file_id = Some(file_id);
            },
            Expression::InfixOp { meta, lhe, rhe, .. } => {
                meta.elem_id = id;
                meta.file_id = Some(file_id);
                lhe.fill(file_id, element_id);
                rhe.fill(file_id, element_id);
            },
            Expression::PrefixOp { meta, rhe, .. } => {
                meta.elem_id = id;
                meta.file_id = Some(file_id);
                rhe.fill(file_id, element_id);
            },
        }
    }
}

/// A copy of every expression of a list.
pub fn copy_all(list: &Vec<Expression>) -> (r: Vec<Expression>)
    ensures
        views(r@) == views(list@),
{
    let mut out: Vec<Expression> = Vec::new();
    let mut i: usize = 0;
    while i < list.len()
        invariant
            i <= list.len(),
            out@.len() == i,
            forall|j: int| 0 <= j < i ==> out@[j]@ == list@[j]@,
        decreases list.len() - i,
    {
        out.push(list[i].copy());
        i += 1;
    }
    assert(views(out@) =~= views(list@));
    out
}

} // verus!
