//! Summaries that a verified component hands to the components above it.
use vstd::prelude::*;
use crate::expression::{Expression, ExpressionView, views, copy_all};

verus! {

/// What is known of a component without its constraints: whenever all of
/// `left` holds, all of `right` holds.
#[derive(Debug)]
pub struct ExecutedImplication {
    pub left: Vec<Expression>,
    pub right: Vec<Expression>,
}

/// The mathematical content of an implication.
pub struct ImplicationView {
    pub left: Seq<ExpressionView>,
    pub right: Seq<ExpressionView>,
}

impl View for ExecutedImplication {
    type V = ImplicationView;

    open spec fn view(&self) -> ImplicationView {
        ImplicationView { left: views(self.left@), right: views(self.right@) }
    }
}

impl ExecutedImplication {
    /// A copy of the implication.
    pub fn copy(&self) -> (r: ExecutedImplication)
        ensures
            r@ == self@,
    {
        ExecutedImplication { left: copy_all(&self.left), right: copy_all(&self.right) }
    }
}

/// The contents of a list of implications.
pub open spec fn implication_views(s: Seq<ExecutedImplication>) -> Seq<ImplicationView> {
    s.map_values(|i: ExecutedImplication| i@)
}

/// What is known of the determinism of a component: two executions that
/// agree on the first list of signals, its inputs, agree on the second, its
/// outputs.
pub type SafetyImplication = (Vec<usize>, Vec<usize>);

} // verus!
