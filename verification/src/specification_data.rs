//! Specifications attached to the signals of a template.
use vstd::prelude::*;
use crate::expression::{Expression, ExpressionView};

verus! {

/// The identifier of a source file.
pub type FileID = usize;

/// A condition that a tag puts on a signal.
#[derive(Debug)]
pub struct SpecificationData {
    file_id: FileID,
    tag: String,
    signal: String,
    condition: Expression,
}

/// The mathematical content of a specification.
pub struct SpecificationView {
    pub file_id: FileID,
    pub tag: Seq<char>,
    pub signal: Seq<char>,
    pub condition: ExpressionView,
}

impl View for SpecificationData {
    type V = SpecificationView;

    closed spec fn view(&self) -> SpecificationView {
        SpecificationView {
            file_id: self.file_id,
            tag: self.tag@,
            signal: self.signal@,
            condition: self.condition@,
        }
    }
}

impl SpecificationData {
    /// The specification that `tag` puts `condition` on `signal`. The nodes
    /// of the condition are numbered from `*elem_id` on and attached to the
    /// file; `*elem_id` is left at the first number not used.
    pub fn new(
        file_id: FileID,
        elem_id: &mut usize,
        tag: String,
        signal: String,
        condition: Expression,
    ) -> (r: SpecificationData)
        requires
            *old(elem_id) + condition@.size() <= usize::MAX,
        ensures
            r@ == (SpecificationView {
                file_id,
                tag: tag@,
                signal: signal@,
                condition: condition@.filled(file_id, *old(elem_id) as int),
            }),
            *final(elem_id) == *old(elem_id) + condition@.size(),
    {
        let mut condition = condition;
        condition.fill(file_id, elem_id);
        SpecificationData { file_id, tag, signal, condition }
    }

    pub fn get_file_id(&self) -> (r: FileID)
        ensures
            r == self@.file_id,
    {
        self.file_id
    }

    pub fn get_signal(&self) -> (r: &String)
        ensures
            r@ == self@.signal,
    {
        &self.signal
    }

    pub fn get_tag(&self) -> (r: &String)
        ensures
            r@ == self@.tag,
    {
        &self.tag
    }

    pub fn get_condition(&self) -> (r: &Expression)
        ensures
            r@ == self@.condition,
    {
        &self.condition
    }
}

} // verus!
