//! The verdict on one proof obligation.
use vstd::prelude::*;

verus! {

/// What became of one obligation of one template instance.
#[allow(non_camel_case_types)]
#[derive(Clone, Copy, Debug, PartialEq, Eq, Structural)]
pub enum PossibleResult {
    /// The obligation was proved.
    VERIFIED,
    /// The solver gave no answer within its time.
    UNKNOWN,
    /// The solver found a counterexample.
    FAILED,
    /// The obligation was not asked for.
    NOSTUDIED,
    /// The template states nothing to prove.
    NOTHING,
    /// The encoding needs a quotient variable with a range beyond the limit.
    TOO_BIG,
}

impl PossibleResult {
    /// Whether this verdict settles the obligation, so that nothing but more
    /// context for an encoding that was too big can change it.
    pub open spec fn settled(self) -> bool {
        self != PossibleResult::TOO_BIG
    }

    /// The line that reports the verdict.
    pub open spec fn text(self) -> Seq<char> {
        match self {
            PossibleResult::FAILED => "FAILED -> FOUND COUNTEREXAMPLE\n"@,
            PossibleResult::UNKNOWN => "UNKNOWN -> VERIFICATION TIMEOUT\n"@,
            PossibleResult::NOTHING => "NOTHING TO VERIFY\n"@,
            PossibleResult::TOO_BIG => "TOO BIG -> ENCODING BEYOND THE QUOTIENT LIMIT\n"@,
            PossibleResult::NOSTUDIED => "NOT STUDIED\n"@,
            PossibleResult::VERIFIED => "VERIFIED\n"@,
        }
    }

    /// Whether the obligation is settled with this verdict.
    pub fn finished_verification(&self) -> (r: bool)
        ensures
            r == self.settled(),
            r == (*self == PossibleResult::VERIFIED || *self == PossibleResult::FAILED || *self
                == PossibleResult::UNKNOWN || *self == PossibleResult::NOTHING || *self
                == PossibleResult::NOSTUDIED),
    {
        match self {
            PossibleResult::TOO_BIG => false,
            _ => true,
        }
    }

    /// The line that reports the verdict.
    pub fn result_to_str(&self) -> (r: String)
        ensures
            r@ == self.text(),
    {
        match self {
            PossibleResult::FAILED => "FAILED -> FOUND COUNTEREXAMPLE\n".to_owned(),
            PossibleResult::UNKNOWN => "UNKNOWN -> VERIFICATION TIMEOUT\n".to_owned(),
            PossibleResult::NOTHING => "NOTHING TO VERIFY\n".to_owned(),
            PossibleResult::TOO_BIG => "TOO BIG -> ENCODING BEYOND THE QUOTIENT LIMIT\n".to_owned(),
            PossibleResult::NOSTUDIED => "NOT STUDIED\n".to_owned(),
            PossibleResult::VERIFIED => "VERIFIED\n".to_owned(),
        }
    }
}

} // verus!
