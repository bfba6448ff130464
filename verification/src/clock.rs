//! The time that a verification takes.
use vstd::prelude::*;

verus! {

#[verifier::external_type_specification]
#[verifier::external_body]
pub struct ExInstant(std::time::Instant);

/// `Instant::now`: the present moment.
#[verifier::external_body]
pub(crate) fn now() -> std::time::Instant {
    std::time::Instant::now()
}

/// `Instant::elapsed`, in whole milliseconds: the time gone by since
/// `start`.
#[verifier::external_body]
pub(crate) fn millis_since(start: &std::time::Instant) -> u128 {
    start.elapsed().as_millis()
}

} // verus!
