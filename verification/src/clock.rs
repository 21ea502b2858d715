//! The clock.
use std::time::Instant;
use vstd::prelude::*;

verus! {

/// `std::time::Instant`, a point in time.
#[verifier::external_type_specification]
#[verifier::external_body]
pub struct ExInstant(std::time::Instant);

/// `std::time::Instant::now`. Nothing is claimed of the point in time.
#[verifier::external_body]
pub(crate) fn now() -> Instant {
    Instant::now()
}

} // verus!
