//! The clock that times a run.
//!
//! The machine reads `std`'s monotonic clock before a run and after it. What
//! the clock says depends on the moment, so nothing is claimed of it: the
//! items below only let verified code make the three calls.
use std::time::Duration;
use std::time::Instant;
use vstd::prelude::*;

verus! {

/// A moment of `std`'s monotonic clock, `std::time::Instant`. Nothing is
/// known of what is inside.
#[verifier::external_type_specification]
#[verifier::external_body]
pub struct ExInstant(std::time::Instant);

/// `std::time::Instant::now` reads the clock. It takes nothing and always
/// returns; nothing is claimed of the moment it returns.
pub assume_specification[ std::time::Instant::now ]() -> (now: Instant);

/// `std::time::Instant::elapsed` gives the time that has passed since the
/// moment was taken. Nothing is claimed of its length.
pub assume_specification[ std::time::Instant::elapsed ](start: &Instant) -> (elapsed: Duration);

/// `std::time::Duration::as_secs` gives the whole seconds of a length of
/// time. Nothing is claimed of their number.
pub assume_specification[ std::time::Duration::as_secs ](duration: &Duration) -> (seconds: u64);

} // verus!
