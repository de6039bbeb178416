//! The monotonic clock.

use tokio::time::Instant;
use vstd::prelude::*;

verus! {

/// Declares `tokio::time::Instant`, a reading of the runtime's clock.
#[verifier::external_type_specification]
#[verifier::external_body]
pub struct ExInstant(tokio::time::Instant);

/// How many whole microseconds lie between two readings, as
/// `tokio::time::Instant::saturating_duration_since` has it.
pub uninterp spec fn micros_from(
    earlier: tokio::time::Instant,
    later: tokio::time::Instant,
) -> u128;

/// `tokio::time::Instant::now`: the current reading. Nothing is said of it.
#[verifier::external_body]
pub(crate) fn instant_now() -> (now: Instant) {
    Instant::now()
}

/// `tokio::time::Instant::saturating_duration_since`, in whole microseconds: the
/// same for the same two readings.
#[verifier::external_body]
pub(crate) fn micros_between(earlier: &Instant, later: &Instant) -> (micros: u128)
    ensures
        micros == micros_from(*earlier, *later),
{
    later.saturating_duration_since(*earlier).as_micros()
}

} // verus!
