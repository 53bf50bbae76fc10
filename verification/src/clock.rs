//! Readings of the system clock.

use std::time::{Duration, SystemTimeError};
use vstd::prelude::*;

verus! {

/// The error of a clock that stands before the Unix epoch; nothing in it is read.
#[verifier::external_type_specification]
#[verifier::external_body]
pub struct ExSystemTimeError(std::time::SystemTimeError);

/// What `Duration::as_secs` returns: the whole seconds in a span of time.
pub uninterp spec fn whole_seconds(span: Duration) -> u64;

/// `std::time::Duration::as_secs`: its result depends on the span alone, and is named
/// `whole_seconds`.
pub assume_specification[ std::time::Duration::as_secs ](span: &Duration) -> (secs: u64)
    ensures
        secs == whole_seconds(*span),
;

/// `std::time::SystemTime::elapsed` of the Unix epoch: how far the system clock stands
/// past it. The clock decides, so nothing is claimed of the result.
#[verifier::external_body]
fn since_unix_epoch() -> (elapsed: Result<Duration, SystemTimeError>) {
    std::time::UNIX_EPOCH.elapsed()
}

/// Reads the clock: how far it stands past the Unix epoch, or that it stands before it.
/// The clock decides, so nothing is claimed of the reading; `call_ensures` says that a value
/// is one.
pub fn reading() -> (elapsed: Result<Duration, SystemTimeError>) {
    since_unix_epoch()
}

/// A reading of the clock as a Unix timestamp: whole seconds since the epoch, and zero
/// where the clock stands before the epoch.
pub open spec fn timestamp_of(elapsed: Result<Duration, SystemTimeError>) -> u64 {
    match elapsed {
        Ok(span) => whole_seconds(span),
        Err(_) => 0,
    }
}

/// The Unix timestamp that a reading of the clock stands for.
pub fn timestamp(elapsed: &Result<Duration, SystemTimeError>) -> (secs: u64)
    ensures
        secs == timestamp_of(*elapsed),
{
    match elapsed {
        Ok(span) => span.as_secs(),
        Err(_) => 0,
    }
}

/// A clock reading stands for the whole seconds of the span that it gives, and for zero
/// where it gives none.
pub proof fn law_timestamp_is_whole_seconds(
    elapsed: Result<Duration, SystemTimeError>,
    secs: u64,
)
    requires
        call_ensures(timestamp, (&elapsed,), secs),
    ensures
        elapsed matches Ok(span) ==> secs == whole_seconds(span),
        elapsed is Err ==> secs == 0,
        secs == timestamp_of(elapsed),
{
}

} // verus!
