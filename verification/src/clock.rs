//! The wall clock, read through `std::time`.

use vstd::prelude::*;
use std::time::{Duration, SystemTime, SystemTimeError, UNIX_EPOCH};

verus! {

/// `std::time::SystemTime`, a reading of the clock. Nothing inside it is
/// looked at.
#[verifier::external_type_specification]
#[verifier::external_body]
pub struct ExSystemTime(SystemTime);

/// `std::time::SystemTimeError`, the error of `SystemTime::duration_since`.
/// Nothing inside it is looked at.
#[verifier::external_type_specification]
#[verifier::external_body]
pub struct ExSystemTimeError(SystemTimeError);

/// `SystemTime::now`: the reading depends on the machine, so nothing is
/// claimed of it.
pub assume_specification[ SystemTime::now ]() -> (now: SystemTime)
;

/// `SystemTime::duration_since`, measured from `UNIX_EPOCH`. It fails for a
/// time before the epoch; nothing is claimed of what it returns.
#[verifier::external_body]
fn since_epoch(time: &SystemTime) -> (elapsed: Result<Duration, SystemTimeError>) {
    time.duration_since(UNIX_EPOCH)
}

/// The whole milliseconds of a duration: what `Duration::as_millis` returns
/// for it.
pub uninterp spec fn duration_millis(duration: Duration) -> u128;

/// `Duration::as_millis`: the number depends on the duration alone. A
/// duration is opaque here, so no more is claimed of the number.
pub assume_specification[ Duration::as_millis ](duration: &Duration) -> (millis: u128)
    ensures
        millis == duration_millis(*duration),
;

/// The milliseconds that a measurement from the epoch counts as: its whole
/// milliseconds, and zero where the clock was set before the epoch.
pub open spec fn millis_of(elapsed: Result<Duration, SystemTimeError>) -> u128 {
    match elapsed {
        Ok(duration) => duration_millis(duration),
        Err(_) => 0,
    }
}

/// The milliseconds that a measurement from the epoch counts as.
pub fn elapsed_millis(elapsed: Result<Duration, SystemTimeError>) -> (millis: u128)
    ensures
        millis == millis_of(elapsed),
{
    match elapsed {
        Ok(duration) => duration.as_millis(),
        Err(_) => 0,
    }
}

/// Milliseconds from the Unix epoch to now; zero where the clock is set
/// before the epoch. The clock decides what is measured.
pub(crate) fn unix_millis() -> (millis: u128)
    ensures
        exists|elapsed: Result<Duration, SystemTimeError>| millis == millis_of(elapsed),
{
    let now = SystemTime::now();
    let elapsed = since_epoch(&now);
    let millis = elapsed_millis(elapsed);
    assert(millis == millis_of(elapsed));
    millis
}

} // verus!
