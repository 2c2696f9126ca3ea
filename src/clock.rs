use vstd::prelude::*;
use std::time::{Duration, SystemTime, SystemTimeError};
use crate::id::{id_text, lexicoid, Id};

verus! {

#[verifier::external_type_specification]
#[verifier::external_body]
pub struct ExSystemTime(SystemTime);

#[verifier::external_type_specification]
#[verifier::external_body]
pub struct ExSystemTimeError(SystemTimeError);

/// Relies on `SystemTime::now`: a reading of the system clock, of which
/// nothing is known.
pub assume_specification[ SystemTime::now ]() -> SystemTime;

/// Relies on `SystemTime::duration_since` with `UNIX_EPOCH`: the time from
/// the unix epoch to the reading, or an error where the reading is earlier.
#[verifier::external_body]
fn since_unix_epoch(t: &SystemTime) -> Result<Duration, SystemTimeError> {
    t.duration_since(std::time::UNIX_EPOCH)
}

/// Relies on `Duration::as_secs`: the whole seconds of a duration.
pub assume_specification[ Duration::as_secs ](d: &Duration) -> u64;

/// Why no identifier of the present moment could be made.
#[derive(Debug, Clone, Copy, PartialEq, Eq, Structural)]
pub enum ClockError {
    /// The system clock gave no time at or after the unix epoch.
    ClockUnavailable,
}

/// Makes the identifier of a clock reading in whole seconds since the unix
/// epoch; without a reading the clock is unavailable.
pub fn lexicoid_from_clock(reading: Option<u64>) -> (r: Result<Id, ClockError>)
    ensures
        match reading {
            Some(t) => r matches Ok(id) && id@ == id_text(t as nat),
            None => r == Err::<Id, ClockError>(ClockError::ClockUnavailable),
        },
{
    match reading {
        Some(t) => Ok(lexicoid(t)),
        None => Err(ClockError::ClockUnavailable),
    }
}

/// Generates the identifier of the present moment, read from the system
/// clock in whole seconds since the unix epoch.
pub fn lexicoid_now() -> (r: Result<Id, ClockError>)
    ensures
        r matches Ok(id) ==> exists|t: u64| id@ == id_text(t as nat),
        r matches Err(e) ==> e == ClockError::ClockUnavailable,
{
    let now = SystemTime::now();
    let reading = match since_unix_epoch(&now) {
        Ok(d) => Some(d.as_secs()),
        Err(_) => None,
    };
    let r = lexicoid_from_clock(reading);
    proof {
        if let Some(t) = reading {
            assert(r->Ok_0@ == id_text(t as nat));
        }
    }
    r
}

} // verus!
