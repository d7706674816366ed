use vstd::prelude::*;

use std::time::{Duration, SystemTime, SystemTimeError};

verus! {

#[verifier::external_type_specification]
#[verifier::external_body]
pub struct ExSystemTime(SystemTime);

#[verifier::external_type_specification]
#[verifier::external_body]
pub struct ExSystemTimeError(SystemTimeError);

/// Calls `SystemTime::now`. Nothing is stated of the reading: it depends on
/// the machine's clock.
#[verifier::external_body]
fn system_time_now() -> SystemTime {
    SystemTime::now()
}

/// Calls `SystemTime::duration_since` with `UNIX_EPOCH`. Whether it
/// succeeds (it fails for a time before the epoch) is not stated: the time
/// is opaque here.
#[verifier::external_body]
fn duration_since_epoch(t: &SystemTime) -> Result<Duration, SystemTimeError> {
    t.duration_since(std::time::UNIX_EPOCH)
}

/// Calls `Duration::as_secs`. The whole seconds of the duration are not
/// stated: a `Duration` is opaque here.
#[verifier::external_body]
fn duration_secs(d: &Duration) -> u64 {
    d.as_secs()
}

/// The Unix time for a clock reading: the whole seconds since the epoch, cut
/// to `i64` as `as` does, or 0 where the clock stood before the epoch (no
/// reading).
pub fn unix_from_clock(reading: Option<u64>) -> (r: i64)
    ensures
        r == (match reading {
            Some(secs) => secs as i64,
            None => 0i64,
        }),
{
    match reading {
        Some(secs) => secs as i64,
        None => 0,
    }
}

/// Current Unix time in seconds, read from the system clock; 0 where the
/// clock stands before 1970. The value depends on the clock: nothing more is
/// stated.
pub fn now_unix() -> i64 {
    let now = system_time_now();
    let reading = match duration_since_epoch(&now) {
        Ok(d) => Some(duration_secs(&d)),
        Err(_) => None,
    };
    unix_from_clock(reading)
}

} // verus!
