//! Wall-clock timestamps, as the latency tests take them.
use vstd::prelude::*;
use std::time::Duration;
use std::time::SystemTime;
use std::time::SystemTimeError;

verus! {

#[verifier::external_type_specification]
#[verifier::external_body]
pub struct ExSystemTime(SystemTime);

#[verifier::external_type_specification]
#[verifier::external_body]
pub struct ExSystemTimeError(SystemTimeError);

/// `SystemTime::now`: the current time of the system clock. Nothing is
/// promised of it.
#[verifier::external_body]
fn system_time_now() -> SystemTime {
    SystemTime::now()
}

/// `SystemTime::duration_since` with `UNIX_EPOCH`, std's constant for the
/// Unix epoch, as the earlier time: the time elapsed since the epoch, or an
/// error where `t` is earlier than it. Nothing is promised of which, as it
/// rests on the clock.
#[verifier::external_body]
fn duration_since_unix_epoch(t: SystemTime) -> Result<Duration, SystemTimeError> {
    t.duration_since(std::time::UNIX_EPOCH)
}

/// `Duration::as_micros`: the whole number of microseconds in `d`. `Duration`
/// has no model here, so nothing is stated of the result.
#[verifier::external_body]
fn duration_as_micros(d: Duration) -> u128 {
    d.as_micros()
}

/// Microseconds elapsed since the Unix epoch by the system clock; `None`
/// where the clock reads a time before the epoch.
pub fn get_epoch_us() -> Option<u128> {
    match duration_since_unix_epoch(system_time_now()) {
        Ok(d) => Some(duration_as_micros(d)),
        Err(_) => None,
    }
}

} // verus!
