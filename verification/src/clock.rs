//! Clock readings. What the clock says is outside any contract; what the
//! library does with a reading is stated here.

use vstd::prelude::*;
use std::time::{Duration, Instant, SystemTime, SystemTimeError};

verus! {

#[verifier::external_type_specification]
#[verifier::external_body]
pub struct ExSystemTime(SystemTime);

#[verifier::external_type_specification]
#[verifier::external_body]
pub struct ExSystemTimeError(SystemTimeError);

#[verifier::external_type_specification]
#[verifier::external_body]
pub struct ExInstant(Instant);

/// `SystemTime::now`: the wall clock; nothing is known of its value.
#[verifier::external_body]
fn wall_clock_now() -> SystemTime {
    SystemTime::now()
}

/// `SystemTime::duration_since` with the Unix epoch: fails when the clock
/// reads before the epoch; nothing else is known of the result.
#[verifier::external_body]
fn since_unix_epoch(t: SystemTime) -> Result<Duration, SystemTimeError> {
    t.duration_since(std::time::UNIX_EPOCH)
}

/// `Duration::as_secs`.
#[verifier::external_body]
fn whole_seconds(d: &Duration) -> u64 {
    d.as_secs()
}

/// `Duration::as_millis`.
#[verifier::external_body]
fn whole_millis(d: &Duration) -> u128 {
    d.as_millis()
}

/// `Instant::elapsed`: the monotonic time since `started`.
#[verifier::external_body]
fn elapsed_since(started: &Instant) -> Duration {
    started.elapsed()
}

/// A millisecond count as `u64`, saturating at `u64::MAX`.
pub fn saturating_millis(ms: u128) -> (res: u64)
    ensures
        res == if ms > u64::MAX as u128 {
            u64::MAX as u128
        } else {
            ms
        },
{
    if ms > u64::MAX as u128 {
        u64::MAX
    } else {
        ms as u64
    }
}

/// The Unix time of a clock reading: its whole seconds since the epoch,
/// or 0 when the clock read before the epoch (`None`).
pub fn unix_secs_of(since_epoch: Option<u64>) -> (res: u64)
    ensures
        res == match since_epoch {
            Some(s) => s,
            None => 0,
        },
{
    match since_epoch {
        Some(s) => s,
        None => 0,
    }
}

/// The Unix time in milliseconds of a clock reading: its whole milliseconds
/// since the epoch, or 0 when the clock read before the epoch (`None`).
pub fn unix_ms_of(since_epoch: Option<u128>) -> (res: u128)
    ensures
        res == match since_epoch {
            Some(ms) => ms,
            None => 0,
        },
{
    match since_epoch {
        Some(ms) => ms,
        None => 0,
    }
}

/// Whole seconds since the Unix epoch, or 0 when the clock reads before it.
pub fn current_unix_secs() -> u64 {
    let reading = match since_unix_epoch(wall_clock_now()) {
        Ok(d) => Some(whole_seconds(&d)),
        Err(_) => None,
    };
    unix_secs_of(reading)
}

/// Milliseconds since the Unix epoch, or 0 when the clock reads before it.
pub fn unix_time_ms() -> u128 {
    let reading = match since_unix_epoch(wall_clock_now()) {
        Ok(d) => Some(whole_millis(&d)),
        Err(_) => None,
    };
    unix_ms_of(reading)
}

/// Milliseconds since `started`, saturating at `u64::MAX`.
pub fn elapsed_millis(started: Instant) -> u64 {
    saturating_millis(whole_millis(&elapsed_since(&started)))
}

} // verus!
