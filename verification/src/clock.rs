//! Access to the system clocks.
//!
//! The clocks are read through thin trusted wrappers; nothing is promised of
//! the values they return. The verified code that uses them takes the time as
//! an argument wherever its result depends on it.
use vstd::prelude::*;
use std::time::{Duration, Instant, SystemTime, SystemTimeError};

verus! {

#[verifier::external_type_specification]
#[verifier::external_body]
pub struct ExInstant(std::time::Instant);

#[verifier::external_type_specification]
#[verifier::external_body]
pub struct ExSystemTime(std::time::SystemTime);

#[verifier::external_type_specification]
#[verifier::external_body]
pub struct ExSystemTimeError(std::time::SystemTimeError);

/// Calls `std::time::Instant::now`. Nothing is claimed of the instant.
#[verifier::external_body]
pub(crate) fn instant_now() -> Instant {
    Instant::now()
}

/// Calls `std::time::Instant::elapsed`. Nothing is claimed of the duration.
#[verifier::external_body]
pub(crate) fn instant_elapsed(start: &Instant) -> Duration {
    start.elapsed()
}

/// Calls `std::time::Duration::as_millis`. Nothing is claimed of the count.
#[verifier::external_body]
pub(crate) fn duration_as_millis(d: &Duration) -> u128 {
    d.as_millis()
}

/// Calls `std::time::Duration::as_micros`. Nothing is claimed of the count.
#[verifier::external_body]
pub(crate) fn duration_as_micros(d: &Duration) -> u128 {
    d.as_micros()
}

/// Calls `std::time::SystemTime::now`. Nothing is claimed of the time.
#[verifier::external_body]
pub(crate) fn system_now() -> SystemTime {
    SystemTime::now()
}

/// Calls `std::time::SystemTime::duration_since` with the Unix epoch.
/// Nothing is claimed of the outcome.
#[verifier::external_body]
pub(crate) fn since_unix_epoch(t: &SystemTime) -> Result<Duration, SystemTimeError> {
    t.duration_since(std::time::UNIX_EPOCH)
}

/// Milliseconds elapsed since `start` (truncated to 64 bits).
pub fn elapsed_ms(start: &Instant) -> u64 {
    let d = instant_elapsed(start);
    duration_as_millis(&d) as u64
}

/// Microseconds elapsed since `start` (truncated to 64 bits).
pub fn elapsed_us(start: &Instant) -> u64 {
    let d = instant_elapsed(start);
    duration_as_micros(&d) as u64
}

/// Current Unix time in milliseconds; 0 when the clock is set before the
/// epoch.
pub fn unix_timestamp_ms() -> u64 {
    let now = system_now();
    match since_unix_epoch(&now) {
        Ok(d) => duration_as_millis(&d) as u64,
        Err(_) => 0,
    }
}

} // verus!
