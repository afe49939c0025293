//! The current time, in seconds since the Unix epoch.
use vstd::prelude::*;
use std::time::{Duration, SystemTime};

verus! {

/// The system clock's time type (`std::time::SystemTime`), carried opaquely.
#[verifier::external_type_specification]
#[verifier::external_body]
pub struct ExSystemTime(std::time::SystemTime);

/// `SystemTime::now`: the current time of the system clock. Nothing is
/// promised of it.
pub assume_specification[ std::time::SystemTime::now ]() -> SystemTime;

/// Calls `SystemTime::duration_since(UNIX_EPOCH)`: the time elapsed from the
/// Unix epoch to `t`, `None` when `t` is before the epoch. Nothing is promised
/// of the duration: it depends on `t`, which is opaque here.
#[verifier::external_body]
fn since_unix_epoch(t: &SystemTime) -> Option<Duration> {
    t.duration_since(std::time::UNIX_EPOCH).ok()
}

/// Calls `Duration::as_secs`: the whole seconds of `d`. Nothing is promised of
/// the number: `d` is opaque here.
#[verifier::external_body]
fn whole_secs(d: &Duration) -> u64 {
    d.as_secs()
}

/// The current time in whole seconds since the Unix epoch; 0 when the clock
/// reads a time before the epoch.
pub fn now_unix() -> u64 {
    let now = SystemTime::now();
    match since_unix_epoch(&now) {
        Some(d) => whole_secs(&d),
        None => 0,
    }
}

} // verus!
