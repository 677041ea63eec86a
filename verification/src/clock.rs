//! The wall clock.
use std::time::{Duration, SystemTime, UNIX_EPOCH};
use vstd::prelude::*;

verus! {

/// `std::time::SystemTime`, an opaque reading of the wall clock.
#[verifier::external_type_specification]
#[verifier::external_body]
pub struct ExSystemTime(SystemTime);

/// `SystemTime::now`. Nothing is claimed of the reading.
#[verifier::external_body]
fn read_clock() -> (r: SystemTime) {
    SystemTime::now()
}

/// `SystemTime::duration_since` the Unix epoch. Nothing is claimed of the result.
#[verifier::external_body]
fn since_epoch(t: SystemTime) -> (r: Option<Duration>) {
    t.duration_since(UNIX_EPOCH).ok()
}

/// `Duration::as_secs`. Nothing is claimed of the result.
#[verifier::external_body]
fn whole_seconds(d: Duration) -> (r: u64) {
    d.as_secs()
}

/// The seconds of a reading, or zero, where the clock stands before the epoch.
pub fn seconds_of(reading: Option<u64>) -> (r: u64)
    ensures
        r == match reading {
            Some(secs) => secs,
            None => 0,
        },
{
    match reading {
        Some(secs) => secs,
        None => 0,
    }
}

/// Seconds since the Unix epoch; zero, where the clock stands before it. What the clock shows
/// is not stated.
pub fn unix_now() -> (r: u64) {
    match since_epoch(read_clock()) {
        Some(d) => seconds_of(Some(whole_seconds(d))),
        None => seconds_of(None),
    }
}

} // verus!
