//! The wall clock and the thread-local random number generator.
//!
//! Nothing is promised of what these return beyond what the standard library
//! and `rand` document: the clock and the generator are outside the
//! library's control.

use vstd::prelude::*;

use rand::Rng;
use rand::rngs::ThreadRng;
use std::time::{Duration, SystemTime, SystemTimeError, UNIX_EPOCH};

verus! {

#[verifier::external_type_specification]
#[verifier::external_body]
pub struct ExSystemTime(SystemTime);

#[verifier::external_type_specification]
#[verifier::external_body]
pub struct ExSystemTimeError(SystemTimeError);

#[verifier::external_type_specification]
#[verifier::external_body]
pub struct ExThreadRng(ThreadRng);

/// `SystemTime::now`: the current wall-clock time.
#[verifier::external_body]
fn system_time_now() -> SystemTime {
    SystemTime::now()
}

/// `SystemTime::duration_since(UNIX_EPOCH)`: time elapsed since the Unix
/// epoch, or an error when the clock reads earlier than the epoch.
#[verifier::external_body]
fn since_unix_epoch(t: &SystemTime) -> Result<Duration, SystemTimeError> {
    t.duration_since(UNIX_EPOCH)
}

/// `Duration::as_secs`: the whole seconds of a duration.
#[verifier::external_body]
fn whole_seconds(d: &Duration) -> u64 {
    d.as_secs()
}

/// Seconds since the Unix epoch by the wall clock; `None` when the clock
/// reads earlier than the epoch.
pub(crate) fn unix_time_secs() -> Option<u64> {
    let now = system_time_now();
    match since_unix_epoch(&now) {
        Ok(d) => Some(whole_seconds(&d)),
        Err(_) => None,
    }
}

/// `rand::thread_rng`: the thread-local random number generator.
#[verifier::external_body]
pub(crate) fn thread_rng() -> ThreadRng {
    rand::thread_rng()
}

/// `Rng::gen_range(low..=high)`: a random number in the inclusive range
/// (the crate panics on an empty range, which `requires` leaves out).
#[verifier::external_body]
pub(crate) fn gen_range_inclusive(rng: &mut ThreadRng, low: u64, high: u64) -> (r: u64)
    requires
        low <= high,
    ensures
        low <= r <= high,
{
    rng.gen_range(low..=high)
}

/// `Rng::fill`: fills `dest` with random bytes.
#[verifier::external_body]
pub(crate) fn fill_random(rng: &mut ThreadRng, dest: &mut [u8; 32]) {
    rng.fill(dest)
}

} // verus!
