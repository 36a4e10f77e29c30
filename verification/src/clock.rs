//! The clocks that the library reads.

use std::time::{Duration, Instant, SystemTime};
use vstd::prelude::*;

verus! {

/// Nanoseconds in a second.
pub const NANOS_PER_SEC: u128 = 1_000_000_000;

/// No reading of a [`Clock`] reaches this.
pub const CLOCK_END: u128 = 18_446_744_073_709_551_616_000_000_000;

/// A point on the machine's monotonic clock.
#[verifier::external_type_specification]
#[verifier::external_body]
pub struct ExInstant(std::time::Instant);

/// A point on the machine's wall clock.
#[verifier::external_type_specification]
#[verifier::external_body]
pub struct ExSystemTime(std::time::SystemTime);

/// `Instant::now`: the present. Nothing is claimed of it.
pub assume_specification[ std::time::Instant::now ]() -> (r: std::time::Instant)
;

/// `Instant::elapsed`: the time since a point. Nothing is claimed of it.
pub assume_specification[ std::time::Instant::elapsed ](i: &std::time::Instant) -> (r:
    std::time::Duration)
;

/// `SystemTime::now`: the present. Nothing is claimed of it.
pub assume_specification[ std::time::SystemTime::now ]() -> (r: std::time::SystemTime)
;

/// `Duration::as_secs`: the whole seconds of a span of time. A span is opaque
/// here, so nothing is claimed of them.
pub assume_specification[ std::time::Duration::as_secs ](d: &std::time::Duration) -> (r: u64)
;

/// `Duration::subsec_nanos`: what a span of time has beyond its whole seconds,
/// which is always less than one second.
pub assume_specification[ std::time::Duration::subsec_nanos ](d: &std::time::Duration) -> (r: u32)
    ensures
        r < NANOS_PER_SEC,
;

/// `SystemTime::duration_since` the Unix epoch: how long ago that was, or
/// nothing where the clock stands before it. Nothing is claimed of the span.
#[verifier::external_body]
fn since_epoch(t: SystemTime) -> (r: Option<Duration>) {
    t.duration_since(std::time::UNIX_EPOCH).ok()
}

/// The seconds of Unix time by how many have passed since the epoch: 0 where the
/// clock stands before it.
pub fn seconds_or_zero(since: Option<u64>) -> (secs: u64)
    ensures
        secs == (match since {
            Some(s) => s,
            None => 0,
        }),
{
    match since {
        Some(s) => s,
        None => 0,
    }
}

/// The seconds since the Unix epoch, 0 where the clock stands before it. Which
/// time the wall clock shows is left open.
pub fn wall_seconds() -> (secs: u64) {
    let since = match since_epoch(SystemTime::now()) {
        Some(d) => Some(d.as_secs()),
        None => None,
    };
    seconds_or_zero(since)
}

/// A span of whole seconds and of nanoseconds beyond them, in nanoseconds.
pub fn span_nanos(secs: u64, beyond: u32) -> (nanos: u128)
    requires
        beyond < NANOS_PER_SEC,
    ensures
        nanos == secs * NANOS_PER_SEC + beyond,
        nanos < CLOCK_END,
{
    secs as u128 * NANOS_PER_SEC + beyond as u128
}

/// Counts nanoseconds from the moment when it was made.
#[derive(Debug, Clone, Copy)]
pub struct Clock {
    anchor: Instant,
}

impl Clock {
    /// A clock that starts now. Which point of time that is is left open.
    pub fn start() -> (c: Self) {
        Clock { anchor: Instant::now() }
    }

    /// The nanoseconds since the clock was made. How many have passed is left
    /// open.
    pub fn now(&self) -> (nanos: u128)
        ensures
            nanos < CLOCK_END,
    {
        let d = self.anchor.elapsed();
        span_nanos(d.as_secs(), d.subsec_nanos())
    }
}

} // verus!
