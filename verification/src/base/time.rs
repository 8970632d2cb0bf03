//! Points in time and spans of time, as integers of nanoseconds.
//!
//! The crate reads no clock. Whoever drives it passes the current instant in.

use vstd::prelude::*;

verus! {

/// Nanoseconds in one second.
pub const NANOS_PER_SEC: u128 = 1_000_000_000;

/// Nanoseconds in one millisecond.
pub const NANOS_PER_MILLI: u128 = 1_000_000;

/// Nanoseconds in one microsecond.
pub const NANOS_PER_MICRO: u128 = 1_000;

/// A span of time.
#[derive(Clone, Copy, Debug, PartialEq, Eq, Hash, Structural)]
pub struct Duration {
    pub nanos: u128,
}

impl Duration {
    pub fn from_secs(secs: u64) -> (d: Duration)
        ensures
            d.nanos == secs * NANOS_PER_SEC,
    {
        Duration { nanos: secs as u128 * NANOS_PER_SEC }
    }

    pub fn from_millis(millis: u64) -> (d: Duration)
        ensures
            d.nanos == millis * NANOS_PER_MILLI,
    {
        Duration { nanos: millis as u128 * NANOS_PER_MILLI }
    }

    pub fn from_micros(micros: u64) -> (d: Duration)
        ensures
            d.nanos == micros * NANOS_PER_MICRO,
    {
        Duration { nanos: micros as u128 * NANOS_PER_MICRO }
    }

    /// Whole seconds in the span.
    pub fn as_secs(&self) -> (secs: u128)
        ensures
            secs == self.nanos as int / NANOS_PER_SEC as int,
    {
        self.nanos / NANOS_PER_SEC
    }

    /// Whole microseconds in the span.
    pub fn as_micros(&self) -> (micros: u128)
        ensures
            micros == self.nanos as int / NANOS_PER_MICRO as int,
    {
        self.nanos / NANOS_PER_MICRO
    }
}

/// A point on a monotonic time line, counted from an origin of the caller's
/// choosing.
#[derive(Clone, Copy, Debug, PartialEq, Eq, Hash, Structural)]
pub struct Instant {
    pub nanos: u128,
}

/// The nanoseconds from `earlier` to `later`, zero if `later` comes first.
pub open spec fn elapsed_nanos(earlier: Instant, later: Instant) -> int {
    if later.nanos >= earlier.nanos {
        later.nanos - earlier.nanos
    } else {
        0
    }
}

impl Instant {
    /// The time from `earlier` to this instant, zero if `earlier` is later.
    pub fn duration_since(&self, earlier: Instant) -> (d: Duration)
        ensures
            d.nanos == elapsed_nanos(earlier, *self),
    {
        if self.nanos >= earlier.nanos {
            Duration { nanos: self.nanos - earlier.nanos }
        } else {
            Duration { nanos: 0 }
        }
    }

    /// The instant `d` after this one.
    pub fn plus(&self, d: Duration) -> (t: Instant)
        requires
            self.nanos + d.nanos <= u128::MAX,
        ensures
            t.nanos == self.nanos + d.nanos,
    {
        Instant { nanos: self.nanos + d.nanos }
    }
}

} // verus!
