//! Points in time and spans of time, as plain numbers of nanoseconds.
//!
//! The library never reads a clock. Every function that depends on the time
//! takes the current [`Instant`] from its caller, so that a run is a function
//! of its inputs.

use vstd::prelude::*;

verus! {

/// Nanoseconds in one millisecond.
pub const NANOS_PER_MILLI: u64 = 1_000_000;

/// Nanoseconds in one second.
pub const NANOS_PER_SEC: u64 = 1_000_000_000;

/// A span of time in nanoseconds.
#[derive(Clone, Copy, Debug, PartialEq, Eq, Structural)]
pub struct Duration {
    pub nanos: u64,
}

/// A point in time: nanoseconds since an origin that the caller's clock fixes.
#[derive(Clone, Copy, Debug, PartialEq, Eq, Structural)]
pub struct Instant {
    pub nanos: u64,
}

/// `a * b`, or `u64::MAX` where the product does not fit.
pub open spec fn saturating_product(a: int, b: int) -> int {
    if a * b > u64::MAX { u64::MAX as int } else { a * b }
}

/// `a + b`, or `u64::MAX` where the sum does not fit.
pub open spec fn saturating_sum(a: int, b: int) -> int {
    if a + b > u64::MAX { u64::MAX as int } else { a + b }
}

impl Duration {
    /// The span of `nanos` nanoseconds.
    pub fn from_nanos(nanos: u64) -> (d: Duration)
        ensures
            d.nanos == nanos,
    {
        Duration { nanos }
    }

    /// The span of `millis` milliseconds; the longest span where that does not fit.
    pub fn from_millis(millis: u64) -> (d: Duration)
        ensures
            d.nanos == saturating_product(millis as int, NANOS_PER_MILLI as int),
    {
        let nanos: u64 = if millis > u64::MAX / NANOS_PER_MILLI {
            u64::MAX
        } else {
            millis * NANOS_PER_MILLI
        };
        Duration { nanos }
    }

    /// The span of `secs` seconds; the longest span where that does not fit.
    pub fn from_secs(secs: u64) -> (d: Duration)
        ensures
            d.nanos == saturating_product(secs as int, NANOS_PER_SEC as int),
    {
        let nanos: u64 = if secs > u64::MAX / NANOS_PER_SEC {
            u64::MAX
        } else {
            secs * NANOS_PER_SEC
        };
        Duration { nanos }
    }

    /// The number of nanoseconds in this span.
    pub fn as_nanos(&self) -> (n: u64)
        ensures
            n == self.nanos,
    {
        self.nanos
    }
}

impl Instant {
    /// The instant `nanos` nanoseconds after the clock's origin.
    pub fn from_nanos(nanos: u64) -> (t: Instant)
        ensures
            t.nanos == nanos,
    {
        Instant { nanos }
    }

    /// How long after `earlier` this instant lies; zero where it does not lie after it.
    pub open spec fn spec_since(self, earlier: Instant) -> int {
        if self.nanos >= earlier.nanos { self.nanos - earlier.nanos } else { 0 }
    }

    /// The time from `earlier` to this instant, zero if `earlier` is the later one.
    pub fn duration_since(&self, earlier: Instant) -> (d: Duration)
        ensures
            d.nanos == self.spec_since(earlier),
    {
        let nanos: u64 = if self.nanos >= earlier.nanos { self.nanos - earlier.nanos } else { 0 };
        Duration { nanos }
    }

    /// This instant moved forward by `d`, stopping at the last instant the clock can show.
    pub fn saturating_add(&self, d: Duration) -> (t: Instant)
        ensures
            t.nanos == saturating_sum(self.nanos as int, d.nanos as int),
    {
        let nanos: u64 = if d.nanos > u64::MAX - self.nanos {
            u64::MAX
        } else {
            self.nanos + d.nanos
        };
        Instant { nanos }
    }
}

} // verus!
