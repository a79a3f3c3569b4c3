//! Spans and points of time, counted in nanoseconds.

use vstd::prelude::*;

verus! {

/// Nanoseconds in a second.
pub const NANOS_PER_SEC: u128 = 1_000_000_000;

/// Nanoseconds in a millisecond.
pub const NANOS_PER_MILLI: u128 = 1_000_000;

/// The longest span: a 64-bit number of seconds, and almost one more.
pub const MAX_SPAN_NANOS: u128 = 18_446_744_073_709_551_615_999_999_999;

/// A span of time.
#[derive(Clone, Copy, Debug, PartialEq, Eq, PartialOrd, Ord, Hash, Structural)]
pub struct Duration {
    /// How many nanoseconds it lasts.
    pub nanos: u128,
}

impl Duration {
    /// Whether the span is no longer than the longest one.
    pub open spec fn in_range(self) -> bool {
        self.nanos <= MAX_SPAN_NANOS
    }

    /// A span of whole seconds.
    pub fn from_secs(secs: u64) -> (span: Self)
        ensures
            span.nanos == secs * NANOS_PER_SEC,
            span.in_range(),
    {
        Duration { nanos: secs as u128 * NANOS_PER_SEC }
    }

    /// A span of whole milliseconds.
    pub fn from_millis(millis: u64) -> (span: Self)
        ensures
            span.nanos == millis * NANOS_PER_MILLI,
            span.in_range(),
    {
        Duration { nanos: millis as u128 * NANOS_PER_MILLI }
    }

    /// The whole seconds of the span.
    pub fn as_secs(&self) -> (secs: u64)
        requires
            self.in_range(),
        ensures
            secs == self.nanos / NANOS_PER_SEC,
    {
        (self.nanos / NANOS_PER_SEC) as u64
    }

    /// The whole milliseconds of the span.
    pub fn as_millis(&self) -> (millis: u128)
        ensures
            millis == self.nanos / NANOS_PER_MILLI,
    {
        self.nanos / NANOS_PER_MILLI
    }

    /// The sum of two spans, or the longest span where the sum would be longer.
    pub fn saturating_add(self, other: Duration) -> (sum: Duration)
        ensures
            sum.nanos == if self.nanos + other.nanos <= MAX_SPAN_NANOS {
                self.nanos + other.nanos
            } else {
                MAX_SPAN_NANOS as int
            },
            sum.in_range(),
    {
        match self.nanos.checked_add(other.nanos) {
            Some(nanos) => if nanos <= MAX_SPAN_NANOS {
                Duration { nanos }
            } else {
                Duration { nanos: MAX_SPAN_NANOS }
            },
            None => Duration { nanos: MAX_SPAN_NANOS },
        }
    }
}

/// A point of time, as the span since a moment that stays fixed while a process runs.
#[derive(Clone, Copy, Debug, PartialEq, Eq, PartialOrd, Ord, Hash, Structural)]
pub struct Instant {
    /// How many nanoseconds have passed since that moment.
    pub nanos: u128,
}

impl Instant {
    /// The nanoseconds from `earlier` to `self`; none where `earlier` is later.
    pub open spec fn since(self, earlier: Instant) -> int {
        if earlier.nanos <= self.nanos {
            self.nanos - earlier.nanos
        } else {
            0
        }
    }

    /// The span from `earlier` to `self`; an empty one where `earlier` is later.
    pub fn saturating_duration_since(&self, earlier: Instant) -> (span: Duration)
        ensures
            span.nanos == self.since(earlier),
    {
        if earlier.nanos <= self.nanos {
            Duration { nanos: self.nanos - earlier.nanos }
        } else {
            Duration { nanos: 0 }
        }
    }
}

} // verus!
