//! Points in time and spans of time, as plain numbers of nanoseconds. The
//! library never reads a clock: whoever calls it says what time it is.

use vstd::prelude::*;

verus! {

/// The latest point in time: the last nanosecond whose second fits in an `i64`.
pub const LATEST_NANOS: u128 = 9_223_372_036_854_775_807_999_999_999;

/// Nanoseconds in a second.
pub const NANOS_PER_SEC: u128 = 1_000_000_000;

/// A span of time.
#[derive(Debug, Clone, Copy, PartialEq, Eq, Structural)]
pub struct Duration {
    /// Its length in nanoseconds.
    pub nanos: u128,
}

/// A point in time.
#[derive(Debug, Clone, Copy, PartialEq, Eq, Structural)]
pub struct Timestamp {
    /// Nanoseconds since the origin that the caller's clock counts from.
    pub nanos: u128,
}

impl Duration {
    /// A span of whole seconds.
    pub fn from_secs(secs: u64) -> (r: Duration)
        ensures
            r.nanos == secs * NANOS_PER_SEC,
    {
        assert(secs * NANOS_PER_SEC <= u64::MAX * NANOS_PER_SEC) by (nonlinear_arith)
            requires
                secs <= u64::MAX,
        ;
        Duration { nanos: secs as u128 * NANOS_PER_SEC }
    }
}

impl Timestamp {
    /// The point in time a number of whole seconds after the origin.
    pub fn from_secs(secs: u64) -> (r: Timestamp)
        ensures
            r.nanos == secs * NANOS_PER_SEC,
    {
        Timestamp { nanos: Duration::from_secs(secs).nanos }
    }

    /// The point in time a span later, or none where that is past the latest one.
    pub open spec fn plus(self, span: Duration) -> Option<Timestamp> {
        if self.nanos + span.nanos <= LATEST_NANOS {
            Some(Timestamp { nanos: (self.nanos + span.nanos) as u128 })
        } else {
            None
        }
    }

    /// The point in time a span later, or none where that is past the latest one.
    pub fn checked_add(self, span: Duration) -> (r: Option<Timestamp>)
        ensures
            r == self.plus(span),
    {
        if span.nanos <= LATEST_NANOS && self.nanos <= LATEST_NANOS - span.nanos {
            Some(Timestamp { nanos: self.nanos + span.nanos })
        } else {
            None
        }
    }

    /// The span since an earlier point in time; zero where that is later.
    pub open spec fn since(self, earlier: Timestamp) -> Duration {
        if earlier.nanos <= self.nanos {
            Duration { nanos: (self.nanos - earlier.nanos) as u128 }
        } else {
            Duration { nanos: 0 }
        }
    }

    /// The span since an earlier point in time; zero where that is later.
    pub fn saturating_duration_since(self, earlier: Timestamp) -> (r: Duration)
        ensures
            r == self.since(earlier),
    {
        if earlier.nanos <= self.nanos {
            Duration { nanos: self.nanos - earlier.nanos }
        } else {
            Duration { nanos: 0 }
        }
    }
}

} // verus!
