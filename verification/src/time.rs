//! Spans and points of time, counted in nanoseconds.

use vstd::prelude::*;

verus! {

/// A span of time.
#[derive(Clone, Copy, Debug, PartialEq, Eq, Structural)]
pub struct Duration {
    pub nanos: u128,
}

impl Duration {
    /// A span of whole seconds.
    pub fn from_secs(secs: u64) -> (r: Duration)
        ensures
            r.nanos == secs * 1_000_000_000,
    {
        Duration { nanos: secs as u128 * 1_000_000_000 }
    }

    /// A span of whole milliseconds.
    pub fn from_millis(millis: u64) -> (r: Duration)
        ensures
            r.nanos == millis * 1_000_000,
    {
        Duration { nanos: millis as u128 * 1_000_000 }
    }

    /// Whether the span is empty.
    pub fn is_zero(&self) -> (r: bool)
        ensures
            r == (self.nanos == 0),
    {
        self.nanos == 0
    }
}

/// A point of a monotonic clock, as the time since the clock's start.
#[derive(Clone, Copy, Debug, PartialEq, Eq, Structural)]
pub struct Instant {
    pub nanos: u128,
}

/// The point `d` after `t`, or the clock's last point where that lies beyond it.
pub open spec fn later(t: Instant, d: Duration) -> Instant {
    Instant {
        nanos: if t.nanos + d.nanos > u128::MAX {
            u128::MAX
        } else {
            (t.nanos + d.nanos) as u128
        },
    }
}

/// The time from `earlier` to `t`, or none where `earlier` is the later of the two.
pub open spec fn since(t: Instant, earlier: Instant) -> Duration {
    Duration {
        nanos: if t.nanos < earlier.nanos {
            0
        } else {
            (t.nanos - earlier.nanos) as u128
        },
    }
}

impl Instant {
    /// The point `d` after this one.
    pub fn plus(self, d: Duration) -> (r: Instant)
        ensures
            r == later(self, d),
    {
        Instant { nanos: self.nanos.saturating_add(d.nanos) }
    }

    /// The time from `earlier` to this point.
    pub fn duration_since(self, earlier: Instant) -> (r: Duration)
        ensures
            r == since(self, earlier),
    {
        Duration { nanos: self.nanos.saturating_sub(earlier.nanos) }
    }
}

/// Points and spans add up: what lies a span after a point is that span away from it, on
/// a clock that does not run out, and never lies before it.
pub proof fn law_points_and_spans_add_up(t: Instant, d: Duration, u: Instant)
    ensures
        t.nanos + d.nanos <= u128::MAX ==> later(t, d).nanos == t.nanos + d.nanos && since(
            later(t, d),
            t,
        ) == d,
        t.nanos + d.nanos > u128::MAX ==> later(t, d).nanos == u128::MAX,
        t.nanos <= later(t, d).nanos,
        u.nanos >= t.nanos ==> t.nanos + since(u, t).nanos == u.nanos,
        u.nanos <= t.nanos ==> since(u, t).nanos == 0,
{
}

} // verus!
