//! Spans of time and readings of a monotonic clock, to the nanosecond.

use vstd::prelude::*;

verus! {

/// Nanoseconds in a second.
pub const NANOS_PER_SEC: u32 = 1_000_000_000;

/// A span of time.
#[derive(Clone, Copy, Debug)]
pub struct Duration {
    secs: u64,
    nanos: u32,
}

impl Duration {
    #[verifier::type_invariant]
    spec fn normalized(self) -> bool {
        self.nanos < NANOS_PER_SEC
    }

    /// The span in nanoseconds.
    pub closed spec fn total(self) -> nat {
        (self.secs * NANOS_PER_SEC + self.nanos) as nat
    }

    /// `secs` seconds and `nanos` nanoseconds.
    pub fn new(secs: u64, nanos: u32) -> (r: Duration)
        requires
            nanos < NANOS_PER_SEC,
        ensures
            r.total() == secs * NANOS_PER_SEC + nanos,
            r.total() == secs * 1_000_000_000 + nanos,
    {
        Duration { secs, nanos }
    }

    /// `secs` seconds.
    pub fn from_secs(secs: u64) -> (r: Duration)
        ensures
            r.total() == secs * NANOS_PER_SEC,
            r.total() == secs * 1_000_000_000,
    {
        Duration { secs, nanos: 0 }
    }

    /// The whole seconds in the span.
    pub fn as_secs(&self) -> (r: u64)
        ensures
            r == self.total() / (NANOS_PER_SEC as nat),
            r * 1_000_000_000 <= self.total() < (r + 1) * 1_000_000_000,
    {
        proof {
            use_type_invariant(self);
        }
        self.secs
    }

    fn as_nanos(&self) -> (r: u128)
        ensures
            r == self.total(),
            r < 0x1_0000_0000_0000_0000 * 1_000_000_000,
    {
        proof {
            use_type_invariant(self);
        }
        self.secs as u128 * 1_000_000_000 + self.nanos as u128
    }

    /// Whether the span is longer than `other`.
    pub fn exceeds(&self, other: &Duration) -> (r: bool)
        ensures
            r == (self.total() > other.total()),
    {
        self.as_nanos() > other.as_nanos()
    }
}

/// A reading of a monotonic clock.
#[derive(Clone, Copy, Debug)]
pub struct Instant {
    elapsed: Duration,
}

impl Instant {
    /// Nanoseconds since the clock's origin.
    pub closed spec fn nanos(self) -> nat {
        self.elapsed.total()
    }

    /// The reading `elapsed` after the clock's origin.
    pub fn at(elapsed: Duration) -> (r: Instant)
        ensures
            r.nanos() == elapsed.total(),
    {
        Instant { elapsed }
    }

    /// The time from `earlier` to this reading, or none at all if `earlier` is in
    /// fact later.
    pub fn duration_since(&self, earlier: &Instant) -> (r: Duration)
        ensures
            r.total() == if self.nanos() >= earlier.nanos() {
                self.nanos() - earlier.nanos()
            } else {
                0
            },
    {
        let now: u128 = self.elapsed.as_nanos();
        let then: u128 = earlier.elapsed.as_nanos();
        let gap: u128 = if now >= then {
            now - then
        } else {
            0
        };
        Duration { secs: (gap / 1_000_000_000) as u64, nanos: (gap % 1_000_000_000) as u32 }
    }
}

/// A second has a thousand million nanoseconds.
pub proof fn law_nanoseconds()
    ensures
        NANOS_PER_SEC == 1000 * 1000 * 1000,
{
}

} // verus!
