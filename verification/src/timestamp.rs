//! A point in a track, in seconds and nanoseconds (the shape of `std::time::Duration`).
use vstd::prelude::*;

verus! {

/// A non-negative time offset: `secs` seconds plus `nanos` nanoseconds.
#[derive(Clone, Copy, Debug, PartialEq, Eq, Structural)]
pub struct Timestamp {
    pub secs: u64,
    pub nanos: u32,
}

/// Nanoseconds in one second.
pub const NANOS_PER_SEC: u32 = 1_000_000_000u32;

impl Timestamp {
    /// The nanosecond part is below one second, as in every `Duration`.
    pub open spec fn wf(self) -> bool {
        self.nanos < NANOS_PER_SEC
    }

    /// The offset as a number of nanoseconds.
    pub open spec fn total_nanos(self) -> int {
        self.secs * 1_000_000_000 + self.nanos
    }

    /// `self < other` in the order of `Duration` (seconds first, then nanoseconds).
    pub open spec fn spec_lt(self, other: Timestamp) -> bool {
        self.secs < other.secs || (self.secs == other.secs && self.nanos < other.nanos)
    }

    /// The zero offset.
    pub open spec fn zero_spec() -> Timestamp {
        Timestamp { secs: 0, nanos: 0 }
    }

    /// The zero offset (`Duration::default()`).
    pub fn zero() -> (r: Timestamp)
        ensures
            r == Timestamp::zero_spec(),
            r.wf(),
    {
        Timestamp { secs: 0, nanos: 0 }
    }

    /// A timestamp from its two parts (`Duration::new` with nanoseconds below a second).
    pub fn new(secs: u64, nanos: u32) -> (r: Timestamp)
        requires
            nanos < NANOS_PER_SEC,
        ensures
            r.secs == secs,
            r.nanos == nanos,
            r.wf(),
    {
        Timestamp { secs, nanos }
    }

    /// Whether `self` comes strictly before `other`.
    pub fn lt(&self, other: &Timestamp) -> (r: bool)
        ensures
            r == self.spec_lt(*other),
    {
        self.secs < other.secs || (self.secs == other.secs && self.nanos < other.nanos)
    }

    /// `self - other` (`Duration`'s subtraction); `other` must not come after `self`.
    pub fn sub(&self, other: &Timestamp) -> (r: Timestamp)
        requires
            self.wf(),
            other.wf(),
            !self.spec_lt(*other),
        ensures
            r.wf(),
            r.total_nanos() == self.total_nanos() - other.total_nanos(),
    {
        if self.nanos >= other.nanos {
            Timestamp { secs: self.secs - other.secs, nanos: self.nanos - other.nanos }
        } else {
            Timestamp {
                secs: self.secs - other.secs - 1,
                nanos: self.nanos + (NANOS_PER_SEC - other.nanos),
            }
        }
    }
}

/// Under well-formedness the order of `Duration` is the order of the nanosecond counts.
pub proof fn lemma_lt_is_nanos_order(a: Timestamp, b: Timestamp)
    requires
        a.wf(),
        b.wf(),
    ensures
        a.spec_lt(b) <==> a.total_nanos() < b.total_nanos(),
{
    assert(a.secs < b.secs ==> a.secs * 1_000_000_000 + 1_000_000_000 <= b.secs * 1_000_000_000)
        by (nonlinear_arith);
    assert(b.secs < a.secs ==> b.secs * 1_000_000_000 + 1_000_000_000 <= a.secs * 1_000_000_000)
        by (nonlinear_arith);
}

} // verus!
