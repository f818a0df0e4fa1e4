use vstd::prelude::*;

verus! {

pub const NANOS_PER_SEC: u32 = 1_000_000_000;

/// A span of time as whole seconds and nanoseconds (the parts of a
/// `std::time::Duration`).
#[derive(Debug, Clone, Copy, PartialEq, Eq, Structural)]
pub struct Span {
    pub secs: u64,
    pub nanos: u32,
}

impl Span {
    /// The parts are normalized: fewer than a second of nanoseconds.
    pub open spec fn valid(self) -> bool {
        self.nanos < NANOS_PER_SEC
    }

    /// Length in nanoseconds.
    pub open spec fn total(self) -> int {
        self.secs * 1_000_000_000 + self.nanos
    }

    /// The longest span that can be held.
    pub open spec fn max_total() -> int {
        u64::MAX * 1_000_000_000 + 999_999_999
    }

    pub fn zero() -> (s: Span)
        ensures
            s.valid(),
            s.total() == 0,
    {
        Span { secs: 0, nanos: 0 }
    }

    pub fn from_secs(secs: u64) -> (s: Span)
        ensures
            s.valid(),
            s.total() == secs * 1_000_000_000,
    {
        Span { secs, nanos: 0 }
    }

    pub fn is_zero(&self) -> (b: bool)
        requires
            self.valid(),
        ensures
            b == (self.total() == 0),
    {
        self.secs == 0 && self.nanos == 0
    }

    /// The sum of two spans; the sum must fit (as adding `Duration`s
    /// panics on overflow).
    pub fn add(&self, other: &Span) -> (s: Span)
        requires
            self.valid(),
            other.valid(),
            self.total() + other.total() <= Span::max_total(),
        ensures
            s.valid(),
            s.total() == self.total() + other.total(),
    {
        let n = self.nanos + other.nanos;
        if n >= NANOS_PER_SEC {
            Span { secs: self.secs + other.secs + 1, nanos: n - NANOS_PER_SEC }
        } else {
            Span { secs: self.secs + other.secs, nanos: n }
        }
    }

    /// The difference, or zero when `other` is the longer span.
    pub fn saturating_sub(&self, other: &Span) -> (s: Span)
        requires
            self.valid(),
            other.valid(),
        ensures
            s.valid(),
            s.total() == if self.total() >= other.total() {
                self.total() - other.total()
            } else {
                0
            },
    {
        if self.secs < other.secs || (self.secs == other.secs && self.nanos < other.nanos) {
            return Span { secs: 0, nanos: 0 };
        }
        if self.nanos >= other.nanos {
            Span { secs: self.secs - other.secs, nanos: self.nanos - other.nanos }
        } else {
            Span { secs: self.secs - other.secs - 1, nanos: self.nanos + NANOS_PER_SEC - other.nanos }
        }
    }
}

} // verus!
