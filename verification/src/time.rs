//! Spans of time, held as whole seconds plus sub-second nanoseconds.
//!
//! Points in time are spans measured from an origin chosen by the caller
//! (the runtime passes the current time in; the library never reads a clock).
use vstd::prelude::*;

verus! {

/// Number of nanoseconds in one second.
pub const NANOS_PER_SEC: u32 = 1_000_000_000;

/// A span of time with nanosecond precision.
#[derive(Clone, Copy, PartialEq, Eq, Debug, Structural)]
pub struct Span {
    /// Whole seconds.
    pub secs: u64,
    /// Nanoseconds past `secs`, always below one second.
    pub nanos: u32,
}

/// The longest span that can be represented, in nanoseconds.
pub open spec fn max_total_nanos() -> nat {
    (u64::MAX as nat) * 1_000_000_000 + 999_999_999
}

/// What std's `Duration / u32` gives for the duration `secs`, `nanos`
/// divided by `by`, as (seconds, sub-second nanoseconds).
pub uninterp spec fn duration_div(secs: u64, nanos: u32, by: u32) -> (u64, u32);

impl Span {
    /// The sub-second part is below one second.
    pub open spec fn wf(self) -> bool {
        self.nanos < NANOS_PER_SEC
    }

    /// Total length in nanoseconds.
    pub open spec fn total(self) -> nat {
        (self.secs as nat) * 1_000_000_000 + (self.nanos as nat)
    }

    /// The empty span.
    pub fn zero() -> (s: Span)
        ensures
            s.wf(),
            s.total() == 0,
    {
        Span { secs: 0, nanos: 0 }
    }

    /// A span of `secs` whole seconds.
    pub fn from_secs(secs: u64) -> (s: Span)
        ensures
            s.wf(),
            s.secs == secs,
            s.nanos == 0,
            s.total() == secs * 1_000_000_000,
    {
        Span { secs, nanos: 0 }
    }

    /// A span of `millis` milliseconds.
    pub fn from_millis(millis: u64) -> (s: Span)
        ensures
            s.wf(),
            s.total() == millis * 1_000_000,
    {
        let secs = millis / 1000;
        let rest = (millis % 1000) as u32;
        assert(rest * 1_000_000 < 1_000_000_000) by (nonlinear_arith)
            requires rest < 1000;
        let nanos = rest * 1_000_000;
        assert(millis == secs * 1000 + rest);
        Span { secs, nanos }
    }

    /// Sum of two spans, or `None` when it exceeds the longest span.
    pub fn checked_add(self, other: Span) -> (r: Option<Span>)
        requires
            self.wf(),
            other.wf(),
        ensures
            r is Some <==> self.total() + other.total() <= max_total_nanos(),
            r matches Some(s) ==> s.wf() && s.total() == self.total() + other.total(),
    {
        let sum_nanos: u32 = self.nanos + other.nanos;
        match self.secs.checked_add(other.secs) {
            None => None,
            Some(secs) => {
                if sum_nanos >= NANOS_PER_SEC {
                    match secs.checked_add(1) {
                        None => None,
                        Some(s2) => Some(Span { secs: s2, nanos: sum_nanos - NANOS_PER_SEC }),
                    }
                } else {
                    Some(Span { secs, nanos: sum_nanos })
                }
            },
        }
    }

    /// `self - other`, or the empty span when `other` is longer.
    pub fn saturating_sub(self, other: Span) -> (r: Span)
        requires
            self.wf(),
            other.wf(),
        ensures
            r.wf(),
            r.total() == (if self.total() >= other.total() { self.total() - other.total() } else { 0 }),
    {
        if self.secs < other.secs || (self.secs == other.secs && self.nanos < other.nanos) {
            Span { secs: 0, nanos: 0 }
        } else if self.nanos >= other.nanos {
            Span { secs: self.secs - other.secs, nanos: self.nanos - other.nanos }
        } else {
            Span { secs: self.secs - other.secs - 1, nanos: NANOS_PER_SEC - other.nanos + self.nanos }
        }
    }

    /// Whether `self` is strictly shorter than `other`.
    pub fn lt(&self, other: &Span) -> (r: bool)
        requires
            self.wf(),
            other.wf(),
        ensures
            r == (self.total() < other.total()),
    {
        self.secs < other.secs || (self.secs == other.secs && self.nanos < other.nanos)
    }

    /// This span divided by `by`, as std's `Duration / u32` computes it.
    ///
    /// Trusted: builds a `std::time::Duration` from the two fields, divides
    /// it with std's `Div<u32>` and reads the quotient back. The contract
    /// names the quotient and states only that it is a valid span.
    #[verifier::external_body]
    pub(crate) fn div_u32(self, by: u32) -> (r: Span)
        requires
            self.wf(),
            by != 0,
        ensures
            r.wf(),
            (r.secs, r.nanos) == duration_div(self.secs, self.nanos, by),
    {
        let q = std::time::Duration::new(self.secs, self.nanos) / by;
        Span { secs: q.as_secs(), nanos: q.subsec_nanos() }
    }
}

} // verus!
