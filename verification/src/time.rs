//! Spans of time, to the nanosecond.

use vstd::prelude::*;

verus! {

/// Nanoseconds in a second.
pub const NANOS_PER_SEC: u32 = 1_000_000_000;

/// Nanoseconds in a millisecond.
pub const NANOS_PER_MILLI: u32 = 1_000_000;

/// A span of time: whole seconds and the nanoseconds beyond them. Its view is
/// the number of nanoseconds in all.
#[derive(Debug, Clone, Copy, PartialEq, Eq, PartialOrd, Ord, Hash)]
pub struct Duration {
    secs: u64,
    nanos: u32,
}

impl View for Duration {
    type V = nat;

    closed spec fn view(&self) -> nat {
        (self.secs * NANOS_PER_SEC + self.nanos) as nat
    }
}

impl Duration {
    /// The nanoseconds beyond the whole seconds are less than a second.
    #[verifier::type_invariant]
    spec fn wf(self) -> bool {
        self.nanos < NANOS_PER_SEC
    }

    /// The whole milliseconds of the span.
    pub open spec fn millis(self) -> nat {
        self@ / NANOS_PER_MILLI as nat
    }

    /// A span of `secs` seconds and `nanos` nanoseconds; a whole second of
    /// nanoseconds is carried over.
    pub fn new(secs: u64, nanos: u32) -> (r: Duration)
        requires
            secs + nanos / NANOS_PER_SEC <= u64::MAX,
        ensures
            r@ == secs * NANOS_PER_SEC + nanos,
    {
        Duration { secs: secs + (nanos / NANOS_PER_SEC) as u64, nanos: nanos % NANOS_PER_SEC }
    }

    /// A span of `millis` milliseconds.
    pub fn from_millis(millis: u64) -> (r: Duration)
        ensures
            r@ == millis * NANOS_PER_MILLI,
            r.millis() == millis,
    {
        Duration { secs: millis / 1000, nanos: (millis % 1000) as u32 * NANOS_PER_MILLI }
    }

    /// The whole seconds of the span.
    pub fn as_secs(&self) -> (r: u64)
        ensures
            r == self@ / NANOS_PER_SEC as nat,
    {
        proof {
            use_type_invariant(self);
        }
        self.secs
    }

    /// The nanoseconds of the span beyond its whole seconds.
    pub fn subsec_nanos(&self) -> (r: u32)
        ensures
            r == self@ % NANOS_PER_SEC as nat,
            r < NANOS_PER_SEC,
    {
        proof {
            use_type_invariant(self);
        }
        self.nanos
    }

    /// The span in nanoseconds.
    pub fn as_nanos(&self) -> (r: u128)
        ensures
            r == self@,
    {
        assert(self.secs <= 0xffff_ffff_ffff_ffff);
        self.secs as u128 * 1_000_000_000 + self.nanos as u128
    }

    /// The whole milliseconds of the span.
    pub fn as_millis(&self) -> (r: u128)
        ensures
            r == self.millis(),
    {
        proof {
            use_type_invariant(self);
        }
        self.secs as u128 * 1000 + (self.nanos / NANOS_PER_MILLI) as u128
    }

    /// The whole milliseconds of the span, the low 64 bits of their number.
    pub fn as_millis_u64(&self) -> (r: u64)
        ensures
            r == self.millis() % 0x1_0000_0000_0000_0000,
            self.millis() <= u64::MAX ==> r == self.millis(),
    {
        let millis: u128 = self.as_millis();
        assert(millis as u64 == millis % 0x1_0000_0000_0000_0000) by (bit_vector);
        #[verifier::truncate]
        (millis as u64)
    }
}

/// The milliseconds of a span are as many as fit into its nanoseconds.
pub proof fn law_millis_fit_into_the_span(d: Duration)
    ensures
        d.millis() * 1_000_000 <= d@ < (d.millis() + 1) * 1_000_000,
{
}

} // verus!
