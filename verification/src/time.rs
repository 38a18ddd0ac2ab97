//! Monotonic time in whole nanoseconds.
use crate::arithmetic::whole;
use crate::binary32::Binary32;
use vstd::prelude::*;

verus! {

/// Nanoseconds in one second.
pub const NANOS_PER_SEC: u128 = 1_000_000_000;

/// Largest number of nanoseconds a span of time can hold: `u64::MAX` seconds
/// and 999 999 999 nanoseconds.
pub const MAX_NANOS: u128 = 18_446_744_073_709_551_615_999_999_999;

/// Bit pattern of 1 000 000 000.
pub const GIGA_BITS: u32 = 0x4e6e_6b28;

/// Nanoseconds as a number of seconds: whole seconds plus the rest.
pub open spec fn in_seconds(nanos: nat) -> Binary32 {
    whole(nanos / NANOS_PER_SEC as nat).sum(
        whole(nanos % NANOS_PER_SEC as nat).quotient((Binary32 { bits: GIGA_BITS })),
    )
}

/// A span of time with nanosecond resolution.
#[derive(Debug, Clone, Copy, PartialEq, Eq, Structural)]
pub struct Duration {
    nanos: u128,
}

impl View for Duration {
    type V = nat;

    /// The length of the span in nanoseconds.
    closed spec fn view(&self) -> nat {
        self.nanos as nat
    }
}

impl Duration {
    #[verifier::type_invariant]
    spec fn in_range(self) -> bool {
        self.nanos <= MAX_NANOS
    }

    /// A span of whole seconds.
    pub fn from_secs(secs: u64) -> (r: Self)
        ensures
            r@ == secs * NANOS_PER_SEC,
    {
        Duration { nanos: (secs as u128) * NANOS_PER_SEC }
    }

    /// A span of whole milliseconds.
    pub fn from_millis(millis: u64) -> (r: Self)
        ensures
            r@ == millis * 1_000_000,
    {
        Duration { nanos: (millis as u128) * 1_000_000 }
    }

    /// A span of whole nanoseconds.
    pub fn from_nanos(nanos: u64) -> (r: Self)
        ensures
            r@ == nanos,
    {
        Duration { nanos: nanos as u128 }
    }

    /// A span of `secs` seconds and `subsec_nanos` nanoseconds.
    pub fn from_parts(secs: u64, subsec_nanos: u32) -> (r: Self)
        requires
            subsec_nanos < NANOS_PER_SEC,
        ensures
            r@ == secs * NANOS_PER_SEC + subsec_nanos,
    {
        Duration { nanos: (secs as u128) * NANOS_PER_SEC + (subsec_nanos as u128) }
    }

    /// The length of the span in nanoseconds.
    pub fn as_nanos(&self) -> (r: u128)
        ensures
            r == self@,
            r <= MAX_NANOS,
    {
        proof {
            use_type_invariant(&*self);
        }
        self.nanos
    }

    /// Whether this span is no longer than `other`.
    pub fn at_most(&self, other: &Duration) -> (r: bool)
        ensures
            r == (self@ <= other@),
    {
        self.nanos <= other.nanos
    }

    /// The length of the span in seconds.
    pub fn as_secs_f32(&self) -> (r: Binary32)
        ensures
            r == in_seconds(self@),
    {
        proof {
            use_type_invariant(&*self);
        }
        let secs: u64 = (self.nanos / NANOS_PER_SEC) as u64;
        let rest: u64 = (self.nanos % NANOS_PER_SEC) as u64;
        Binary32::from_u64(secs).plus(Binary32::from_u64(rest).over(Binary32 { bits: GIGA_BITS }))
    }
}

/// A point in time, measured from the origin of a [`Clock`].
#[derive(Debug, Clone, Copy, PartialEq, Eq, Structural)]
pub struct Instant {
    nanos: u128,
}

impl View for Instant {
    type V = nat;

    /// Nanoseconds since the origin of the clock.
    closed spec fn view(&self) -> nat {
        self.nanos as nat
    }
}

impl Instant {
    #[verifier::type_invariant]
    spec fn in_range(self) -> bool {
        self.nanos <= MAX_NANOS
    }

    /// The instant that lies `offset` after the origin.
    pub fn at(offset: Duration) -> (r: Self)
        ensures
            r@ == offset@,
    {
        proof {
            use_type_invariant(&offset);
        }
        Instant { nanos: offset.nanos }
    }

    /// Nanoseconds since the origin.
    pub fn as_nanos(&self) -> (r: u128)
        ensures
            r == self@,
            r <= MAX_NANOS,
    {
        proof {
            use_type_invariant(&*self);
        }
        self.nanos
    }

    /// Whether this instant lies strictly before `other`.
    pub fn is_before(&self, other: &Instant) -> (r: bool)
        ensures
            r == (self@ < other@),
    {
        self.nanos < other.nanos
    }

    /// The instant `span` later, unless it cannot be represented.
    pub fn checked_add(&self, span: Duration) -> (r: Option<Instant>)
        ensures
            r is Some <==> self@ + span@ <= MAX_NANOS,
            r matches Some(later) ==> later@ == self@ + span@,
    {
        proof {
            use_type_invariant(&*self);
            use_type_invariant(&span);
        }
        let nanos = self.nanos + span.nanos;
        if nanos <= MAX_NANOS {
            Some(Instant { nanos })
        } else {
            None
        }
    }

    /// The instant `span` later.
    pub fn plus(&self, span: Duration) -> (r: Instant)
        requires
            self@ + span@ <= MAX_NANOS,
        ensures
            r@ == self@ + span@,
    {
        Instant { nanos: self.nanos + span.nanos }
    }

    /// The time from `earlier` to this instant, or zero if `earlier` is later.
    pub fn saturating_duration_since(&self, earlier: Instant) -> (r: Duration)
        ensures
            r@ == elapsed_between(earlier@, self@),
    {
        proof {
            use_type_invariant(&*self);
        }
        if earlier.nanos <= self.nanos {
            Duration { nanos: self.nanos - earlier.nanos }
        } else {
            Duration { nanos: 0 }
        }
    }
}

/// The nanoseconds from `earlier` to `later`, or zero when they are reversed.
pub open spec fn elapsed_between(earlier: nat, later: nat) -> nat {
    if earlier <= later {
        (later - earlier) as nat
    } else {
        0
    }
}

/// The later of two instants.
pub fn later_of(a: Instant, b: Instant) -> (r: Instant)
    ensures
        r == if a@ < b@ { b } else { a },
{
    if a.is_before(&b) {
        b
    } else {
        a
    }
}

/// The system's monotonic clock reading.
#[verifier::external_type_specification]
#[verifier::external_body]
pub struct ExStdInstant(std::time::Instant);

/// `std::time::Instant::now` reads the system's monotonic clock. Nothing is
/// claimed of the reading: it depends on when the call is made.
pub assume_specification[ std::time::Instant::now ]() -> std::time::Instant
;

/// `std::time::Instant::elapsed`, with the span split into whole seconds and
/// the remaining nanoseconds. The remainder is always less than one second;
/// the span itself depends on when the call is made.
#[verifier::external_body]
fn elapsed_parts(origin: &std::time::Instant) -> (parts: (u64, u32))
    ensures
        parts.1 < NANOS_PER_SEC,
{
    let span = origin.elapsed();
    (span.as_secs(), span.subsec_nanos())
}

/// A source of [`Instant`]s counted from the moment it was started.
#[derive(Clone, Copy)]
pub struct Clock {
    origin: std::time::Instant,
}

impl Clock {
    /// Starts a clock whose origin is the present moment, of which nothing can be stated.
    pub fn start() -> Self {
        Clock { origin: std::time::Instant::now() }
    }

    /// The present moment, counted from the origin: any instant, depending on when the call is made.
    pub fn now(&self) -> Instant {
        let parts = elapsed_parts(&self.origin);
        Instant::at(Duration::from_parts(parts.0, parts.1))
    }

    /// The present moment, after one that this clock has already shown: time
    /// never runs backwards.
    pub fn now_after(&self, earlier: Instant) -> (r: Instant)
        ensures
            earlier@ <= r@,
    {
        later_of(earlier, self.now())
    }
}

} // verus!
