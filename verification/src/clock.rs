//! Spans of time, in whole nanoseconds.

use vstd::prelude::*;

verus! {

/// The longest span: `u64::MAX` seconds and 999 999 999 nanoseconds.
pub const MAX_NANOS: u128 = 18_446_744_073_709_551_615_999_999_999;

/// A span of time, such as the capture-relative timestamp of a frame.
#[derive(Debug, Clone, Copy, PartialEq, Eq, PartialOrd, Ord, Structural)]
pub struct Duration {
    nanos: u128,
}

impl Duration {
    #[verifier::type_invariant]
    spec fn in_range(self) -> bool {
        self.nanos <= MAX_NANOS
    }

    /// The span in nanoseconds.
    pub closed spec fn view(self) -> nat {
        self.nanos as nat
    }

    /// A span of no time.
    pub fn zero() -> (r: Self)
        ensures
            r@ == 0,
    {
        Duration { nanos: 0 }
    }

    /// A span of `n` nanoseconds.
    pub fn from_nanos(n: u64) -> (r: Self)
        ensures
            r@ == n,
    {
        Duration { nanos: n as u128 }
    }

    /// A span of `n` microseconds.
    pub fn from_micros(n: u64) -> (r: Self)
        ensures
            r@ == n * 1_000,
    {
        Duration { nanos: n as u128 * 1_000 }
    }

    /// A span of `n` milliseconds.
    pub fn from_millis(n: u64) -> (r: Self)
        ensures
            r@ == n * 1_000_000,
    {
        Duration { nanos: n as u128 * 1_000_000 }
    }

    /// A span of `n` seconds.
    pub fn from_secs(n: u64) -> (r: Self)
        ensures
            r@ == n * 1_000_000_000,
    {
        Duration { nanos: n as u128 * 1_000_000_000 }
    }

    /// A span of `n` nanoseconds, or the longest span where `n` is longer.
    pub fn saturating_from_nanos(n: u128) -> (r: Self)
        ensures
            r@ == if n <= MAX_NANOS {
                n as nat
            } else {
                MAX_NANOS as nat
            },
    {
        if n <= MAX_NANOS {
            Duration { nanos: n }
        } else {
            Duration { nanos: MAX_NANOS }
        }
    }

    /// The span in nanoseconds.
    pub fn as_nanos(&self) -> (n: u128)
        ensures
            n == self@,
            n <= MAX_NANOS,
    {
        proof {
            use_type_invariant(self);
        }
        self.nanos
    }

    /// The span in whole microseconds.
    pub fn as_micros(&self) -> (n: u128)
        ensures
            n == self@ / 1_000,
            n <= MAX_NANOS / 1_000,
    {
        proof {
            use_type_invariant(self);
        }
        self.nanos / 1_000
    }

    /// The span in whole milliseconds.
    pub fn as_millis(&self) -> (n: u128)
        ensures
            n == self@ / 1_000_000,
    {
        self.nanos / 1_000_000
    }

    /// Whether this span is no longer than `other`.
    pub fn at_most(&self, other: &Duration) -> (r: bool)
        ensures
            r == (self@ <= other@),
    {
        self.nanos <= other.nanos
    }

    /// What is left of this span once `other` is taken off, or nothing.
    pub fn saturating_sub(&self, other: Duration) -> (r: Self)
        ensures
            r@ == if self@ >= other@ {
                (self@ - other@) as nat
            } else {
                0
            },
    {
        proof {
            use_type_invariant(self);
        }
        if self.nanos >= other.nanos {
            Duration { nanos: self.nanos - other.nanos }
        } else {
            Duration { nanos: 0 }
        }
    }

    /// The two spans one after the other, or `None` where that is more than the longest span.
    pub fn checked_add(&self, other: Duration) -> (r: Option<Self>)
        ensures
            match r {
                Some(sum) => sum@ == self@ + other@ && sum@ <= MAX_NANOS,
                None => self@ + other@ > MAX_NANOS,
            },
    {
        proof {
            use_type_invariant(self);
            use_type_invariant(&other);
        }
        let sum: u128 = self.nanos + other.nanos;
        if sum <= MAX_NANOS {
            Some(Duration { nanos: sum })
        } else {
            None
        }
    }
}

/// Spans agree on what a second is: a second is a thousand milliseconds, a million microseconds
/// and a billion nanoseconds.
pub proof fn law_units_of_time_agree(
    n: u64,
    secs: Duration,
    millis: Duration,
    micros: Duration,
    nanos: Duration,
)
    requires
        n <= 1_000_000_000,
        call_ensures(Duration::from_secs, (n,), secs),
        call_ensures(Duration::from_millis, ((n * 1_000) as u64,), millis),
        call_ensures(Duration::from_micros, ((n * 1_000_000) as u64,), micros),
        call_ensures(Duration::from_nanos, ((n * 1_000_000_000) as u64,), nanos),
    ensures
        secs@ == millis@,
        millis@ == micros@,
        micros@ == nanos@,
        nanos@ == n * 1_000_000_000,
{
}

/// A span reads back in the units that it was made of.
pub proof fn law_span_reads_back(n: u64, a: Duration, b: Duration, c: Duration, r: (u128, u128, u128))
    requires
        call_ensures(Duration::from_nanos, (n,), a),
        call_ensures(Duration::from_micros, (n,), b),
        call_ensures(Duration::from_millis, (n,), c),
        call_ensures(Duration::as_nanos, (&a,), r.0),
        call_ensures(Duration::as_micros, (&b,), r.1),
        call_ensures(Duration::as_millis, (&c,), r.2),
    ensures
        r.0 == n,
        r.1 == n,
        r.2 == n,
{
}

/// Taking off what was put on gives back the span, and taking off more leaves nothing.
pub proof fn law_sum_takes_apart(a: Duration, b: Duration, sum: Duration, back: Duration, none: Duration)
    requires
        call_ensures(Duration::checked_add, (&a, b), Some(sum)),
        call_ensures(Duration::saturating_sub, (&sum, b), back),
        call_ensures(Duration::saturating_sub, (&b, sum), none),
    ensures
        back@ == a@,
        none@ == 0,
{
}

} // verus!
