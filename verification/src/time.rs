//! Durations in microseconds, differences between them, and bandwidths.

use vstd::prelude::*;

verus! {

/// The largest number of milliseconds that a [`Time`] can hold.
pub const MAX_MILLIS: u64 = 18_446_744_073_709_551;

/// A duration, kept in whole microseconds.
#[derive(Clone, Copy, Debug, PartialEq, Eq, Structural, PartialOrd, Ord, Hash)]
pub struct Time {
    pub micros: u64,
}

/// The signed difference of two durations, in microseconds.
#[derive(Clone, Copy, Debug, PartialEq, Eq, Structural, PartialOrd, Ord, Hash)]
pub struct TimeDiff {
    pub micros: i128,
}

/// A share of processor time, in millionths: 900 000 stands for 0.9.
#[derive(Clone, Copy, Debug, PartialEq, Eq, Structural, PartialOrd, Ord, Hash)]
pub struct Bandwidth {
    pub millionths: u64,
}

/// `n / d` rounded to the nearest integer, a tie going to the even neighbour.
pub open spec fn round_half_even(n: nat, d: nat) -> nat
    recommends
        d > 0,
{
    let q = n / d;
    let r = n % d;
    if 2 * r > d || (2 * r == d && q % 2 == 1) {
        q + 1
    } else {
        q
    }
}

/// The product of two 64-bit numbers fits in 128 bits.
pub proof fn lemma_product_fits(a: u64, b: u64)
    ensures
        0 <= a * b <= u64::MAX * u64::MAX,
        a * b <= u128::MAX,
{
    assert(0 <= a * b <= 0xffff_ffff_ffff_ffff * 0xffff_ffff_ffff_ffff) by (nonlinear_arith)
        requires
            0 <= a <= 0xffff_ffff_ffff_ffff,
            0 <= b <= 0xffff_ffff_ffff_ffff,
    ;
}

impl Time {
    /// The duration in milliseconds, rounded to the nearest whole one (a tie to the even one).
    pub open spec fn spec_millis_rounded(self) -> nat {
        round_half_even(self.micros as nat, 1000)
    }

    /// The duration is a whole number of milliseconds.
    pub open spec fn spec_is_whole_millis(self) -> bool {
        self.micros % 1000 == 0
    }

    /// `self / period <= cap`, for a positive `period`. No share of an empty period is within
    /// any cap.
    pub open spec fn spec_within_bandwidth(self, period: Time, cap: Bandwidth) -> bool {
        period.micros > 0 && self.micros * 1_000_000 <= cap.millionths * period.micros
    }

    pub fn zero() -> (t: Time)
        ensures
            t.micros == 0,
    {
        Time { micros: 0 }
    }

    pub fn from_micros(micros: u64) -> (t: Time)
        ensures
            t.micros == micros,
    {
        Time { micros }
    }

    /// A duration of `millis` milliseconds, unless that is more than a `Time` holds.
    pub fn from_millis(millis: u64) -> (t: Option<Time>)
        ensures
            t == if millis <= MAX_MILLIS {
                Some(Time { micros: (millis * 1000) as u64 })
            } else {
                None
            },
    {
        if millis <= MAX_MILLIS {
            Some(Time { micros: millis * 1000 })
        } else {
            None
        }
    }

    pub fn as_micros(self) -> (m: u64)
        ensures
            m == self.micros,
    {
        self.micros
    }

    #[verifier::when_used_as_spec(spec_is_whole_millis)]
    pub fn is_whole_millis(self) -> (b: bool)
        ensures
            b == self.spec_is_whole_millis(),
    {
        self.micros % 1000 == 0
    }

    pub fn millis_rounded(self) -> (m: u64)
        ensures
            m == self.spec_millis_rounded(),
            self.spec_is_whole_millis() ==> m * 1000 == self.micros,
    {
        let q = self.micros / 1000;
        let r = self.micros % 1000;
        if r > 500 || (r == 500 && q % 2 == 1) {
            q + 1
        } else {
            q
        }
    }

    /// The sum of two durations, unless it is more than a `Time` holds.
    pub fn checked_add(self, other: Time) -> (t: Option<Time>)
        ensures
            t == if self.micros + other.micros <= u64::MAX {
                Some(Time { micros: (self.micros + other.micros) as u64 })
            } else {
                None
            },
    {
        if self.micros <= u64::MAX - other.micros {
            Some(Time { micros: self.micros + other.micros })
        } else {
            None
        }
    }

    /// `self - other`, unless `other` is the longer one.
    pub fn checked_sub(self, other: Time) -> (t: Option<Time>)
        ensures
            t == if other.micros <= self.micros {
                Some(Time { micros: (self.micros - other.micros) as u64 })
            } else {
                None
            },
    {
        if other.micros <= self.micros {
            Some(Time { micros: self.micros - other.micros })
        } else {
            None
        }
    }

    /// `factor` times the duration, unless that is more than a `Time` holds.
    pub fn checked_mul(self, factor: u64) -> (t: Option<Time>)
        ensures
            t == if self.micros * factor <= u64::MAX {
                Some(Time { micros: (self.micros * factor) as u64 })
            } else {
                None
            },
    {
        proof {
            lemma_product_fits(self.micros, factor);
        }
        let wide: u128 = (self.micros as u128) * (factor as u128);
        if wide <= u64::MAX as u128 {
            Some(Time { micros: wide as u64 })
        } else {
            None
        }
    }

    /// The signed difference `self - other`.
    pub fn diff(self, other: Time) -> (d: TimeDiff)
        ensures
            d.micros == self.micros - other.micros,
    {
        TimeDiff { micros: self.micros as i128 - other.micros as i128 }
    }

    /// Whether the ratio `self / period` is at most `cap`.
    #[verifier::when_used_as_spec(spec_within_bandwidth)]
    pub fn within_bandwidth(self, period: Time, cap: Bandwidth) -> (b: bool)
        ensures
            b == self.spec_within_bandwidth(period, cap),
    {
        proof {
            lemma_product_fits(cap.millionths, period.micros);
        }
        let used: u128 = (self.micros as u128) * 1_000_000u128;
        let granted: u128 = (cap.millionths as u128) * (period.micros as u128);
        period.micros > 0 && used <= granted
    }
}

impl TimeDiff {
    pub fn zero() -> (d: TimeDiff)
        ensures
            d.micros == 0,
    {
        TimeDiff { micros: 0 }
    }

    pub fn as_micros(self) -> (m: i128)
        ensures
            m == self.micros,
    {
        self.micros
    }

    /// The difference is a late finish: more than nothing.
    pub open spec fn spec_is_positive(self) -> bool {
        self.micros > 0
    }

    #[verifier::when_used_as_spec(spec_is_positive)]
    pub fn is_positive(self) -> (b: bool)
        ensures
            b == self.spec_is_positive(),
    {
        self.micros > 0
    }
}

impl Bandwidth {
    pub fn from_millionths(millionths: u64) -> (b: Bandwidth)
        ensures
            b.millionths == millionths,
    {
        Bandwidth { millionths }
    }
}

} // verus!
