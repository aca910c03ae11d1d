//! Time spans and percentages as exact integers.

use vstd::prelude::*;
use vstd::string::StringExecFns;
use crate::text::{decimal, push_decimal};

verus! {

/// Nanoseconds in a microsecond.
pub const NANOS_PER_MICRO: u64 = 1_000;

/// Nanoseconds in a millisecond.
pub const NANOS_PER_MILLI: u64 = 1_000_000;

/// Hundredths of a percent that make up the whole.
pub const WHOLE: u64 = 10_000;

/// A span of time in whole nanoseconds.
#[derive(Clone, Copy, Debug, PartialEq, Eq, Structural)]
pub struct Duration {
    pub nanos: u64,
}

impl Duration {
    /// The span of `nanos` nanoseconds.
    pub fn from_nanos(nanos: u64) -> (d: Duration)
        ensures
            d.nanos == nanos,
    {
        Duration { nanos }
    }

    /// The empty span.
    pub fn zero() -> (d: Duration)
        ensures
            d.nanos == 0,
    {
        Duration { nanos: 0 }
    }

    /// The span in nanoseconds.
    pub fn as_nanos(&self) -> (n: u64)
        ensures
            n == self.nanos,
    {
        self.nanos
    }

    /// Whole microseconds in the span; the remainder is dropped.
    pub fn as_micros(&self) -> (n: u64)
        ensures
            n == self.nanos / NANOS_PER_MICRO,
    {
        self.nanos / NANOS_PER_MICRO
    }

    /// Whole milliseconds in the span; the remainder is dropped.
    pub fn as_millis(&self) -> (n: u64)
        ensures
            n == self.nanos / NANOS_PER_MILLI,
    {
        self.nanos / NANOS_PER_MILLI
    }

    /// The sum of two spans, or `None` where it does not fit.
    pub fn checked_add(&self, other: Duration) -> (sum: Option<Duration>)
        ensures
            self.nanos + other.nanos <= u64::MAX ==> sum == Some(
                Duration { nanos: (self.nanos + other.nanos) as u64 },
            ),
            self.nanos + other.nanos > u64::MAX ==> sum is None,
    {
        match self.nanos.checked_add(other.nanos) {
            Some(n) => Some(Duration { nanos: n }),
            None => None,
        }
    }

    /// The sum of two spans, held at the largest span where it does not fit.
    pub fn saturating_add(&self, other: Duration) -> (sum: Duration)
        ensures
            sum.nanos == capped(self.nanos + other.nanos),
    {
        Duration { nanos: self.nanos.saturating_add(other.nanos) }
    }

    /// The span by which `self` exceeds `other`, zero where it does not.
    pub fn saturating_sub(&self, other: Duration) -> (rest: Duration)
        ensures
            rest.nanos == if self.nanos >= other.nanos {
                self.nanos - other.nanos
            } else {
                0
            },
    {
        Duration { nanos: self.nanos.saturating_sub(other.nanos) }
    }

    /// Whether `self` is the longer span.
    pub fn is_longer_than(&self, other: Duration) -> (longer: bool)
        ensures
            longer == (self.nanos > other.nanos),
    {
        self.nanos > other.nanos
    }
}

/// `n` where it fits in 64 bits, the largest 64-bit value otherwise.
pub open spec fn capped(n: int) -> int {
    if n <= u64::MAX {
        n
    } else {
        u64::MAX as int
    }
}

/// A signed percentage, counted in hundredths of a percent.
#[derive(Clone, Copy, Debug, PartialEq, Eq, Structural)]
pub struct Percent {
    pub hundredths: i128,
}

/// `part` as a share of `whole` in hundredths of a percent, rounded down;
/// zero where `whole` is zero.
pub open spec fn share_of(part: int, whole: int) -> int {
    if whole <= 0 {
        0
    } else {
        (part * WHOLE) / whole
    }
}

/// A part that does not exceed the whole is a share between nothing and
/// everything.
pub proof fn lemma_share_bounded(part: int, whole: int)
    requires
        0 <= part <= whole,
    ensures
        0 <= share_of(part, whole) <= WHOLE,
{
    if whole > 0 {
        assert(0 <= part * WHOLE <= whole * WHOLE) by (nonlinear_arith)
            requires
                0 <= part <= whole,
        ;
        assert(0 <= (part * WHOLE) / whole <= WHOLE) by (nonlinear_arith)
            requires
                0 <= part * WHOLE <= whole * WHOLE,
                whole > 0,
        ;
    }
}

impl Percent {
    /// The percentage of `hundredths` hundredths of a percent.
    pub fn from_hundredths(hundredths: i128) -> (p: Percent)
        ensures
            p.hundredths == hundredths,
    {
        Percent { hundredths }
    }

    /// The percentage of `percent` whole percents.
    pub fn from_whole(percent: u32) -> (p: Percent)
        ensures
            p.hundredths == percent * 100,
    {
        Percent { hundredths: percent as i128 * 100 }
    }

    /// The share that `part` is of `whole`, rounded down to a hundredth of
    /// a percent. A zero `whole` gives zero.
    pub fn share(part: Duration, whole: Duration) -> (p: Percent)
        ensures
            p.hundredths == share_of(part.nanos as int, whole.nanos as int),
    {
        if whole.nanos == 0 {
            Percent { hundredths: 0 }
        } else {
            assert(part.nanos * WHOLE <= u64::MAX * WHOLE) by (nonlinear_arith)
                requires
                    part.nanos <= u64::MAX,
            ;
            let scaled: u128 = part.nanos as u128 * WHOLE as u128;
            let q: u128 = scaled / whole.nanos as u128;
            assert(q <= scaled) by (nonlinear_arith)
                requires
                    q == scaled / (whole.nanos as u128),
                    whole.nanos > 0,
            ;
            Percent { hundredths: q as i128 }
        }
    }

    /// The size of the value in hundredths, without its sign.
    pub open spec fn magnitude(self) -> nat {
        if self.hundredths >= 0 {
            self.hundredths as nat
        } else {
            (-self.hundredths) as nat
        }
    }

    /// The value as text: a minus sign where it is negative, the whole
    /// percents, a point, and two decimals.
    pub open spec fn text(self) -> Seq<char> {
        (if self.hundredths < 0 {
            "-"@
        } else {
            Seq::empty()
        }) + decimal(self.magnitude() / 100) + "."@ + decimal((self.magnitude() % 100) / 10)
            + decimal(self.magnitude() % 10)
    }

    /// Appends the value as text.
    pub fn append_to(&self, out: &mut String)
        ensures
            final(out)@ == old(out)@ + self.text(),
    {
        let size: u128 = if self.hundredths >= 0 {
            self.hundredths as u128
        } else if self.hundredths == i128::MIN {
            0x8000_0000_0000_0000_0000_0000_0000_0000u128
        } else {
            (-self.hundredths) as u128
        };
        if self.hundredths < 0 {
            out.append("-");
        }
        push_decimal(out, size / 100);
        out.append(".");
        push_decimal(out, (size % 100) / 10);
        push_decimal(out, size % 10);
        proof {
            assert(out@ =~= old(out)@ + self.text());
        }
    }
}

} // verus!
