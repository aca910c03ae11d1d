//! A monotonic clock that reports whole nanoseconds since it was started.

use vstd::prelude::*;

verus! {

/// `std::time::Instant`, carried as an opaque value: nothing is known of
/// what it holds.
#[verifier::external_type_specification]
#[verifier::external_body]
pub struct ExInstant(std::time::Instant);

/// `Instant::now` reads the system's monotonic clock. Nothing is claimed
/// of the reading.
pub assume_specification[ std::time::Instant::now ]() -> (now: std::time::Instant);

/// `Instant::elapsed` gives the time that has passed since the instant was
/// taken. Nothing is claimed of the amount.
pub assume_specification[ std::time::Instant::elapsed ](since: &std::time::Instant) -> (
    passed: std::time::Duration
);

/// `Duration::as_nanos` gives a duration as a count of nanoseconds. Nothing
/// is claimed of the count.
pub assume_specification[ std::time::Duration::as_nanos ](span: &std::time::Duration) -> (
    nanos: u128
);

/// The reading that stands for `raw` nanoseconds: `raw` itself where it
/// fits in 64 bits, the largest 64-bit value otherwise.
pub open spec fn saturated(raw: int) -> int {
    if raw <= u64::MAX {
        raw
    } else {
        u64::MAX as int
    }
}

/// Narrows a nanosecond count to 64 bits, saturating at the upper end.
pub fn saturate(raw: u128) -> (ns: u64)
    ensures
        ns == saturated(raw as int),
{
    if raw <= u64::MAX as u128 {
        raw as u64
    } else {
        u64::MAX
    }
}

/// The reading that follows `last` when the system clock shows `raw`:
/// `raw`, or `last` again where the system clock shows less.
pub open spec fn advanced(last: int, raw: int) -> int {
    if raw >= last {
        raw
    } else {
        last
    }
}

/// A running stopwatch whose readings never decrease.
pub struct Clock {
    origin: std::time::Instant,
    last: u64,
}

impl Clock {
    /// The latest reading that the clock has given; zero before the first.
    pub closed spec fn last(&self) -> nat {
        self.last as nat
    }

    /// Starts a clock; its readings count from this moment.
    pub fn start() -> (clock: Clock)
        ensures
            clock.last() == 0,
    {
        Clock { origin: std::time::Instant::now(), last: 0 }
    }

    /// Nanoseconds since the clock was started, saturating at `u64::MAX`.
    /// How much time has passed depends on when the call is made; what
    /// is certain is that no reading lies before an earlier one: where
    /// the system clock shows less than the latest reading, that reading
    /// is given again.
    pub fn read(&mut self) -> (ns: u64)
        ensures
            old(self).last() <= ns,
            final(self).last() == ns,
    {
        let passed = self.origin.elapsed();
        let raw: u64 = saturate(passed.as_nanos());
        let ns: u64 = if raw >= self.last {
            raw
        } else {
            self.last
        };
        self.last = ns;
        ns
    }

    /// The latest reading that the clock has given.
    pub fn latest(&self) -> (ns: u64)
        ensures
            ns == self.last(),
    {
        self.last
    }
}

} // verus!
