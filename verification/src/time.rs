//! Monotonic host time and timebase conversion.
//!
//! [`HostTime`] represents a point in time as platform-native monotonic ticks.
//! [`Timebase`] carries the rational conversion factor from ticks to
//! nanoseconds (`nanoseconds = ticks * numer / denom`), matching the
//! `mach_timebase_info` pattern. [`Duration`] is a span in the same tick
//! units as [`HostTime`]. All conversions use 128-bit intermediates so the
//! multiplication cannot overflow; the result is truncated back to 64 bits.

use vstd::prelude::*;

verus! {

/// The number of distinct values of a 64-bit word; conversions that pass
/// through a 128-bit intermediate truncate modulo this constant.
pub const WORD_MOD: u128 = 0x1_0000_0000_0000_0000;

/// A point in time expressed as platform-native monotonic ticks.
#[derive(Clone, Copy, PartialEq, Eq, Structural, PartialOrd, Ord, Hash, Default, Debug)]
pub struct HostTime(pub u64);

/// Mathematical value of `ticks * numer / denom`, truncated to 64 bits.
pub open spec fn ticks_to_nanos_spec(ticks: u64, numer: u32, denom: u32) -> u64 {
    (((ticks * numer) / (denom as int)) % (WORD_MOD as int)) as u64
}

/// Mathematical value of `nanos * denom / numer`, truncated to 64 bits.
pub open spec fn nanos_to_ticks_spec(nanos: u64, numer: u32, denom: u32) -> u64 {
    (((nanos * denom) / (numer as int)) % (WORD_MOD as int)) as u64
}

impl HostTime {
    /// Returns the raw tick value.
    pub fn ticks(self) -> (r: u64)
        ensures
            r == self.0,
    {
        self.0
    }

    /// Converts this host time to nanoseconds using the given timebase.
    pub fn to_nanos(self, timebase: Timebase) -> (r: u64)
        requires
            timebase.denom != 0,
        ensures
            r == ticks_to_nanos_spec(self.0, timebase.numer, timebase.denom),
    {
        timebase.ticks_to_nanos(self.0)
    }

    /// Creates a [`HostTime`] from a nanosecond value and timebase.
    ///
    /// This is the inverse of [`to_nanos`](Self::to_nanos) whenever the
    /// rational conversion loses nothing.
    pub fn from_nanos(nanos: u64, timebase: Timebase) -> (r: Self)
        requires
            timebase.numer != 0,
        ensures
            r.0 == nanos_to_ticks_spec(nanos, timebase.numer, timebase.denom),
    {
        HostTime(timebase.nanos_to_ticks(nanos))
    }

    /// Returns the duration between `self` and an earlier time, or zero if
    /// `earlier` is after `self`.
    pub fn saturating_duration_since(self, earlier: Self) -> (r: Duration)
        ensures
            self.0 >= earlier.0 ==> r.0 == self.0 - earlier.0,
            self.0 < earlier.0 ==> r.0 == 0,
    {
        Duration(u64_saturating_sub(self.0, earlier.0))
    }

    /// Checked addition of a duration; `None` when the sum does not fit.
    pub fn checked_add(self, duration: Duration) -> (r: Option<Self>)
        ensures
            self.0 + duration.0 <= u64::MAX ==> r == Some(HostTime((self.0 + duration.0) as u64)),
            self.0 + duration.0 > u64::MAX ==> r is None,
    {
        match self.0.checked_add(duration.0) {
            Some(t) => Some(HostTime(t)),
            None => None,
        }
    }

    /// Checked subtraction of a duration; `None` when the result would be
    /// negative.
    pub fn checked_sub(self, duration: Duration) -> (r: Option<Self>)
        ensures
            self.0 >= duration.0 ==> r == Some(HostTime((self.0 - duration.0) as u64)),
            self.0 < duration.0 ==> r is None,
    {
        match self.0.checked_sub(duration.0) {
            Some(t) => Some(HostTime(t)),
            None => None,
        }
    }
}

/// Rational conversion factor from ticks to nanoseconds:
/// `nanoseconds = ticks * numer / denom`.
#[derive(Clone, Copy, PartialEq, Eq, Structural, Hash, Debug)]
pub struct Timebase {
    /// Numerator of the ticks-to-nanoseconds ratio.
    pub numer: u32,
    /// Denominator of the ticks-to-nanoseconds ratio.
    pub denom: u32,
}

impl Timebase {
    /// A timebase where ticks are already nanoseconds (1:1).
    pub fn nanos() -> (r: Timebase)
        ensures
            r.numer == 1,
            r.denom == 1,
    {
        Timebase { numer: 1, denom: 1 }
    }

    /// Creates a new timebase with the given numerator and denominator.
    ///
    /// The denominator must not be zero; a zero denominator is a programmer
    /// error, so it is excluded by contract rather than checked at run time.
    pub fn new(numer: u32, denom: u32) -> (r: Self)
        requires
            denom != 0,
        ensures
            r.numer == numer,
            r.denom == denom,
    {
        Timebase { numer, denom }
    }

    /// Converts a tick count to nanoseconds.
    pub fn ticks_to_nanos(self, ticks: u64) -> (r: u64)
        requires
            self.denom != 0,
        ensures
            r == ticks_to_nanos_spec(ticks, self.numer, self.denom),
    {
        proof {
            assert((ticks as int) * (self.numer as int) <= (u64::MAX as int) * (u32::MAX as int))
                by (nonlinear_arith)
                requires
                    ticks <= u64::MAX,
                    self.numer <= u32::MAX,
            ;
        }
        let wide: u128 = ticks as u128 * self.numer as u128 / self.denom as u128;
        (wide % WORD_MOD) as u64
    }

    /// Converts nanoseconds to a tick count.
    pub fn nanos_to_ticks(self, nanos: u64) -> (r: u64)
        requires
            self.numer != 0,
        ensures
            r == nanos_to_ticks_spec(nanos, self.numer, self.denom),
    {
        proof {
            assert((nanos as int) * (self.denom as int) <= (u64::MAX as int) * (u32::MAX as int))
                by (nonlinear_arith)
                requires
                    nanos <= u64::MAX,
                    self.denom <= u32::MAX,
            ;
        }
        let wide: u128 = nanos as u128 * self.denom as u128 / self.numer as u128;
        (wide % WORD_MOD) as u64
    }
}

/// A duration in platform-native ticks, the same units as [`HostTime`].
#[derive(Clone, Copy, PartialEq, Eq, Structural, PartialOrd, Ord, Hash, Default, Debug)]
pub struct Duration(pub u64);

impl Duration {
    /// A zero-length duration.
    pub fn zero() -> (r: Duration)
        ensures
            r.0 == 0,
    {
        Duration(0)
    }

    /// Returns the raw tick value.
    pub fn ticks(self) -> (r: u64)
        ensures
            r == self.0,
    {
        self.0
    }

    /// Converts this duration to nanoseconds using the given timebase.
    pub fn to_nanos(self, timebase: Timebase) -> (r: u64)
        requires
            timebase.denom != 0,
        ensures
            r == ticks_to_nanos_spec(self.0, timebase.numer, timebase.denom),
    {
        timebase.ticks_to_nanos(self.0)
    }

    /// Creates a duration from a nanosecond value and timebase.
    pub fn from_nanos(nanos: u64, timebase: Timebase) -> (r: Self)
        requires
            timebase.numer != 0,
        ensures
            r.0 == nanos_to_ticks_spec(nanos, timebase.numer, timebase.denom),
    {
        Duration(timebase.nanos_to_ticks(nanos))
    }

    /// Saturating addition.
    pub fn saturating_add(self, rhs: Self) -> (r: Self)
        ensures
            self.0 + rhs.0 <= u64::MAX ==> r.0 == self.0 + rhs.0,
            self.0 + rhs.0 > u64::MAX ==> r.0 == u64::MAX,
    {
        Duration(u64_saturating_add(self.0, rhs.0))
    }

    /// Saturating subtraction.
    pub fn saturating_sub(self, rhs: Self) -> (r: Self)
        ensures
            self.0 >= rhs.0 ==> r.0 == self.0 - rhs.0,
            self.0 < rhs.0 ==> r.0 == 0,
    {
        Duration(u64_saturating_sub(self.0, rhs.0))
    }

    /// Checked addition; `None` when the sum does not fit in 64 bits.
    pub fn checked_add(self, rhs: Self) -> (r: Option<Self>)
        ensures
            self.0 + rhs.0 <= u64::MAX ==> r == Some(Duration((self.0 + rhs.0) as u64)),
            self.0 + rhs.0 > u64::MAX ==> r is None,
    {
        match self.0.checked_add(rhs.0) {
            Some(t) => Some(Duration(t)),
            None => None,
        }
    }

    /// Checked subtraction; `None` when the result would be negative.
    pub fn checked_sub(self, rhs: Self) -> (r: Option<Self>)
        ensures
            self.0 >= rhs.0 ==> r == Some(Duration((self.0 - rhs.0) as u64)),
            self.0 < rhs.0 ==> r is None,
    {
        match self.0.checked_sub(rhs.0) {
            Some(t) => Some(Duration(t)),
            None => None,
        }
    }
}

/// Saturating unsigned addition, clamped at the largest 64-bit value.
pub fn u64_saturating_add(a: u64, b: u64) -> (r: u64)
    ensures
        a + b <= u64::MAX ==> r == a + b,
        a + b > u64::MAX ==> r == u64::MAX,
{
    if a <= u64::MAX - b {
        a + b
    } else {
        u64::MAX
    }
}

/// Saturating unsigned subtraction, clamped at zero.
pub fn u64_saturating_sub(a: u64, b: u64) -> (r: u64)
    ensures
        a >= b ==> r == a - b,
        a < b ==> r == 0,
{
    if a >= b {
        a - b
    } else {
        0
    }
}

} // verus!
