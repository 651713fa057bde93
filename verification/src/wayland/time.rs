//! Wayland backend host clock selection and reads.

use vstd::prelude::*;

use crate::time::{HostTime, Timebase};

verus! {

/// Nanoseconds per second, for timespec conversion.
pub const NANOS_PER_SECOND: u64 = 1_000_000_000;

#[verifier::external_type_specification]
#[verifier::external_body]
/// A POSIX clock identifier from the `rustix` crate, carried opaquely.
pub struct ExClockId(rustix::time::ClockId);

/// Clock source used for backend timestamps.
#[derive(Clone, Copy, Debug)]
pub enum Clock {
    /// The monotonic fallback clock.
    Monotonic,
    /// A clock selected from the compositor's presentation protocol.
    Presentation(rustix::time::ClockId),
}

/// Relies on rustix's `clock_gettime`, which returns the current reading of
/// the given POSIX clock as whole seconds and a nanosecond remainder. The
/// reading depends on the machine's clocks, so nothing is promised of it;
/// the caller copes with every pair of values.
#[verifier::external_body]
fn clock_now(clock: &Clock) -> (r: (i64, i64))
{
    let id = match clock {
        Clock::Monotonic => rustix::time::ClockId::Monotonic,
        Clock::Presentation(id) => *id,
    };
    let ts = rustix::time::clock_gettime(id);
    (ts.tv_sec, ts.tv_nsec)
}

/// The tick value that a timespec reading maps to: negative fields clamp to
/// zero, the nanosecond field clamps below one second, and the total
/// saturates at 64 bits.
pub open spec fn timespec_ticks_spec(tv_sec: i64, tv_nsec: i64) -> u64 {
    let seconds = if tv_sec >= 0 {
        tv_sec as int
    } else {
        0
    };
    let nanos = if tv_nsec < 0 {
        0
    } else if tv_nsec > 999_999_999 {
        999_999_999
    } else {
        tv_nsec as int
    };
    if seconds * NANOS_PER_SECOND + nanos <= u64::MAX {
        (seconds * NANOS_PER_SECOND + nanos) as u64
    } else {
        u64::MAX
    }
}

/// Returns the Wayland backend [`Timebase`]: host ticks are nanoseconds.
pub fn timebase() -> (r: Timebase)
    ensures
        r.numer == 1,
        r.denom == 1,
{
    Timebase::nanos()
}

/// Returns the current monotonic host time in nanoseconds.
pub fn now() -> (r: HostTime) {
    now_for_clock(&Clock::Monotonic)
}

/// Returns the current host time of the given clock in nanoseconds.
pub fn now_for_clock(clock: &Clock) -> (r: HostTime) {
    let (tv_sec, tv_nsec) = clock_now(clock);
    timespec_to_host_time(tv_sec, tv_nsec)
}

/// Converts a timespec reading to nanosecond ticks, exactly as
/// [`timespec_ticks_spec`] describes.
pub fn timespec_to_host_time(tv_sec: i64, tv_nsec: i64) -> (r: HostTime)
    ensures
        r.0 == timespec_ticks_spec(tv_sec, tv_nsec),
{
    let seconds: u64 = if tv_sec >= 0 {
        tv_sec as u64
    } else {
        0
    };
    let nanos: u64 = if tv_nsec < 0 {
        0
    } else if tv_nsec > 999_999_999 {
        999_999_999
    } else {
        tv_nsec as u64
    };

    proof {
        assert(seconds * NANOS_PER_SECOND <= (i64::MAX as int) * (NANOS_PER_SECOND as int))
            by (nonlinear_arith)
            requires
                0 <= seconds <= i64::MAX,
        ;
    }
    let wide: u128 = seconds as u128 * NANOS_PER_SECOND as u128 + nanos as u128;
    if wide <= u64::MAX as u128 {
        HostTime(wide as u64)
    } else {
        HostTime(u64::MAX)
    }
}

} // verus!
