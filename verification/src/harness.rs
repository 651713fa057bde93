//! Sync-quality vocabulary shared with demo harnesses.
//!
//! The rolling tracker itself averages fractional phase errors and lives
//! with the harness; the core owns the letter-grade vocabulary and the
//! pathology toggles.

use vstd::prelude::*;

verus! {

/// Runtime pathology toggles for stress tests.
#[derive(Clone, Copy, PartialEq, Eq, Structural, Debug)]
pub struct PathologyToggles {
    /// Simulated decode jitter is enabled.
    pub decode_jitter: bool,
    /// Simulated GPU/render stall is enabled.
    pub gpu_stall: bool,
    /// Simulated timer jitter is enabled.
    pub timer_jitter: bool,
    /// Emulated refresh-rate switching is enabled.
    pub vary_refresh: bool,
}

impl Default for PathologyToggles {
    /// All toggles off.
    fn default() -> (r: Self)
        ensures
            !r.decode_jitter,
            !r.gpu_stall,
            !r.timer_jitter,
            !r.vary_refresh,
    {
        PathologyToggles {
            decode_jitter: false,
            gpu_stall: false,
            timer_jitter: false,
            vary_refresh: false,
        }
    }
}

/// Letter grade for synchronization quality.
#[derive(Clone, Copy, PartialEq, Eq, Structural, Debug)]
pub enum SyncGrade {
    /// Tight sync and low miss rate.
    A,
    /// Good sync with moderate misses.
    B,
    /// Degraded but usable.
    C,
    /// Poor sync.
    D,
}

impl SyncGrade {
    /// Returns a short label for HUD rendering.
    pub fn as_str(self) -> (r: &'static str)
        ensures
            self is A ==> r@ == "A"@,
            self is B ==> r@ == "B"@,
            self is C ==> r@ == "C"@,
            self is D ==> r@ == "D"@,
    {
        match self {
            SyncGrade::A => "A",
            SyncGrade::B => "B",
            SyncGrade::C => "C",
            SyncGrade::D => "D",
        }
    }
}

} // verus!
