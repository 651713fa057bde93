//! Web backend pieces that carry logic of their own: the microsecond
//! timebase and pacing-only present hints. The animation-frame loop and the
//! DOM presenter live with the platform glue.

use vstd::prelude::*;

use crate::time::{Duration, Timebase};
use crate::timing::{FrameTick, PresentHints};

verus! {

/// Returns the web [`Timebase`]: 1 tick = 1 microsecond = 1000 ns.
pub fn timebase() -> (r: Timebase)
    ensures
        r.numer == 1000,
        r.denom == 1,
{
    Timebase::new(1000, 1)
}

/// Computes [`PresentHints`] from a [`FrameTick`] and a safety margin.
///
/// The web provides no predicted present time, so `desired_present` is
/// always `None` and `latest_commit` is simply the tick's `now`. The safety
/// margin is accepted for interface compatibility but unused.
pub fn compute_present_hints(tick: &FrameTick, _safety_margin: Duration) -> (r: PresentHints)
    ensures
        r.desired_present is None,
        r.latest_commit == tick.now,
{
    PresentHints { desired_present: None, latest_commit: tick.now }
}

} // verus!
