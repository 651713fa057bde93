//! Present-hint computation for Wayland ticks.

use vstd::prelude::*;

use crate::time::Duration;
use crate::timing::{FrameTick, PresentHints};

verus! {

/// Computes [`PresentHints`] from a [`FrameTick`] and a safety margin.
///
/// `desired_present` is copied from the tick's prediction; `latest_commit`
/// is the prediction minus the safety margin, or the tick's `now` when there
/// is no prediction or the subtraction would underflow.
pub fn compute_present_hints(tick: &FrameTick, safety_margin: Duration) -> (r: PresentHints)
    ensures
        r.desired_present == tick.predicted_present,
        match tick.predicted_present {
            Some(p) => if p.0 >= safety_margin.0 {
                r.latest_commit.0 == p.0 - safety_margin.0
            } else {
                r.latest_commit == tick.now
            },
            None => r.latest_commit == tick.now,
        },
{
    let desired_present = tick.predicted_present;
    let latest_commit = match desired_present {
        Some(p) => match p.checked_sub(safety_margin) {
            Some(t) => t,
            None => tick.now,
        },
        None => tick.now,
    };

    PresentHints { desired_present, latest_commit }
}

} // verus!
