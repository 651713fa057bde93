//! Apple backend pieces that carry logic of their own: present-hint
//! computation. The display-link wrappers, presenters, and the Mach clock
//! live with the platform glue.

use vstd::prelude::*;

use crate::time::Duration;
use crate::timing::{FrameTick, PresentHints};

verus! {

/// Computes [`PresentHints`] from a [`FrameTick`] and a safety margin.
///
/// The desired present time is the tick's predicted present; the latest
/// commit is the predicted present minus the safety margin, falling back to
/// the tick's `now` when there is no prediction or the subtraction would
/// underflow.
pub fn compute_present_hints(tick: &FrameTick, safety_margin: Duration) -> (r: PresentHints)
    ensures
        r.desired_present == tick.predicted_present,
        match tick.predicted_present {
            Some(p) => if p.0 >= safety_margin.0 {
                r.latest_commit.0 == p.0 - safety_margin.0
            } else {
                r.latest_commit == tick.now
            },
            None => r.latest_commit == tick.now,
        },
{
    let desired_present = tick.predicted_present;
    let latest_commit = match desired_present {
        Some(pp) => match pp.checked_sub(safety_margin) {
            Some(t) => t,
            None => tick.now,
        },
        None => tick.now,
    };

    PresentHints { desired_present, latest_commit }
}

} // verus!
