//! Capability-graded timing model.
//!
//! The types that flow between backends and the scheduler:
//!
//! - [`TimingConfidence`] — how much the platform can say about presentation.
//! - [`FrameTick`] — a frame opportunity delivered by the backend.
//! - [`PresentHints`] — submission constraints from the backend.
//! - [`FramePlan`] — what the engine uses to evaluate the scene for a frame.
//! - [`PresentFeedback`] — post-submit observations fed back to the scheduler.
//! - [`PendingFeedback`] — feedback captured at submit time and resolved one
//!   frame later, when the actual present time of the previous frame arrives.

use vstd::prelude::*;

use crate::output::OutputId;
use crate::time::HostTime;

verus! {

/// How reliable the predicted present time is.
#[derive(Clone, Copy, PartialEq, Eq, Structural, Hash, Debug)]
pub enum TimingConfidence {
    /// Strong predicted present time available.
    Predictive,
    /// Vsync-ish timing but less strict.
    Estimated,
    /// No reliable present time; frame pacing only.
    PacingOnly,
}

/// A frame opportunity delivered by the backend.
///
/// Not all fields are populated on every platform; `Option` fields reflect
/// the capability-graded timing model.
#[derive(Clone, Copy, PartialEq, Eq, Structural, Hash, Debug)]
pub struct FrameTick {
    /// Current host time when the tick was generated.
    pub now: HostTime,
    /// Predicted time when pixels will be presented, if known.
    pub predicted_present: Option<HostTime>,
    /// Display refresh interval in host-time ticks, if known.
    pub refresh_interval: Option<u64>,
    /// Confidence level for timing information in this tick.
    pub confidence: TimingConfidence,
    /// Monotonically increasing frame counter.
    pub frame_index: u64,
    /// Which output this tick is for.
    pub output: OutputId,
    /// Actual present time of the *previous* frame, if the backend can
    /// report it.
    pub prev_actual_present: Option<HostTime>,
}

/// The plan for evaluating a single frame.
#[derive(Clone, Copy, PartialEq, Eq, Structural, Hash, Debug)]
pub struct FramePlan {
    /// The time the scene represents (animations, simulation, overlays).
    pub semantic_time: HostTime,
    /// Intended display time, if known.
    pub present_time: Option<HostTime>,
    /// Latest time by which the frame must be committed/submitted.
    pub commit_deadline: HostTime,
    /// Current pipeline depth.
    pub pipeline_depth: u8,
    /// Which output this frame targets.
    pub output: OutputId,
    /// Frame counter, carried from the originating [`FrameTick`].
    pub frame_index: u64,
}

/// Submission constraints provided by the backend.
#[derive(Clone, Copy, PartialEq, Eq, Structural, Hash, Debug)]
pub struct PresentHints {
    /// Target present time, if known.
    pub desired_present: Option<HostTime>,
    /// Latest time by which a commit must occur to hit the desired present.
    pub latest_commit: HostTime,
}

/// Timing feedback constructed by the caller at the end of each tick handler.
#[derive(Clone, Copy, PartialEq, Eq, Structural, Hash, Debug)]
pub struct PresentFeedback {
    /// Host time when the frame was submitted/committed.
    pub submitted_at: HostTime,
    /// When the frame began building (for build cost estimation).
    pub build_start: HostTime,
    /// Expected present time at submission, if known.
    pub expected_present: Option<HostTime>,
    /// Actual present time, if the platform reports it.
    pub actual_present: Option<HostTime>,
    /// Whether the commit deadline was missed, if determinable.
    pub missed_deadline: Option<bool>,
}

/// The deadline verdict that [`PresentFeedback::new`] derives: when both the
/// actual and the desired present time are known, the frame missed iff it was
/// presented after the desired time; otherwise it missed iff it was submitted
/// after the latest commit time.
pub open spec fn missed_verdict(
    hints: PresentHints,
    submitted_at: HostTime,
    actual_present: Option<HostTime>,
) -> Option<bool> {
    match (actual_present, hints.desired_present) {
        (Some(actual), Some(desired)) => Some(actual.0 > desired.0),
        _ => Some(submitted_at.0 > hints.latest_commit.0),
    }
}

impl PresentFeedback {
    /// Constructs feedback from timing observations and [`PresentHints`],
    /// deriving `missed_deadline` as [`missed_verdict`] describes.
    ///
    /// This always produces `Some(bool)` for `missed_deadline`; callers that
    /// need an explicit "unknown" outcome construct the struct directly.
    pub fn new(
        hints: &PresentHints,
        build_start: HostTime,
        submitted_at: HostTime,
        actual_present: Option<HostTime>,
    ) -> (r: Self)
        ensures
            r.submitted_at == submitted_at,
            r.build_start == build_start,
            r.expected_present == hints.desired_present,
            r.actual_present == actual_present,
            r.missed_deadline == missed_verdict(*hints, submitted_at, actual_present),
    {
        let expected_present = hints.desired_present;
        let missed_deadline = match (actual_present, expected_present) {
            (Some(actual), Some(expected)) => Some(actual.0 > expected.0),
            _ => Some(submitted_at.0 > hints.latest_commit.0),
        };

        PresentFeedback {
            submitted_at,
            build_start,
            expected_present,
            actual_present,
            missed_deadline,
        }
    }
}

/// Holds the data needed to construct [`PresentFeedback`] once the actual
/// present time becomes available on the *next* frame.
#[derive(Clone, Copy, PartialEq, Eq, Structural, Debug)]
pub struct PendingFeedback {
    /// The [`PresentHints`] that were active when the frame was planned.
    pub hints: PresentHints,
    /// Host time when frame building began.
    pub build_start: HostTime,
    /// Host time when the frame was submitted/committed.
    pub submitted_at: HostTime,
}

impl PendingFeedback {
    /// Resolves this pending feedback into a [`PresentFeedback`], using the
    /// actual present time reported by the backend (if available).
    ///
    /// With `None` the verdict falls back to the commit-based comparison.
    pub fn resolve(self, actual_present: Option<HostTime>) -> (r: PresentFeedback)
        ensures
            r.submitted_at == self.submitted_at,
            r.build_start == self.build_start,
            r.expected_present == self.hints.desired_present,
            r.actual_present == actual_present,
            r.missed_deadline == missed_verdict(self.hints, self.submitted_at, actual_present),
    {
        PresentFeedback::new(&self.hints, self.build_start, self.submitted_at, actual_present)
    }
}

} // verus!
