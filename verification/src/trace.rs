//! Tracing and diagnostics for the frame loop.
//!
//! [`TraceSink`] is a receiver with one method per event; every method has a
//! default no-op body, so an implementation only overrides the events it
//! cares about. [`Tracer`] wraps an optional sink and forwards each event to
//! it. [`FrameSummaryBuilder`] collects phase timestamps during a frame and
//! produces a [`FrameSummary`] at the end.

use vstd::prelude::*;

use crate::output::OutputId;
use crate::time::HostTime;
use crate::timing::{FramePlan, FrameTick, TimingConfidence};

verus! {

/// Which phase of the frame loop is being measured.
#[derive(Clone, Copy, PartialEq, Eq, Structural, Hash, Debug)]
pub enum PhaseKind {
    /// Scene planning (scheduler to frame plan).
    Plan,
    /// Layer tree evaluation.
    Evaluate,
    /// Backend rendering / compositing.
    Render,
    /// Submitting the frame to the display pipeline.
    Submit,
}

/// Which property of a layer changed.
#[derive(Clone, Copy, PartialEq, Eq, Structural, Hash, Debug)]
pub enum LayerField {
    /// Local or world transform.
    Transform,
    /// Opacity value.
    Opacity,
    /// Clip region.
    Clip,
    /// Content (surface, texture, etc.).
    Content,
    /// Layer flags.
    Flags,
    /// Topology (parent/child relationships).
    Topology,
}

/// Emitted when the backend delivers a display-link tick.
#[derive(Clone, Copy, PartialEq, Eq, Structural, Debug)]
pub struct FrameTickEvent {
    /// Monotonic frame counter.
    pub frame_index: u64,
    /// Which output this tick targets.
    pub output: OutputId,
    /// Host time when the tick was generated.
    pub now: HostTime,
    /// Predicted present time, if known.
    pub predicted_present: Option<HostTime>,
    /// Refresh interval in ticks, if known.
    pub refresh_interval: Option<u64>,
    /// Timing confidence for this tick.
    pub confidence: TimingConfidence,
}

impl FrameTickEvent {
    /// Extracts the event fields from a [`FrameTick`].
    pub fn from_tick(tick: &FrameTick) -> (r: Self)
        ensures
            r == (FrameTickEvent {
                frame_index: tick.frame_index,
                output: tick.output,
                now: tick.now,
                predicted_present: tick.predicted_present,
                refresh_interval: tick.refresh_interval,
                confidence: tick.confidence,
            }),
    {
        FrameTickEvent {
            frame_index: tick.frame_index,
            output: tick.output,
            now: tick.now,
            predicted_present: tick.predicted_present,
            refresh_interval: tick.refresh_interval,
            confidence: tick.confidence,
        }
    }
}

/// Emitted after the scheduler produces a frame plan.
#[derive(Clone, Copy, PartialEq, Eq, Structural, Debug)]
pub struct FramePlanEvent {
    /// Frame counter.
    pub frame_index: u64,
    /// Which output this plan targets.
    pub output: OutputId,
    /// Semantic (animation) time.
    pub semantic_time: HostTime,
    /// Intended display time, if known.
    pub present_time: Option<HostTime>,
    /// Latest commit time.
    pub commit_deadline: HostTime,
    /// Current pipeline depth.
    pub pipeline_depth: u8,
    /// Current scheduler safety margin in ticks.
    pub safety_margin_ticks: u64,
}

impl FramePlanEvent {
    /// Creates a `FramePlanEvent` from a [`FramePlan`] plus the scheduler's
    /// current safety margin (which the plan itself does not carry).
    pub fn new(plan: &FramePlan, safety_margin_ticks: u64) -> (r: Self)
        ensures
            r == (FramePlanEvent {
                frame_index: plan.frame_index,
                output: plan.output,
                semantic_time: plan.semantic_time,
                present_time: plan.present_time,
                commit_deadline: plan.commit_deadline,
                pipeline_depth: plan.pipeline_depth,
                safety_margin_ticks,
            }),
    {
        FramePlanEvent {
            frame_index: plan.frame_index,
            output: plan.output,
            semantic_time: plan.semantic_time,
            present_time: plan.present_time,
            commit_deadline: plan.commit_deadline,
            pipeline_depth: plan.pipeline_depth,
            safety_margin_ticks,
        }
    }
}

/// Marks the beginning of a frame-loop phase.
#[derive(Clone, Copy, PartialEq, Eq, Structural, Debug)]
pub struct PhaseBeginEvent {
    /// Frame counter.
    pub frame_index: u64,
    /// Which phase is starting.
    pub phase: PhaseKind,
    /// Host time at the start of the phase.
    pub timestamp: HostTime,
}

/// Marks the end of a frame-loop phase.
#[derive(Clone, Copy, PartialEq, Eq, Structural, Debug)]
pub struct PhaseEndEvent {
    /// Frame counter.
    pub frame_index: u64,
    /// Which phase is ending.
    pub phase: PhaseKind,
    /// Host time at the end of the phase.
    pub timestamp: HostTime,
}

/// Emitted when a frame is submitted to the display pipeline.
#[derive(Clone, Copy, PartialEq, Eq, Structural, Debug)]
pub struct SubmitEvent {
    /// Frame counter.
    pub frame_index: u64,
    /// Host time of submission.
    pub submitted_at: HostTime,
    /// Expected present time at submission, if known.
    pub expected_present: Option<HostTime>,
}

/// Emitted when actual presentation feedback arrives.
#[derive(Clone, Copy, PartialEq, Eq, Structural, Debug)]
pub struct PresentFeedbackEvent {
    /// Frame counter.
    pub frame_index: u64,
    /// Actual present time, if reported by the platform.
    pub actual_present: Option<HostTime>,
    /// Whether the deadline was missed, if determinable.
    pub missed_deadline: Option<bool>,
}

/// Per-frame timing summary produced by [`FrameSummaryBuilder`].
#[derive(Clone, Copy, PartialEq, Eq, Structural, Debug)]
pub struct FrameSummary {
    /// Frame counter.
    pub frame_index: u64,
    /// Which output.
    pub output: OutputId,
    /// Timing confidence.
    pub confidence: TimingConfidence,
    /// Host time when the tick was generated.
    pub now: HostTime,
    /// Intended present time, if known.
    pub present_time: Option<HostTime>,
    /// Semantic (animation) time.
    pub semantic_time: HostTime,
    /// Commit deadline.
    pub deadline: HostTime,
    /// Pipeline depth for this frame.
    pub pipeline_depth: u8,
    /// Plan phase duration in ticks (0 if not measured).
    pub plan_ticks: u64,
    /// Evaluate phase duration in ticks (0 if not measured).
    pub eval_ticks: u64,
    /// Render phase duration in ticks (0 if not measured).
    pub render_ticks: u64,
    /// Submit phase duration in ticks (0 if not measured).
    pub submit_ticks: u64,
    /// Whether the deadline was missed.
    pub missed_deadline: bool,
}

/// A per-frame layer change record.
#[derive(Clone, Copy, PartialEq, Eq, Structural, Debug)]
pub struct LayerChange {
    /// Index of the layer that changed.
    pub layer_index: u32,
    /// Which field changed.
    pub field: LayerField,
}

/// An axis-aligned damage rectangle.
#[derive(Clone, Copy, PartialEq, Eq, Structural, Debug)]
pub struct DamageRect {
    /// Left edge.
    pub x: i32,
    /// Top edge.
    pub y: i32,
    /// Width.
    pub width: u32,
    /// Height.
    pub height: u32,
}

/// Receives trace events from the frame loop.
///
/// All methods have default no-op implementations, so an implementation only
/// needs to override the events it cares about.
pub trait TraceSink {
    /// Called when a display-link tick is received.
    fn on_frame_tick(&mut self, _e: &FrameTickEvent) {
    }

    /// Called after the scheduler produces a frame plan.
    fn on_frame_plan(&mut self, _e: &FramePlanEvent) {
    }

    /// Called at the beginning of a frame-loop phase.
    fn on_phase_begin(&mut self, _e: &PhaseBeginEvent) {
    }

    /// Called at the end of a frame-loop phase.
    fn on_phase_end(&mut self, _e: &PhaseEndEvent) {
    }

    /// Called when a frame is submitted.
    fn on_submit(&mut self, _e: &SubmitEvent) {
    }

    /// Called when presentation feedback arrives.
    fn on_present_feedback(&mut self, _e: &PresentFeedbackEvent) {
    }

    /// Called with a per-frame timing summary.
    fn on_frame_summary(&mut self, _s: &FrameSummary) {
    }

    /// Called with per-frame layer changes.
    fn on_layer_changes(&mut self, _frame_index: u64, _changes: &Vec<LayerChange>) {
    }

    /// Called with per-frame damage rectangles.
    fn on_damage_rects(&mut self, _frame_index: u64, _rects: &Vec<DamageRect>) {
    }
}

/// A [`TraceSink`] that discards all events.
#[derive(Clone, Copy, PartialEq, Eq, Structural, Default, Debug)]
pub struct NoopSink;

impl TraceSink for NoopSink {
}

/// Thin wrapper around an optional [`TraceSink`].
///
/// The tracer owns its sink; [`Tracer::into_sink`] hands it back once
/// tracing is over. A tracer created by [`Tracer::none`] discards every
/// event.
pub struct Tracer<S: TraceSink> {
    /// The sink events are forwarded to, if any.
    sink: Option<S>,
}

impl<S: TraceSink> Tracer<S> {
    /// Creates a tracer that dispatches to the given sink.
    pub fn new(sink: S) -> Self {
        Tracer { sink: Some(sink) }
    }

    /// Creates a tracer that discards all events.
    pub fn none() -> Self {
        Tracer { sink: None }
    }

    /// Returns the sink, consuming the tracer.
    pub fn into_sink(self) -> Option<S> {
        self.sink
    }

    /// Emits a [`FrameTickEvent`].
    pub fn frame_tick(&mut self, e: &FrameTickEvent) {
        if let Some(s) = &mut self.sink {
            s.on_frame_tick(e);
        }
    }

    /// Emits a [`FramePlanEvent`].
    pub fn frame_plan(&mut self, e: &FramePlanEvent) {
        if let Some(s) = &mut self.sink {
            s.on_frame_plan(e);
        }
    }

    /// Emits a [`PhaseBeginEvent`].
    pub fn phase_begin(&mut self, e: &PhaseBeginEvent) {
        if let Some(s) = &mut self.sink {
            s.on_phase_begin(e);
        }
    }

    /// Emits a [`PhaseEndEvent`].
    pub fn phase_end(&mut self, e: &PhaseEndEvent) {
        if let Some(s) = &mut self.sink {
            s.on_phase_end(e);
        }
    }

    /// Emits a [`SubmitEvent`].
    pub fn submit(&mut self, e: &SubmitEvent) {
        if let Some(s) = &mut self.sink {
            s.on_submit(e);
        }
    }

    /// Emits a [`PresentFeedbackEvent`].
    pub fn present_feedback(&mut self, e: &PresentFeedbackEvent) {
        if let Some(s) = &mut self.sink {
            s.on_present_feedback(e);
        }
    }

    /// Emits a [`FrameSummary`].
    pub fn frame_summary(&mut self, s: &FrameSummary) {
        if let Some(sink) = &mut self.sink {
            sink.on_frame_summary(s);
        }
    }

    /// Emits layer changes.
    pub fn layer_changes(&mut self, frame_index: u64, changes: &Vec<LayerChange>) {
        if let Some(s) = &mut self.sink {
            s.on_layer_changes(frame_index, changes);
        }
    }

    /// Emits damage rectangles.
    pub fn damage_rects(&mut self, frame_index: u64, rects: &Vec<DamageRect>) {
        if let Some(s) = &mut self.sink {
            s.on_damage_rects(frame_index, rects);
        }
    }
}

/// The duration between two optional phase timestamps: the saturating
/// difference when both ends were recorded, zero otherwise.
pub open spec fn phase_duration_spec(start: Option<HostTime>, end: Option<HostTime>) -> u64 {
    match (start, end) {
        (Some(s), Some(e)) => if e.0 >= s.0 {
            (e.0 - s.0) as u64
        } else {
            0u64
        },
        _ => 0u64,
    }
}

/// Collects phase timestamps during a frame and produces a [`FrameSummary`].
#[derive(Clone, Copy, PartialEq, Eq, Structural, Debug)]
pub struct FrameSummaryBuilder {
    /// The tick the frame started from.
    pub tick: FrameTickEvent,
    /// The plan the frame ran under.
    pub plan: FramePlanEvent,
    /// Start of the plan phase, if recorded.
    pub plan_start: Option<HostTime>,
    /// End of the plan phase, if recorded.
    pub plan_end: Option<HostTime>,
    /// Start of the evaluate phase, if recorded.
    pub eval_start: Option<HostTime>,
    /// End of the evaluate phase, if recorded.
    pub eval_end: Option<HostTime>,
    /// Start of the render phase, if recorded.
    pub render_start: Option<HostTime>,
    /// End of the render phase, if recorded.
    pub render_end: Option<HostTime>,
    /// Start of the submit phase, if recorded.
    pub submit_start: Option<HostTime>,
    /// End of the submit phase, if recorded.
    pub submit_end: Option<HostTime>,
    /// Whether the deadline was missed.
    pub missed_deadline: bool,
}

impl FrameSummaryBuilder {
    /// The recorded start of the given phase.
    pub open spec fn start_of(self, phase: PhaseKind) -> Option<HostTime> {
        match phase {
            PhaseKind::Plan => self.plan_start,
            PhaseKind::Evaluate => self.eval_start,
            PhaseKind::Render => self.render_start,
            PhaseKind::Submit => self.submit_start,
        }
    }

    /// The recorded end of the given phase.
    pub open spec fn end_of(self, phase: PhaseKind) -> Option<HostTime> {
        match phase {
            PhaseKind::Plan => self.plan_end,
            PhaseKind::Evaluate => self.eval_end,
            PhaseKind::Render => self.render_end,
            PhaseKind::Submit => self.submit_end,
        }
    }

    /// Starts building a summary for the given tick and plan, with no phase
    /// timestamps recorded yet.
    pub fn new(tick: &FrameTickEvent, plan: &FramePlanEvent) -> (r: Self)
        ensures
            r.tick == *tick,
            r.plan == *plan,
            forall|p: PhaseKind| r.start_of(p) is None && r.end_of(p) is None,
            !r.missed_deadline,
    {
        FrameSummaryBuilder {
            tick: *tick,
            plan: *plan,
            plan_start: None,
            plan_end: None,
            eval_start: None,
            eval_end: None,
            render_start: None,
            render_end: None,
            submit_start: None,
            submit_end: None,
            missed_deadline: false,
        }
    }

    /// Records the start of a phase.
    pub fn phase_begin(&mut self, phase: PhaseKind, t: HostTime)
        ensures
            final(self).start_of(phase) == Some(t),
            forall|p: PhaseKind| p != phase ==> final(self).start_of(p)
                == old(self).start_of(p),
            forall|p: PhaseKind| final(self).end_of(p) == old(self).end_of(p),
            final(self).tick == old(self).tick,
            final(self).plan == old(self).plan,
            final(self).missed_deadline == old(self).missed_deadline,
    {
        match phase {
            PhaseKind::Plan => self.plan_start = Some(t),
            PhaseKind::Evaluate => self.eval_start = Some(t),
            PhaseKind::Render => self.render_start = Some(t),
            PhaseKind::Submit => self.submit_start = Some(t),
        }
    }

    /// Records the end of a phase.
    pub fn phase_end(&mut self, phase: PhaseKind, t: HostTime)
        ensures
            final(self).end_of(phase) == Some(t),
            forall|p: PhaseKind| p != phase ==> final(self).end_of(p) == old(self).end_of(p),
            forall|p: PhaseKind| final(self).start_of(p) == old(self).start_of(p),
            final(self).tick == old(self).tick,
            final(self).plan == old(self).plan,
            final(self).missed_deadline == old(self).missed_deadline,
    {
        match phase {
            PhaseKind::Plan => self.plan_end = Some(t),
            PhaseKind::Evaluate => self.eval_end = Some(t),
            PhaseKind::Render => self.render_end = Some(t),
            PhaseKind::Submit => self.submit_end = Some(t),
        }
    }

    /// Sets whether the deadline was missed.
    pub fn set_missed_deadline(&mut self, missed: bool)
        ensures
            *final(self) == (FrameSummaryBuilder { missed_deadline: missed, ..*old(self) }),
    {
        self.missed_deadline = missed;
    }

    /// Consumes the builder and produces the final [`FrameSummary`]: frame
    /// identity from the tick, times from the plan, and each phase duration
    /// as [`phase_duration_spec`] of its recorded endpoints.
    pub fn finish(self) -> (r: FrameSummary)
        ensures
            r == (FrameSummary {
                frame_index: self.tick.frame_index,
                output: self.tick.output,
                confidence: self.tick.confidence,
                now: self.tick.now,
                present_time: self.plan.present_time,
                semantic_time: self.plan.semantic_time,
                deadline: self.plan.commit_deadline,
                pipeline_depth: self.plan.pipeline_depth,
                plan_ticks: phase_duration_spec(self.plan_start, self.plan_end),
                eval_ticks: phase_duration_spec(self.eval_start, self.eval_end),
                render_ticks: phase_duration_spec(self.render_start, self.render_end),
                submit_ticks: phase_duration_spec(self.submit_start, self.submit_end),
                missed_deadline: self.missed_deadline,
            }),
    {
        FrameSummary {
            frame_index: self.tick.frame_index,
            output: self.tick.output,
            confidence: self.tick.confidence,
            now: self.tick.now,
            present_time: self.plan.present_time,
            semantic_time: self.plan.semantic_time,
            deadline: self.plan.commit_deadline,
            pipeline_depth: self.plan.pipeline_depth,
            plan_ticks: phase_duration(self.plan_start, self.plan_end),
            eval_ticks: phase_duration(self.eval_start, self.eval_end),
            render_ticks: phase_duration(self.render_start, self.render_end),
            submit_ticks: phase_duration(self.submit_start, self.submit_end),
            missed_deadline: self.missed_deadline,
        }
    }
}

/// Computes the duration between two optional phase timestamps.
fn phase_duration(start: Option<HostTime>, end: Option<HostTime>) -> (r: u64)
    ensures
        r == phase_duration_spec(start, end),
{
    match (start, end) {
        (Some(s), Some(e)) => e.saturating_duration_since(s).ticks(),
        _ => 0,
    }
}

} // verus!
