//! The trace-event shape of a recording.
//!
//! Each decoded record maps to one viewer record: instant events carry
//! `ph = "i"` with a scope letter, phase pairs carry `ph = "B"` / `"E"`
//! matched by name and frame index, the timestamp is the event's own time
//! in nanoseconds (by the supplied timebase), and the output identifier
//! stands as `pid`. Serializers divide the timestamp down to microseconds
//! and print it; everything else is carried verbatim.

use vstd::prelude::*;

use crate::recorder::RecordedEvent;
use crate::time::{ticks_to_nanos_spec, Timebase};
use crate::timing::TimingConfidence;
use crate::trace::PhaseKind;

verus! {

/// The `ph` letter of a viewer record.
#[derive(Clone, Copy, PartialEq, Eq, Structural, Debug)]
pub enum PhKind {
    /// An instant event (`"i"`).
    Instant,
    /// The beginning of a phase pair (`"B"`).
    Begin,
    /// The end of a phase pair (`"E"`).
    End,
}

/// The arguments a viewer record carries; absent fields are simply not
/// printed.
#[derive(Clone, Copy, PartialEq, Eq, Debug)]
pub struct TraceRecordArgs {
    /// The frame counter, on every record.
    pub frame_index: u64,
    /// The timing confidence, on tick records.
    pub confidence: Option<TimingConfidence>,
    /// The pipeline depth, on plan and summary records.
    pub pipeline_depth: Option<u8>,
    /// The safety margin in ticks, on plan records.
    pub safety_margin_ticks: Option<u64>,
    /// The deadline verdict, on feedback records.
    pub missed: Option<Option<bool>>,
    /// The phase durations in nanoseconds, on summary records.
    pub phase_nanos: Option<[u64; 4]>,
    /// The deadline flag, on summary records.
    pub missed_deadline: Option<bool>,
    /// The element count, on rich-event count records.
    pub count: Option<u32>,
}

/// One record in the viewer shape, with the timestamp still in integer
/// nanoseconds.
#[derive(Clone, Copy, PartialEq, Eq, Debug)]
pub struct TraceRecord {
    /// The record kind letter.
    pub ph: PhKind,
    /// The record name; phase pairs are named by their phase.
    pub name: &'static str,
    /// The record category.
    pub cat: &'static str,
    /// The record timestamp in nanoseconds (zero where the event carries
    /// no time of its own).
    pub ts_nanos: u64,
    /// The output identifier, or zero for output-less records.
    pub pid: u32,
    /// The scope letter of an instant record, if any.
    pub scope: Option<&'static str>,
    /// The record's arguments.
    pub args: TraceRecordArgs,
}

/// Arguments holding only a frame index.
pub open spec fn args_only_frame(frame_index: u64) -> TraceRecordArgs {
    TraceRecordArgs {
        frame_index,
        confidence: None,
        pipeline_depth: None,
        safety_margin_ticks: None,
        missed: None,
        phase_nanos: None,
        missed_deadline: None,
        count: None,
    }
}

/// The name of a phase pair record.
pub open spec fn phase_name_spec(p: PhaseKind) -> Seq<char> {
    match p {
        PhaseKind::Plan => "Plan"@,
        PhaseKind::Evaluate => "Evaluate"@,
        PhaseKind::Render => "Render"@,
        PhaseKind::Submit => "Submit"@,
    }
}

/// Whether `r` is the viewer record of the decoded event `ev`: which
/// letter, name, category, timestamp, output, scope, and arguments it
/// carries.
pub open spec fn trace_record_matches(ev: RecordedEvent, tb: Timebase, r: TraceRecord) -> bool {
    match ev {
        RecordedEvent::FrameTick(e) => {
            &&& r.ph == PhKind::Instant
            &&& r.name@ == "FrameTick"@
            &&& r.cat@ == "Scheduler"@
            &&& r.ts_nanos == ticks_to_nanos_spec(e.now.0, tb.numer, tb.denom)
            &&& r.pid == e.output.0
            &&& r.scope matches Some(sc) && sc@ == "g"@
            &&& r.args == (TraceRecordArgs {
                confidence: Some(e.confidence),
                ..args_only_frame(e.frame_index)
            })
        },
        RecordedEvent::FramePlan(e) => {
            &&& r.ph == PhKind::Instant
            &&& r.name@ == "FramePlan"@
            &&& r.cat@ == "Scheduler"@
            &&& r.ts_nanos == ticks_to_nanos_spec(e.commit_deadline.0, tb.numer, tb.denom)
            &&& r.pid == e.output.0
            &&& r.scope matches Some(sc) && sc@ == "g"@
            &&& r.args == (TraceRecordArgs {
                pipeline_depth: Some(e.pipeline_depth),
                safety_margin_ticks: Some(e.safety_margin_ticks),
                ..args_only_frame(e.frame_index)
            })
        },
        RecordedEvent::PhaseBegin(e) => {
            &&& r.ph == PhKind::Begin
            &&& r.name@ == phase_name_spec(e.phase)
            &&& r.cat@ == "Frame"@
            &&& r.ts_nanos == ticks_to_nanos_spec(e.timestamp.0, tb.numer, tb.denom)
            &&& r.pid == 0
            &&& r.scope is None
            &&& r.args == args_only_frame(e.frame_index)
        },
        RecordedEvent::PhaseEnd(e) => {
            &&& r.ph == PhKind::End
            &&& r.name@ == phase_name_spec(e.phase)
            &&& r.cat@ == "Frame"@
            &&& r.ts_nanos == ticks_to_nanos_spec(e.timestamp.0, tb.numer, tb.denom)
            &&& r.pid == 0
            &&& r.scope is None
            &&& r.args == args_only_frame(e.frame_index)
        },
        RecordedEvent::Submit(e) => {
            &&& r.ph == PhKind::Instant
            &&& r.name@ == "Submit"@
            &&& r.cat@ == "Frame"@
            &&& r.ts_nanos == ticks_to_nanos_spec(e.submitted_at.0, tb.numer, tb.denom)
            &&& r.pid == 0
            &&& r.scope matches Some(sc) && sc@ == "t"@
            &&& r.args == args_only_frame(e.frame_index)
        },
        RecordedEvent::PresentFeedback(e) => {
            &&& r.ph == PhKind::Instant
            &&& r.name@ == "PresentFeedback"@
            &&& r.cat@ == "Frame"@
            &&& r.ts_nanos == (match e.actual_present {
                Some(t) => ticks_to_nanos_spec(t.0, tb.numer, tb.denom),
                None => 0u64,
            })
            &&& r.pid == 0
            &&& r.scope matches Some(sc) && sc@ == "t"@
            &&& r.args == (TraceRecordArgs {
                missed: Some(e.missed_deadline),
                ..args_only_frame(e.frame_index)
            })
        },
        RecordedEvent::FrameSummary(su) => {
            &&& r.ph == PhKind::Instant
            &&& r.name@ == "FrameSummary"@
            &&& r.cat@ == "Summary"@
            &&& r.ts_nanos == ticks_to_nanos_spec(su.now.0, tb.numer, tb.denom)
            &&& r.pid == su.output.0
            &&& r.scope matches Some(sc) && sc@ == "g"@
            &&& r.args == (TraceRecordArgs {
                pipeline_depth: Some(su.pipeline_depth),
                phase_nanos: Some(
                    [
                        ticks_to_nanos_spec(su.plan_ticks, tb.numer, tb.denom),
                        ticks_to_nanos_spec(su.eval_ticks, tb.numer, tb.denom),
                        ticks_to_nanos_spec(su.render_ticks, tb.numer, tb.denom),
                        ticks_to_nanos_spec(su.submit_ticks, tb.numer, tb.denom),
                    ],
                ),
                missed_deadline: Some(su.missed_deadline),
                ..args_only_frame(su.frame_index)
            })
        },
        RecordedEvent::LayerChangesCount { frame_index, count } => {
            &&& r.ph == PhKind::Instant
            &&& r.name@ == "LayerChanges"@
            &&& r.cat@ == "Rich"@
            &&& r.ts_nanos == 0
            &&& r.pid == 0
            &&& r.scope matches Some(sc) && sc@ == "p"@
            &&& r.args == (TraceRecordArgs { count: Some(count), ..args_only_frame(frame_index) })
        },
        RecordedEvent::DamageRectsCount { frame_index, count } => {
            &&& r.ph == PhKind::Instant
            &&& r.name@ == "DamageRects"@
            &&& r.cat@ == "Rich"@
            &&& r.ts_nanos == 0
            &&& r.pid == 0
            &&& r.scope matches Some(sc) && sc@ == "p"@
            &&& r.args == (TraceRecordArgs { count: Some(count), ..args_only_frame(frame_index) })
        },
    }
}

/// The name of a phase pair record.
fn phase_name(p: PhaseKind) -> (r: &'static str)
    ensures
        r@ == phase_name_spec(p),
{
    let r = match p {
        PhaseKind::Plan => "Plan",
        PhaseKind::Evaluate => "Evaluate",
        PhaseKind::Render => "Render",
        PhaseKind::Submit => "Submit",
    };
    proof {
        reveal_strlit("Plan");
        reveal_strlit("Evaluate");
        reveal_strlit("Render");
        reveal_strlit("Submit");
    }
    r
}

/// Maps one decoded event to its viewer record, exactly as
/// [`trace_record_matches`] pins down.
pub fn trace_record(ev: &RecordedEvent, tb: Timebase) -> (r: TraceRecord)
    requires
        tb.denom != 0,
    ensures
        trace_record_matches(*ev, tb, r),
{
    match ev {
        RecordedEvent::FrameTick(e) => TraceRecord {
            ph: PhKind::Instant,
            name: "FrameTick",
            cat: "Scheduler",
            ts_nanos: e.now.to_nanos(tb),
            pid: e.output.0,
            scope: Some("g"),
            args: TraceRecordArgs {
                frame_index: e.frame_index,
                confidence: Some(e.confidence),
                pipeline_depth: None,
                safety_margin_ticks: None,
                missed: None,
                phase_nanos: None,
                missed_deadline: None,
                count: None,
            },
        },
        RecordedEvent::FramePlan(e) => TraceRecord {
            ph: PhKind::Instant,
            name: "FramePlan",
            cat: "Scheduler",
            ts_nanos: e.commit_deadline.to_nanos(tb),
            pid: e.output.0,
            scope: Some("g"),
            args: TraceRecordArgs {
                frame_index: e.frame_index,
                confidence: None,
                pipeline_depth: Some(e.pipeline_depth),
                safety_margin_ticks: Some(e.safety_margin_ticks),
                missed: None,
                phase_nanos: None,
                missed_deadline: None,
                count: None,
            },
        },
        RecordedEvent::PhaseBegin(e) => TraceRecord {
            ph: PhKind::Begin,
            name: phase_name(e.phase),
            cat: "Frame",
            ts_nanos: e.timestamp.to_nanos(tb),
            pid: 0,
            scope: None,
            args: TraceRecordArgs {
                frame_index: e.frame_index,
                confidence: None,
                pipeline_depth: None,
                safety_margin_ticks: None,
                missed: None,
                phase_nanos: None,
                missed_deadline: None,
                count: None,
            },
        },
        RecordedEvent::PhaseEnd(e) => TraceRecord {
            ph: PhKind::End,
            name: phase_name(e.phase),
            cat: "Frame",
            ts_nanos: e.timestamp.to_nanos(tb),
            pid: 0,
            scope: None,
            args: TraceRecordArgs {
                frame_index: e.frame_index,
                confidence: None,
                pipeline_depth: None,
                safety_margin_ticks: None,
                missed: None,
                phase_nanos: None,
                missed_deadline: None,
                count: None,
            },
        },
        RecordedEvent::Submit(e) => TraceRecord {
            ph: PhKind::Instant,
            name: "Submit",
            cat: "Frame",
            ts_nanos: e.submitted_at.to_nanos(tb),
            pid: 0,
            scope: Some("t"),
            args: TraceRecordArgs {
                frame_index: e.frame_index,
                confidence: None,
                pipeline_depth: None,
                safety_margin_ticks: None,
                missed: None,
                phase_nanos: None,
                missed_deadline: None,
                count: None,
            },
        },
        RecordedEvent::PresentFeedback(e) => TraceRecord {
            ph: PhKind::Instant,
            name: "PresentFeedback",
            cat: "Frame",
            ts_nanos: match e.actual_present {
                Some(t) => t.to_nanos(tb),
                None => 0,
            },
            pid: 0,
            scope: Some("t"),
            args: TraceRecordArgs {
                frame_index: e.frame_index,
                confidence: None,
                pipeline_depth: None,
                safety_margin_ticks: None,
                missed: Some(e.missed_deadline),
                phase_nanos: None,
                missed_deadline: None,
                count: None,
            },
        },
        RecordedEvent::FrameSummary(su) => TraceRecord {
            ph: PhKind::Instant,
            name: "FrameSummary",
            cat: "Summary",
            ts_nanos: su.now.to_nanos(tb),
            pid: su.output.0,
            scope: Some("g"),
            args: TraceRecordArgs {
                frame_index: su.frame_index,
                confidence: None,
                pipeline_depth: Some(su.pipeline_depth),
                safety_margin_ticks: None,
                missed: None,
                phase_nanos: Some(
                    [
                        tb.ticks_to_nanos(su.plan_ticks),
                        tb.ticks_to_nanos(su.eval_ticks),
                        tb.ticks_to_nanos(su.render_ticks),
                        tb.ticks_to_nanos(su.submit_ticks),
                    ],
                ),
                missed_deadline: Some(su.missed_deadline),
                count: None,
            },
        },
        RecordedEvent::LayerChangesCount { frame_index, count } => TraceRecord {
            ph: PhKind::Instant,
            name: "LayerChanges",
            cat: "Rich",
            ts_nanos: 0,
            pid: 0,
            scope: Some("p"),
            args: TraceRecordArgs {
                frame_index: *frame_index,
                confidence: None,
                pipeline_depth: None,
                safety_margin_ticks: None,
                missed: None,
                phase_nanos: None,
                missed_deadline: None,
                count: Some(*count),
            },
        },
        RecordedEvent::DamageRectsCount { frame_index, count } => TraceRecord {
            ph: PhKind::Instant,
            name: "DamageRects",
            cat: "Rich",
            ts_nanos: 0,
            pid: 0,
            scope: Some("p"),
            args: TraceRecordArgs {
                frame_index: *frame_index,
                confidence: None,
                pipeline_depth: None,
                safety_margin_ticks: None,
                missed: None,
                phase_nanos: None,
                missed_deadline: None,
                count: Some(*count),
            },
        },
    }
}

} // verus!
