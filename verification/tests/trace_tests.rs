//! Trace event construction, the tracer, and the summary builder.

use subduction::output::OutputId;
use subduction::time::HostTime;
use subduction::timing::{FrameTick, TimingConfidence};
use subduction::trace::{
    FramePlanEvent, FrameSummary, FrameSummaryBuilder, FrameTickEvent, NoopSink, PhaseKind,
    TraceSink, Tracer,
};
use subduction::timing::FramePlan;

fn sample_tick() -> FrameTickEvent {
    FrameTickEvent {
        frame_index: 42,
        output: OutputId(0),
        now: HostTime(1_000_000),
        predicted_present: Some(HostTime(1_016_667)),
        refresh_interval: Some(16_666_667),
        confidence: TimingConfidence::Predictive,
    }
}

fn sample_plan() -> FramePlanEvent {
    FramePlanEvent {
        frame_index: 42,
        output: OutputId(0),
        semantic_time: HostTime(1_016_667),
        present_time: Some(HostTime(1_016_667)),
        commit_deadline: HostTime(1_014_000),
        pipeline_depth: 2,
        safety_margin_ticks: 500,
    }
}

#[test]
fn frame_tick_event_from_frame_tick() {
    let tick = FrameTick {
        now: HostTime(100),
        predicted_present: Some(HostTime(200)),
        refresh_interval: Some(16_666_667),
        confidence: TimingConfidence::Predictive,
        frame_index: 7,
        output: OutputId(1),
        prev_actual_present: None,
    };
    let evt = FrameTickEvent::from_tick(&tick);
    assert_eq!(evt.frame_index, 7);
    assert_eq!(evt.output, OutputId(1));
    assert_eq!(evt.now, HostTime(100));
    assert_eq!(evt.predicted_present, Some(HostTime(200)));
}

#[test]
fn frame_plan_event_new() {
    let plan = FramePlan {
        semantic_time: HostTime(1000),
        present_time: Some(HostTime(1000)),
        commit_deadline: HostTime(900),
        pipeline_depth: 2,
        output: OutputId(0),
        frame_index: 5,
    };
    let evt = FramePlanEvent::new(&plan, 123);
    assert_eq!(evt.frame_index, 5);
    assert_eq!(evt.safety_margin_ticks, 123);
    assert_eq!(evt.pipeline_depth, 2);
}

#[test]
fn noop_sink_compiles() {
    let mut sink = NoopSink;
    sink.on_frame_tick(&sample_tick());
    sink.on_frame_plan(&sample_plan());
    sink.on_frame_summary(&FrameSummary {
        frame_index: 0,
        output: OutputId(0),
        confidence: TimingConfidence::PacingOnly,
        now: HostTime(0),
        present_time: None,
        semantic_time: HostTime(0),
        deadline: HostTime(0),
        pipeline_depth: 1,
        plan_ticks: 0,
        eval_ticks: 0,
        render_ticks: 0,
        submit_ticks: 0,
        missed_deadline: false,
    });
}

#[test]
fn tracer_none_does_nothing() {
    let mut tracer: Tracer<NoopSink> = Tracer::none();
    tracer.frame_tick(&sample_tick());
    tracer.frame_plan(&sample_plan());
}

#[test]
fn summary_builder_computes_durations() {
    let tick = sample_tick();
    let plan = sample_plan();
    let mut builder = FrameSummaryBuilder::new(&tick, &plan);

    builder.phase_begin(PhaseKind::Plan, HostTime(1_000_000));
    builder.phase_end(PhaseKind::Plan, HostTime(1_000_100));
    builder.phase_begin(PhaseKind::Evaluate, HostTime(1_000_100));
    builder.phase_end(PhaseKind::Evaluate, HostTime(1_000_500));
    builder.phase_begin(PhaseKind::Render, HostTime(1_000_500));
    builder.phase_end(PhaseKind::Render, HostTime(1_002_000));
    builder.phase_begin(PhaseKind::Submit, HostTime(1_002_000));
    builder.phase_end(PhaseKind::Submit, HostTime(1_002_050));
    builder.set_missed_deadline(false);

    let summary = builder.finish();
    assert_eq!(summary.plan_ticks, 100);
    assert_eq!(summary.eval_ticks, 400);
    assert_eq!(summary.render_ticks, 1500);
    assert_eq!(summary.submit_ticks, 50);
    assert!(!summary.missed_deadline);
    assert_eq!(summary.frame_index, 42);
}

#[test]
fn summary_builder_missing_phases_are_zero() {
    let tick = sample_tick();
    let plan = sample_plan();
    let builder = FrameSummaryBuilder::new(&tick, &plan);
    let summary = builder.finish();
    assert_eq!(summary.plan_ticks, 0);
    assert_eq!(summary.eval_ticks, 0);
    assert_eq!(summary.render_ticks, 0);
    assert_eq!(summary.submit_ticks, 0);
}

struct RecordingSink {
    ticks: Vec<u64>,
}

impl TraceSink for RecordingSink {
    fn on_frame_tick(&mut self, e: &FrameTickEvent) {
        self.ticks.push(e.frame_index);
    }
}

#[test]
fn tracer_dispatches_to_sink() {
    let sink = RecordingSink { ticks: Vec::new() };
    let mut tracer = Tracer::new(sink);
    tracer.frame_tick(&sample_tick());
    let sink = tracer.into_sink().unwrap();
    assert_eq!(sink.ticks, &[42]);
}
