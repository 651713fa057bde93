//! Binary recording and decoding round trips.

use subduction::output::OutputId;
use subduction::recorder::{decode, RecordedEvent, RecorderSink};
use subduction::time::Timebase;
use subduction::trace_event::{trace_record, PhKind};
use subduction::time::HostTime;
use subduction::timing::TimingConfidence;
use subduction::trace::{
    FramePlanEvent, FrameSummary, FrameTickEvent, LayerChange, LayerField, PhaseBeginEvent,
    PhaseEndEvent, PhaseKind, PresentFeedbackEvent, SubmitEvent, TraceSink,
};

fn collect(bytes: &[u8]) -> Vec<RecordedEvent> {
    let mut it = decode(bytes);
    let mut out = Vec::new();
    while let Some(e) = it.next() {
        out.push(e);
    }
    out
}

fn sample_tick_event() -> FrameTickEvent {
    FrameTickEvent {
        frame_index: 7,
        output: OutputId(1),
        now: HostTime(1_000_000),
        predicted_present: Some(HostTime(1_016_667)),
        refresh_interval: Some(16_666_667),
        confidence: TimingConfidence::Predictive,
    }
}

fn sample_plan_event() -> FramePlanEvent {
    FramePlanEvent {
        frame_index: 7,
        output: OutputId(1),
        semantic_time: HostTime(1_016_667),
        present_time: Some(HostTime(1_016_667)),
        commit_deadline: HostTime(1_014_000),
        pipeline_depth: 2,
        safety_margin_ticks: 500,
    }
}

fn sample_summary() -> FrameSummary {
    FrameSummary {
        frame_index: 7,
        output: OutputId(1),
        confidence: TimingConfidence::Predictive,
        now: HostTime(1_000_000),
        present_time: Some(HostTime(1_016_667)),
        semantic_time: HostTime(1_016_667),
        deadline: HostTime(1_014_000),
        pipeline_depth: 2,
        plan_ticks: 100,
        eval_ticks: 400,
        render_ticks: 1500,
        submit_ticks: 50,
        missed_deadline: false,
    }
}

#[test]
fn round_trip_frame_tick() {
    let mut rec = RecorderSink::new();
    let orig = sample_tick_event();
    rec.on_frame_tick(&orig);

    let events = collect(rec.as_bytes());
    assert_eq!(events.len(), 1);
    match &events[0] {
        RecordedEvent::FrameTick(e) => {
            assert_eq!(e.frame_index, orig.frame_index);
            assert_eq!(e.output, orig.output);
            assert_eq!(e.now, orig.now);
            assert_eq!(e.predicted_present, orig.predicted_present);
            assert_eq!(e.refresh_interval, orig.refresh_interval);
            assert_eq!(e.confidence, orig.confidence);
        }
        other => panic!("expected FrameTick, got {other:?}"),
    }
}

#[test]
fn round_trip_frame_plan() {
    let mut rec = RecorderSink::new();
    let orig = sample_plan_event();
    rec.on_frame_plan(&orig);

    let events = collect(rec.as_bytes());
    assert_eq!(events.len(), 1);
    match &events[0] {
        RecordedEvent::FramePlan(e) => {
            assert_eq!(e.frame_index, orig.frame_index);
            assert_eq!(e.pipeline_depth, orig.pipeline_depth);
            assert_eq!(e.safety_margin_ticks, orig.safety_margin_ticks);
        }
        other => panic!("expected FramePlan, got {other:?}"),
    }
}

#[test]
fn round_trip_phase_events() {
    let mut rec = RecorderSink::new();
    let begin = PhaseBeginEvent {
        frame_index: 5,
        phase: PhaseKind::Render,
        timestamp: HostTime(2000),
    };
    let end = PhaseEndEvent {
        frame_index: 5,
        phase: PhaseKind::Render,
        timestamp: HostTime(3000),
    };
    rec.on_phase_begin(&begin);
    rec.on_phase_end(&end);

    let events = collect(rec.as_bytes());
    assert_eq!(events.len(), 2);
    match &events[0] {
        RecordedEvent::PhaseBegin(e) => {
            assert_eq!(e.frame_index, 5);
            assert_eq!(e.phase, PhaseKind::Render);
            assert_eq!(e.timestamp, HostTime(2000));
        }
        other => panic!("expected PhaseBegin, got {other:?}"),
    }
    match &events[1] {
        RecordedEvent::PhaseEnd(e) => {
            assert_eq!(e.frame_index, 5);
            assert_eq!(e.phase, PhaseKind::Render);
            assert_eq!(e.timestamp, HostTime(3000));
        }
        other => panic!("expected PhaseEnd, got {other:?}"),
    }
}

#[test]
fn round_trip_submit() {
    let mut rec = RecorderSink::new();
    let orig = SubmitEvent {
        frame_index: 10,
        submitted_at: HostTime(5000),
        expected_present: Some(HostTime(6000)),
    };
    rec.on_submit(&orig);

    let events = collect(rec.as_bytes());
    assert_eq!(events.len(), 1);
    match &events[0] {
        RecordedEvent::Submit(e) => {
            assert_eq!(e.frame_index, 10);
            assert_eq!(e.submitted_at, HostTime(5000));
            assert_eq!(e.expected_present, Some(HostTime(6000)));
        }
        other => panic!("expected Submit, got {other:?}"),
    }
}

#[test]
fn round_trip_present_feedback() {
    let mut rec = RecorderSink::new();
    let orig = PresentFeedbackEvent {
        frame_index: 3,
        actual_present: None,
        missed_deadline: Some(true),
    };
    rec.on_present_feedback(&orig);

    let events = collect(rec.as_bytes());
    assert_eq!(events.len(), 1);
    match &events[0] {
        RecordedEvent::PresentFeedback(e) => {
            assert_eq!(e.frame_index, 3);
            assert_eq!(e.actual_present, None);
            assert_eq!(e.missed_deadline, Some(true));
        }
        other => panic!("expected PresentFeedback, got {other:?}"),
    }
}

#[test]
fn round_trip_frame_summary() {
    let mut rec = RecorderSink::new();
    let orig = sample_summary();
    rec.on_frame_summary(&orig);

    let events = collect(rec.as_bytes());
    assert_eq!(events.len(), 1);
    match &events[0] {
        RecordedEvent::FrameSummary(s) => {
            assert_eq!(s.frame_index, orig.frame_index);
            assert_eq!(s.plan_ticks, orig.plan_ticks);
            assert_eq!(s.eval_ticks, orig.eval_ticks);
            assert_eq!(s.render_ticks, orig.render_ticks);
            assert_eq!(s.submit_ticks, orig.submit_ticks);
            assert_eq!(s.missed_deadline, orig.missed_deadline);
            assert_eq!(s.pipeline_depth, orig.pipeline_depth);
        }
        other => panic!("expected FrameSummary, got {other:?}"),
    }
}

#[test]
fn round_trip_multiple_events() {
    let mut rec = RecorderSink::new();
    rec.on_frame_tick(&sample_tick_event());
    rec.on_frame_plan(&sample_plan_event());
    rec.on_phase_begin(&PhaseBeginEvent {
        frame_index: 7,
        phase: PhaseKind::Plan,
        timestamp: HostTime(1000),
    });
    rec.on_frame_summary(&sample_summary());

    let events = collect(rec.as_bytes());
    assert_eq!(events.len(), 4);
    assert!(matches!(events[0], RecordedEvent::FrameTick(_)));
    assert!(matches!(events[1], RecordedEvent::FramePlan(_)));
    assert!(matches!(events[2], RecordedEvent::PhaseBegin(_)));
    assert!(matches!(events[3], RecordedEvent::FrameSummary(_)));
}

#[test]
fn empty_buffer_decodes_to_nothing() {
    let events = collect(&[]);
    assert!(events.is_empty());
}

#[test]
fn layer_changes_count() {
    let mut rec = RecorderSink::new();
    let changes = vec![
        LayerChange {
            layer_index: 0,
            field: LayerField::Transform,
        },
        LayerChange {
            layer_index: 1,
            field: LayerField::Opacity,
        },
    ];
    rec.on_layer_changes(42, &changes);

    let events = collect(rec.as_bytes());
    assert_eq!(events.len(), 1);
    match &events[0] {
        RecordedEvent::LayerChangesCount { frame_index, count } => {
            assert_eq!(*frame_index, 42);
            assert_eq!(*count, 2);
        }
        other => panic!("expected LayerChangesCount, got {other:?}"),
    }
}

#[test]
fn submit_record_has_the_documented_bytes() {
    let mut rec = RecorderSink::new();
    rec.on_submit(&SubmitEvent {
        frame_index: 1,
        submitted_at: HostTime(2),
        expected_present: None,
    });
    let mut expected = vec![5u8];
    expected.extend_from_slice(&1u64.to_le_bytes());
    expected.extend_from_slice(&2u64.to_le_bytes());
    expected.push(0);
    expected.extend_from_slice(&0u64.to_le_bytes());
    assert_eq!(rec.as_bytes(), &expected[..]);
}

#[test]
fn truncated_record_is_discarded() {
    let mut rec = RecorderSink::new();
    rec.on_submit(&SubmitEvent {
        frame_index: 1,
        submitted_at: HostTime(2),
        expected_present: None,
    });
    let bytes = rec.into_bytes();
    let events = collect(&bytes[..bytes.len() - 1]);
    assert!(events.is_empty());
}

#[test]
fn unknown_tag_stops_the_decoder() {
    let events = collect(&[0xAB, 1, 2, 3]);
    assert!(events.is_empty());
}

#[test]
fn trace_record_shapes_the_viewer_row() {
    let mut rec = RecorderSink::new();
    rec.on_frame_tick(&sample_tick_event());
    rec.on_phase_begin(&PhaseBeginEvent {
        frame_index: 7,
        phase: PhaseKind::Render,
        timestamp: HostTime(2_000),
    });
    let events = collect(rec.as_bytes());

    let tick_row = trace_record(&events[0], Timebase::nanos());
    assert_eq!(tick_row.ph, PhKind::Instant);
    assert_eq!(tick_row.name, "FrameTick");
    assert_eq!(tick_row.cat, "Scheduler");
    assert_eq!(tick_row.ts_nanos, 1_000_000);
    assert_eq!(tick_row.pid, 1);
    assert_eq!(tick_row.scope, Some("g"));
    assert_eq!(tick_row.args.frame_index, 7);
    assert_eq!(tick_row.args.confidence, Some(TimingConfidence::Predictive));

    let begin_row = trace_record(&events[1], Timebase::new(1000, 1));
    assert_eq!(begin_row.ph, PhKind::Begin);
    assert_eq!(begin_row.name, "Render");
    assert_eq!(begin_row.cat, "Frame");
    assert_eq!(begin_row.ts_nanos, 2_000_000);
    assert_eq!(begin_row.scope, None);
}
