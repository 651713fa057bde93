//! Backend building blocks: present hints, timebases, queues, and the
//! wayland host clock.

use subduction::harness::SyncGrade;
use subduction::wayland::time::{now_for_clock, Clock};
use subduction::time::Timebase;
use subduction::output::OutputId;
use subduction::time::{Duration, HostTime};
use subduction::timing::{FrameTick, TimingConfidence};
use subduction::wayland::presentation::{PresentEvent, PresentEventQueue, SubmissionId};
use subduction::wayland::queue::BoundedQueue;
use subduction::wayland::tick::TickQueue;

fn tick_with(predicted_present: Option<HostTime>) -> FrameTick {
    FrameTick {
        now: HostTime(1_000_000),
        predicted_present,
        refresh_interval: Some(16_666_667),
        confidence: TimingConfidence::Estimated,
        frame_index: 7,
        output: OutputId(0),
        prev_actual_present: None,
    }
}

#[test]
fn lib_compute_present_hints_with_prediction() {
    let tick = FrameTick {
        now: HostTime(1_000_000),
        predicted_present: Some(HostTime(2_000_000)),
        refresh_interval: Some(16_666_666),
        confidence: TimingConfidence::Predictive,
        frame_index: 0,
        output: OutputId(0),
        prev_actual_present: None,
    };
    let hints = subduction::apple::compute_present_hints(&tick, Duration(500_000));

    assert_eq!(hints.desired_present, Some(HostTime(2_000_000)));
    assert_eq!(hints.latest_commit, HostTime(1_500_000));
}

#[test]
fn lib_compute_present_hints_without_prediction() {
    let tick = FrameTick {
        now: HostTime(1_000_000),
        predicted_present: None,
        refresh_interval: None,
        confidence: TimingConfidence::Estimated,
        frame_index: 0,
        output: OutputId(0),
        prev_actual_present: None,
    };
    let hints = subduction::apple::compute_present_hints(&tick, Duration(500_000));

    assert_eq!(hints.desired_present, None);
    assert_eq!(hints.latest_commit, HostTime(1_000_000));
}

#[test]
fn timebase_is_microsecond() {
    let tb = subduction::web::timebase();
    assert_eq!(tb.ticks_to_nanos(1), 1000);
    assert_eq!(tb.ticks_to_nanos(1_000_000), 1_000_000_000);
}

#[test]
fn compute_present_hints_returns_pacing_only() {
    let tick = FrameTick {
        now: HostTime(16_000),
        predicted_present: None,
        refresh_interval: None,
        confidence: TimingConfidence::PacingOnly,
        frame_index: 0,
        output: OutputId(0),
        prev_actual_present: None,
    };
    let hints = subduction::web::compute_present_hints(&tick, Duration(1_000));

    assert_eq!(hints.desired_present, None);
    assert_eq!(hints.latest_commit, HostTime(16_000));
}

#[test]
fn hints_compute_present_hints_with_prediction() {
    let hints = subduction::wayland::hints::compute_present_hints(
        &tick_with(Some(HostTime(2_000_000))),
        Duration(500_000),
    );

    assert_eq!(hints.desired_present, Some(HostTime(2_000_000)));
    assert_eq!(hints.latest_commit, HostTime(1_500_000));
}

#[test]
fn hints_compute_present_hints_without_prediction() {
    let hints =
        subduction::wayland::hints::compute_present_hints(&tick_with(None), Duration(500_000));

    assert_eq!(hints.desired_present, None);
    assert_eq!(hints.latest_commit, HostTime(1_000_000));
}

#[test]
fn compute_present_hints_with_underflowing_margin_falls_back_to_now() {
    let hints = subduction::wayland::hints::compute_present_hints(
        &tick_with(Some(HostTime(200_000))),
        Duration(500_000),
    );

    assert_eq!(hints.desired_present, Some(HostTime(200_000)));
    assert_eq!(hints.latest_commit, HostTime(1_000_000));
}

#[test]
fn queue_overflow_drops_oldest_event() {
    let mut queue = PresentEventQueue::with_capacity(2);
    queue.push(PresentEvent::Discarded {
        id: SubmissionId(1),
    });
    queue.push(PresentEvent::Discarded {
        id: SubmissionId(2),
    });
    queue.push(PresentEvent::Discarded {
        id: SubmissionId(3),
    });

    assert_eq!(
        queue.pop(),
        Some(PresentEvent::Discarded {
            id: SubmissionId(2)
        })
    );
    assert_eq!(
        queue.pop(),
        Some(PresentEvent::Discarded {
            id: SubmissionId(3)
        })
    );
    assert_eq!(queue.pop(), None);
    assert_eq!(queue.dropped_count(), 1);
}

#[test]
fn presented_event_round_trips_payload() {
    let event = PresentEvent::Presented {
        id: SubmissionId(9),
        actual_present: HostTime(123),
        refresh_interval: Some(16_666_667),
        output: Some(OutputId(4)),
        flags: 7,
    };

    let mut queue = PresentEventQueue::with_capacity(4);
    queue.push(event);
    assert_eq!(queue.pop(), Some(event));
}

#[test]
fn presentation_zero_capacity_is_promoted_to_one() {
    let mut queue = PresentEventQueue::with_capacity(0);
    queue.push(PresentEvent::Discarded {
        id: SubmissionId(1),
    });
    queue.push(PresentEvent::Discarded {
        id: SubmissionId(2),
    });

    assert_eq!(queue.len(), 1);
    assert_eq!(
        queue.pop(),
        Some(PresentEvent::Discarded {
            id: SubmissionId(2)
        })
    );
    assert_eq!(queue.dropped_count(), 1);
}

#[test]
fn queue_zero_capacity_is_promoted_to_one() {
    let mut queue: BoundedQueue<u32> = BoundedQueue::with_capacity(0);
    queue.push(10_u32);
    queue.push(11_u32);

    assert_eq!(queue.len(), 1);
    assert_eq!(queue.pop(), Some(11_u32));
    assert_eq!(queue.dropped_count(), 1);
}

#[test]
fn push_over_capacity_drops_oldest() {
    let mut queue: BoundedQueue<u32> = BoundedQueue::with_capacity(2);
    queue.push(1_u32);
    queue.push(2_u32);
    queue.push(3_u32);

    assert_eq!(queue.pop(), Some(2_u32));
    assert_eq!(queue.pop(), Some(3_u32));
    assert_eq!(queue.pop(), None);
    assert_eq!(queue.dropped_count(), 1);
}

#[test]
fn empty_queue_reports_is_empty() {
    let mut queue: BoundedQueue<u32> = BoundedQueue::with_capacity(2);
    assert!(queue.is_empty());

    queue.push(1_u32);
    assert!(!queue.is_empty());

    let _ = queue.pop();
    assert!(queue.is_empty());
}

fn test_tick(frame_index: u64) -> FrameTick {
    FrameTick {
        now: HostTime(frame_index),
        predicted_present: None,
        refresh_interval: None,
        confidence: TimingConfidence::PacingOnly,
        frame_index,
        output: OutputId(0),
        prev_actual_present: None,
    }
}

#[test]
fn overflow_drops_oldest_tick() {
    let mut queue = TickQueue::with_capacity(2);
    queue.push(test_tick(1));
    queue.push(test_tick(2));
    queue.push(test_tick(3));

    assert_eq!(queue.pop().map(|tick| tick.frame_index), Some(2));
    assert_eq!(queue.pop().map(|tick| tick.frame_index), Some(3));
    assert_eq!(queue.pop(), None);
    assert_eq!(queue.dropped_count(), 1);
}

#[test]
fn empty_state_tracks_push_and_pop() {
    let mut queue = TickQueue::with_capacity(8);
    assert!(queue.is_empty());
    assert_eq!(queue.len(), 0);

    queue.push(test_tick(7));
    assert!(!queue.is_empty());
    assert_eq!(queue.len(), 1);

    let _ = queue.pop();
    assert!(queue.is_empty());
    assert_eq!(queue.len(), 0);
}

#[test]
fn timebase_is_nanos_identity() {
    assert_eq!(subduction::wayland::time::timebase(), Timebase::nanos());
}

#[test]
fn now_is_monotonic_non_decreasing() {
    let first = subduction::wayland::time::now();
    let second = subduction::wayland::time::now();
    assert!(second >= first, "monotonic clock should not go backwards");
}

#[test]
fn presentation_clock_variant_is_usable() {
    let tick = now_for_clock(&Clock::Presentation(rustix::time::ClockId::Monotonic));
    assert!(
        tick.ticks() > 0,
        "the monotonic clock reading should be positive"
    );
}

#[test]
fn timespec_conversion_builds_nanosecond_ticks() {
    let got = subduction::wayland::time::timespec_to_host_time(12, 345_678_901);
    let expected = HostTime(12 * 1_000_000_000 + 345_678_901);
    assert_eq!(got, expected);
}

#[test]
fn timespec_conversion_saturates_on_large_values() {
    let got = subduction::wayland::time::timespec_to_host_time(i64::MAX, 999_999_999);
    assert_eq!(got, HostTime(u64::MAX));
}

#[test]
fn sync_grade_labels() {
    assert_eq!(SyncGrade::A.as_str(), "A");
    assert_eq!(SyncGrade::D.as_str(), "D");
}
