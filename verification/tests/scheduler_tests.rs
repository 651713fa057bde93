//! Frame planning and adaptive depth behaviour.

use subduction::output::OutputId;
use subduction::scheduler::{DegradationPolicy, Scheduler, SchedulerConfig};
use subduction::time::HostTime;
use subduction::timing::{
    FrameTick, PendingFeedback, PresentFeedback, PresentHints, TimingConfidence,
};

fn make_tick(confidence: TimingConfidence, now: u64, predicted: Option<u64>) -> FrameTick {
    FrameTick {
        now: HostTime(now),
        predicted_present: predicted.map(HostTime),
        refresh_interval: Some(16_666_667),
        confidence,
        frame_index: 0,
        output: OutputId(0),
        prev_actual_present: None,
    }
}

fn make_hints(deadline: u64) -> PresentHints {
    PresentHints {
        desired_present: None,
        latest_commit: HostTime(deadline),
    }
}

#[test]
fn predictive_plan_uses_predicted_present() {
    let config = SchedulerConfig::macos();
    let mut sched = Scheduler::new(config);

    let tick = make_tick(TimingConfidence::Predictive, 1000, Some(2000));
    let hints = make_hints(1800);

    let plan = sched.plan(&tick, &hints);

    assert_eq!(plan.present_time, Some(HostTime(2000)));
    assert_eq!(plan.semantic_time, HostTime(2000));
    assert_eq!(plan.commit_deadline, HostTime(1800));
}

#[test]
fn pacing_only_plan_has_no_present_time() {
    let config = SchedulerConfig::web();
    let mut sched = Scheduler::new(config);

    let tick = make_tick(TimingConfidence::PacingOnly, 1_000_000, None);
    let hints = make_hints(17_000_000);

    let plan = sched.plan(&tick, &hints);

    assert_eq!(plan.present_time, None);
    assert_eq!(plan.semantic_time, HostTime(17_000_000));
}

#[test]
fn pacing_only_scenario_matches_exactly() {
    let mut config = SchedulerConfig::web();
    config.nominal_latency = subduction::time::Duration(16_000_000);
    let mut sched = Scheduler::new(config);

    let tick = make_tick(TimingConfidence::PacingOnly, 1_000_000, None);
    let hints = make_hints(17_000_000);
    let plan = sched.plan(&tick, &hints);

    assert_eq!(plan.present_time, None);
    assert_eq!(plan.semantic_time, HostTime(17_000_000));
    assert_eq!(plan.commit_deadline, HostTime(17_000_000));
    assert_eq!(plan.pipeline_depth, 2);
}

#[test]
fn pipeline_depth_increases_after_misses() {
    let config = SchedulerConfig::macos();
    let mut sched = Scheduler::new(config);
    assert_eq!(sched.pipeline_depth(), 2);

    let feedback = PresentFeedback {
        submitted_at: HostTime(2000),
        build_start: HostTime(1000),
        expected_present: None,
        actual_present: None,
        missed_deadline: Some(true),
    };

    sched.observe(&feedback);
    assert_eq!(sched.pipeline_depth(), 2);
    sched.observe(&feedback);
    assert_eq!(sched.pipeline_depth(), 2);
    sched.observe(&feedback);
    assert_eq!(sched.pipeline_depth(), 3);
}

#[test]
fn miss_streak_counter_resets_after_the_step() {
    let config = SchedulerConfig::macos();
    let mut sched = Scheduler::new(config);

    let miss = PresentFeedback {
        submitted_at: HostTime(2000),
        build_start: HostTime(1000),
        expected_present: None,
        actual_present: None,
        missed_deadline: Some(true),
    };

    sched.observe(&miss);
    sched.observe(&miss);
    sched.observe(&miss);
    assert_eq!(sched.pipeline_depth(), 3, "third miss raises the depth");
    sched.observe(&miss);
    assert_eq!(sched.pipeline_depth(), 3, "counter was reset, fourth miss does not");
}

#[test]
fn consecutive_miss_counter_resets_on_success() {
    let config = SchedulerConfig::macos();
    let mut sched = Scheduler::new(config);

    let miss = PresentFeedback {
        submitted_at: HostTime(2000),
        build_start: HostTime(1000),
        expected_present: None,
        actual_present: None,
        missed_deadline: Some(true),
    };
    let hit = PresentFeedback {
        missed_deadline: Some(false),
        ..miss
    };

    sched.observe(&miss);
    sched.observe(&miss);
    sched.observe(&hit);
    sched.observe(&miss);
    sched.observe(&miss);
    assert_eq!(sched.pipeline_depth(), 2);
}

#[test]
fn pipeline_depth_decreases_after_sustained_hits() {
    let mut config = SchedulerConfig::macos();
    config.initial_depth = 3;
    let mut sched = Scheduler::new(config);
    assert_eq!(sched.pipeline_depth(), 3);

    let hit = PresentFeedback {
        submitted_at: HostTime(2000),
        build_start: HostTime(1000),
        expected_present: None,
        actual_present: None,
        missed_deadline: Some(false),
    };

    for _ in 0..9 {
        sched.observe(&hit);
    }
    assert_eq!(sched.pipeline_depth(), 3);
    sched.observe(&hit);
    assert_eq!(sched.pipeline_depth(), 2);
}

#[test]
fn fixed_policy_never_changes_depth() {
    let mut config = SchedulerConfig::macos();
    config.degradation_policy = DegradationPolicy::Fixed;
    let mut sched = Scheduler::new(config);
    assert_eq!(sched.pipeline_depth(), 2);

    let miss = PresentFeedback {
        submitted_at: HostTime(2000),
        build_start: HostTime(1000),
        expected_present: None,
        actual_present: None,
        missed_deadline: Some(true),
    };

    for _ in 0..10 {
        sched.observe(&miss);
    }
    assert_eq!(sched.pipeline_depth(), 2);

    assert!(sched.safety_margin_ticks() > 0);
}

#[test]
fn custom_miss_threshold() {
    let mut config = SchedulerConfig::macos();
    config.degradation_policy = DegradationPolicy::Adaptive {
        miss_threshold: 5,
        recovery_threshold: 10,
    };
    let mut sched = Scheduler::new(config);

    let miss = PresentFeedback {
        submitted_at: HostTime(2000),
        build_start: HostTime(1000),
        expected_present: None,
        actual_present: None,
        missed_deadline: Some(true),
    };

    for _ in 0..4 {
        sched.observe(&miss);
    }
    assert_eq!(sched.pipeline_depth(), 2);
    sched.observe(&miss);
    assert_eq!(sched.pipeline_depth(), 3);
}

#[test]
fn recovery_respects_min_depth() {
    let mut config = SchedulerConfig::macos();
    config.degradation_policy = DegradationPolicy::Adaptive {
        miss_threshold: 3,
        recovery_threshold: 2,
    };
    let mut sched = Scheduler::new(config);
    assert_eq!(sched.pipeline_depth(), 2);

    let hit = PresentFeedback {
        submitted_at: HostTime(2000),
        build_start: HostTime(1000),
        expected_present: None,
        actual_present: None,
        missed_deadline: Some(false),
    };

    sched.observe(&hit);
    sched.observe(&hit);
    assert_eq!(sched.pipeline_depth(), 1);

    sched.observe(&hit);
    sched.observe(&hit);
    assert_eq!(sched.pipeline_depth(), 1);
}

#[test]
fn estimated_confidence_uses_predicted_present() {
    let config = SchedulerConfig::macos();
    let mut sched = Scheduler::new(config);

    let tick = make_tick(TimingConfidence::Estimated, 1000, Some(2000));
    let hints = make_hints(1800);

    let plan = sched.plan(&tick, &hints);

    assert_eq!(plan.present_time, Some(HostTime(2000)));
    assert_eq!(plan.semantic_time, HostTime(2000));
}

#[test]
fn observe_with_unknown_deadline_resets_counters() {
    let config = SchedulerConfig::macos();
    let mut sched = Scheduler::new(config);

    let miss = PresentFeedback {
        submitted_at: HostTime(2000),
        build_start: HostTime(1000),
        expected_present: None,
        actual_present: None,
        missed_deadline: Some(true),
    };
    let unknown = PresentFeedback {
        missed_deadline: None,
        ..miss
    };

    sched.observe(&miss);
    sched.observe(&miss);
    sched.observe(&unknown);

    sched.observe(&miss);
    sched.observe(&miss);
    assert_eq!(sched.pipeline_depth(), 2, "counter should have been reset");

    sched.observe(&miss);
    assert_eq!(sched.pipeline_depth(), 3);
}

#[test]
fn depth_clamped_at_max() {
    let mut config = SchedulerConfig::macos();
    config.max_depth = 3;
    config.degradation_policy = DegradationPolicy::Adaptive {
        miss_threshold: 1,
        recovery_threshold: 10,
    };
    let mut sched = Scheduler::new(config);
    assert_eq!(sched.pipeline_depth(), 2);

    let miss = PresentFeedback {
        submitted_at: HostTime(2000),
        build_start: HostTime(1000),
        expected_present: None,
        actual_present: None,
        missed_deadline: Some(true),
    };

    for _ in 0..20 {
        sched.observe(&miss);
    }
    assert_eq!(sched.pipeline_depth(), 3, "depth should be clamped at max");
}

#[test]
fn build_cost_ema_updates() {
    let config = SchedulerConfig::macos();
    let mut sched = Scheduler::new(config);
    assert_eq!(sched.safety_margin_ticks(), 0);

    let feedback = PresentFeedback {
        submitted_at: HostTime(2000),
        build_start: HostTime(1000),
        expected_present: None,
        actual_present: None,
        missed_deadline: Some(false),
    };

    sched.observe(&feedback);
    assert!(
        sched.safety_margin_ticks() > 0,
        "safety margin should increase after observing build cost"
    );
}

#[test]
fn first_sample_sets_margin_exactly() {
    let config = SchedulerConfig::macos();
    let mut sched = Scheduler::new(config);
    let feedback = PresentFeedback {
        submitted_at: HostTime(2000),
        build_start: HostTime(1000),
        expected_present: None,
        actual_present: None,
        missed_deadline: None,
    };
    sched.observe(&feedback);
    // first sample initializes the estimate to 1000 ticks; the margin is
    // 1.5x that
    assert_eq!(sched.safety_margin_ticks(), 1500);
}

#[test]
fn scheduler_observe_can_be_driven_by_apple_feedback() {
    let hints = PresentHints {
        desired_present: Some(HostTime(2_000_000)),
        latest_commit: HostTime(1_800_000),
    };
    let mut scheduler = Scheduler::new(SchedulerConfig::macos());

    let feedback = PresentFeedback::new(&hints, HostTime(1_700_000), HostTime(1_900_000), None);
    scheduler.observe(&feedback);
    scheduler.observe(&feedback);
    scheduler.observe(&feedback);

    assert_eq!(scheduler.pipeline_depth(), 3);
}

#[test]
fn scheduler_observe_with_actual_present_uses_tier1() {
    let hints = PresentHints {
        desired_present: Some(HostTime(2_000_000)),
        latest_commit: HostTime(1_800_000),
    };
    let mut scheduler = Scheduler::new(SchedulerConfig::macos());

    let pending = PendingFeedback {
        hints,
        build_start: HostTime(1_700_000),
        submitted_at: HostTime(1_750_000),
    };
    let feedback = pending.resolve(Some(HostTime(2_100_000)));

    assert_eq!(feedback.missed_deadline, Some(true));
    assert_eq!(feedback.actual_present, Some(HostTime(2_100_000)));

    scheduler.observe(&feedback);
    scheduler.observe(&feedback);
    scheduler.observe(&feedback);

    assert_eq!(scheduler.pipeline_depth(), 3);
}
