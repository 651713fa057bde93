//! Tick / hints / plan / feedback data-flow behaviour.

use subduction::time::HostTime;
use subduction::timing::{PendingFeedback, PresentFeedback, PresentHints};

#[test]
fn new_with_actual_present_compares_to_expected() {
    let hints = PresentHints {
        desired_present: Some(HostTime(2_000_000)),
        latest_commit: HostTime(1_800_000),
    };
    let fb = PresentFeedback::new(
        &hints,
        HostTime(1_700_000),
        HostTime(1_750_000),
        Some(HostTime(2_100_000)),
    );
    assert_eq!(fb.missed_deadline, Some(true));
    assert_eq!(fb.expected_present, Some(HostTime(2_000_000)));
    assert_eq!(fb.actual_present, Some(HostTime(2_100_000)));

    let fb = PresentFeedback::new(
        &hints,
        HostTime(1_700_000),
        HostTime(1_750_000),
        Some(HostTime(1_999_000)),
    );
    assert_eq!(fb.missed_deadline, Some(false));
}

#[test]
fn new_without_actual_present_uses_commit_deadline() {
    let hints = PresentHints {
        desired_present: Some(HostTime(2_000_000)),
        latest_commit: HostTime(1_800_000),
    };
    let fb = PresentFeedback::new(&hints, HostTime(1_700_000), HostTime(1_900_000), None);
    assert_eq!(fb.missed_deadline, Some(true));

    let fb = PresentFeedback::new(&hints, HostTime(1_700_000), HostTime(1_750_000), None);
    assert_eq!(fb.missed_deadline, Some(false));
}

#[test]
fn new_without_desired_present_uses_commit_deadline() {
    let hints = PresentHints {
        desired_present: None,
        latest_commit: HostTime(1_000_000),
    };
    let fb = PresentFeedback::new(&hints, HostTime(900_000), HostTime(1_100_000), None);
    assert_eq!(fb.missed_deadline, Some(true));
    assert_eq!(fb.expected_present, None);
}

#[test]
fn pending_feedback_resolve_with_actual_present() {
    let pending = PendingFeedback {
        hints: PresentHints {
            desired_present: Some(HostTime(2_000_000)),
            latest_commit: HostTime(1_800_000),
        },
        build_start: HostTime(1_700_000),
        submitted_at: HostTime(1_750_000),
    };

    let fb = pending.resolve(Some(HostTime(2_100_000)));
    assert_eq!(fb.missed_deadline, Some(true));
    assert_eq!(fb.actual_present, Some(HostTime(2_100_000)));

    let fb = pending.resolve(Some(HostTime(1_999_000)));
    assert_eq!(fb.missed_deadline, Some(false));
    assert_eq!(fb.actual_present, Some(HostTime(1_999_000)));
}

#[test]
fn pending_feedback_resolve_without_actual_present() {
    let pending = PendingFeedback {
        hints: PresentHints {
            desired_present: Some(HostTime(2_000_000)),
            latest_commit: HostTime(1_800_000),
        },
        build_start: HostTime(1_700_000),
        submitted_at: HostTime(1_750_000),
    };

    let fb = pending.resolve(None);
    assert_eq!(fb.missed_deadline, Some(false));
    assert_eq!(fb.actual_present, None);
}

#[test]
fn deferred_feedback_reports_late_actual_present() {
    let pending = PendingFeedback {
        hints: PresentHints {
            desired_present: Some(HostTime(2_000_000)),
            latest_commit: HostTime(1_800_000),
        },
        build_start: HostTime(1_600_000),
        submitted_at: HostTime(1_700_000),
    };
    let fb = pending.resolve(Some(HostTime(2_200_000)));
    assert_eq!(fb.missed_deadline, Some(true));
}
