//! Host time, duration, and timebase behaviour.

use subduction::time::{Duration, HostTime, Timebase};

#[test]
fn nanos_round_trip_identity_timebase() {
    let tb = Timebase::nanos();
    let t = HostTime(1_000_000_000);
    assert_eq!(t.to_nanos(tb), 1_000_000_000, "identity timebase");
    assert_eq!(HostTime::from_nanos(1_000_000_000, tb), t);
}

#[test]
fn nanos_round_trip_macos_style() {
    let tb = Timebase::new(125, 3);
    let ticks = 24_000_000_u64;
    let nanos = HostTime(ticks).to_nanos(tb);
    assert_eq!(nanos, 1_000_000_000, "24 MHz for one second");

    let back = HostTime::from_nanos(nanos, tb);
    assert_eq!(back.ticks(), ticks);
}

#[test]
fn overflow_safe_conversion() {
    let tb = Timebase::new(125, 3);
    let t = HostTime(u64::MAX / 2);
    let _nanos = t.to_nanos(tb);
}

#[test]
fn duration_arithmetic() {
    let a = Duration(100);
    let b = Duration(30);
    assert_eq!(a.checked_add(b).unwrap().ticks(), 130);
    assert_eq!(a.checked_sub(b).unwrap().ticks(), 70);
    assert_eq!(a.saturating_sub(Duration(200)), Duration::zero());
}

#[test]
fn host_time_duration_ops() {
    let t = HostTime(1000);
    let d = Duration(200);
    assert_eq!(t.checked_add(d).unwrap().ticks(), 1200);
    assert_eq!(t.checked_sub(d).unwrap().ticks(), 800);
    assert_eq!(t.saturating_duration_since(HostTime(1500)), Duration::zero());
    assert_eq!(t.saturating_duration_since(HostTime(400)), Duration(600));
}

#[test]
fn saturating_add_clamps_at_the_top() {
    let a = Duration(u64::MAX - 1);
    assert_eq!(a.saturating_add(Duration(5)).ticks(), u64::MAX);
    assert_eq!(a.saturating_add(Duration(1)).ticks(), u64::MAX);
    assert!(a.checked_add(Duration(5)).is_none());
}
