use nbe::clock::{frame_after, ClockState, MasterClock};
use std::time::{Duration, Instant};

#[test]
fn stopped_clock_never_advances() {
    let c = MasterClock::new(30);
    assert_eq!(c.frame(), None);
    assert_eq!(c.state(), ClockState::Stopped);
}

#[test]
fn frame_math_is_floor_of_elapsed_times_rate() {
    let now = Instant::now();
    let c = MasterClock::new(30).with_epoch(now - Duration::from_millis(1000), ClockState::Running);
    let f = c.frame().unwrap();
    assert!(f == 30 || f == 31, "frame {} not in [30,31]", f);
}

#[test]
fn start_then_stop_returns_to_stopped() {
    let mut c = MasterClock::new(30);
    c.start();
    assert_eq!(c.state(), ClockState::Running);
    assert!(c.frame().is_some());
    c.stop();
    assert_eq!(c.state(), ClockState::Stopped);
    assert_eq!(c.frame(), None);
}

#[test]
fn frames_are_counted_exactly() {
    assert_eq!(frame_after(0, 0, 30), 0);
    assert_eq!(frame_after(0, 999_999_999, 1), 0);
    assert_eq!(frame_after(1, 0, 30), 30);
    assert_eq!(frame_after(0, 33_333_333, 30), 0);
    assert_eq!(frame_after(0, 33_333_334, 30), 1);
    assert_eq!(frame_after(3600, 500_000_000, 25), 90_012);
    assert_eq!(frame_after(u64::MAX, 0, u32::MAX), u64::MAX);
    assert_eq!(frame_after(7, 5, 0), 0);
}

#[test]
fn a_running_clock_is_not_started_again() {
    let epoch = Instant::now() - Duration::from_secs(100);
    let mut c = MasterClock::new(50).with_epoch(epoch, ClockState::Running);
    c.start();
    assert!(c.frame().unwrap() >= 5000);
    assert_eq!(c.house_rate(), 50);
    c.stop();
    c.start();
    assert!(c.frame().unwrap() < 5000);
}

#[test]
fn a_clock_counts_from_its_start() {
    let mut c = MasterClock::new(25);
    assert_eq!(c.frame_when(10, 0), None);
    c.start_at(Instant::now() - Duration::from_secs(40));
    assert!(c.frame().unwrap() >= 1000);
    assert_eq!(c.frame_when(0, 0), Some(0));
    assert_eq!(c.frame_when(2, 39_999_999), Some(50));
    assert_eq!(c.frame_when(2, 40_000_000), Some(51));
    c.start_at(Instant::now());
    assert!(c.frame().unwrap() >= 1000, "a second start changes nothing");
}
