//! Spans, points in time, and the clock.
use ractor_supervisor::{Clock, Duration, Timestamp};

#[test]
fn spans_are_in_nanoseconds() {
    assert_eq!(Duration::from_secs(2).nanos, 2_000_000_000);
    assert_eq!(Duration::from_millis(10).nanos, 10_000_000);
}

#[test]
fn the_time_before_a_point_is_zero() {
    let (early, late) = (Timestamp { nanos: 5 }, Timestamp { nanos: 8 });
    assert_eq!(late.duration_since(early), Duration { nanos: 3 });
    assert_eq!(early.duration_since(late), Duration { nanos: 0 });
}

#[test]
fn the_clock_runs_on() {
    let mut clock = Clock::start();
    let started = std::time::Instant::now();
    let first = clock.now();
    while started.elapsed() < std::time::Duration::from_millis(3) {}
    let second = clock.now();
    assert!(second.nanos >= first.nanos + 1_000_000);
    assert!(second.nanos < 20_000_000_000);
}

#[test]
fn the_clock_never_runs_backwards() {
    let mut clock = Clock::start();
    assert_eq!(clock.observe(u128::MAX), Timestamp { nanos: u128::MAX });
    assert_eq!(clock.observe(7), Timestamp { nanos: u128::MAX });
    assert_eq!(clock.now(), Timestamp { nanos: u128::MAX });
}
