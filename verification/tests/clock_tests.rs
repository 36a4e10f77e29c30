use mounter::clock::{seconds_or_zero, span_nanos, wall_seconds, Clock, CLOCK_END};

#[test]
fn spans_count_in_nanoseconds() {
    assert_eq!(span_nanos(0, 7), 7);
    assert_eq!(span_nanos(3, 250_000_000), 3_250_000_000);
    assert_eq!(span_nanos(u64::MAX, 999_999_999), CLOCK_END - 1);
}

#[test]
fn a_wall_clock_before_the_epoch_shows_zero() {
    assert_eq!(seconds_or_zero(None), 0);
    assert_eq!(seconds_or_zero(Some(1_700_000_000)), 1_700_000_000);
    assert!(wall_seconds() > 0);
}

#[test]
fn a_clock_does_not_run_backwards() {
    let clock = Clock::start();
    let first = clock.now();
    let second = clock.now();
    assert!(first <= second);
}
