use rust_llm_gateway::clock::{duration_between, nanos_between, nanos_in, Clock, NANOS_PER_SEC};
use std::time::Duration;

#[test]
fn a_clock_does_not_go_back() {
    let clock = Clock::start();
    let copy = clock;
    let mut last = 0;
    for _ in 0..1000 {
        let now = clock.now();
        assert!(now >= last);
        last = now;
    }
    assert!(copy.now() >= last);
    assert!(last < 60 * NANOS_PER_SEC);
}

#[test]
fn time_between_two_readings() {
    assert_eq!(nanos_between(5, 12), 7);
    assert_eq!(nanos_between(12, 5), 0);
    assert_eq!(duration_between(5, 12), Duration::from_nanos(7));
    assert_eq!(duration_between(12, 5), Duration::ZERO);
}

#[test]
fn the_nanoseconds_in_a_duration_stop_at_the_largest_count() {
    assert_eq!(nanos_in(Duration::ZERO), 0);
    assert_eq!(nanos_in(Duration::new(2, 5)), 2_000_000_005);
    assert_eq!(nanos_in(Duration::from_nanos(u64::MAX)), u64::MAX);
    assert_eq!(nanos_in(Duration::from_nanos(u64::MAX) + Duration::from_nanos(1)), u64::MAX);
    assert_eq!(nanos_in(Duration::MAX), u64::MAX);
}
