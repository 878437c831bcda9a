use rust_llm_gateway::clock::Clock;
use rust_llm_gateway::router::circuit_breaker::{BreakerState, CircuitBreaker};
use std::time::Duration;

const MS: u64 = 1_000_000;

fn fresh_breaker() -> CircuitBreaker {
    CircuitBreaker::new(3, Duration::from_millis(50), 1)
}

/// A breaker on explicit times, with a cooldown of 50 ms.
fn timed_breaker(threshold: u32, max_calls: u32) -> CircuitBreaker {
    CircuitBreaker::with_clock(Clock::start(), threshold, 50 * MS as u128, max_calls)
}

#[test]
fn closed_state_allows_all_requests() {
    let mut b = fresh_breaker();
    for _ in 0..5 {
        assert!(b.allow_request());
    }
}

#[test]
fn trips_open_after_threshold_failures() {
    let mut b = fresh_breaker();
    for _ in 0..3 {
        b.record_failure();
    }
    assert_eq!(b.current_state(), BreakerState::Open);
    assert!(!b.allow_request());
}

#[test]
fn success_resets_failure_count() {
    let mut b = fresh_breaker();
    b.record_failure();
    b.record_failure();
    b.record_success();
    // 2 failures before, 1 success resets, 1 more failure shouldn't trip
    b.record_failure();
    assert_eq!(b.current_state(), BreakerState::Closed);
}

#[test]
fn half_open_after_cooldown_then_closes_on_success() {
    let mut b = timed_breaker(3, 1);
    for _ in 0..3 {
        b.record_failure_at(0);
    }
    assert_eq!(b.current_state(), BreakerState::Open);

    assert!(b.allow_request_at(60 * MS)); // transitions to HalfOpen
    assert_eq!(b.current_state(), BreakerState::HalfOpen);

    b.record_success();
    assert_eq!(b.current_state(), BreakerState::Closed);
}

#[test]
fn half_open_reopens_on_failure() {
    let mut b = timed_breaker(3, 1);
    for _ in 0..3 {
        b.record_failure_at(0);
    }
    assert!(b.allow_request_at(60 * MS)); // -> HalfOpen
    b.record_failure_at(60 * MS);
    assert_eq!(b.current_state(), BreakerState::Open);
}

#[test]
fn probe_budget_not_consumed_by_eligibility_check() {
    let mut b = timed_breaker(3, 1);
    for _ in 0..3 {
        b.record_failure_at(0);
    }
    assert_eq!(b.current_state(), BreakerState::Open);

    // Asking must not consume the probe slot.
    assert!(b.is_eligible_at(60 * MS));
    assert!(b.is_eligible_at(60 * MS));
    assert!(b.is_eligible_at(60 * MS));

    assert!(b.allow_request_at(60 * MS));
    assert_eq!(b.current_state(), BreakerState::HalfOpen);
}

#[test]
fn is_eligible_reflects_current_state_without_mutation() {
    let mut b = timed_breaker(3, 1);

    // Closed: always eligible
    assert!(b.is_eligible_at(0));

    for _ in 0..3 {
        b.record_failure_at(0);
    }
    // Open, cooldown not elapsed: not eligible
    assert!(!b.is_eligible_at(0));

    // Open, cooldown elapsed: eligible, but still open
    assert!(b.is_eligible_at(60 * MS));
    assert_eq!(b.current_state(), BreakerState::Open);
}

#[test]
fn eligibility_on_the_own_clock() {
    let mut b = fresh_breaker();
    assert!(b.is_eligible());
    for _ in 0..3 {
        b.record_failure();
    }
    assert!(!b.is_eligible());
}

#[test]
fn cooldown_elapses_exactly() {
    let mut b = timed_breaker(1, 1);
    b.record_failure_at(10 * MS);
    assert!(!b.allow_request_at(60 * MS - 1));
    assert_eq!(b.current_state(), BreakerState::Open);
    assert!(b.allow_request_at(60 * MS));
}

#[test]
fn probe_budget_is_exact() {
    let mut b = timed_breaker(1, 2);
    b.record_failure_at(0);
    assert!(b.allow_request_at(50 * MS));
    assert!(b.allow_request_at(51 * MS));
    assert!(!b.allow_request_at(52 * MS));
    assert!(!b.is_eligible_at(52 * MS));
    b.record_success();
    assert!(b.allow_request_at(52 * MS));
}

#[test]
fn a_zero_probe_budget_is_raised_to_one() {
    let mut b = timed_breaker(1, 0);
    b.record_failure_at(0);
    assert!(b.allow_request_at(50 * MS));
    assert!(!b.allow_request_at(50 * MS));
}

#[test]
fn a_failed_probe_waits_a_whole_cooldown() {
    let mut b = timed_breaker(1, 1);
    b.record_failure_at(0);
    assert!(b.allow_request_at(50 * MS));
    b.record_failure_at(70 * MS);
    assert!(!b.is_eligible_at(119 * MS));
    assert!(b.is_eligible_at(120 * MS));
}
