use rust_llm_gateway::clock::Clock;
use rust_llm_gateway::middleware::rate_limit::{
    RateLimitBuckets, TokenAmount, TokenBucket, GRAINS_PER_TOKEN,
};

const MS: u64 = 1_000_000;
const SECOND: u64 = 1_000_000_000;

fn tokens(n: u64) -> TokenAmount {
    TokenAmount::whole(n)
}

/// A bucket that is full at time zero.
fn bucket(capacity: u64, refill_per_minute: u64) -> TokenBucket {
    TokenBucket::full_at(Clock::start(), tokens(capacity), refill_per_minute, 0)
}

#[test]
fn consumes_until_empty() {
    let mut bucket = TokenBucket::new(tokens(3), 0); // no refill - deterministic
    assert!(bucket.try_consume(tokens(1)).is_ok());
    assert!(bucket.try_consume(tokens(1)).is_ok());
    assert!(bucket.try_consume(tokens(1)).is_ok());
    let err = bucket.try_consume(tokens(1)).unwrap_err();
    assert!(err >= 1);
}

#[test]
fn refills_over_time() {
    // Start with full capacity (10 tokens), drain them, then verify refill.
    let mut bucket = bucket(10, 6000); // cap=10, refill=100/sec
    for _ in 0..10 {
        assert!(bucket.try_consume_at(tokens(1), 0).is_ok());
    }
    let drained = bucket.available_tokens_at(0).grains as f64 / GRAINS_PER_TOKEN as f64;
    assert!(drained < 0.5, "expected ~0 tokens after draining, got {}", drained);
    let available = bucket.available_tokens_at(50 * MS).grains as f64 / GRAINS_PER_TOKEN as f64;
    assert!(
        (4.0..=6.0).contains(&available),
        "expected ~5 tokens after 50ms refill, got {}",
        available
    );
    assert_eq!(bucket.available_tokens_at(50 * MS), tokens(5));
}

#[test]
fn refund_clamps_to_capacity() {
    let mut bucket = TokenBucket::new(tokens(5), 0);
    bucket.refund(tokens(100));
    assert_eq!(bucket.available_tokens(), tokens(5));
}

#[test]
fn retry_after_is_at_least_1_second() {
    let mut bucket = TokenBucket::new(tokens(0), 60);
    let err = bucket.try_consume(tokens(1)).unwrap_err();
    assert_eq!(err, 1);
}

#[test]
fn retry_after_is_rounded_up() {
    let mut bucket = bucket(60, 60);
    assert!(bucket.try_consume_at(tokens(60), 0).is_ok());
    assert_eq!(bucket.try_consume_at(tokens(10), 0), Err(10));
    assert_eq!(bucket.try_consume_at(tokens(10), SECOND / 2), Err(10));
    assert_eq!(bucket.try_consume_at(tokens(10), SECOND), Err(9));
}

#[test]
fn without_refill_there_is_no_time_to_wait_for() {
    let mut bucket = bucket(1, 0);
    assert_eq!(bucket.try_consume_at(tokens(2), 0), Err(u64::MAX));
}

#[test]
fn waiting_as_told_is_enough() {
    let mut bucket = bucket(60, 60);
    assert!(bucket.try_consume_at(tokens(60), 0).is_ok());
    let wait = bucket.try_consume_at(tokens(7), 0).unwrap_err();
    assert_eq!(wait, 7);
    assert!(bucket.try_consume_at(tokens(7), wait * SECOND).is_ok());
}

#[test]
fn one_refill_makes_up_for_an_hour() {
    let mut bucket = bucket(1_000_000, 60);
    assert!(bucket.try_consume_at(tokens(1_000_000), 0).is_ok());
    assert_eq!(bucket.available_tokens_at(10 * 3600 * SECOND), tokens(3600));
}

#[test]
fn the_rate_is_bounded() {
    let mut bucket = bucket(5, 60);
    let mut granted: u64 = 0;
    for tick in 0..100u64 {
        if bucket.try_consume_at(tokens(1), tick * SECOND / 10).is_ok() {
            granted += 1;
        }
    }
    // 5 at the start, and one for each of the 9.9 seconds.
    assert_eq!(granted, 14);
}

#[test]
fn a_cost_above_the_capacity_is_refused() {
    let mut bucket = bucket(5, 60);
    assert!(bucket.try_consume_at(tokens(6), 3600 * SECOND).is_err());
}

#[test]
fn a_released_reservation_leaves_no_trace() {
    let mut buckets = RateLimitBuckets::from_config_at(Clock::start(), 60, 90_000, 0);
    let handle = buckets.try_reserve_tpm_at(tokens(80_000), 0).unwrap();
    assert_eq!(buckets.tpm.available_tokens_at(0), tokens(10_000));
    handle.release_at(&mut buckets.tpm, 0);
    assert_eq!(buckets.tpm.available_tokens_at(0), tokens(90_000));
}

#[test]
fn a_reservation_is_settled_with_the_actual_cost() {
    let mut buckets = RateLimitBuckets::from_config_at(Clock::start(), 60, 90_000, 0);
    let handle = buckets.try_reserve_tpm_at(tokens(1_000), 0).unwrap();
    handle.reconcile_at(&mut buckets.tpm, tokens(400), 0);
    assert_eq!(buckets.tpm.available_tokens_at(0), tokens(89_600));

    let handle = buckets.try_reserve_tpm_at(tokens(1_000), 0).unwrap();
    handle.reconcile_at(&mut buckets.tpm, tokens(1_600), 0);
    assert_eq!(buckets.tpm.available_tokens_at(0), tokens(88_000));
}

#[test]
fn a_deficit_that_the_bucket_does_not_hold_is_forgone() {
    let mut buckets = RateLimitBuckets::from_config_at(Clock::start(), 60, 1_000, 0);
    let handle = buckets.try_reserve_tpm_at(tokens(900), 0).unwrap();
    handle.reconcile_at(&mut buckets.tpm, tokens(2_000), 0);
    assert_eq!(buckets.tpm.available_tokens_at(0), tokens(100));
}

#[test]
fn a_reservation_beyond_the_budget_is_refused() {
    let mut buckets = RateLimitBuckets::from_config(60, 600);
    assert_eq!(buckets.try_reserve_tpm(tokens(660)).unwrap_err(), 6);
    let handle = buckets.try_reserve_tpm(tokens(600)).unwrap();
    handle.reconcile(&mut buckets.tpm, tokens(600));
}

#[test]
fn amounts_are_exact() {
    assert_eq!(TokenAmount::quarters(4), tokens(1));
    assert_eq!(TokenAmount::quarters(11).grains, 165_000_000_000);
    assert_eq!(TokenAmount::total(u64::MAX, 1).grains, (1u128 << 64) * GRAINS_PER_TOKEN);
}
