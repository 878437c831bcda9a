//! Token buckets for requests per minute and model tokens per minute.
//!
//! Tokens come back continuously with the time that passes:
//! ```text
//! tokens = min(capacity, tokens + elapsed * refill rate)
//! ```
//! Amounts are counted in grains. One token is as many grains as a minute has
//! nanoseconds, so a bucket that refills `r` tokens per minute refills exactly `r` grains
//! per nanosecond, and no amount is ever rounded.
use crate::clock::{self, nanos_between, Clock};
use crate::error::{AppError, ErrorModel};
use crate::state::{AppState, ClientIdentity, GatewayModel};
use crate::telemetry::metrics::{self, record_error, MetricModel, MetricUpdate};
use crate::text;
use vstd::prelude::*;

verus! {

/// The grains in one token.
pub const GRAINS_PER_TOKEN: u128 = 60_000_000_000;

/// The longest stretch of time, in nanoseconds, that one refill makes up for.
pub const MAX_REFILL_NANOS: u64 = 3_600_000_000_000;

/// An amount of tokens, in grains.
#[derive(Clone, Copy, Debug, PartialEq, Eq, Structural)]
pub struct TokenAmount {
    pub grains: u128,
}

impl TokenAmount {
    /// A number of whole tokens.
    pub fn whole(tokens: u64) -> (amount: TokenAmount)
        ensures
            amount.grains == tokens * GRAINS_PER_TOKEN,
    {
        TokenAmount { grains: tokens as u128 * GRAINS_PER_TOKEN }
    }

    /// A number of quarters of a token.
    pub fn quarters(quarters: u64) -> (amount: TokenAmount)
        ensures
            amount.grains == quarters * (GRAINS_PER_TOKEN / 4),
    {
        TokenAmount { grains: quarters as u128 * (GRAINS_PER_TOKEN / 4) }
    }

    /// The whole tokens of a prompt and its completion together.
    pub fn total(prompt: u64, completion: u64) -> (amount: TokenAmount)
        ensures
            amount.grains == (prompt + completion) * GRAINS_PER_TOKEN,
    {
        TokenAmount { grains: (prompt as u128 + completion as u128) * GRAINS_PER_TOKEN }
    }
}

/// What a bucket is, for contracts. Amounts are in grains, times in nanoseconds, and the
/// refill rate in grains per nanosecond, which is tokens per minute.
#[verifier::ext_equal]
pub struct BucketModel {
    pub capacity: nat,
    pub refill: nat,
    pub tokens: nat,
    pub last_refill: nat,
}

/// The quotient `a / b`, rounded up.
pub open spec fn div_up(a: nat, b: nat) -> nat {
    if a % b == 0 {
        a / b
    } else {
        a / b + 1
    }
}

pub open spec fn min_nat(a: nat, b: nat) -> nat {
    if a <= b {
        a
    } else {
        b
    }
}

impl BucketModel {
    /// A bucket that is full at `now`.
    pub open spec fn full(capacity: nat, refill: nat, now: nat) -> Self {
        BucketModel { capacity, refill, tokens: capacity, last_refill: now }
    }

    /// What holds of every bucket: it never holds more than its capacity.
    pub open spec fn valid(self) -> bool {
        self.tokens <= self.capacity
    }

    /// The time that a refill at `now` makes up for: at most an hour.
    pub open spec fn elapsed(self, now: nat) -> nat {
        min_nat(clock::time_between(self.last_refill, now), MAX_REFILL_NANOS as nat)
    }

    /// The bucket with what has come back by `now`.
    pub open spec fn refilled(self, now: nat) -> Self {
        if self.elapsed(now) == 0 {
            self
        } else {
            BucketModel {
                tokens: min_nat(self.tokens + self.elapsed(now) * self.refill, self.capacity),
                last_refill: now,
                ..self
            }
        }
    }

    /// The whole seconds, at least one, that a client should wait before it asks for
    /// `cost` again. Without a refill there is no such time, which the largest number says.
    pub open spec fn retry_after(self, cost: nat) -> nat {
        if self.refill == 0 {
            u64::MAX as nat
        } else {
            let seconds = div_up(
                (cost - self.tokens) as nat,
                self.refill * clock::NANOS_PER_SEC as nat,
            );
            if seconds == 0 {
                1
            } else {
                min_nat(seconds, u64::MAX as nat)
            }
        }
    }

    /// Whether `cost` can be paid at `now`.
    pub open spec fn affords(self, cost: nat, now: nat) -> bool {
        self.refilled(now).tokens >= cost
    }

    /// The bucket after `cost` was asked for at `now`: paid if it can be, else only refilled.
    pub open spec fn after_consume(self, cost: nat, now: nat) -> Self {
        let b = self.refilled(now);
        if self.affords(cost, now) {
            BucketModel { tokens: (b.tokens - cost) as nat, ..b }
        } else {
            b
        }
    }

    /// The answer to a request for `cost` at `now`.
    pub open spec fn answer(self, cost: nat, now: nat) -> Result<(), nat> {
        if self.affords(cost, now) {
            Ok(())
        } else {
            Err(self.refilled(now).retry_after(cost))
        }
    }

    /// The bucket after `amount` was given back at `now`, up to the capacity.
    pub open spec fn after_refund(self, amount: nat, now: nat) -> Self {
        let b = self.refilled(now);
        BucketModel { tokens: min_nat(b.tokens + amount, b.capacity), ..b }
    }

    /// The bucket after a reservation of `reserved` turned out to cost `actual`: the
    /// surplus goes back, and a deficit is taken if the bucket holds it.
    pub open spec fn after_reconcile(self, reserved: nat, actual: nat, now: nat) -> Self {
        if actual < reserved {
            self.after_refund((reserved - actual) as nat, now)
        } else if actual > reserved {
            self.after_consume((actual - reserved) as nat, now)
        } else {
            self
        }
    }

    /// The bucket after each of `calls`, a cost and the time it was asked for, in order.
    pub open spec fn after_calls(self, calls: Seq<(nat, nat)>) -> Self
        decreases calls.len(),
    {
        if calls.len() == 0 {
            self
        } else {
            let (cost, now) = calls.last();
            self.after_calls(calls.drop_last()).after_consume(cost, now)
        }
    }

    /// The sum of the costs among `calls` that were paid.
    pub open spec fn granted(self, calls: Seq<(nat, nat)>) -> nat
        decreases calls.len(),
    {
        if calls.len() == 0 {
            0
        } else {
            let (cost, now) = calls.last();
            self.granted(calls.drop_last()) + if self.after_calls(calls.drop_last()).affords(
                cost,
                now,
            ) {
                cost
            } else {
                0
            }
        }
    }
}

/// A result with its error as a natural number.
pub open spec fn refusal(result: Result<(), u64>) -> Result<(), nat> {
    match result {
        Ok(_) => Ok(()),
        Err(seconds) => Err(seconds as nat),
    }
}

/// A token bucket. Capacity and refill rate are fixed when it is made.
#[derive(Debug)]
pub struct TokenBucket {
    clock: Clock,
    capacity: u128,
    refill_per_minute: u64,
    tokens: u128,
    last_refill: u64,
}

impl View for TokenBucket {
    type V = BucketModel;

    closed spec fn view(&self) -> BucketModel {
        BucketModel {
            capacity: self.capacity as nat,
            refill: self.refill_per_minute as nat,
            tokens: self.tokens as nat,
            last_refill: self.last_refill as nat,
        }
    }
}

impl TokenBucket {
    /// The clock by which the bucket refills.
    pub closed spec fn clock(self) -> Clock {
        self.clock
    }

    /// A full bucket that refills `refill_per_minute` tokens per minute.
    pub fn new(capacity: TokenAmount, refill_per_minute: u64) -> (bucket: Self)
        ensures
            exists|now: u64|
                bucket@ == #[trigger] BucketModel::full(
                    capacity.grains as nat,
                    refill_per_minute as nat,
                    now as nat,
                ),
            bucket@.valid(),
    {
        let clock = Clock::start();
        let now: u64 = clock.now();
        TokenBucket::full_at(clock, capacity, refill_per_minute, now)
    }

    /// A bucket that is full at `now`, a time on `clock`.
    pub fn full_at(clock: Clock, capacity: TokenAmount, refill_per_minute: u64, now: u64) -> (bucket:
        Self)
        ensures
            bucket@ == BucketModel::full(
                capacity.grains as nat,
                refill_per_minute as nat,
                now as nat,
            ),
            bucket.clock() == clock,
            bucket@.valid(),
    {
        TokenBucket {
            clock,
            capacity: capacity.grains,
            refill_per_minute,
            tokens: capacity.grains,
            last_refill: now,
        }
    }

    /// Adds `amount` grains, up to the capacity.
    fn add_clamped(&mut self, amount: u128)
        requires
            old(self)@.valid(),
        ensures
            final(self)@ == (BucketModel {
                tokens: min_nat(old(self)@.tokens + amount as nat, old(self)@.capacity),
                ..old(self)@
            }),
            final(self).clock() == old(self).clock(),
            final(self)@.valid(),
    {
        if amount >= self.capacity - self.tokens {
            self.tokens = self.capacity;
        } else {
            self.tokens = self.tokens + amount;
        }
    }

    /// Adds what has come back by `now`.
    fn refill(&mut self, now: u64)
        requires
            old(self)@.valid(),
        ensures
            final(self)@ == old(self)@.refilled(now as nat),
            final(self).clock() == old(self).clock(),
            final(self)@.valid(),
    {
        let passed: u64 = nanos_between(self.last_refill, now);
        let elapsed: u64 = if passed > MAX_REFILL_NANOS {
            MAX_REFILL_NANOS
        } else {
            passed
        };
        if elapsed > 0 {
            let rate: u64 = self.refill_per_minute;
            assert(elapsed * rate <= 3_600_000_000_000 * 0xffff_ffff_ffff_ffff) by (nonlinear_arith)
                requires
                    elapsed <= 3_600_000_000_000,
                    rate <= 0xffff_ffff_ffff_ffff,
            ;
            self.add_clamped(elapsed as u128 * rate as u128);
            self.last_refill = now;
        }
    }

    /// Asks for `cost` at `now`. If the bucket holds it, it is taken; else the answer is
    /// the number of seconds to wait before asking again.
    pub fn try_consume_at(&mut self, cost: TokenAmount, now: u64) -> (result: Result<(), u64>)
        requires
            old(self)@.valid(),
        ensures
            refusal(result) == old(self)@.answer(cost.grains as nat, now as nat),
            final(self)@ == old(self)@.after_consume(cost.grains as nat, now as nat),
            final(self).clock() == old(self).clock(),
            final(self)@.valid(),
    {
        self.refill(now);
        if self.tokens >= cost.grains {
            self.tokens = self.tokens - cost.grains;
            Ok(())
        } else if self.refill_per_minute == 0 {
            Err(u64::MAX)
        } else {
            let deficit: u128 = cost.grains - self.tokens;
            let per_second: u128 = self.refill_per_minute as u128 * clock::NANOS_PER_SEC as u128;
            let whole: u128 = deficit / per_second;
            let seconds: u128 = if deficit % per_second == 0 {
                whole
            } else {
                assert(whole * per_second <= deficit) by {
                    vstd::arithmetic::div_mod::lemma_fundamental_div_mod(
                        deficit as int,
                        per_second as int,
                    );
                    assert(whole * per_second == per_second * whole) by (nonlinear_arith);
                }
                assert(whole <= deficit / 2) by (nonlinear_arith)
                    requires
                        whole * per_second <= deficit,
                        per_second >= 2,
                        whole >= 0,
                        deficit >= 0,
                ;
                whole + 1
            };
            if seconds == 0 {
                Err(1)
            } else if seconds > u64::MAX as u128 {
                Err(u64::MAX)
            } else {
                Err(seconds as u64)
            }
        }
    }

    /// Asks for `cost` now.
    pub fn try_consume(&mut self, cost: TokenAmount) -> (result: Result<(), u64>)
        requires
            old(self)@.valid(),
        ensures
            exists|now: u64|
                refusal(result) == #[trigger] old(self)@.answer(cost.grains as nat, now as nat)
                    && final(self)@ == old(self)@.after_consume(cost.grains as nat, now as nat),
            old(self)@.tokens >= cost.grains ==> result is Ok,
            result matches Err(seconds) ==> seconds >= 1,
            final(self).clock() == old(self).clock(),
            final(self)@.valid(),
    {
        let now: u64 = self.clock.now();
        self.try_consume_at(cost, now)
    }

    /// Gives `amount` back at `now`, up to the capacity.
    pub fn refund_at(&mut self, amount: TokenAmount, now: u64)
        requires
            old(self)@.valid(),
        ensures
            final(self)@ == old(self)@.after_refund(amount.grains as nat, now as nat),
            final(self).clock() == old(self).clock(),
            final(self)@.valid(),
    {
        self.refill(now);
        self.add_clamped(amount.grains);
    }

    /// Gives `amount` back now, up to the capacity.
    pub fn refund(&mut self, amount: TokenAmount)
        requires
            old(self)@.valid(),
        ensures
            exists|now: u64|
                final(self)@ == #[trigger] old(self)@.after_refund(
                    amount.grains as nat,
                    now as nat,
                ),
            final(self).clock() == old(self).clock(),
            final(self)@.valid(),
    {
        let now: u64 = self.clock.now();
        self.refund_at(amount, now)
    }

    /// What the bucket holds at `now`.
    pub fn available_tokens_at(&mut self, now: u64) -> (amount: TokenAmount)
        requires
            old(self)@.valid(),
        ensures
            final(self)@ == old(self)@.refilled(now as nat),
            amount.grains == final(self)@.tokens,
            final(self).clock() == old(self).clock(),
            final(self)@.valid(),
    {
        self.refill(now);
        TokenAmount { grains: self.tokens }
    }

    /// What the bucket holds now.
    pub fn available_tokens(&mut self) -> (amount: TokenAmount)
        requires
            old(self)@.valid(),
        ensures
            exists|now: u64| final(self)@ == #[trigger] old(self)@.refilled(now as nat),
            amount.grains == final(self)@.tokens,
            final(self).clock() == old(self).clock(),
            final(self)@.valid(),
    {
        let now: u64 = self.clock.now();
        self.available_tokens_at(now)
    }
}

/// The two buckets of one client.
#[derive(Debug)]
pub struct RateLimitBuckets {
    pub rpm: TokenBucket,
    pub tpm: TokenBucket,
}

/// What the buckets of a client are, for contracts.
#[verifier::ext_equal]
pub struct BucketsModel {
    pub rpm: BucketModel,
    pub tpm: BucketModel,
}

impl BucketsModel {
    /// Full buckets of `rpm` requests and `tpm` tokens that refill within a minute.
    pub open spec fn fresh(rpm: nat, tpm: nat, now: nat) -> Self {
        BucketsModel {
            rpm: BucketModel::full(rpm * GRAINS_PER_TOKEN as nat, rpm, now),
            tpm: BucketModel::full(tpm * GRAINS_PER_TOKEN as nat, tpm, now),
        }
    }

    pub open spec fn valid(self) -> bool {
        self.rpm.valid() && self.tpm.valid()
    }
}

impl View for RateLimitBuckets {
    type V = BucketsModel;

    open spec fn view(&self) -> BucketsModel {
        BucketsModel { rpm: self.rpm@, tpm: self.tpm@ }
    }
}

impl RateLimitBuckets {
    /// Whether both buckets refill by this clock.
    pub open spec fn clocked(self, clock: Clock) -> bool {
        self.rpm.clock() == clock && self.tpm.clock() == clock
    }

    /// Full buckets of `rpm` requests and `tpm` tokens, each refilled within a minute.
    pub fn from_config(rpm: u32, tpm: u32) -> (buckets: Self)
        ensures
            exists|now: u64|
                buckets@ == #[trigger] BucketsModel::fresh(rpm as nat, tpm as nat, now as nat),
            buckets@.valid(),
    {
        let clock = Clock::start();
        let now: u64 = clock.now();
        RateLimitBuckets::from_config_at(clock, rpm, tpm, now)
    }

    /// Buckets that are full at `now`, a time on `clock`.
    pub fn from_config_at(clock: Clock, rpm: u32, tpm: u32, now: u64) -> (buckets: Self)
        ensures
            buckets@ == BucketsModel::fresh(rpm as nat, tpm as nat, now as nat),
            buckets.clocked(clock),
            buckets@.valid(),
    {
        RateLimitBuckets {
            rpm: TokenBucket::full_at(clock, TokenAmount::whole(rpm as u64), rpm as u64, now),
            tpm: TokenBucket::full_at(clock, TokenAmount::whole(tpm as u64), tpm as u64, now),
        }
    }

    /// Reserves `estimated_cost` tokens at `now`, before a request is dispatched.
    pub fn try_reserve_tpm_at(&mut self, estimated_cost: TokenAmount, now: u64) -> (result: Result<
        ReservationHandle,
        u64,
    >)
        requires
            old(self)@.valid(),
        ensures
            final(self)@ == (BucketsModel {
                tpm: old(self)@.tpm.after_consume(estimated_cost.grains as nat, now as nat),
                ..old(self)@
            }),
            match (result, old(self)@.tpm.answer(estimated_cost.grains as nat, now as nat)) {
                (Ok(handle), Ok(_)) => handle.reserved == estimated_cost,
                (Err(seconds), Err(wait)) => seconds == wait,
                _ => false,
            },
            final(self).rpm == old(self).rpm,
            final(self).tpm.clock() == old(self).tpm.clock(),
            final(self)@.valid(),
    {
        match self.tpm.try_consume_at(estimated_cost, now) {
            Ok(_) => Ok(ReservationHandle { reserved: estimated_cost }),
            Err(seconds) => Err(seconds),
        }
    }

    /// Reserves `estimated_cost` tokens now.
    pub fn try_reserve_tpm(&mut self, estimated_cost: TokenAmount) -> (result: Result<
        ReservationHandle,
        u64,
    >)
        requires
            old(self)@.valid(),
        ensures
            exists|now: u64|
                {
                    &&& final(self)@ == BucketsModel {
                        tpm: old(self)@.tpm.after_consume(estimated_cost.grains as nat, now as nat),
                        ..old(self)@
                    }
                    &&& match (
                        result,
                        #[trigger] old(self)@.tpm.answer(estimated_cost.grains as nat, now as nat),
                    ) {
                        (Ok(handle), Ok(_)) => handle.reserved == estimated_cost,
                        (Err(seconds), Err(wait)) => seconds == wait,
                        _ => false,
                    }
                },
            old(self)@.tpm.tokens >= estimated_cost.grains ==> result is Ok,
            final(self).rpm == old(self).rpm,
            final(self).tpm.clock() == old(self).tpm.clock(),
            final(self)@.valid(),
    {
        let now: u64 = self.tpm.clock.now();
        self.try_reserve_tpm_at(estimated_cost, now)
    }
}

/// An open reservation of tokens. It ends in one of two ways: reconciled with what the
/// request really cost, or released, which gives all of it back.
#[derive(Debug)]
pub struct ReservationHandle {
    pub reserved: TokenAmount,
}

impl ReservationHandle {
    /// Ends the reservation at `now` with the actual cost: a surplus is given back, and a
    /// deficit is taken from `bucket` if it holds it.
    pub fn reconcile_at(self, bucket: &mut TokenBucket, actual_cost: TokenAmount, now: u64)
        requires
            old(bucket)@.valid(),
        ensures
            final(bucket)@ == old(bucket)@.after_reconcile(
                self.reserved.grains as nat,
                actual_cost.grains as nat,
                now as nat,
            ),
            final(bucket).clock() == old(bucket).clock(),
            final(bucket)@.valid(),
    {
        if actual_cost.grains < self.reserved.grains {
            bucket.refund_at(
                TokenAmount { grains: self.reserved.grains - actual_cost.grains },
                now,
            );
        } else if actual_cost.grains > self.reserved.grains {
            let deficit = TokenAmount { grains: actual_cost.grains - self.reserved.grains };
            let _ = bucket.try_consume_at(deficit, now);
        }
    }

    /// Ends the reservation now with the actual cost.
    pub fn reconcile(self, bucket: &mut TokenBucket, actual_cost: TokenAmount)
        requires
            old(bucket)@.valid(),
        ensures
            exists|now: u64|
                final(bucket)@ == #[trigger] old(bucket)@.after_reconcile(
                    self.reserved.grains as nat,
                    actual_cost.grains as nat,
                    now as nat,
                ),
            final(bucket).clock() == old(bucket).clock(),
            final(bucket)@.valid(),
    {
        let now: u64 = bucket.clock.now();
        self.reconcile_at(bucket, actual_cost, now)
    }

    /// Ends the reservation at `now` without any cost, as for a request that was aborted.
    pub fn release_at(self, bucket: &mut TokenBucket, now: u64)
        requires
            old(bucket)@.valid(),
        ensures
            final(bucket)@ == old(bucket)@.after_refund(
                self.reserved.grains as nat,
                now as nat,
            ),
            final(bucket).clock() == old(bucket).clock(),
            final(bucket)@.valid(),
    {
        bucket.refund_at(self.reserved, now)
    }
}

/// Over any run of calls, whose times do not go back, no more is granted than the bucket
/// held at the start and what the refill rate adds until the last call.
pub proof fn law_rate_is_bounded(bucket: BucketModel, calls: Seq<(nat, nat)>)
    requires
        calls.len() > 0,
        forall|i: int|
            0 <= i < calls.len() ==> bucket.last_refill <= (#[trigger] calls[i]).1,
        forall|i: int, j: int|
            0 <= i <= j < calls.len() ==> (#[trigger] calls[i]).1 <= (#[trigger] calls[j]).1,
    ensures
        bucket.granted(calls) <= bucket.tokens + (calls.last().1 - bucket.last_refill)
            * bucket.refill,
{
    lemma_calls_balance(bucket, calls);
}

proof fn lemma_calls_balance(bucket: BucketModel, calls: Seq<(nat, nat)>)
    requires
        forall|i: int|
            0 <= i < calls.len() ==> bucket.last_refill <= (#[trigger] calls[i]).1,
        forall|i: int, j: int|
            0 <= i <= j < calls.len() ==> (#[trigger] calls[i]).1 <= (#[trigger] calls[j]).1,
    ensures
        ({
            let after = bucket.after_calls(calls);
            let end = if calls.len() == 0 {
                bucket.last_refill
            } else {
                calls.last().1
            };
            &&& after.refill == bucket.refill
            &&& after.last_refill == end
            &&& after.tokens + bucket.granted(calls) <= bucket.tokens + (end - bucket.last_refill)
                * bucket.refill
        }),
    decreases calls.len(),
{
    if calls.len() > 0 {
        let before = calls.drop_last();
        assert forall|i: int| 0 <= i < before.len() implies bucket.last_refill <= (
        #[trigger] before[i]).1 by {
            assert(before[i] == calls[i]);
        }
        assert forall|i: int, j: int| 0 <= i <= j < before.len() implies (#[trigger] before[i]).1
            <= (#[trigger] before[j]).1 by {
            assert(before[i] == calls[i] && before[j] == calls[j]);
        }
        lemma_calls_balance(bucket, before);
        let b = bucket.after_calls(before);
        let (cost, now) = calls.last();
        if before.len() > 0 {
            assert(before.last() == calls[calls.len() - 2]);
        }
        assert(calls.last() == calls[calls.len() - 1]);
        assert(b.last_refill <= now);
        let passed = (now - b.last_refill) as nat;
        assert(b.elapsed(now) <= passed);
        assert(b.elapsed(now) * b.refill <= passed * b.refill) by (nonlinear_arith)
            requires
                b.elapsed(now) <= passed,
        ;
        assert(b.refilled(now).tokens <= b.tokens + passed * b.refill);
        assert((now - bucket.last_refill) * bucket.refill == (b.last_refill - bucket.last_refill)
            * bucket.refill + passed * bucket.refill) by (nonlinear_arith)
            requires
                passed == now - b.last_refill,
        ;
    } else {
        assert(0 * bucket.refill == 0) by (nonlinear_arith);
    }
}

/// A client that waits as long as it was told is served: after the given number of
/// seconds, and no other call, the same cost is granted. This needs a cost that the bucket
/// can ever hold and a wait that one refill makes up for.
pub proof fn law_waiting_suffices(bucket: BucketModel, cost: nat, now: nat, later: nat)
    requires
        bucket.last_refill <= now,
        bucket.refill > 0,
        cost <= bucket.capacity,
        bucket.answer(cost, now) is Err,
        bucket.answer(cost, now)->Err_0 * clock::NANOS_PER_SEC <= MAX_REFILL_NANOS,
        later >= now + bucket.answer(cost, now)->Err_0 * clock::NANOS_PER_SEC,
    ensures
        bucket.after_consume(cost, now).affords(cost, later),
{
    let b = bucket.refilled(now);
    let wait = bucket.answer(cost, now)->Err_0;
    let deficit = (cost - b.tokens) as nat;
    let per_second = b.refill * clock::NANOS_PER_SEC as nat;
    assert(b.last_refill == now);
    lemma_div_up_covers(deficit, per_second);
    assert(wait >= div_up(deficit, per_second));
    assert(wait * per_second >= deficit) by (nonlinear_arith)
        requires
            wait >= div_up(deficit, per_second),
            div_up(deficit, per_second) * per_second >= deficit,
    ;
    let nanos = (wait * clock::NANOS_PER_SEC) as nat;
    assert(nanos * b.refill == wait * per_second) by (nonlinear_arith)
        requires
            nanos == wait * clock::NANOS_PER_SEC,
            per_second == b.refill * clock::NANOS_PER_SEC as nat,
    ;
    let elapsed = b.elapsed(later);
    assert(elapsed >= nanos);
    assert(elapsed * b.refill >= nanos * b.refill) by (nonlinear_arith)
        requires
            elapsed >= nanos,
    ;
    assert(elapsed * b.refill >= deficit);
}

proof fn lemma_div_up_covers(a: nat, b: nat)
    requires
        b > 0,
    ensures
        div_up(a, b) * b >= a,
{
    vstd::arithmetic::div_mod::lemma_fundamental_div_mod(a as int, b as int);
    assert(b * (a / b) == (a / b) * b) by (nonlinear_arith);
    assert((a / b + 1) * b == (a / b) * b + b) by (nonlinear_arith);
    assert(a % b < b) by {
        vstd::arithmetic::div_mod::lemma_mod_bound(a as int, b as int);
    }
}

/// A cost above the capacity is never granted, whenever it is asked for.
pub proof fn law_oversized_is_refused(bucket: BucketModel, cost: nat, now: nat)
    requires
        bucket.valid(),
        cost > bucket.capacity,
    ensures
        bucket.answer(cost, now) is Err,
{
}

/// A reservation that is released, at once or later, leaves the bucket as if it had never
/// been made.
pub proof fn law_release_undoes_reservation(
    bucket: BucketModel,
    reserved: nat,
    now: nat,
    later: nat,
)
    requires
        bucket.valid(),
        bucket.affords(reserved, now),
    ensures
        bucket.after_consume(reserved, now).after_refund(reserved, later) == bucket.refilled(
            now,
        ).refilled(later),
{
}

/// A reservation that turns out to cost less, at once or later, charges what it cost and
/// no more: once the bucket is refilled, it is as if that cost had been asked for in the
/// first place.
pub proof fn law_reconcile_refunds_the_surplus(
    bucket: BucketModel,
    reserved: nat,
    actual: nat,
    now: nat,
    later: nat,
)
    requires
        bucket.valid(),
        bucket.affords(reserved, now),
        actual <= reserved,
    ensures
        bucket.after_consume(reserved, now).after_reconcile(reserved, actual, later).refilled(later)
            == bucket.after_consume(actual, now).refilled(later),
{
}

/// A refusal says how long to wait: a second at least. Its answer has status 429 and
/// carries that time in its body and as a header.
pub proof fn law_refusals_say_how_long_to_wait(bucket: BucketModel, cost: nat, now: nat)
    requires
        bucket.answer(cost, now) is Err,
    ensures
        ({
            let wait = bucket.answer(cost, now)->Err_0;
            let response = (ErrorModel::RateLimited { retry_after: wait as u64 }).response();
            &&& 1 <= wait <= u64::MAX
            &&& response.status == 429
            &&& response.retry_after == Some(wait as u64)
            &&& response.retry_after_header == Some(text::decimal_text(wait))
        }),
{
}

/// A reservation that is reconciled at once charges the actual cost, as if that had been
/// asked for in the first place; a cost beyond the reservation that the bucket does not
/// hold is forgone.
pub proof fn law_reconcile_charges_actual(
    bucket: BucketModel,
    reserved: nat,
    actual: nat,
    now: nat,
)
    requires
        bucket.valid(),
        bucket.affords(reserved, now),
    ensures
        bucket.after_consume(reserved, now).after_reconcile(reserved, actual, now) == if actual
            <= reserved || bucket.affords(actual, now) {
            bucket.after_consume(actual, now)
        } else {
            bucket.after_consume(reserved, now)
        },
{
    assert(bucket.after_consume(reserved, now).elapsed(now) == 0);
}

/// The answer to a request, and the metrics that change with it.
#[derive(Debug)]
pub struct Admission {
    pub result: Result<(), AppError>,
    pub metrics: Vec<MetricUpdate>,
}

/// The answer to a request that comes from `client`: without a client it is not
/// authorized, and a client that is out of requests is told how long to wait.
pub open spec fn request_answer(state: GatewayModel, client: Option<Seq<char>>, now: nat) -> Result<
    (),
    ErrorModel,
> {
    match client {
        Some(client) => match state.client(client, now).rpm.answer(GRAINS_PER_TOKEN as nat, now) {
            Ok(_) => Ok(()),
            Err(wait) => Err(ErrorModel::RateLimited { retry_after: wait as u64 }),
        },
        None => Err(ErrorModel::Unauthorized),
    }
}

/// Charges one request to its client at `now`, before it reaches its handler.
pub fn rate_limit_middleware(
    state: &mut AppState,
    identity: Option<&ClientIdentity>,
    now: u64,
) -> (admission: Admission)
    requires
        old(state).wf(),
    ensures
        ({
            let client = match identity {
                Some(identity) => Some(identity.client_id@),
                None => None,
            };
            &&& final(state)@ == match client {
                Some(client) => old(state)@.after_request(
                    client,
                    GRAINS_PER_TOKEN as nat,
                    now as nat,
                ),
                None => old(state)@,
            }
            &&& match (admission.result, request_answer(old(state)@, client, now as nat)) {
                (Ok(_), Ok(_)) => true,
                (Err(error), Err(model)) => error@ == model,
                _ => false,
            }
            &&& metrics::models(admission.metrics@) == if admission.result is Err && client is Some {
                seq![metrics::error_metric("rate_limit"@, "rpm_exceeded"@)]
            } else {
                Seq::<MetricModel>::empty()
            }
        }),
        final(state).same_setup(*old(state)),
        final(state).wf(),
{
    let mut metrics: Vec<MetricUpdate> = Vec::new();
    assert(metrics::models(metrics@) =~= Seq::<MetricModel>::empty());
    let identity = match identity {
        Some(identity) => identity,
        None => {
            return Admission { result: Err(AppError::Unauthorized), metrics };
        },
    };
    match state.charge_request_at(identity.client_id.as_str(), now) {
        Ok(_) => Admission { result: Ok(()), metrics },
        Err(retry_after) => {
            metrics.push(record_error("rate_limit", "rpm_exceeded"));
            assert(metrics::models(metrics@) =~= seq![
                metrics::error_metric("rate_limit"@, "rpm_exceeded"@),
            ]);
            Admission { result: Err(AppError::RateLimited { retry_after }), metrics }
        },
    }
}

/// Tokens come back continuously: what a bucket holds grows with every nanosecond by its
/// refill rate, up to its capacity. One refill makes up for an hour at most.
pub proof fn law_tokens_come_back_with_time(bucket: BucketModel, passed: nat)
    requires
        bucket.valid(),
    ensures
        ({
            let after = bucket.refilled(bucket.last_refill + passed);
            let counted = if passed <= 3_600_000_000_000 {
                passed
            } else {
                3_600_000_000_000
            };
            &&& after.tokens == if bucket.tokens + counted * bucket.refill <= bucket.capacity {
                bucket.tokens + counted * bucket.refill
            } else {
                bucket.capacity
            }
            &&& after.capacity == bucket.capacity
            &&& after.refill == bucket.refill
            &&& after.last_refill == bucket.last_refill + passed
        }),
        forall|now: nat| now <= bucket.last_refill ==> #[trigger] bucket.refilled(now) == bucket,
{
    assert(0 * bucket.refill == 0) by (nonlinear_arith);
}

/// A cost is granted if and only if the bucket holds it, and then exactly the cost is taken;
/// a refusal takes nothing.
pub proof fn law_costs_are_paid_in_full_or_not_at_all(bucket: BucketModel, cost: nat, now: nat)
    ensures
        ({
            let held = bucket.refilled(now);
            let after = bucket.after_consume(cost, now);
            &&& bucket.answer(cost, now) is Ok <==> cost <= held.tokens
            &&& bucket.answer(cost, now) is Ok ==> after.tokens + cost == held.tokens
            &&& bucket.answer(cost, now) is Err ==> after.tokens == held.tokens
            &&& after.capacity == held.capacity
            &&& after.refill == held.refill
            &&& after.last_refill == held.last_refill
        }),
{
}

/// The wait that a refusal names is the shortest: in whole seconds, at least one, it makes
/// up for what is missing, and a second less would not. Without a refill no wait helps, which
/// the largest number says.
pub proof fn law_waits_are_the_shortest(bucket: BucketModel, cost: nat, now: nat)
    requires
        bucket.answer(cost, now) is Err,
    ensures
        ({
            let missing = cost - bucket.refilled(now).tokens;
            let wait = bucket.answer(cost, now)->Err_0;
            let per_second = bucket.refill * 1_000_000_000;
            &&& bucket.refill == 0 ==> wait == 0xffff_ffff_ffff_ffff
            &&& bucket.refill > 0 ==> {
                &&& 1 <= wait <= 0xffff_ffff_ffff_ffff
                &&& wait == 1 || (wait - 1) * per_second < missing
                &&& wait < 0xffff_ffff_ffff_ffff ==> wait * per_second >= missing
            }
        }),
{
    let missing = (cost - bucket.refilled(now).tokens) as nat;
    let wait = bucket.answer(cost, now)->Err_0;
    let per_second = bucket.refill * clock::NANOS_PER_SEC as nat;
    if bucket.refill > 0 {
        let up = div_up(missing, per_second);
        assert(per_second > 0) by (nonlinear_arith)
            requires
                per_second == bucket.refill * clock::NANOS_PER_SEC as nat,
                bucket.refill > 0,
                clock::NANOS_PER_SEC > 0,
        ;
        lemma_div_up_covers(missing, per_second);
        vstd::arithmetic::div_mod::lemma_fundamental_div_mod(missing as int, per_second as int);
        vstd::arithmetic::div_mod::lemma_mod_bound(missing as int, per_second as int);
        assert((up - 1) * per_second < missing) by {
            let q = missing / per_second;
            assert(per_second * q == q * per_second) by (nonlinear_arith);
            assert((q - 1) * per_second == q * per_second - per_second) by (nonlinear_arith);
        }
        assert(bucket.refilled(now).refill == bucket.refill);
        assert(up > 0) by (nonlinear_arith)
            requires
                up * per_second >= missing,
                missing > 0,
                per_second > 0,
        ;
        assert(wait == min_nat(up, u64::MAX as nat));
        assert((wait - 1) * per_second <= (up - 1) * per_second) by (nonlinear_arith)
            requires
                wait <= up,
                per_second > 0,
        ;
    }
}

/// What is given back is added, up to the capacity.
pub proof fn law_refunds_are_added(bucket: BucketModel, amount: nat, now: nat)
    requires
        bucket.valid(),
    ensures
        ({
            let held = bucket.refilled(now);
            let after = bucket.after_refund(amount, now);
            &&& held.tokens + amount <= held.capacity ==> after.tokens == held.tokens + amount
            &&& held.tokens + amount > held.capacity ==> after.tokens == held.capacity
            &&& after.capacity == held.capacity
            &&& after.refill == held.refill
            &&& after.last_refill == held.last_refill
        }),
{
}

/// A request that costs more than was reserved for it pays the difference when it is
/// reconciled, if the bucket holds it then, and nothing more if it does not.
pub proof fn law_reconcile_takes_the_difference(
    bucket: BucketModel,
    reserved: nat,
    actual: nat,
    now: nat,
)
    requires
        reserved < actual,
    ensures
        ({
            let held = bucket.refilled(now);
            let after = bucket.after_reconcile(reserved, actual, now);
            &&& held.tokens + reserved >= actual ==> after.tokens + actual == held.tokens + reserved
            &&& held.tokens + reserved < actual ==> after.tokens == held.tokens
            &&& after.capacity == held.capacity
            &&& after.refill == held.refill
        }),
{
}

/// A limit is one per minute: an empty bucket is full again after a minute, and not a
/// nanosecond earlier.
pub proof fn law_limits_are_per_minute(rpm: nat, tpm: nat, now: nat)
    requires
        rpm > 0,
        tpm > 0,
    ensures
        ({
            let fresh = BucketsModel::fresh(rpm, tpm, now);
            let spent = fresh.tpm.after_consume(fresh.tpm.capacity, now);
            &&& spent.tokens == 0
            &&& spent.affords(fresh.tpm.capacity, now + 60_000_000_000)
            &&& !spent.affords(fresh.tpm.capacity, (now + 59_999_999_999) as nat)
        }),
        ({
            let fresh = BucketsModel::fresh(rpm, tpm, now);
            let spent = fresh.rpm.after_consume(fresh.rpm.capacity, now);
            &&& spent.tokens == 0
            &&& spent.affords(fresh.rpm.capacity, now + 60_000_000_000)
            &&& !spent.affords(fresh.rpm.capacity, (now + 59_999_999_999) as nat)
        }),
{
    lemma_refills_in_a_minute(rpm, now);
    lemma_refills_in_a_minute(tpm, now);
}

proof fn lemma_refills_in_a_minute(limit: nat, now: nat)
    requires
        limit > 0,
    ensures
        ({
            let spent = BucketModel::full(limit * GRAINS_PER_TOKEN as nat, limit, now).after_consume(
                limit * GRAINS_PER_TOKEN as nat,
                now,
            );
            &&& spent.tokens == 0
            &&& spent.affords(limit * GRAINS_PER_TOKEN as nat, now + 60_000_000_000)
            &&& !spent.affords(limit * GRAINS_PER_TOKEN as nat, (now + 59_999_999_999) as nat)
        }),
{
    assert(limit * 60_000_000_000 == 60_000_000_000 * limit) by (nonlinear_arith);
    assert(59_999_999_999 * limit < 60_000_000_000 * limit) by (nonlinear_arith)
        requires
            limit > 0,
    ;
}

/// The bucket after `n` costs of one token at the same moment.
pub open spec fn after_tokens(bucket: BucketModel, n: nat, now: nat) -> BucketModel
    decreases n,
{
    if n == 0 {
        bucket
    } else {
        after_tokens(bucket, (n - 1) as nat, now).after_consume(GRAINS_PER_TOKEN as nat, now)
    }
}

/// A client may use up its limit at once: of a fresh bucket of `limit` tokens exactly `limit`
/// single ones are granted at the same moment.
pub proof fn law_bursts_reach_the_limit(rpm: nat, tpm: nat, n: nat, now: nat)
    ensures
        n <= rpm ==> (after_tokens(BucketsModel::fresh(rpm, tpm, now).rpm, n, now).answer(
            GRAINS_PER_TOKEN as nat,
            now,
        ) is Ok <==> n < rpm),
        n <= tpm ==> (after_tokens(BucketsModel::fresh(rpm, tpm, now).tpm, n, now).answer(
            GRAINS_PER_TOKEN as nat,
            now,
        ) is Ok <==> n < tpm),
{
    if n <= rpm {
        lemma_burst(rpm, n, now);
    }
    if n <= tpm {
        lemma_burst(tpm, n, now);
    }
}

proof fn lemma_burst(limit: nat, n: nat, now: nat)
    requires
        n <= limit,
    ensures
        ({
            let after = after_tokens(
                BucketModel::full(limit * GRAINS_PER_TOKEN as nat, limit, now),
                n,
                now,
            );
            &&& after.tokens == (limit - n) * GRAINS_PER_TOKEN
            &&& after.last_refill == now
            &&& after.tokens >= GRAINS_PER_TOKEN <==> n < limit
        }),
    decreases n,
{
    let g = GRAINS_PER_TOKEN as int;
    if n > 0 {
        lemma_burst(limit, (n - 1) as nat, now);
        assert((limit - (n - 1)) * g == (limit - n) * g + g) by (nonlinear_arith);
    }
    assert(n < limit ==> (limit - n) * g >= g) by (nonlinear_arith)
        requires
            g > 0,
    ;
    assert(n == limit ==> (limit - n) * g == 0) by (nonlinear_arith);
}

/// The shared state after a client sent `n` requests at the same moment.
pub open spec fn after_requests_of(
    state: GatewayModel,
    client: Seq<char>,
    n: nat,
    now: nat,
) -> GatewayModel
    decreases n,
{
    if n == 0 {
        state
    } else {
        after_requests_of(state, client, (n - 1) as nat, now).after_request(
            client,
            GRAINS_PER_TOKEN as nat,
            now,
        )
    }
}

/// A client that has not been seen before may send as many requests at once as its limit
/// says, and the next one is refused with a time to wait. Without a client no request is
/// authorized.
pub proof fn law_requests_are_limited(state: GatewayModel, client: Seq<char>, n: nat, now: nat)
    requires
        !state.buckets.contains_key(client),
        n <= state.rpm,
    ensures
        ({
            let answer = request_answer(
                after_requests_of(state, client, n, now),
                Some(client),
                now,
            );
            &&& n < state.rpm ==> answer is Ok
            &&& n == state.rpm ==> answer is Err && answer->Err_0 is RateLimited
        }),
        request_answer(state, None, now) == Err::<(), ErrorModel>(ErrorModel::Unauthorized),
{
    lemma_requests_of(state, client, n, now);
    lemma_burst(state.rpm, n, now);
}

proof fn lemma_requests_of(state: GatewayModel, client: Seq<char>, n: nat, now: nat)
    requires
        !state.buckets.contains_key(client),
        n <= state.rpm,
    ensures
        after_requests_of(state, client, n, now).client(client, now).rpm == after_tokens(
            BucketsModel::fresh(state.rpm, state.tpm, now).rpm,
            n,
            now,
        ),
    decreases n,
{
    if n > 0 {
        lemma_requests_of(state, client, (n - 1) as nat, now);
    }
}

/// A request is let through if and only if its client has a whole request left, whatever the
/// client did before. A client that has not is told the wait of its bucket; a request that is
/// let through takes one request from it, and one that is refused takes none.
pub proof fn law_requests_cost_one_each(state: GatewayModel, client: Seq<char>, now: nat)
    ensures
        ({
            let held = state.client(client, now).rpm.refilled(now);
            let answer = request_answer(state, Some(client), now);
            let after = state.after_request(client, GRAINS_PER_TOKEN as nat, now).client(
                client,
                now,
            ).rpm;
            &&& answer is Ok <==> held.tokens >= 60_000_000_000
            &&& answer is Ok ==> after.tokens + 60_000_000_000 == held.tokens
            &&& answer is Err ==> {
                &&& after.tokens == held.tokens
                &&& answer->Err_0 is RateLimited
                &&& answer->Err_0->retry_after == state.client(client, now).rpm.answer(
                    60_000_000_000,
                    now,
                )->Err_0 as u64
            }
        }),
{
}

} // verus!
