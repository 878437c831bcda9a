//! Circuit breaker: one state machine for each upstream provider.
//!
//! ```text
//!  CLOSED --(failures reach the threshold)--> OPEN
//!  OPEN --(cooldown elapsed, request allowed)--> HALF-OPEN
//!  HALF-OPEN --(probe succeeds)--> CLOSED
//!  HALF-OPEN --(probe fails)--> OPEN
//! ```
//!
//! * Closed: every request passes. Consecutive failures are counted; reaching the
//!   threshold trips the breaker open.
//! * Open: requests bypass the provider until the cooldown has elapsed.
//! * Half-open: at most `half_open_max_calls` probe requests pass, the one that left the
//!   open state included.
//!
//! `is_eligible` only reads; `allow_request` consumes a probe slot. Every operation has a
//! form that takes the present time, in nanoseconds on the breaker's clock, and one that
//! reads the clock.
use crate::clock::{self, nanos_between, Clock};
use std::time::Duration;
use vstd::prelude::*;

verus! {

/// The three states of a breaker.
#[derive(Debug, Clone, Copy, PartialEq, Eq, Structural)]
pub enum BreakerState {
    Closed,
    Open,
    HalfOpen,
}

/// What a breaker is, for contracts: its counters, its last failure and its settings.
/// Times are in nanoseconds.
#[verifier::ext_equal]
pub struct BreakerModel {
    pub state: BreakerState,
    pub failure_count: nat,
    pub last_failure: Option<nat>,
    pub half_open_calls: nat,
    pub failure_threshold: nat,
    pub cooldown: nat,
    pub half_open_max_calls: nat,
}

impl BreakerModel {
    /// A fresh breaker: closed, with no failure behind it. At least one probe is allowed.
    pub open spec fn fresh(failure_threshold: nat, cooldown: nat, half_open_max_calls: nat) -> Self {
        BreakerModel {
            state: BreakerState::Closed,
            failure_count: 0,
            last_failure: None,
            half_open_calls: 0,
            failure_threshold,
            cooldown,
            half_open_max_calls: if half_open_max_calls == 0 {
                1
            } else {
                half_open_max_calls
            },
        }
    }

    /// What holds of every breaker: there is room for a probe, the probes in flight are
    /// within the budget and only counted while half-open, an open breaker knows when it
    /// last failed, and a closed one is below its threshold.
    pub open spec fn valid(self) -> bool {
        &&& self.half_open_max_calls >= 1
        &&& self.half_open_calls <= self.half_open_max_calls
        &&& self.state != BreakerState::HalfOpen ==> self.half_open_calls == 0
        &&& self.state == BreakerState::HalfOpen ==> self.half_open_calls >= 1
        &&& self.state == BreakerState::Open ==> self.last_failure is Some
        &&& self.state == BreakerState::Closed ==> self.failure_count == 0 || self.failure_count
            < self.failure_threshold
        &&& self.failure_count <= u32::MAX
    }

    /// Whether the cooldown after the last failure has elapsed at `now`.
    pub open spec fn cooled(self, now: nat) -> bool {
        self.last_failure matches Some(t) && clock::time_between(t, now) >= self.cooldown
    }

    /// Whether a request may be sent at `now`.
    pub open spec fn eligible(self, now: nat) -> bool {
        match self.state {
            BreakerState::Closed => true,
            BreakerState::Open => self.cooled(now),
            BreakerState::HalfOpen => self.half_open_calls < self.half_open_max_calls,
        }
    }

    /// The breaker after a request was asked for at `now`: a request that passes an open
    /// breaker makes it half-open and takes the first probe slot; one that passes a
    /// half-open breaker takes the next.
    pub open spec fn after_allow(self, now: nat) -> Self {
        if !self.eligible(now) || self.state == BreakerState::Closed {
            self
        } else if self.state == BreakerState::Open {
            BreakerModel { state: BreakerState::HalfOpen, half_open_calls: 1, ..self }
        } else {
            BreakerModel { half_open_calls: self.half_open_calls + 1, ..self }
        }
    }

    /// The breaker after a success: no failures are counted, and a half-open breaker closes.
    pub open spec fn after_success(self) -> Self {
        if self.state == BreakerState::HalfOpen {
            BreakerModel {
                state: BreakerState::Closed,
                failure_count: 0,
                half_open_calls: 0,
                ..self
            }
        } else {
            BreakerModel { failure_count: 0, ..self }
        }
    }

    /// The breaker after a failure at `now`. A half-open breaker opens again; another
    /// opens once its failures reach the threshold. The counter stops at its largest value.
    pub open spec fn after_failure(self, now: nat) -> Self {
        let count = if self.failure_count < u32::MAX {
            self.failure_count + 1
        } else {
            self.failure_count
        };
        if self.state == BreakerState::HalfOpen {
            BreakerModel {
                state: BreakerState::Open,
                failure_count: count,
                last_failure: Some(now),
                half_open_calls: 0,
                ..self
            }
        } else {
            BreakerModel {
                state: if count >= self.failure_threshold {
                    BreakerState::Open
                } else {
                    self.state
                },
                failure_count: count,
                last_failure: Some(now),
                ..self
            }
        }
    }

    /// The breaker after a failure at each of `times`, in order.
    pub open spec fn after_failures(self, times: Seq<nat>) -> Self
        decreases times.len(),
    {
        if times.len() == 0 {
            self
        } else {
            self.after_failures(times.drop_last()).after_failure(times.last())
        }
    }

    /// The breaker after a request was asked for at each of `times`, in order.
    pub open spec fn after_requests(self, times: Seq<nat>) -> Self
        decreases times.len(),
    {
        if times.len() == 0 {
            self
        } else {
            self.after_requests(times.drop_last()).after_allow(times.last())
        }
    }

    /// How many of the requests asked for at `times` pass.
    pub open spec fn admitted(self, times: Seq<nat>) -> nat
        decreases times.len(),
    {
        if times.len() == 0 {
            0
        } else if self.after_requests(times.drop_last()).eligible(times.last()) {
            self.admitted(times.drop_last()) + 1
        } else {
            self.admitted(times.drop_last())
        }
    }
}

/// A circuit breaker.
#[derive(Debug)]
pub struct CircuitBreaker {
    clock: Clock,
    state: BreakerState,
    failure_count: u32,
    last_failure: Option<u64>,
    half_open_calls: u32,
    failure_threshold: u32,
    cooldown: u128,
    half_open_max_calls: u32,
}

impl View for CircuitBreaker {
    type V = BreakerModel;

    closed spec fn view(&self) -> BreakerModel {
        BreakerModel {
            state: self.state,
            failure_count: self.failure_count as nat,
            last_failure: match self.last_failure {
                Some(t) => Some(t as nat),
                None => None,
            },
            half_open_calls: self.half_open_calls as nat,
            failure_threshold: self.failure_threshold as nat,
            cooldown: self.cooldown as nat,
            half_open_max_calls: self.half_open_max_calls as nat,
        }
    }
}

impl CircuitBreaker {
    /// The clock on which the breaker measures its cooldown.
    pub closed spec fn clock(self) -> Clock {
        self.clock
    }

    /// A closed breaker. `half_open_max_calls` is raised to one if it is zero.
    pub fn new(failure_threshold: u32, cooldown: Duration, half_open_max_calls: u32) -> (breaker:
        Self)
        ensures
            breaker@ == BreakerModel::fresh(
                failure_threshold as nat,
                clock::duration_nanos(cooldown),
                half_open_max_calls as nat,
            ),
            breaker@.valid(),
    {
        let nanos: u128 = cooldown.as_nanos();
        CircuitBreaker::with_clock(Clock::start(), failure_threshold, nanos, half_open_max_calls)
    }

    /// A closed breaker that measures a cooldown of `cooldown` nanoseconds on `clock`.
    pub fn with_clock(
        clock: Clock,
        failure_threshold: u32,
        cooldown: u128,
        half_open_max_calls: u32,
    ) -> (breaker: Self)
        ensures
            breaker@ == BreakerModel::fresh(
                failure_threshold as nat,
                cooldown as nat,
                half_open_max_calls as nat,
            ),
            breaker.clock() == clock,
            breaker@.valid(),
    {
        CircuitBreaker {
            clock,
            state: BreakerState::Closed,
            failure_count: 0,
            last_failure: None,
            half_open_calls: 0,
            failure_threshold,
            cooldown,
            half_open_max_calls: if half_open_max_calls == 0 {
                1
            } else {
                half_open_max_calls
            },
        }
    }

    /// Whether the cooldown after the last failure has elapsed at `now`.
    fn cooled_at(&self, now: u64) -> (cooled: bool)
        ensures
            cooled == self@.cooled(now as nat),
    {
        match self.last_failure {
            Some(t) => nanos_between(t, now) as u128 >= self.cooldown,
            None => false,
        }
    }

    /// Whether a request may be sent at `now`. Reads only: no probe slot is consumed.
    pub fn is_eligible_at(&self, now: u64) -> (eligible: bool)
        ensures
            eligible == self@.eligible(now as nat),
    {
        match self.state {
            BreakerState::Closed => true,
            BreakerState::Open => self.cooled_at(now),
            BreakerState::HalfOpen => self.half_open_calls < self.half_open_max_calls,
        }
    }

    /// Whether a request may be sent now. Reads only: no probe slot is consumed.
    pub fn is_eligible(&self) -> (eligible: bool)
        ensures
            exists|now: u64| eligible == #[trigger] self@.eligible(now as nat),
    {
        let now: u64 = self.clock.now();
        self.is_eligible_at(now)
    }

    /// Asks to send a request at `now`, right before it is sent. A request that passes an
    /// open or half-open breaker consumes a probe slot.
    pub fn allow_request_at(&mut self, now: u64) -> (allowed: bool)
        ensures
            allowed == old(self)@.eligible(now as nat),
            final(self)@ == old(self)@.after_allow(now as nat),
            final(self).clock() == old(self).clock(),
            old(self)@.valid() ==> final(self)@.valid(),
    {
        match self.state {
            BreakerState::Closed => true,
            BreakerState::Open => {
                if self.cooled_at(now) {
                    self.state = BreakerState::HalfOpen;
                    self.half_open_calls = 1;
                    true
                } else {
                    false
                }
            },
            BreakerState::HalfOpen => {
                if self.half_open_calls < self.half_open_max_calls {
                    self.half_open_calls = self.half_open_calls + 1;
                    true
                } else {
                    false
                }
            },
        }
    }

    /// Asks to send a request now, right before it is sent.
    pub fn allow_request(&mut self) -> (allowed: bool)
        ensures
            exists|now: u64|
                allowed == #[trigger] old(self)@.eligible(now as nat) && final(self)@ == old(
                    self,
                )@.after_allow(now as nat),
            final(self).clock() == old(self).clock(),
            old(self)@.valid() ==> final(self)@.valid(),
    {
        let now: u64 = self.clock.now();
        self.allow_request_at(now)
    }

    /// Records a successful request.
    pub fn record_success(&mut self)
        ensures
            final(self)@ == old(self)@.after_success(),
            final(self).clock() == old(self).clock(),
            old(self)@.valid() ==> final(self)@.valid(),
    {
        self.failure_count = 0;
        if self.state == BreakerState::HalfOpen {
            self.state = BreakerState::Closed;
            self.half_open_calls = 0;
        }
    }

    /// Records a failed request (a server error, an overload, a timeout, a connection
    /// error) at `now`.
    pub fn record_failure_at(&mut self, now: u64)
        ensures
            final(self)@ == old(self)@.after_failure(now as nat),
            final(self).clock() == old(self).clock(),
            old(self)@.valid() ==> final(self)@.valid(),
    {
        self.last_failure = Some(now);
        if self.failure_count < u32::MAX {
            self.failure_count = self.failure_count + 1;
        }
        if self.state == BreakerState::HalfOpen {
            self.state = BreakerState::Open;
            self.half_open_calls = 0;
        } else if self.failure_count >= self.failure_threshold {
            self.state = BreakerState::Open;
        }
    }

    /// Records a failed request now.
    pub fn record_failure(&mut self)
        ensures
            exists|now: u64| final(self)@ == #[trigger] old(self)@.after_failure(now as nat),
            final(self).clock() == old(self).clock(),
            old(self)@.valid() ==> final(self)@.valid(),
    {
        let now: u64 = self.clock.now();
        self.record_failure_at(now)
    }

    /// The present state. Reads only.
    pub fn current_state(&self) -> (state: BreakerState)
        ensures
            state == self@.state,
    {
        self.state
    }
}

/// Consecutive failures trip a closed breaker exactly when they reach the threshold (and
/// there is at least one); before that it stays closed.
pub proof fn law_trips_at_threshold(breaker: BreakerModel, times: Seq<nat>)
    requires
        breaker.state == BreakerState::Closed,
        breaker.failure_count == 0,
        breaker.failure_threshold <= u32::MAX,
    ensures
        breaker.after_failures(times).state == if times.len() > 0 && times.len()
            >= breaker.failure_threshold {
            BreakerState::Open
        } else {
            BreakerState::Closed
        },
{
    lemma_failures_counted(breaker, times);
}

proof fn lemma_failures_counted(breaker: BreakerModel, times: Seq<nat>)
    requires
        breaker.state == BreakerState::Closed,
        breaker.failure_count == 0,
        breaker.failure_threshold <= u32::MAX,
    ensures
        ({
            let after = breaker.after_failures(times);
            &&& after.failure_threshold == breaker.failure_threshold
            &&& after.failure_count == if times.len() < u32::MAX {
                times.len()
            } else {
                u32::MAX as nat
            }
            &&& after.state == if times.len() > 0 && times.len() >= breaker.failure_threshold {
                BreakerState::Open
            } else {
                BreakerState::Closed
            }
        }),
    decreases times.len(),
{
    if times.len() > 0 {
        lemma_failures_counted(breaker, times.drop_last());
    }
}

/// A success forgets the failures before it: a breaker that was not open needs a full
/// threshold of failures afterwards to trip.
pub proof fn law_success_resets_failures(breaker: BreakerModel, times: Seq<nat>)
    requires
        breaker.state != BreakerState::Open,
        breaker.failure_threshold <= u32::MAX,
    ensures
        breaker.after_success().state == BreakerState::Closed,
        breaker.after_success().after_failures(times).state == BreakerState::Open <==> times.len()
            > 0 && times.len() >= breaker.failure_threshold,
{
    law_trips_at_threshold(breaker.after_success(), times);
}

/// While the cooldown has not elapsed, an open breaker lets nothing pass and does not change.
pub proof fn law_open_fails_fast(breaker: BreakerModel, now: nat)
    requires
        breaker.state == BreakerState::Open,
        !breaker.cooled(now),
    ensures
        !breaker.eligible(now),
        breaker.after_allow(now) == breaker,
{
}

/// Once its cooldown has elapsed, an open breaker lets exactly its probe budget pass, of
/// any number of requests, until an outcome is recorded.
pub proof fn law_probe_budget(breaker: BreakerModel, times: Seq<nat>)
    requires
        breaker.valid(),
        breaker.state == BreakerState::Open,
        times.len() > 0,
        breaker.cooled(times[0]),
    ensures
        breaker.admitted(times) == if times.len() < breaker.half_open_max_calls {
            times.len()
        } else {
            breaker.half_open_max_calls
        },
        breaker.after_requests(times).state == BreakerState::HalfOpen,
    decreases times.len(),
{
    lemma_probes(breaker, times);
}

proof fn lemma_probes(breaker: BreakerModel, times: Seq<nat>)
    requires
        breaker.valid(),
        breaker.state == BreakerState::Open,
        times.len() > 0,
        breaker.cooled(times[0]),
    ensures
        ({
            let after = breaker.after_requests(times);
            &&& after.state == BreakerState::HalfOpen
            &&& after.half_open_calls == breaker.admitted(times)
            &&& after.half_open_max_calls == breaker.half_open_max_calls
            &&& after.half_open_calls == if times.len() < breaker.half_open_max_calls {
                times.len()
            } else {
                breaker.half_open_max_calls
            }
        }),
    decreases times.len(),
{
    let before = times.drop_last();
    if times.len() == 1 {
        assert(before =~= Seq::empty());
        assert(breaker.after_requests(before) == breaker);
        assert(breaker.admitted(before) == 0);
    } else {
        assert(before[0] == times[0]);
        lemma_probes(breaker, before);
    }
}

/// A probe decides: its success closes a half-open breaker with no failures counted, its
/// failure opens it again for a whole cooldown.
pub proof fn law_probe_decides(breaker: BreakerModel, now: nat, later: nat)
    requires
        breaker.state == BreakerState::HalfOpen,
        now <= later,
    ensures
        breaker.after_success().state == BreakerState::Closed,
        breaker.after_success().failure_count == 0,
        breaker.after_failure(now).state == BreakerState::Open,
        breaker.after_failure(now).eligible(later) <==> later - now >= breaker.cooldown,
{
}

/// Asking whether a request may pass agrees with asking to send it, and the first question
/// may be put any number of times before the second.
pub proof fn law_eligibility_predicts_permission(breaker: BreakerModel, now: nat)
    ensures
        breaker.eligible(now) ==> breaker.admitted(seq![now]) == 1,
        !breaker.eligible(now) ==> breaker.admitted(seq![now]) == 0 && breaker.after_requests(
            seq![now],
        ) == breaker,
{
    let none = seq![now].drop_last();
    assert(none =~= Seq::empty());
    assert(breaker.after_requests(none) == breaker);
    assert(breaker.admitted(none) == 0);
}

/// The cooldown runs from the last failure: a breaker that is open after a failure,
/// whatever it was before, lets nothing pass until a whole cooldown after that failure, and
/// from then on a probe.
pub proof fn law_cooldown_runs_from_the_last_failure(breaker: BreakerModel, now: nat, later: nat)
    requires
        breaker.after_failure(now).state == BreakerState::Open,
        now <= later,
    ensures
        breaker.after_failure(now).eligible(later) <==> later - now >= breaker.cooldown,
{
}

/// How many failures a breaker counts, and whether they trip it.
proof fn lemma_failures_add_up(breaker: BreakerModel, times: Seq<nat>)
    requires
        breaker.valid(),
        breaker.state == BreakerState::Closed,
        breaker.failure_threshold <= u32::MAX,
    ensures
        ({
            let after = breaker.after_failures(times);
            &&& after.failure_threshold == breaker.failure_threshold
            &&& after.failure_count == if breaker.failure_count + times.len() < u32::MAX {
                breaker.failure_count + times.len()
            } else {
                u32::MAX as nat
            }
            &&& after.state == if times.len() > 0 && breaker.failure_count + times.len()
                >= breaker.failure_threshold {
                BreakerState::Open
            } else {
                BreakerState::Closed
            }
        }),
    decreases times.len(),
{
    if times.len() > 0 {
        lemma_failures_add_up(breaker, times.drop_last());
    }
}

/// Failures in a row add up: a closed breaker opens with the failure that brings the number
/// since the last success to the threshold, neither before nor after.
pub proof fn law_failures_add_up(breaker: BreakerModel, times: Seq<nat>)
    requires
        breaker.valid(),
        breaker.state == BreakerState::Closed,
        breaker.failure_threshold <= u32::MAX,
    ensures
        breaker.after_failures(times).state == BreakerState::Open <==> times.len() > 0
            && breaker.failure_count + times.len() >= breaker.failure_threshold,
        breaker.after_failures(times).state != BreakerState::Open
            ==> breaker.after_failures(times).state == BreakerState::Closed,
{
    lemma_failures_add_up(breaker, times);
}

/// A closed breaker lets every request pass and keeps no account of it; a request that a
/// breaker denies leaves it as it is.
pub proof fn law_closed_breakers_let_everything_pass(breaker: BreakerModel, now: nat)
    ensures
        breaker.state == BreakerState::Closed ==> breaker.eligible(now) && breaker.after_allow(now)
            == breaker,
        !breaker.eligible(now) ==> breaker.after_allow(now) == breaker,
{
}

/// A success does not open or close an open breaker, nor does it change its cooldown: only a
/// probe ends that.
pub proof fn law_late_successes_do_not_close(breaker: BreakerModel, now: nat)
    requires
        breaker.state == BreakerState::Open,
    ensures
        breaker.after_success().state == BreakerState::Open,
        breaker.after_success().eligible(now) == breaker.eligible(now),
{
}

/// The settings of a breaker never change.
pub proof fn law_settings_stay(breaker: BreakerModel, now: nat)
    ensures
        forall|after: BreakerModel|
            after == breaker.after_allow(now) || after == breaker.after_success() || after
                == breaker.after_failure(now) ==> {
                &&& #[trigger] after.failure_threshold == breaker.failure_threshold
                &&& after.cooldown == breaker.cooldown
                &&& after.half_open_max_calls == breaker.half_open_max_calls
            },
{
}

/// A half-open breaker lets as many more probes pass as its budget has left, of any number
/// of requests, and stays half-open until an outcome is recorded.
pub proof fn law_remaining_probes(breaker: BreakerModel, times: Seq<nat>)
    requires
        breaker.valid(),
        breaker.state == BreakerState::HalfOpen,
    ensures
        breaker.admitted(times) == if times.len() < breaker.half_open_max_calls
            - breaker.half_open_calls {
            times.len() as int
        } else {
            breaker.half_open_max_calls - breaker.half_open_calls
        },
        breaker.after_requests(times).state == BreakerState::HalfOpen,
        breaker.after_requests(times).half_open_calls == breaker.half_open_calls
            + breaker.admitted(times),
        breaker.after_requests(times).half_open_max_calls == breaker.half_open_max_calls,
    decreases times.len(),
{
    if times.len() > 0 {
        law_remaining_probes(breaker, times.drop_last());
    }
}

/// What a fresh breaker is set to: it opens with as many failures as its threshold says, and
/// the first failure if that is zero; after the cooldown it lets its budget of probes pass,
/// and one probe if that is zero.
pub proof fn law_fresh_breakers_follow_their_settings(
    threshold: nat,
    cooldown: nat,
    probes: nat,
    failures: Seq<nat>,
    requests: Seq<nat>,
)
    requires
        threshold <= u32::MAX,
        failures.len() > 0,
        failures.len() >= threshold,
        requests.len() > 0,
        requests[0] >= failures.last() + cooldown,
    ensures
        ({
            let fresh = BreakerModel::fresh(threshold, cooldown, probes);
            let opened = fresh.after_failures(failures);
            let budget = if probes == 0 {
                1
            } else {
                probes
            };
            &&& fresh.valid()
            &&& fresh.state == BreakerState::Closed
            &&& threshold > 1 ==> fresh.after_failures(failures.take(threshold - 1)).state
                == BreakerState::Closed
            &&& opened.state == BreakerState::Open
            &&& opened.admitted(requests) == if requests.len() < budget {
                requests.len()
            } else {
                budget
            }
        }),
{
    let fresh = BreakerModel::fresh(threshold, cooldown, probes);
    lemma_failures_add_up(fresh, failures);
    if threshold > 1 {
        lemma_failures_add_up(fresh, failures.take(threshold - 1));
    }
    let before = fresh.after_failures(failures.drop_last());
    lemma_fresh_opened(fresh, failures);
    let opened = fresh.after_failures(failures);
    assert(opened == before.after_failure(failures.last()));
    law_probe_budget(opened, requests);
}

proof fn lemma_fresh_opened(breaker: BreakerModel, times: Seq<nat>)
    requires
        breaker.valid(),
        breaker.half_open_calls == 0,
        breaker.state == BreakerState::Closed,
        breaker.failure_threshold <= u32::MAX,
    ensures
        breaker.after_failures(times).valid(),
        breaker.after_failures(times).cooldown == breaker.cooldown,
        breaker.after_failures(times).half_open_max_calls == breaker.half_open_max_calls,
        times.len() > 0 ==> breaker.after_failures(times).last_failure == Some(times.last()),
    decreases times.len(),
{
    if times.len() > 0 {
        lemma_fresh_opened(breaker, times.drop_last());
        lemma_failures_add_up(breaker, times.drop_last());
    }
}

} // verus!
