//! A streamed response on its way to the client.
//!
//! The bytes pass through unchanged. On the way the events in them are inspected: the
//! first one that carries output of the model gives the time to the first token, and the
//! first one that reports the usage settles the reservation of the request. A stream that
//! breaks, or that is idle for too long, counts as a failure of its provider; one that ends
//! without that counts as a success. What is still reserved when the stream ends is given
//! back.
use crate::clock::{self, duration_between};
use crate::middleware::rate_limit::{self, ReservationHandle, TokenAmount};
use crate::proxy::sse_parser::{self, SseParser};
use crate::router::circuit_breaker::{self, BreakerState};
use crate::state::{AppState, GatewayModel};
use crate::telemetry::metrics::{self, record_tokens, record_ttft, MetricModel, MetricUpdate};
use crate::text;
use vstd::prelude::*;

verus! {

/// What is read of an event: whether it carries output, and the tokens of prompt and
/// completion that it reports.
#[derive(Clone, Copy, Debug)]
pub struct EventFacts {
    pub content: bool,
    pub usage: Option<(u64, u64)>,
}

/// What is read of an event.
pub open spec fn facts_in(event: Seq<char>) -> EventFacts {
    EventFacts {
        content: sse_parser::any_content(sse_parser::event_documents(event)),
        usage: sse_parser::first_reported(
            sse_parser::usages_in(sse_parser::event_documents(event)),
        ),
    }
}

/// What is read of each event.
pub open spec fn all_facts(events: Seq<Seq<char>>) -> Seq<EventFacts> {
    events.map_values(|event: Seq<char>| facts_in(event))
}

/// What a stream is, for contracts. Times are in nanoseconds, amounts in grains.
#[verifier::ext_equal]
pub struct StreamModel {
    pub provider: Seq<char>,
    pub client: Seq<char>,
    pub reserved: Option<nat>,
    pub pending: Seq<u8>,
    pub start: nat,
    pub idle_timeout_seconds: nat,
    pub ttft_recorded: bool,
    pub usage_charged: bool,
    pub outcome_reported: bool,
}

/// A stream, the shared state and the metrics that have changed on the way.
#[verifier::ext_equal]
pub struct StreamStep {
    pub stream: StreamModel,
    pub state: GatewayModel,
    pub metrics: Seq<MetricModel>,
}

/// The grains that a number of tokens takes.
pub open spec fn token_grains(tokens: nat) -> nat {
    tokens * rate_limit::GRAINS_PER_TOKEN as nat
}

impl StreamStep {
    /// The first event with output gives the time to the first token.
    pub open spec fn after_content(self, content: bool, now: nat) -> Self {
        if content && !self.stream.ttft_recorded {
            StreamStep {
                stream: StreamModel { ttft_recorded: true, ..self.stream },
                metrics: self.metrics.push(
                    metrics::ttft_metric(
                        self.stream.provider,
                        clock::time_between(self.stream.start, now) as u128,
                    ),
                ),
                ..self
            }
        } else {
            self
        }
    }

    /// The first event with the usage is counted and settles the reservation.
    pub open spec fn after_usage(self, usage: Option<(u64, u64)>, now: nat) -> Self {
        match usage {
            Some((prompt, completion)) => if self.stream.usage_charged {
                self
            } else {
                StreamStep {
                    stream: StreamModel { usage_charged: true, reserved: None, ..self.stream },
                    state: match self.stream.reserved {
                        Some(reserved) => self.state.after_reconcile(
                            self.stream.client,
                            reserved,
                            token_grains((prompt + completion) as nat),
                            now,
                        ),
                        None => self.state,
                    },
                    metrics: self.metrics.push(
                        metrics::tokens_metric(self.stream.provider, "prompt"@, prompt),
                    ).push(
                        metrics::tokens_metric(self.stream.provider, "completion"@, completion),
                    ),
                }
            },
            None => self,
        }
    }

    /// After one event.
    pub open spec fn after_event(self, facts: EventFacts, now: nat) -> Self {
        self.after_content(facts.content, now).after_usage(facts.usage, now)
    }

    /// After some events, in order.
    pub open spec fn after_events(self, facts: Seq<EventFacts>, now: nat) -> Self
        decreases facts.len(),
    {
        if facts.len() == 0 {
            self
        } else {
            self.after_events(facts.drop_last(), now).after_event(facts.last(), now)
        }
    }

    /// After a chunk of bytes: the events that are complete with it are inspected.
    pub open spec fn after_chunk(self, chunk: Seq<u8>, now: nat) -> Self {
        let bytes = self.stream.pending + chunk;
        let before = StreamStep {
            stream: StreamModel { pending: sse_parser::kept(bytes), ..self.stream },
            ..self
        };
        before.after_events(all_facts(sse_parser::complete_events(bytes)), now)
    }

    /// After some chunks, each with the time at which it came in, in order.
    pub open spec fn after_chunks(self, chunks: Seq<(Seq<u8>, nat)>) -> Self
        decreases chunks.len(),
    {
        if chunks.len() == 0 {
            self
        } else {
            self.after_chunks(chunks.drop_last()).after_chunk(chunks.last().0, chunks.last().1)
        }
    }

    /// After the stream broke or was idle for too long: it counts as a failure of the
    /// provider, if its outcome has not been counted yet.
    pub open spec fn after_break(self, now: nat) -> Self {
        if self.stream.outcome_reported {
            self
        } else {
            StreamStep {
                stream: StreamModel { outcome_reported: true, ..self.stream },
                state: self.state.after_failure(self.stream.provider, now),
                ..self
            }
        }
    }

    /// After the end of the stream: it counts as a success of the provider, if its outcome
    /// has not been counted yet, and what is still reserved is given back.
    pub open spec fn after_end(self, now: nat) -> Self {
        let counted = if self.stream.outcome_reported {
            self.state
        } else {
            self.state.after_success(self.stream.provider)
        };
        StreamStep {
            stream: StreamModel { reserved: None, outcome_reported: true, ..self.stream },
            state: match self.stream.reserved {
                Some(reserved) => counted.after_release(self.stream.client, reserved, now),
                None => counted,
            },
            ..self
        }
    }

    /// After what came of waiting for the stream. A stream that breaks, is idle for too
    /// long or ends is over.
    pub open spec fn after_wait(self, event: StreamEvent, now: nat) -> Self {
        match event {
            StreamEvent::Chunk(bytes) => self.after_chunk(bytes@, now),
            StreamEvent::Broken(_) => self.after_break(now).after_end(now),
            StreamEvent::Idle => self.after_break(now).after_end(now),
            StreamEvent::Ended => self.after_end(now),
        }
    }
}

/// A streamed response on its way to the client.
#[derive(Debug)]
pub struct StreamSession {
    provider_name: String,
    client_id: String,
    reservation: Option<ReservationHandle>,
    parser: SseParser,
    start: u64,
    idle_timeout_seconds: u64,
    ttft_recorded: bool,
    usage_charged: bool,
    outcome_reported: bool,
}

/// What came of waiting for the next chunk of a stream.
#[derive(Debug)]
pub enum StreamEvent<'a> {
    /// A chunk.
    Chunk(&'a [u8]),
    /// The stream broke, for this reason.
    Broken(String),
    /// No chunk came in time.
    Idle,
    /// The stream ended.
    Ended,
}

/// The error with which a stream to the client ends.
#[derive(Debug)]
pub struct StreamError {
    pub timed_out: bool,
    pub message: String,
}

/// What to do after an event of a stream.
#[derive(Debug)]
pub struct StreamReply {
    /// The metrics that change.
    pub metrics: Vec<MetricUpdate>,
    /// Whether the chunk is passed on to the client.
    pub forward: bool,
    /// The error to end the client's stream with, if any.
    pub error: Option<StreamError>,
    /// Whether the stream is over.
    pub stop: bool,
}

/// Whether the client's stream ends with the right error after an event: the reason for
/// which it broke, or that it was idle for too long. Otherwise there is none.
pub open spec fn error_after(event: StreamEvent, error: Option<StreamError>) -> bool {
    match event {
        StreamEvent::Broken(reason) => error matches Some(e) && !e.timed_out && e.message@
            == reason@,
        StreamEvent::Idle => error matches Some(e) && e.timed_out && e.message@
            == "stream idle timeout exceeded"@,
        _ => error is None,
    }
}

/// The grains of an optional reservation.
pub open spec fn reserved_grains(reservation: Option<ReservationHandle>) -> Option<nat> {
    match reservation {
        Some(handle) => Some(handle.reserved.grains as nat),
        None => None,
    }
}

impl View for StreamSession {
    type V = StreamModel;

    closed spec fn view(&self) -> StreamModel {
        StreamModel {
            provider: self.provider_name@,
            client: self.client_id@,
            reserved: reserved_grains(self.reservation),
            pending: self.parser@,
            start: self.start as nat,
            idle_timeout_seconds: self.idle_timeout_seconds as nat,
            ttft_recorded: self.ttft_recorded,
            usage_charged: self.usage_charged,
            outcome_reported: self.outcome_reported,
        }
    }
}

/// A stream of `provider`, whose request was dispatched at `start`. It may be idle for one
/// second at least.
pub open spec fn fresh_stream(
    provider: Seq<char>,
    client: Seq<char>,
    reserved: Option<nat>,
    idle_timeout_seconds: nat,
    start: nat,
) -> StreamModel {
    StreamModel {
        provider,
        client,
        reserved,
        pending: Seq::empty(),
        start,
        idle_timeout_seconds: if idle_timeout_seconds == 0 {
            1
        } else {
            idle_timeout_seconds
        },
        ttft_recorded: false,
        usage_charged: false,
        outcome_reported: false,
    }
}

/// A stream of a provider, to be passed through to the client. It takes over the
/// reservation of its request, which was dispatched at `start`: from there the time to the
/// first token is measured.
pub fn proxy_stream_passthrough(
    provider_name: &str,
    client_id: &str,
    reservation: Option<ReservationHandle>,
    stream_idle_timeout_seconds: u64,
    start: u64,
) -> (session: StreamSession)
    ensures
        session@ == fresh_stream(
            provider_name@,
            client_id@,
            reserved_grains(reservation),
            stream_idle_timeout_seconds as nat,
            start as nat,
        ),
        session.wf(),
{
    StreamSession {
        provider_name: provider_name.to_string(),
        client_id: client_id.to_string(),
        reservation,
        parser: SseParser::new(),
        start,
        idle_timeout_seconds: if stream_idle_timeout_seconds == 0 {
            1
        } else {
            stream_idle_timeout_seconds
        },
        ttft_recorded: false,
        usage_charged: false,
        outcome_reported: false,
    }
}

/// The status and the headers of a streamed response.
#[derive(Debug)]
pub struct StreamHead {
    pub status: u16,
    pub headers: Vec<(&'static str, &'static str)>,
}

/// The status and the headers of a streamed response.
pub fn stream_head() -> (head: StreamHead)
    ensures
        head.status == 200,
        head.headers@ == seq![
            ("content-type", "text/event-stream"),
            ("cache-control", "no-cache"),
            ("x-accel-buffering", "no"),
        ],
{
    let mut headers: Vec<(&'static str, &'static str)> = Vec::new();
    headers.push(("content-type", "text/event-stream"));
    headers.push(("cache-control", "no-cache"));
    headers.push(("x-accel-buffering", "no"));
    StreamHead { status: 200, headers }
}

impl StreamSession {
    /// What holds of every stream: its parser is sound.
    pub closed spec fn wf(self) -> bool {
        self.parser.wf()
    }

    /// The longest pause before the next chunk, in seconds.
    pub fn idle_timeout_seconds(&self) -> (seconds: u64)
        ensures
            seconds == self@.idle_timeout_seconds,
    {
        self.idle_timeout_seconds
    }

    /// Takes in what was read of one event at `now`, and adds the metrics that change to
    /// `updates`.
    pub fn on_event(
        &mut self,
        state: &mut AppState,
        facts: EventFacts,
        now: u64,
        updates: &mut Vec<MetricUpdate>,
    )
        requires
            old(self).wf(),
            old(state).wf(),
        ensures
            (StreamStep {
                stream: final(self)@,
                state: final(state)@,
                metrics: metrics::models(final(updates)@),
            }) == (StreamStep {
                stream: old(self)@,
                state: old(state)@,
                metrics: metrics::models(old(updates)@),
            }).after_event(facts, now as nat),
            final(self).wf(),
            final(state).wf(),
            final(state).same_setup(*old(state)),
    {
        let ghost before = StreamStep {
            stream: self@,
            state: state@,
            metrics: metrics::models(updates@),
        };
        if facts.content && !self.ttft_recorded {
            self.ttft_recorded = true;
            let ttft = duration_between(self.start, now);
            let update = record_ttft(self.provider_name.as_str(), ttft);
            let ghost list = updates@;
            updates.push(update);
            assert(metrics::models(updates@) =~= metrics::models(list).push(update@));
        }
        let ghost middle = before.after_content(facts.content, now as nat);
        assert(self@ =~= middle.stream);
        assert(metrics::models(updates@) == middle.metrics);
        if let Some((prompt, completion)) = facts.usage {
            if !self.usage_charged {
                self.usage_charged = true;
                let first = record_tokens(self.provider_name.as_str(), "prompt", prompt);
                let second = record_tokens(self.provider_name.as_str(), "completion", completion);
                let ghost list = updates@;
                updates.push(first);
                updates.push(second);
                assert(metrics::models(updates@) =~= metrics::models(list).push(first@).push(
                    second@,
                ));
                if let Some(reservation) = self.reservation.take() {
                    state.reconcile_at(
                        self.client_id.as_str(),
                        reservation,
                        TokenAmount::total(prompt, completion),
                        now,
                    );
                }
            }
        }
        assert(self@ =~= middle.after_usage(facts.usage, now as nat).stream);
    }

    /// Inspects a chunk that came in at `now`, and returns the metrics that change.
    pub fn on_chunk(&mut self, state: &mut AppState, chunk: &[u8], now: u64) -> (updates: Vec<
        MetricUpdate,
    >)
        requires
            old(self).wf(),
            old(state).wf(),
            chunk@.len() + sse_parser::MAX_BUFFER_BYTES <= isize::MAX / 4,
        ensures
            (StreamStep {
                stream: final(self)@,
                state: final(state)@,
                metrics: metrics::models(updates@),
            }) == (StreamStep {
                stream: old(self)@,
                state: old(state)@,
                metrics: Seq::empty(),
            }).after_chunk(chunk@, now as nat),
            final(self).wf(),
            final(state).wf(),
            final(state).same_setup(*old(state)),
    {
        let ghost bytes = self@.pending + chunk@;
        let ghost facts = all_facts(sse_parser::complete_events(bytes));
        let mut updates: Vec<MetricUpdate> = Vec::new();
        assert(metrics::models(updates@) =~= Seq::empty());
        let ghost start = StreamStep {
            stream: StreamModel { pending: sse_parser::kept(bytes), ..self@ },
            state: state@,
            metrics: Seq::empty(),
        };
        let events = self.parser.push(chunk);
        assert(self@ =~= start.stream);
        let mut i: usize = 0;
        assert(facts.take(0) =~= Seq::empty());
        while i < events.len()
            invariant
                self.wf(),
                state.wf(),
                state.same_setup(*old(state)),
                i <= events@.len(),
                facts == all_facts(text::views(events@)),
                (StreamStep {
                    stream: self@,
                    state: state@,
                    metrics: metrics::models(updates@),
                }) == start.after_events(facts.take(i as int), now as nat),
            decreases events@.len() - i,
        {
            let event = events[i].as_str();
            let read = EventFacts {
                content: SseParser::is_content_event(event),
                usage: SseParser::extract_usage(event),
            };
            assert(facts.take(i + 1).drop_last() =~= facts.take(i as int));
            assert(facts[i as int] == read);
            self.on_event(state, read, now, &mut updates);
            i += 1;
        }
        assert(facts.take(i as int) =~= facts);
        updates
    }

    /// The stream broke, or was idle for too long, at `now`.
    pub fn on_break(&mut self, state: &mut AppState, now: u64)
        requires
            old(self).wf(),
            old(state).wf(),
        ensures
            forall|metrics: Seq<MetricModel>|
                (StreamStep { stream: final(self)@, state: final(state)@, metrics })
                    == (#[trigger] (StreamStep { stream: old(self)@, state: old(state)@, metrics }).after_break(now as nat)),
            final(self).wf(),
            final(state).wf(),
            final(state).same_setup(*old(state)),
    {
        if !self.outcome_reported {
            self.outcome_reported = true;
            state.breaker_for(self.provider_name.as_str()).record_failure_at(now);
        }
    }

    /// The stream ended at `now`, for whatever reason. If its provider did not fail it, it is
    /// a success of the provider, also when the client has gone away.
    pub fn on_end(&mut self, state: &mut AppState, now: u64)
        requires
            old(self).wf(),
            old(state).wf(),
        ensures
            forall|metrics: Seq<MetricModel>|
                (StreamStep { stream: final(self)@, state: final(state)@, metrics })
                    == (#[trigger] (StreamStep { stream: old(self)@, state: old(state)@, metrics }).after_end(now as nat)),
            final(self).wf(),
            final(state).wf(),
            final(state).same_setup(*old(state)),
    {
        if !self.outcome_reported {
            self.outcome_reported = true;
            state.breaker_for(self.provider_name.as_str()).record_success();
        }
        if let Some(reservation) = self.reservation.take() {
            state.release_at(self.client_id.as_str(), reservation, now);
        }
    }

    /// Takes in what came of waiting for the next chunk, at `now`. A chunk is passed on
    /// unchanged; a stream that breaks or is idle for too long ends with an error.
    pub fn advance(&mut self, state: &mut AppState, event: StreamEvent, now: u64) -> (reply:
        StreamReply)
        requires
            old(self).wf(),
            old(state).wf(),
            event matches StreamEvent::Chunk(bytes) ==> bytes@.len()
                + sse_parser::MAX_BUFFER_BYTES <= isize::MAX / 4,
        ensures
            (StreamStep {
                stream: final(self)@,
                state: final(state)@,
                metrics: metrics::models(reply.metrics@),
            }) == (StreamStep {
                stream: old(self)@,
                state: old(state)@,
                metrics: Seq::empty(),
            }).after_wait(event, now as nat),
            reply.forward == (event is Chunk),
            error_after(event, reply.error),
            reply.stop == !(event is Chunk),
            final(self).wf(),
            final(state).wf(),
            final(state).same_setup(*old(state)),
    {
        let none: Vec<MetricUpdate> = Vec::new();
        assert(metrics::models(none@) =~= Seq::empty());
        match event {
            StreamEvent::Chunk(bytes) => {
                let updates = self.on_chunk(state, bytes, now);
                StreamReply { metrics: updates, forward: true, error: None, stop: false }
            },
            StreamEvent::Broken(reason) => {
                self.on_break(state, now);
                self.on_end(state, now);
                let error = StreamError { timed_out: false, message: reason };
                StreamReply { metrics: none, forward: false, error: Some(error), stop: true }
            },
            StreamEvent::Idle => {
                self.on_break(state, now);
                self.on_end(state, now);
                let message = "stream idle timeout exceeded".to_string();
                let error = StreamError { timed_out: true, message };
                StreamReply { metrics: none, forward: false, error: Some(error), stop: true }
            },
            StreamEvent::Ended => {
                self.on_end(state, now);
                StreamReply { metrics: none, forward: false, error: None, stop: true }
            },
        }
    }
}

/// Events one after the other.
proof fn lemma_events_in_turn(
    step: StreamStep,
    first: Seq<EventFacts>,
    second: Seq<EventFacts>,
    now: nat,
)
    ensures
        step.after_events(first + second, now) == step.after_events(first, now).after_events(
            second,
            now,
        ),
    decreases second.len(),
{
    if second.len() == 0 {
        assert(first + second =~= first);
    } else {
        assert((first + second).drop_last() =~= first + second.drop_last());
        lemma_events_in_turn(step, first, second.drop_last(), now);
    }
}

/// Events change nothing of a stream but its two flags and its reservation, and settle
/// only what is reserved.
proof fn lemma_events_frame(step: StreamStep, facts: Seq<EventFacts>, now: nat)
    ensures
        step.after_events(facts, now).stream.pending == step.stream.pending,
        step.after_events(facts, now).stream.provider == step.stream.provider,
        step.after_events(facts, now).stream.client == step.stream.client,
        step.after_events(facts, now).stream.start == step.stream.start,
        step.after_events(facts, now).stream.idle_timeout_seconds
            == step.stream.idle_timeout_seconds,
        step.after_events(facts, now).stream.outcome_reported == step.stream.outcome_reported,
        step.after_events(facts, now).state.breakers == step.state.breakers,
        step.after_events(facts, now).state.failure_threshold == step.state.failure_threshold,
        step.after_events(facts, now).state.cooldown == step.state.cooldown,
        step.after_events(facts, now).state.half_open_max_calls == step.state.half_open_max_calls,
        step.stream.ttft_recorded ==> step.after_events(facts, now).stream.ttft_recorded,
        step.stream.usage_charged ==> step.after_events(facts, now).stream.usage_charged,
        step.stream.reserved is None ==> step.after_events(facts, now).stream.reserved is None
            && step.after_events(facts, now).state == step.state,
        step.stream.usage_charged ==> step.after_events(facts, now).state == step.state
            && step.after_events(facts, now).stream.reserved == step.stream.reserved,
        step.stream.usage_charged && step.stream.ttft_recorded ==> step.after_events(facts, now)
            == step,
    decreases facts.len(),
{
    if facts.len() > 0 {
        lemma_events_frame(step, facts.drop_last(), now);
    }
}

/// The events before `pending` is replaced are as those after.
proof fn lemma_pending_is_apart(
    step: StreamStep,
    pending: Seq<u8>,
    facts: Seq<EventFacts>,
    now: nat,
)
    ensures
        ({
            let other = StreamStep { stream: StreamModel { pending, ..step.stream }, ..step };
            let after = step.after_events(facts, now);
            other.after_events(facts, now) == StreamStep {
                stream: StreamModel { pending, ..after.stream },
                ..after
            }
        }),
    decreases facts.len(),
{
    if facts.len() > 0 {
        lemma_pending_is_apart(step, pending, facts.drop_last(), now);
    }
}

/// The usage is charged exactly once and the time to the first token recorded exactly
/// once: when both have happened, no further chunk changes a metric, a bucket or a
/// reservation.
pub proof fn law_stream_is_charged_once(step: StreamStep, chunk: Seq<u8>, now: nat)
    requires
        step.stream.usage_charged,
    ensures
        step.after_chunk(chunk, now).state == step.state,
        step.after_chunk(chunk, now).stream.reserved == step.stream.reserved,
        step.stream.ttft_recorded ==> step.after_chunk(chunk, now).metrics == step.metrics,
{
    let bytes = step.stream.pending + chunk;
    let before = StreamStep {
        stream: StreamModel { pending: sse_parser::kept(bytes), ..step.stream },
        ..step
    };
    lemma_events_frame(before, all_facts(sse_parser::complete_events(bytes)), now);
}

/// A reservation ends exactly once: at the end of the stream none is left, and a stream
/// without one gives nothing back and takes nothing more.
pub proof fn law_reservation_ends_once(step: StreamStep, chunk: Seq<u8>, now: nat, later: nat)
    ensures
        step.after_end(now).stream.reserved is None,
        step.after_end(now).after_end(later) == step.after_end(now),
        step.stream.reserved is None ==> step.after_chunk(chunk, now).state == step.state
            && step.after_chunk(chunk, now).stream.reserved is None && step.after_end(
            now,
        ).state.buckets == step.state.buckets,
{
    let bytes = step.stream.pending + chunk;
    let before = StreamStep {
        stream: StreamModel { pending: sse_parser::kept(bytes), ..step.stream },
        ..step
    };
    lemma_events_frame(before, all_facts(sse_parser::complete_events(bytes)), now);
}

/// Every stream has one outcome, however often it is reported. A broken one counts as one
/// failure of its provider, and its end is no success; one that ends without breaking
/// counts as one success, and nothing counts after that.
pub proof fn law_outcome_counts_once(step: StreamStep, now: nat, later: nat)
    requires
        !step.stream.outcome_reported,
    ensures
        step.after_break(now).state == step.state.after_failure(step.stream.provider, now),
        step.after_break(now).after_break(later) == step.after_break(now),
        step.after_break(now).after_end(later).state.breakers == step.after_break(
            now,
        ).state.breakers,
        step.after_end(now).state.breakers == step.state.after_success(
            step.stream.provider,
        ).breakers,
        step.after_end(now).after_break(later) == step.after_end(now),
        step.after_end(now).after_end(later) == step.after_end(now),
{
}

/// Chunks count neither for nor against the provider.
proof fn lemma_chunks_do_not_count(step: StreamStep, chunks: Seq<(Seq<u8>, nat)>)
    ensures
        ({
            let after = step.after_chunks(chunks);
            &&& after.stream.provider == step.stream.provider
            &&& after.stream.outcome_reported == step.stream.outcome_reported
            &&& after.state.breakers == step.state.breakers
            &&& after.state.failure_threshold == step.state.failure_threshold
            &&& after.state.cooldown == step.state.cooldown
            &&& after.state.half_open_max_calls == step.state.half_open_max_calls
        }),
    decreases chunks.len(),
{
    if chunks.len() > 0 {
        lemma_chunks_do_not_count(step, chunks.drop_last());
        let before = step.after_chunks(chunks.drop_last());
        let (chunk, now) = chunks.last();
        let bytes = before.stream.pending + chunk;
        lemma_events_frame(
            StreamStep {
                stream: StreamModel { pending: sse_parser::kept(bytes), ..before.stream },
                ..before
            },
            all_facts(sse_parser::complete_events(bytes)),
            now,
        );
    }
}

/// A stream that is cut short: what came in before it broke, and when it broke.
pub struct BrokenStream {
    pub stream: StreamModel,
    pub chunks: Seq<(Seq<u8>, nat)>,
    pub broken: nat,
}

/// The shared state after streams that broke, one after the other.
pub open spec fn after_broken_streams(state: GatewayModel, streams: Seq<BrokenStream>) -> GatewayModel
    decreases streams.len(),
{
    if streams.len() == 0 {
        state
    } else {
        let last = streams.last();
        (StreamStep {
            stream: last.stream,
            state: after_broken_streams(state, streams.drop_last()),
            metrics: Seq::empty(),
        }).after_chunks(last.chunks).after_break(last.broken).after_end(last.broken).state
    }
}

/// The breaker of a provider after streams that broke.
proof fn lemma_broken_streams(
    state: GatewayModel,
    provider: Seq<char>,
    streams: Seq<BrokenStream>,
)
    requires
        forall|i: int|
            0 <= i < streams.len() ==> (#[trigger] streams[i]).stream.provider == provider
                && !streams[i].stream.outcome_reported,
    ensures
        after_broken_streams(state, streams).breaker(provider) == state.breaker(
            provider,
        ).after_failures(streams.map_values(|s: BrokenStream| s.broken)),
    decreases streams.len(),
{
    let times = streams.map_values(|s: BrokenStream| s.broken);
    if streams.len() > 0 {
        let fewer = streams.drop_last();
        assert forall|i: int| 0 <= i < fewer.len() implies (#[trigger] fewer[i]).stream.provider
            == provider && !fewer[i].stream.outcome_reported by {
            assert(fewer[i] == streams[i]);
        }
        lemma_broken_streams(state, provider, fewer);
        assert(fewer.map_values(|s: BrokenStream| s.broken) =~= times.drop_last());
        let last = streams[streams.len() - 1];
        let before = after_broken_streams(state, fewer);
        let step = StreamStep { stream: last.stream, state: before, metrics: Seq::empty() };
        lemma_chunks_do_not_count(step, last.chunks);
        let read = step.after_chunks(last.chunks);
        assert(read.state.breaker(provider) == before.breaker(provider));
        let broken = read.after_break(last.broken);
        assert(broken.state.breaker(provider) == before.breaker(provider).after_failure(
            last.broken,
        ));
        assert(broken.after_end(last.broken).state.breaker(provider) == broken.state.breaker(
            provider,
        ));
    }
}

/// A provider that keeps dropping its streams is broken off: whatever they sent before,
/// streams that break one after the other open a closed breaker exactly when there are as
/// many as its threshold.
pub proof fn law_dropped_streams_open_the_breaker(
    state: GatewayModel,
    provider: Seq<char>,
    streams: Seq<BrokenStream>,
)
    requires
        state.breaker(provider).state == BreakerState::Closed,
        state.breaker(provider).failure_count == 0,
        state.breaker(provider).failure_threshold <= u32::MAX,
        forall|i: int|
            0 <= i < streams.len() ==> (#[trigger] streams[i]).stream.provider == provider
                && !streams[i].stream.outcome_reported,
    ensures
        after_broken_streams(state, streams).breaker(provider).state == if streams.len() > 0
            && streams.len() >= state.breaker(provider).failure_threshold {
            BreakerState::Open
        } else {
            BreakerState::Closed
        },
{
    lemma_broken_streams(state, provider, streams);
    circuit_breaker::law_trips_at_threshold(
        state.breaker(provider),
        streams.map_values(|s: BrokenStream| s.broken),
    );
}

/// How a stream is cut into chunks makes no difference to what is read of it, as long as
/// what waits between two chunks stays within the ceiling.
pub proof fn law_stream_ignores_chunk_boundaries(
    step: StreamStep,
    first: Seq<u8>,
    second: Seq<u8>,
    now: nat,
)
    requires
        sse_parser::remainder(step.stream.pending + first).len() <= sse_parser::MAX_BUFFER_BYTES,
    ensures
        step.after_chunk(first, now).after_chunk(second, now) == step.after_chunk(
            first + second,
            now,
        ),
{
    let bytes = step.stream.pending + first;
    let rest = sse_parser::remainder(bytes) + second;
    sse_parser::lemma_continue(bytes, second);
    assert(step.stream.pending + (first + second) =~= bytes + second);
    let f1 = all_facts(sse_parser::complete_events(bytes));
    let f2 = all_facts(sse_parser::complete_events(rest));
    assert(all_facts(sse_parser::complete_events(bytes + second)) =~= f1 + f2);
    let start = StreamStep {
        stream: StreamModel { pending: sse_parser::kept(bytes), ..step.stream },
        ..step
    };
    lemma_events_frame(start, f1, now);
    let whole = StreamStep {
        stream: StreamModel { pending: sse_parser::kept(rest), ..step.stream },
        ..step
    };
    lemma_pending_is_apart(start, sse_parser::kept(rest), f1, now);
    lemma_events_in_turn(whole, f1, f2, now);
}

/// Events add only bounded labels.
proof fn lemma_events_bounded(
    step: StreamStep,
    facts: Seq<EventFacts>,
    names: Set<Seq<char>>,
    now: nat,
)
    requires
        names.contains(step.stream.provider),
        metrics::all_bounded(step.metrics, names),
    ensures
        metrics::all_bounded(step.after_events(facts, now).metrics, names),
    decreases facts.len(),
{
    if facts.len() > 0 {
        lemma_events_bounded(step, facts.drop_last(), names, now);
        lemma_events_frame(step, facts.drop_last(), now);
    }
}

/// Metrics of a stream are labelled with the name of its provider and with the gateway's
/// own words only.
pub proof fn law_labels_are_bounded(
    step: StreamStep,
    chunk: Seq<u8>,
    names: Set<Seq<char>>,
    now: nat,
)
    requires
        names.contains(step.stream.provider),
        metrics::all_bounded(step.metrics, names),
    ensures
        metrics::all_bounded(step.after_chunk(chunk, now).metrics, names),
{
    let bytes = step.stream.pending + chunk;
    let before = StreamStep {
        stream: StreamModel { pending: sse_parser::kept(bytes), ..step.stream },
        ..step
    };
    lemma_events_bounded(before, all_facts(sse_parser::complete_events(bytes)), names, now);
}

/// The first event with output records the time since the request was dispatched, under the
/// name of the provider; later ones, and events without output, record none.
pub proof fn law_first_output_is_timed(step: StreamStep, now: nat)
    requires
        step.stream.start <= now <= u64::MAX,
    ensures
        ({
            let facts = EventFacts { content: true, usage: None };
            let after = step.after_event(facts, now);
            &&& !step.stream.ttft_recorded ==> {
                &&& after.metrics.len() == step.metrics.len() + 1
                &&& after.metrics.drop_last() == step.metrics
                &&& after.metrics.last() == (MetricModel {
                    name: "gateway_ttft_seconds"@,
                    labels: seq![("provider"@, step.stream.provider)],
                    op: metrics::MetricOp::HistogramRecord((now - step.stream.start) as u128),
                })
            }
            &&& step.stream.ttft_recorded ==> after.metrics == step.metrics
            &&& after.stream.ttft_recorded
            &&& after.state == step.state
            &&& after.stream.reserved == step.stream.reserved
        }),
        step.after_event(EventFacts { content: false, usage: None }, now) == step,
{
    let facts = EventFacts { content: true, usage: None };
    if !step.stream.ttft_recorded {
        assert(step.after_event(facts, now).metrics.drop_last() =~= step.metrics);
    }
}

/// The first usage of a stream is counted, the tokens of the prompt and those of the
/// completion, and settles the reservation with their sum; a later one changes nothing.
pub proof fn law_first_usage_settles(step: StreamStep, prompt: u64, completion: u64, now: nat)
    ensures
        ({
            let facts = EventFacts { content: false, usage: Some((prompt, completion)) };
            let after = step.after_event(facts, now);
            let client = step.stream.client;
            &&& step.stream.usage_charged ==> after == step
            &&& !step.stream.usage_charged ==> {
                &&& after.metrics.len() == step.metrics.len() + 2
                &&& after.metrics.take(step.metrics.len() as int) == step.metrics
                &&& after.metrics[step.metrics.len() as int] == (MetricModel {
                    name: "gateway_tokens_total"@,
                    labels: seq![("provider"@, step.stream.provider), ("kind"@, "prompt"@)],
                    op: metrics::MetricOp::CounterAdd(prompt),
                })
                &&& after.metrics.last() == (MetricModel {
                    name: "gateway_tokens_total"@,
                    labels: seq![("provider"@, step.stream.provider), ("kind"@, "completion"@)],
                    op: metrics::MetricOp::CounterAdd(completion),
                })
                &&& after.stream.usage_charged
                &&& after.stream.reserved is None
                &&& step.stream.reserved is Some ==> after.state.client(client, now).tpm
                    == step.state.client(client, now).tpm.after_reconcile(
                    step.stream.reserved->0,
                    (prompt + completion) as nat * 60_000_000_000,
                    now,
                )
                &&& step.stream.reserved is None ==> after.state == step.state
                &&& after.state.breakers == step.state.breakers
            }
        }),
{
    let facts = EventFacts { content: false, usage: Some((prompt, completion)) };
    if !step.stream.usage_charged {
        assert(step.after_event(facts, now).metrics.take(step.metrics.len() as int)
            =~= step.metrics);
    }
}

/// A streamed request is charged what its provider reports: where that is within the
/// reservation, the client's tokens, once refilled, are as if exactly that had been asked for
/// in the first place. One that ends without a report is charged nothing.
pub proof fn law_streams_are_charged_what_they_report(
    step: StreamStep,
    before: GatewayModel,
    prompt: u64,
    completion: u64,
    reserved: nat,
    now: nat,
    later: nat,
)
    requires
        before.valid(),
        before.client(step.stream.client, now).tpm.affords(reserved, now),
        step.state.buckets == before.after_reserve(step.stream.client, reserved, now).buckets,
        step.stream.reserved == Some(reserved),
        !step.stream.usage_charged,
    ensures
        ({
            let facts = EventFacts { content: false, usage: Some((prompt, completion)) };
            let cost = (prompt + completion) as nat * 60_000_000_000;
            let client = step.stream.client;
            let held = before.client(client, now).tpm;
            &&& cost <= reserved ==> step.after_event(facts, later).state.client(
                client,
                later,
            ).tpm.refilled(later) == held.after_consume(cost, now).refilled(later)
            &&& step.after_end(later).state.client(client, later).tpm == held.refilled(
                now,
            ).refilled(later)
        }),
{
    let bucket = before.client(step.stream.client, now).tpm;
    let cost = (prompt + completion) as nat * 60_000_000_000;
    assert(before.buckets.contains_key(step.stream.client)
        ==> before.buckets[step.stream.client].valid());
    if cost <= reserved {
        rate_limit::law_reconcile_refunds_the_surplus(bucket, reserved, cost, now, later);
    }
    rate_limit::law_release_undoes_reservation(bucket, reserved, now, later);
}

/// What is read of an event is whether one of its lines carries output of the model, and the
/// tokens that the first of its lines with a usage reports.
pub proof fn law_events_are_read_line_by_line(event: Seq<char>, l: int)
    requires
        0 <= l <= text::lines_of(event).len(),
        forall|k: int|
            0 <= k < l ==> !(#[trigger] sse_parser::carried(text::lines_of(event)[k]) matches Some(
                tree,
            ) && sse_parser::has_usage(tree)),
    ensures
        facts_in(event).content <==> exists|k: int|
            0 <= k < text::lines_of(event).len() && (#[trigger] sse_parser::carried(
                text::lines_of(event)[k],
            ) matches Some(tree) && sse_parser::has_output(tree)),
        l == text::lines_of(event).len() ==> facts_in(event).usage is None,
        l < text::lines_of(event).len() && sse_parser::carried(text::lines_of(event)[l]) is Some
            && sse_parser::has_usage(sse_parser::carried(text::lines_of(event)[l])->0) ==> {
            let tree = sse_parser::carried(text::lines_of(event)[l])->0;
            facts_in(event).usage == Some(
                (
                    sse_parser::tokens_under(tree, "prompt_tokens"@),
                    sse_parser::tokens_under(tree, "completion_tokens"@),
                ),
            )
        },
{
    sse_parser::law_output_is_recognized(event);
    sse_parser::law_usage_is_that_of_the_first_line(event, l);
}

/// A chunk that completes no event only waits. One that completes an event has that event
/// inspected, and then the bytes behind it as a chunk of their own.
pub proof fn law_chunks_are_inspected_event_by_event(
    step: StreamStep,
    chunk: Seq<u8>,
    end: int,
    now: nat,
)
    ensures
        ({
            let bytes = step.stream.pending + chunk;
            &&& (forall|k: int|
                0 <= k <= bytes.len() ==> !#[trigger] sse_parser::blank_line_ends(bytes, k))
                ==> step.after_chunk(chunk, now) == StreamStep {
                stream: StreamModel {
                    pending: if bytes.len() <= 1_048_576 {
                        bytes
                    } else {
                        Seq::empty()
                    },
                    ..step.stream
                },
                ..step
            }
            &&& sse_parser::blank_line_ends(bytes, end) && (forall|k: int|
                0 <= k < end ==> !#[trigger] sse_parser::blank_line_ends(bytes, k))
                && !vstd::utf8::valid_utf8(bytes.take(end)) ==> step.after_chunk(chunk, now) == (
            StreamStep {
                stream: StreamModel { pending: Seq::empty(), ..step.stream },
                ..step
            }).after_chunk(bytes.skip(end), now)
            &&& sse_parser::blank_line_ends(bytes, end) && (forall|k: int|
                0 <= k < end ==> !#[trigger] sse_parser::blank_line_ends(bytes, k))
                && vstd::utf8::valid_utf8(bytes.take(end)) ==> {
                let event = vstd::utf8::decode_utf8(bytes.take(end));
                let inspected = (StreamStep {
                    stream: StreamModel { pending: Seq::empty(), ..step.stream },
                    ..step
                }).after_event(facts_in(event), now);
                step.after_chunk(chunk, now) == inspected.after_chunk(bytes.skip(end), now)
            }
        }),
{
    let bytes = step.stream.pending + chunk;
    sse_parser::law_events_end_with_the_first_blank_line(bytes, end);
    assert(Seq::<u8>::empty() + bytes.skip(end) =~= bytes.skip(end));
    if forall|k: int|
        0 <= k <= bytes.len() ==> !#[trigger] sse_parser::blank_line_ends(bytes, k) {
        assert(all_facts(sse_parser::complete_events(bytes)) =~= Seq::empty());
    }
    if sse_parser::blank_line_ends(bytes, end) && (forall|k: int|
        0 <= k < end ==> !#[trigger] sse_parser::blank_line_ends(bytes, k))
        && vstd::utf8::valid_utf8(bytes.take(end)) {
        let event = vstd::utf8::decode_utf8(bytes.take(end));
        let rest = bytes.skip(end);
        let more = sse_parser::complete_events(rest);
        let empty = StreamStep {
            stream: StreamModel { pending: Seq::empty(), ..step.stream },
            ..step
        };
        let inspected = empty.after_event(facts_in(event), now);
        let first = seq![facts_in(event)];
        assert(all_facts(seq![event] + more) =~= first + all_facts(more));
        let kept = sse_parser::kept(rest);
        let start = StreamStep { stream: StreamModel { pending: kept, ..step.stream }, ..step };
        lemma_events_in_turn(start, first, all_facts(more), now);
        assert(first.drop_last() =~= Seq::empty());
        assert(start.after_events(first.drop_last(), now) == start);
        assert(start.after_events(first, now) == start.after_event(facts_in(event), now));
        assert(inspected.stream.pending + rest =~= rest);
        assert(start.after_event(facts_in(event), now) == StreamStep {
            stream: StreamModel { pending: kept, ..inspected.stream },
            ..inspected
        });
    }
}

/// A stream may be idle for as long as its provider says, and for a second if that is
/// nothing. It starts with nothing read, nothing counted and the reservation of its request.
pub proof fn law_streams_start_afresh(
    provider: Seq<char>,
    client: Seq<char>,
    reserved: Option<nat>,
    seconds: nat,
    start: nat,
)
    ensures
        ({
            let s = fresh_stream(provider, client, reserved, seconds, start);
            &&& s.provider == provider
            &&& s.client == client
            &&& s.reserved == reserved
            &&& s.start == start
            &&& s.pending.len() == 0
            &&& seconds > 0 ==> s.idle_timeout_seconds == seconds
            &&& seconds == 0 ==> s.idle_timeout_seconds == 1
            &&& !s.ttft_recorded && !s.usage_charged && !s.outcome_reported
        }),
{
}

/// A stream that breaks or is idle for too long is over: it counts as a failure of its
/// provider, and its reservation is given back. One that ends counts as a success.
pub proof fn law_streams_end_with_an_outcome(
    step: StreamStep,
    bytes: &[u8],
    reason: String,
    now: nat,
)
    requires
        !step.stream.outcome_reported,
    ensures
        forall|event: StreamEvent|
            event == StreamEvent::Broken(reason) || event == StreamEvent::Idle ==> {
                let after = #[trigger] step.after_wait(event, now);
                &&& after.state.breaker(step.stream.provider) == step.state.breaker(
                    step.stream.provider,
                ).after_failure(now)
                &&& after.stream.reserved is None
                &&& after.metrics == step.metrics
                &&& step.stream.reserved is Some ==> after.state.client(
                    step.stream.client,
                    now,
                ).tpm == step.state.client(step.stream.client, now).tpm.after_refund(
                    step.stream.reserved->0,
                    now,
                )
            },
        ({
            let after = step.after_wait(StreamEvent::Ended, now);
            &&& after.state.breaker(step.stream.provider) == step.state.breaker(
                step.stream.provider,
            ).after_success()
            &&& after.stream.reserved is None
            &&& step.stream.reserved is Some ==> after.state.client(step.stream.client, now).tpm
                == step.state.client(step.stream.client, now).tpm.after_refund(
                step.stream.reserved->0,
                now,
            )
        }),
        step.after_wait(StreamEvent::Chunk(bytes), now) == step.after_chunk(bytes@, now),
{
}

/// The client's stream ends with the reason for which the provider's broke, or with a
/// timeout; a chunk and a regular end bring no error.
pub proof fn law_errors_of_streams(
    event: StreamEvent,
    error: Option<StreamError>,
)
    requires
        error_after(event, error),
    ensures
        error is Some <==> event is Broken || event is Idle,
        event matches StreamEvent::Broken(reason) ==> error->0.message@ == reason@
            && !error->0.timed_out,
        event is Idle ==> error->0.message@ == "stream idle timeout exceeded"@
            && error->0.timed_out,
{
}

/// An event that carries both output and a usage counts as both, the output first.
pub proof fn law_events_count_for_all_they_carry(step: StreamStep, facts: EventFacts, now: nat)
    ensures
        step.after_event(facts, now) == step.after_event(
            EventFacts { content: facts.content, usage: None },
            now,
        ).after_event(EventFacts { content: false, usage: facts.usage }, now),
{
}

} // verus!
