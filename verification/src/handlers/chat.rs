//! Chat completions.
//!
//! The tokens that a request may take are estimated and reserved before anything is sent.
//! A request that is not streamed and has temperature zero is looked up in the exact
//! cache; a hit is answered at once and costs nothing. Any other request goes through the
//! providers. The response to a request that was looked up is stored in the cache.
use crate::cache::exact::{self, ExactCache};
use crate::clock::duration_between;
use crate::config::ProviderConfig;
use crate::error::{AppError, ErrorModel};
use crate::float_bits::F32Bits;
use crate::handlers::dispatch::{
    self, ActionModel, Dispatch, DispatchAction, DispatchEvent, DispatchModel, DispatchReply,
    DispatchStep, GatewayResponse, ResponseModel, Route, OK_STATUS,
};
use crate::middleware::rate_limit::{self, TokenAmount, GRAINS_PER_TOKEN};
use crate::proxy::stream;
use crate::state::{AppState, ClientIdentity, GatewayModel};
use crate::telemetry::metrics::{
    self, record_cache_hit, record_cache_miss, record_error, record_request,
    record_request_latency, MetricModel, MetricUpdate,
};
use crate::text::{self, concat};
use crate::types::{ChatCompletionRequest, StreamOptions};
use vstd::prelude::*;
use vstd::slice::slice_to_vec;
use vstd::utf8::{decode_utf8, encode_utf8, valid_utf8};

verus! {

/// The completion tokens that are reserved for a request that names no limit.
pub const DEFAULT_MAX_TOKENS: u32 = 256;

/// The tokens that are reserved for each message.
pub const TOKENS_PER_MESSAGE: u128 = 20;

/// The tokens that a request is taken to need.
pub open spec fn estimated_tokens(max_tokens: Option<u32>, message_count: nat) -> nat {
    let limit = match max_tokens {
        Some(n) => n as nat,
        None => DEFAULT_MAX_TOKENS as nat,
    };
    limit + message_count * TOKENS_PER_MESSAGE as nat
}

/// The tokens that a request is taken to need.
pub fn estimate_tokens(max_tokens: Option<u32>, message_count: usize) -> (amount: TokenAmount)
    ensures
        amount.grains == estimated_tokens(max_tokens, message_count as nat) * GRAINS_PER_TOKEN,
{
    let limit: u32 = match max_tokens {
        Some(n) => n,
        None => DEFAULT_MAX_TOKENS,
    };
    let tokens: u128 = limit as u128 + message_count as u128 * TOKENS_PER_MESSAGE;
    TokenAmount { grains: tokens * GRAINS_PER_TOKEN }
}

/// The stream options to send: a streamed request without any asks for the usage.
pub open spec fn sent_stream_options(stream: bool, options: Option<StreamOptions>) -> Option<
    StreamOptions,
> {
    if stream && options is None {
        Some(StreamOptions { include_usage: true })
    } else {
        options
    }
}

/// What came of the last action.
#[derive(Debug)]
pub enum ChatEvent {
    /// The request could not be serialized.
    PayloadFailed(String),
    /// The request as canonical JSON.
    PayloadReady(String),
    /// What came of an action of the dispatch.
    Upstream(DispatchEvent),
}

/// What a chat request is, for contracts.
#[verifier::ext_equal]
pub struct ChatModel {
    pub model: Seq<char>,
    pub temperature: F32Bits,
    pub stream: bool,
    pub serializing: bool,
    pub dispatch: DispatchModel,
}

/// A chat request, the shared state, the next action and the metrics that change.
#[verifier::ext_equal]
pub struct ChatStep {
    pub flow: ChatModel,
    pub state: GatewayModel,
    pub action: ActionModel,
    pub metrics: Seq<MetricModel>,
}

impl ChatModel {
    /// A step of the dispatch as one of the request, after `metrics`.
    pub open spec fn with_dispatch(self, metrics: Seq<MetricModel>, step: DispatchStep) -> ChatStep {
        ChatStep {
            flow: ChatModel { serializing: false, dispatch: step.flow, ..self },
            state: step.state,
            action: step.action,
            metrics: metrics + step.metrics,
        }
    }

    /// The key under which the response may be cached.
    pub open spec fn key(self, payload: Seq<char>) -> Option<Seq<char>> {
        if !self.stream && self.temperature.is_zero_value() {
            Some(exact::key_text(self.model, payload))
        } else {
            None
        }
    }

    /// The request with its canonical JSON.
    pub open spec fn ready(self, payload: Seq<char>) -> Self {
        ChatModel {
            dispatch: DispatchModel {
                body: encode_utf8(payload),
                cache_key: self.key(payload),
                ..self.dispatch
            },
            ..self
        }
    }

    /// The response to a request that the cache holds.
    pub open spec fn cached_response(cached: Seq<char>) -> ResponseModel {
        ResponseModel {
            status: OK_STATUS,
            headers: seq![("content-type"@, "application/json"@), ("x-cache"@, "HIT"@)],
            body: encode_utf8(cached),
        }
    }

    /// The cache holds the response. The reservation is settled with no tokens at all.
    pub open spec fn on_hit(self, state: GatewayModel, cached: Seq<char>, now: nat) -> ChatStep {
        self.with_dispatch(
            Seq::empty(),
            DispatchStep {
                flow: DispatchModel { reserved: None, ..self.dispatch },
                state: match self.dispatch.reserved {
                    Some(reserved) => state.after_reconcile(self.dispatch.client, reserved, 0, now),
                    None => state,
                },
                action: ActionModel::Respond(Self::cached_response(cached)),
                metrics: seq![
                    metrics::cache_hit_metric("exact"@),
                    self.dispatch.latency(now),
                    metrics::request_metric("exact_cache"@, "cache_hit"@),
                ],
            },
        )
    }

    /// The exact cache was asked, and answered with `reply`.
    pub open spec fn on_lookup(
        self,
        state: GatewayModel,
        providers: Seq<ProviderConfig>,
        reply: Option<Seq<char>>,
        now: nat,
    ) -> ChatStep {
        match reply {
            Some(cached) => self.on_hit(state, cached, now),
            None => self.with_dispatch(
                seq![metrics::cache_miss_metric("exact"@)],
                self.dispatch.start(state, providers, now),
            ),
        }
    }

    /// The request was serialized. One with a key is looked up in the exact cache, whose
    /// answer is `reply`.
    pub open spec fn on_payload(
        self,
        state: GatewayModel,
        providers: Seq<ProviderConfig>,
        payload: Seq<char>,
        reply: Option<Seq<char>>,
        now: nat,
    ) -> ChatStep {
        let ready = self.ready(payload);
        if self.key(payload) is Some {
            ready.on_lookup(state, providers, reply, now)
        } else {
            ready.with_dispatch(Seq::empty(), ready.dispatch.start(state, providers, now))
        }
    }

    /// From what came of the last action to the next one. `reply` is the answer of the exact
    /// cache, if it is asked.
    pub open spec fn advance(
        self,
        state: GatewayModel,
        providers: Seq<ProviderConfig>,
        event: ChatEvent,
        reply: Option<Seq<char>>,
        now: nat,
    ) -> ChatStep {
        match event {
            ChatEvent::PayloadFailed(error) => self.with_dispatch(
                Seq::empty(),
                self.dispatch.abandon(
                    state,
                    ErrorModel::Internal("failed to serialize payload: "@ + error@),
                    now,
                ),
            ),
            ChatEvent::PayloadReady(payload) => self.on_payload(
                state,
                providers,
                payload@,
                reply,
                now,
            ),
            ChatEvent::Upstream(event) => self.with_dispatch(
                Seq::empty(),
                self.dispatch.advance(state, providers, event, now),
            ),
        }
    }

    /// Whether the exact cache may answer with `reply`, if an event makes it be asked.
    pub open spec fn may_find(
        self,
        state: GatewayModel,
        event: ChatEvent,
        reply: Option<Seq<char>>,
    ) -> bool {
        event matches ChatEvent::PayloadReady(payload) ==> (self.key(payload@) matches Some(key)
            ==> state.may_find(key, reply))
    }

    /// Whether an event can come now.
    pub open spec fn accepts(self, event: ChatEvent) -> bool {
        match event {
            ChatEvent::PayloadFailed(_) => self.serializing,
            ChatEvent::PayloadReady(_) => self.serializing,
            ChatEvent::Upstream(event) => !self.serializing && !(event is Start)
                && self.dispatch.accepts(event),
        }
    }
}

/// A chat request on its way.
#[derive(Debug)]
pub struct ChatFlow {
    pub request: ChatCompletionRequest,
    pub serializing: bool,
    pub dispatch: Dispatch,
}

impl View for ChatFlow {
    type V = ChatModel;

    open spec fn view(&self) -> ChatModel {
        ChatModel {
            model: self.request.model@,
            temperature: self.request.temperature,
            stream: self.request.stream,
            serializing: self.serializing,
            dispatch: self.dispatch@,
        }
    }
}

/// The step that a request, the shared state and a reply make up.
pub open spec fn step_of(flow: ChatFlow, state: AppState, reply: DispatchReply) -> ChatStep {
    ChatStep {
        flow: flow@,
        state: state@,
        action: reply.action@,
        metrics: metrics::models(reply.metrics@),
    }
}

/// The answer to a request that came in, and the metrics that change with it. An admitted
/// request is serialized next, with its stream options as they stand in it.
#[derive(Debug)]
pub struct ChatAdmission {
    pub result: Result<ChatFlow, AppError>,
    pub metrics: Vec<MetricUpdate>,
}

/// A request that has been admitted.
pub open spec fn admitted(
    request: ChatCompletionRequest,
    client: Seq<char>,
    reserved: nat,
    now: nat,
) -> ChatModel {
    ChatModel {
        model: request.model@,
        temperature: request.temperature,
        stream: request.stream,
        serializing: true,
        dispatch: dispatch::fresh_dispatch(
            Route::Chat { stream: request.stream },
            client,
            Some(reserved),
            None,
            Seq::empty(),
            now,
        ),
    }
}

/// Admits a chat request at `now`, if its client has the tokens that it is taken to need.
/// They are reserved for it. A client that is out of tokens is told how long to wait.
pub fn chat_completions(
    state: &mut AppState,
    identity: &ClientIdentity,
    request: ChatCompletionRequest,
    now: u64,
) -> (admission: ChatAdmission)
    requires
        old(state).wf(),
    ensures
        ({
            let client = identity.client_id@;
            let cost = estimated_tokens(request.max_tokens, request.message_count as nat)
                * GRAINS_PER_TOKEN as nat;
            &&& final(state)@ == old(state)@.after_reserve(client, cost, now as nat)
            &&& match (
                admission.result,
                old(state)@.client(client, now as nat).tpm.answer(cost, now as nat),
            ) {
                (Ok(flow), Ok(_)) => {
                    &&& flow@ == admitted(request, client, cost, now as nat)
                    &&& flow.request == (ChatCompletionRequest {
                        stream_options: sent_stream_options(request.stream, request.stream_options),
                        ..request
                    })
                    &&& metrics::models(admission.metrics@) == Seq::<MetricModel>::empty()
                },
                (Err(error), Err(wait)) => {
                    &&& error@ == (ErrorModel::RateLimited { retry_after: wait as u64 })
                    &&& metrics::models(admission.metrics@) == seq![
                        metrics::error_metric("rate_limit"@, "tpm_exceeded"@),
                    ]
                },
                _ => false,
            }
        }),
        final(state).same_setup(*old(state)),
        final(state).wf(),
{
    let cost = estimate_tokens(request.max_tokens, request.message_count);
    let mut updates: Vec<MetricUpdate> = Vec::new();
    assert(metrics::models(updates@) =~= Seq::<MetricModel>::empty());
    match state.reserve_at(identity.client_id.as_str(), cost, now) {
        Ok(handle) => {
            let stream: bool = request.stream;
            let mut request = request;
            if stream && request.stream_options.is_none() {
                request.stream_options = Some(StreamOptions { include_usage: true });
            }
            let body: Vec<u8> = Vec::new();
            let dispatch = Dispatch::new(
                Route::Chat { stream },
                identity.client_id.clone(),
                Some(handle),
                None,
                body,
                now,
            );
            ChatAdmission {
                result: Ok(ChatFlow { request, serializing: true, dispatch }),
                metrics: updates,
            }
        },
        Err(retry_after) => {
            updates.push(record_error("rate_limit", "tpm_exceeded"));
            assert(metrics::models(updates@) =~= seq![
                metrics::error_metric("rate_limit"@, "tpm_exceeded"@),
            ]);
            ChatAdmission { result: Err(AppError::RateLimited { retry_after }), metrics: updates }
        },
    }
}

impl ChatFlow {
    /// The cache holds the response.
    fn on_hit(&mut self, state: &mut AppState, cached: String, now: u64) -> (reply: DispatchReply)
        requires
            old(state).wf(),
        ensures
            step_of(*final(self), *final(state), reply) == old(self)@.on_hit(
                old(state)@,
                cached@,
                now as nat,
            ),
            final(self).request == old(self).request,
            reply.wf(),
            final(state).same_setup(*old(state)),
            final(state).wf(),
    {
        if let Some(reservation) = self.dispatch.reservation.take() {
            state.reconcile_at(
                self.dispatch.client_id.as_str(),
                reservation,
                TokenAmount::whole(0),
                now,
            );
        }
        let mut updates: Vec<MetricUpdate> = Vec::new();
        let hit = record_cache_hit("exact");
        let latency = record_request_latency(duration_between(self.dispatch.request_start, now));
        let counted = record_request("exact_cache", "cache_hit");
        updates.push(hit);
        updates.push(latency);
        updates.push(counted);
        assert(metrics::models(updates@) =~= seq![hit@, latency@, counted@]);
        let mut headers: Vec<(&'static str, String)> = Vec::new();
        headers.push(("content-type", "application/json".to_string()));
        headers.push(("x-cache", "HIT".to_string()));
        let response = GatewayResponse {
            status: OK_STATUS,
            headers,
            body: slice_to_vec(cached.as_str().as_bytes()),
        };
        assert(response@ =~= ChatModel::cached_response(cached@));
        self.serializing = false;
        let ghost goal = old(self)@.on_hit(old(state)@, cached@, now as nat);
        assert(Seq::<MetricModel>::empty() + metrics::models(updates@) =~= metrics::models(updates@));
        assert(self@ =~= goal.flow);
        DispatchReply { action: DispatchAction::Respond(response), metrics: updates }
    }

    /// The exact cache was asked, and answered with `found`.
    pub fn on_lookup(&mut self, state: &mut AppState, found: Option<String>, now: u64) -> (reply:
        DispatchReply)
        requires
            old(state).wf(),
        ensures
            step_of(*final(self), *final(state), reply) == old(self)@.on_lookup(
                old(state)@,
                old(state).sorted_providers@,
                text::optional(found),
                now as nat,
            ),
            final(self).request == old(self).request,
            reply.wf(),
            final(state).same_setup(*old(state)),
            final(state).wf(),
    {
        match found {
            Some(cached) => self.on_hit(state, cached, now),
            None => {
                self.serializing = false;
                let miss = record_cache_miss("exact");
                let mut reply = self.dispatch.advance(state, DispatchEvent::Start, now);
                let ghost list = reply.metrics@;
                let mut updates: Vec<MetricUpdate> = Vec::new();
                updates.push(miss);
                updates.append(&mut reply.metrics);
                assert(metrics::models(updates@) =~= seq![miss@] + metrics::models(list));
                DispatchReply { action: reply.action, metrics: updates }
            },
        }
    }

    /// The request was serialized. One with a key is looked up in the exact cache.
    fn on_payload(&mut self, state: &mut AppState, payload: String, now: u64) -> (reply:
        DispatchReply)
        requires
            old(state).wf(),
        ensures
            exists|found: Option<Seq<char>>|
                (old(self)@.key(payload@) matches Some(key) ==> old(state)@.may_find(key, found))
                    && step_of(*final(self), *final(state), reply)
                    == #[trigger] old(self)@.on_payload(
                    old(state)@,
                    old(state).sorted_providers@,
                    payload@,
                    found,
                    now as nat,
                ),
            final(self).request == old(self).request,
            reply.wf(),
            final(state).same_setup(*old(state)),
            final(state).wf(),
    {
        let key: Option<String> = if self.request.stream {
            None
        } else {
            ExactCache::compute_key(
                self.request.model.as_str(),
                payload.as_str(),
                self.request.temperature,
            )
        };
        self.dispatch.body = slice_to_vec(payload.as_str().as_bytes());
        match key {
            Some(key) => {
                let found = state.look_up(key.as_str());
                self.dispatch.cache_key = Some(key);
                assert(self@ =~= old(self)@.ready(payload@));
                let reply = self.on_lookup(state, found, now);
                assert(step_of(*self, *state, reply) == old(self)@.on_payload(
                    old(state)@,
                    old(state).sorted_providers@,
                    payload@,
                    text::optional(found),
                    now as nat,
                ));
                reply
            },
            None => {
                self.dispatch.cache_key = None;
                assert(self@ =~= old(self)@.ready(payload@));
                self.serializing = false;
                let reply = self.dispatch.advance(state, DispatchEvent::Start, now);
                assert(Seq::<MetricModel>::empty() + metrics::models(reply.metrics@)
                    =~= metrics::models(reply.metrics@));
                assert(step_of(*self, *state, reply) == old(self)@.on_payload(
                    old(state)@,
                    old(state).sorted_providers@,
                    payload@,
                    None,
                    now as nat,
                ));
                reply
            },
        }
    }

    /// From what came of the last action, at `now`, to the next one. A request with a key is
    /// looked up in the exact cache on the way.
    pub fn advance(&mut self, state: &mut AppState, event: ChatEvent, now: u64) -> (reply:
        DispatchReply)
        requires
            old(state).wf(),
            old(self)@.accepts(event),
        ensures
            exists|found: Option<Seq<char>>|
                old(self)@.may_find(old(state)@, event, found) && step_of(
                    *final(self),
                    *final(state),
                    reply,
                ) == #[trigger] old(self)@.advance(
                    old(state)@,
                    old(state).sorted_providers@,
                    event,
                    found,
                    now as nat,
                ),
            event matches ChatEvent::Upstream(DispatchEvent::Body(body)) ==> (old(
                self,
            ).dispatch.route is Chat && valid_utf8(body@) ==> dispatch::lossy_text(body@)
                == decode_utf8(body@) && dispatch::passes_on(reply, body@)),
            final(self).request == old(self).request,
            reply.wf(),
            final(state).same_setup(*old(state)),
            final(state).wf(),
    {
        match event {
            ChatEvent::PayloadFailed(error) => {
                let message = concat("failed to serialize payload: ", error.as_str());
                self.serializing = false;
                let reply = self.dispatch.abandon(state, AppError::Internal(message), now);
                assert(Seq::<MetricModel>::empty() + metrics::models(reply.metrics@)
                    =~= metrics::models(reply.metrics@));
                assert(step_of(*self, *state, reply) == old(self)@.advance(
                    old(state)@,
                    old(state).sorted_providers@,
                    event,
                    None,
                    now as nat,
                ));
                reply
            },
            ChatEvent::PayloadReady(payload) => {
                let reply = self.on_payload(state, payload, now);
                proof {
                    let found = choose|found: Option<Seq<char>>|
                        (old(self)@.key(payload@) matches Some(key) ==> old(state)@.may_find(
                            key,
                            found,
                        )) && step_of(*self, *state, reply) == #[trigger] old(self)@.on_payload(
                            old(state)@,
                            old(state).sorted_providers@,
                            payload@,
                            found,
                            now as nat,
                        );
                    assert(step_of(*self, *state, reply) == old(self)@.advance(
                        old(state)@,
                        old(state).sorted_providers@,
                        event,
                        found,
                        now as nat,
                    ));
                }
                reply
            },
            ChatEvent::Upstream(upstream) => {
                let reply = self.dispatch.advance(state, upstream, now);
                assert(Seq::<MetricModel>::empty() + metrics::models(reply.metrics@)
                    =~= metrics::models(reply.metrics@));
                assert(step_of(*self, *state, reply) == old(self)@.advance(
                    old(state)@,
                    old(state).sorted_providers@,
                    event,
                    None,
                    now as nat,
                ));
                reply
            },
        }
    }
}

/// Only deterministic requests are looked up in the cache, or kept in it: for those that
/// are streamed, or whose temperature is not zero, what the cache holds makes no difference,
/// and they have no key under which their response could be kept.
pub proof fn law_only_deterministic_requests_are_cached(
    flow: ChatModel,
    state: GatewayModel,
    providers: Seq<ProviderConfig>,
    payload: String,
    reply: Option<Seq<char>>,
    now: nat,
)
    ensures
        ({
            let event = ChatEvent::PayloadReady(payload);
            let step = flow.advance(state, providers, event, reply, now);
            &&& step.flow.dispatch.cache_key is Some <==> !flow.stream
                && flow.temperature.is_zero_value()
            &&& step.flow.dispatch.cache_key is None ==> step == flow.advance(
                state,
                providers,
                event,
                None,
                now,
            )
        }),
{
    dispatch::lemma_start_keeps_key(flow.ready(payload@).dispatch, state, providers, now);
}

/// What the cache keeps of a response is what a later request with the same key gets: the
/// client that made the request and those that hit the cache receive the same bytes. The
/// response is stored under the key with the first answer, and this holds until another one
/// is, whatever is stored under other keys.
pub proof fn law_cached_response_is_served_again(
    flow: ChatModel,
    state: GatewayModel,
    providers: Seq<ProviderConfig>,
    body: Vec<u8>,
    later_flow: ChatModel,
    later_state: GatewayModel,
    payload: String,
    reply: Option<Seq<char>>,
    now: nat,
    later: nat,
)
    requires
        flow.dispatch.route is Chat,
        flow.dispatch.cache_key is Some,
        later_flow.key(payload@) == flow.dispatch.cache_key,
        later_state.stored.contains_key(flow.dispatch.cache_key->0),
        later_state.stored[flow.dispatch.cache_key->0] == dispatch::lossy_text(body@),
        later_flow.may_find(later_state, ChatEvent::PayloadReady(payload), reply),
        reply is Some,
    ensures
        ({
            let answered = flow.advance(
                state,
                providers,
                ChatEvent::Upstream(DispatchEvent::Body(body)),
                None,
                now,
            );
            let first = answered.action;
            let second = later_flow.advance(
                later_state,
                providers,
                ChatEvent::PayloadReady(payload),
                reply,
                later,
            ).action;
            &&& answered.state.stored == state.stored.insert(
                flow.dispatch.cache_key->0,
                dispatch::lossy_text(body@),
            )
            &&& first is Respond
            &&& second is Respond
            &&& first->Respond_0.body == second->Respond_0.body
        }),
{
}

/// A hit in the cache costs no tokens: once the client's bucket is refilled, it is as if
/// nothing had been reserved for the request.
pub proof fn law_cache_hit_costs_nothing(
    flow: ChatModel,
    before: GatewayModel,
    providers: Seq<ProviderConfig>,
    payload: String,
    found: Seq<char>,
    reserved: nat,
    now: nat,
    later: nat,
)
    requires
        before.valid(),
        before.client(flow.dispatch.client, now).tpm.affords(reserved, now),
        flow.dispatch.reserved == Some(reserved),
        flow.key(payload@) is Some,
    ensures
        ({
            let client = flow.dispatch.client;
            let reserving = before.after_reserve(client, reserved, now);
            let step = flow.advance(
                reserving,
                providers,
                ChatEvent::PayloadReady(payload),
                Some(found),
                later,
            );
            step.state.client(client, later).tpm.refilled(later) == before.client(
                client,
                now,
            ).tpm.refilled(now).refilled(later)
        }),
{
    let bucket = before.client(flow.dispatch.client, now).tpm;
    assert(before.buckets.contains_key(flow.dispatch.client)
        ==> before.buckets[flow.dispatch.client].valid());
    rate_limit::law_reconcile_refunds_the_surplus(bucket, reserved, 0, now, later);
}

/// Metrics of a chat request, too, are labelled with the names of configured providers and
/// with the gateway's own words only.
pub proof fn law_labels_are_bounded(
    flow: ChatModel,
    state: GatewayModel,
    providers: Seq<ProviderConfig>,
    event: ChatEvent,
    reply: Option<Seq<char>>,
    names: Set<Seq<char>>,
    now: nat,
)
    requires
        dispatch::all_named(providers, names),
        dispatch::all_named(flow.dispatch.candidates, names),
        flow.accepts(event),
    ensures
        ({
            let step = flow.advance(state, providers, event, reply, now);
            metrics::all_bounded(step.metrics, names) && dispatch::all_named(
                step.flow.dispatch.candidates,
                names,
            )
        }),
{
    match event {
        ChatEvent::PayloadReady(payload) => {
            dispatch::law_labels_are_bounded(
                flow.ready(payload@).dispatch,
                state,
                providers,
                DispatchEvent::Start,
                names,
                now,
            );
            let miss = seq![metrics::cache_miss_metric("exact"@)];
            assert(metrics::bounded_labels(miss[0], names));
        },
        ChatEvent::Upstream(event) => {
            dispatch::law_labels_are_bounded(flow.dispatch, state, providers, event, names, now);
        },
        _ => {},
    }
}

/// Every request that goes out to a provider carries the serialized request, streamed or not:
/// the first one and, since the flow keeps it, every later one.
pub proof fn law_providers_get_the_serialized_request(
    flow: ChatModel,
    state: GatewayModel,
    providers: Seq<ProviderConfig>,
    payload: String,
    event: DispatchEvent,
    reply: Option<Seq<char>>,
    now: nat,
)
    ensures
        ({
            let step = flow.advance(state, providers, ChatEvent::PayloadReady(payload), reply, now);
            &&& step.action is Send ==> step.action->Send_0.body == encode_utf8(payload@)
            &&& step.flow.dispatch.body == encode_utf8(payload@)
        }),
        ({
            let step = flow.advance(state, providers, ChatEvent::Upstream(event), reply, now);
            &&& step.action is Send ==> step.action->Send_0.body == flow.dispatch.body
            &&& step.flow.dispatch.body == flow.dispatch.body
        }),
{
    let ready = flow.ready(payload@).dispatch;
    dispatch::law_every_provider_gets_the_same_request(
        ready,
        state,
        providers,
        DispatchEvent::Start,
        now,
    );
    dispatch::law_every_provider_gets_the_same_request(flow.dispatch, state, providers, event, now);
}

/// A request is kept under a key if and only if it is not streamed and its temperature is
/// zero, by its bits. The key is that of its model and of the request as it is serialized.
pub proof fn law_deterministic_requests_have_a_key(flow: ChatModel, payload: Seq<char>)
    ensures
        flow.key(payload) is Some <==> !flow.stream && (flow.temperature.bits == 0
            || flow.temperature.bits == 0x8000_0000),
        flow.key(payload) is Some ==> flow.key(payload)->0 == exact::key_text(flow.model, payload),
{
    crate::float_bits::law_numbers_compare_by_value(flow.temperature, flow.temperature);
}

/// What the cache answers decides what happens to a request with a key. A hit is answered
/// with the stored response, status 200 and the mark of a hit, and no provider is asked. A
/// miss is counted, and the request goes to the first of the selected providers, exactly as
/// a request without a key does.
pub proof fn law_the_cache_decides(
    flow: ChatModel,
    state: GatewayModel,
    providers: Seq<ProviderConfig>,
    payload: String,
    found: Seq<char>,
    now: nat,
)
    requires
        flow.dispatch.request_start <= now <= u64::MAX,
    ensures
        flow.key(payload@) is Some ==> {
            let hit = flow.advance(
                state,
                providers,
                ChatEvent::PayloadReady(payload),
                Some(found),
                now,
            );
            &&& hit.action is Respond
            &&& hit.action->Respond_0.status == 200
            &&& hit.action->Respond_0.body == encode_utf8(found)
            &&& hit.action->Respond_0.headers.len() == 2
            &&& hit.action->Respond_0.headers[0] == ("content-type"@, "application/json"@)
            &&& hit.action->Respond_0.headers[1] == ("x-cache"@, "HIT"@)
            &&& hit.state.breakers == state.breakers
            &&& hit.state.stored == state.stored
            &&& hit.flow.dispatch.reserved is None
            &&& hit.metrics.len() == 3
            &&& hit.metrics[0] == cache_count("gateway_cache_hits_total"@)
            &&& hit.metrics[1] == (MetricModel {
                name: "gateway_request_latency_seconds"@,
                labels: Seq::empty(),
                op: metrics::MetricOp::HistogramRecord(
                    (now - flow.dispatch.request_start) as u128,
                ),
            })
            &&& hit.metrics[2] == (MetricModel {
                name: "gateway_requests_total"@,
                labels: seq![("provider"@, "exact_cache"@), ("status"@, "cache_hit"@)],
                op: metrics::MetricOp::CounterAdd(1),
            })
        },
        ({
            let missed = flow.advance(
                state,
                providers,
                ChatEvent::PayloadReady(payload),
                None,
                now,
            );
            let started = flow.ready(payload@).dispatch.advance(
                state,
                providers,
                DispatchEvent::Start,
                now,
            );
            &&& missed.action == started.action
            &&& missed.state == started.state
            &&& missed.flow.dispatch == started.flow
            &&& missed.flow.dispatch.cache_key == flow.key(payload@)
            &&& flow.key(payload@) is Some ==> missed.metrics.len() == started.metrics.len() + 1
                && missed.metrics[0] == cache_count("gateway_cache_misses_total"@)
                && missed.metrics.skip(1) == started.metrics
            &&& flow.key(payload@) is None ==> missed.metrics == started.metrics
        }),
{
    let started = flow.ready(payload@).dispatch.start(state, providers, now);
    dispatch::lemma_start_keeps_key(flow.ready(payload@).dispatch, state, providers, now);
    let missed = flow.advance(state, providers, ChatEvent::PayloadReady(payload), None, now);
    if flow.key(payload@) is Some {
        assert(missed.metrics.skip(1) =~= started.metrics);
    } else {
        assert(Seq::<MetricModel>::empty() + started.metrics =~= started.metrics);
    }
}

/// One more answer of the exact cache.
pub open spec fn cache_count(name: Seq<char>) -> MetricModel {
    MetricModel {
        name,
        labels: seq![("type"@, "exact"@)],
        op: metrics::MetricOp::CounterAdd(1),
    }
}

/// A request that cannot be serialized fails with an internal error that names the reason,
/// and its reservation is given back.
pub proof fn law_unserializable_requests_fail(
    flow: ChatModel,
    state: GatewayModel,
    providers: Seq<ProviderConfig>,
    reason: String,
    now: nat,
)
    ensures
        ({
            let step = flow.advance(state, providers, ChatEvent::PayloadFailed(reason), None, now);
            &&& step.action == ActionModel::Fail(
                ErrorModel::Internal("failed to serialize payload: "@ + reason@),
            )
            &&& step.flow.dispatch.reserved is None
            &&& flow.dispatch.reserved is Some ==> step.state.client(
                flow.dispatch.client,
                now,
            ).tpm == state.client(flow.dispatch.client, now).tpm.after_refund(
                flow.dispatch.reserved->0,
                now,
            )
        }),
{
    dispatch::law_requests_given_up_are_settled(
        flow.dispatch,
        state,
        ErrorModel::Internal("failed to serialize payload: "@ + reason@),
        now,
    );
}

/// What came of a provider is handed to the dispatch as it is.
pub proof fn law_answers_go_to_the_dispatch(
    flow: ChatModel,
    state: GatewayModel,
    providers: Seq<ProviderConfig>,
    event: DispatchEvent,
    reply: Option<Seq<char>>,
    now: nat,
)
    ensures
        ({
            let step = flow.advance(state, providers, ChatEvent::Upstream(event), reply, now);
            let inner = flow.dispatch.advance(state, providers, event, now);
            &&& step.action == inner.action
            &&& step.state == inner.state
            &&& step.metrics == inner.metrics
            &&& step.flow.dispatch == inner.flow
            &&& step.flow.model == flow.model && step.flow.stream == flow.stream
                && step.flow.temperature == flow.temperature
        }),
{
    let inner = flow.dispatch.advance(state, providers, event, now);
    assert(Seq::<MetricModel>::empty() + inner.metrics =~= inner.metrics);
}

/// A request is taken to need its limit of completion tokens, 256 if it names none, and
/// twenty tokens for each message.
pub proof fn law_estimates_follow_limit_and_messages(limit: u32, messages: nat)
    ensures
        estimated_tokens(Some(limit), 0) == limit,
        estimated_tokens(None, 0) == 256,
        estimated_tokens(Some(limit), messages + 1) == estimated_tokens(Some(limit), messages) + 20,
        estimated_tokens(None, messages + 1) == estimated_tokens(None, messages) + 20,
{
}

/// A streamed request that says nothing of it asks for the usage at the end of the stream;
/// all other requests keep the options that they have.
pub proof fn law_streams_ask_for_the_usage(stream: bool, options: Option<StreamOptions>)
    ensures
        stream && options is None ==> sent_stream_options(stream, options) is Some
            && sent_stream_options(stream, options)->0.include_usage,
        !stream || options is Some ==> sent_stream_options(stream, options) == options,
{
}

/// An admitted request is the client's, holds what was reserved for it, and goes to the chat
/// endpoint, streamed if it asks for that.
pub proof fn law_admitted_requests_are_ready(
    request: ChatCompletionRequest,
    client: Seq<char>,
    reserved: nat,
    now: nat,
)
    ensures
        ({
            let flow = admitted(request, client, reserved, now);
            &&& flow.model == request.model@
            &&& flow.temperature == request.temperature
            &&& flow.stream == request.stream
            &&& flow.serializing
            &&& flow.dispatch.route == (Route::Chat { stream: request.stream })
            &&& flow.dispatch.client == client
            &&& flow.dispatch.reserved == Some(reserved)
            &&& flow.dispatch.request_start == now
            &&& flow.dispatch.cache_key is None
            &&& flow.dispatch.next == 0
            &&& !flow.dispatch.answered
            &&& flow.dispatch.last_error is None
        }),
{
}

/// A flow is what its model says.
pub proof fn law_flows_are_as_modelled(flow: ChatFlow)
    ensures
        flow@.model == flow.request.model@,
        flow@.temperature == flow.request.temperature,
        flow@.stream == flow.request.stream,
        flow@.serializing == flow.serializing,
        flow@.dispatch.body == flow.dispatch.body@,
        flow@.dispatch.client == flow.dispatch.client_id@,
        flow@.dispatch.route == flow.dispatch.route,
        flow@.dispatch.next == flow.dispatch.next,
        flow@.dispatch.candidates.len() == flow.dispatch.candidates@.len(),
        flow.dispatch.reservation is Some ==> flow@.dispatch.reserved == Some(
            flow.dispatch.reservation->0.reserved.grains as nat,
        ),
        flow.dispatch.reservation is None ==> flow@.dispatch.reserved is None,
        flow.dispatch.cache_key is Some ==> flow@.dispatch.cache_key == Some(
            flow.dispatch.cache_key->0@,
        ),
        flow.dispatch.cache_key is None ==> flow@.dispatch.cache_key is None,
        flow@.dispatch.request_start == flow.dispatch.request_start,
        flow@.dispatch.upstream_start == flow.dispatch.upstream_start,
{
}

/// A request that was admitted can be serialized or fail at that, and what comes of its
/// actions after that can be handed in.
pub proof fn law_what_comes_of_an_action_is_accepted(
    flow: ChatModel,
    state: GatewayModel,
    providers: Seq<ProviderConfig>,
    event: ChatEvent,
    reply: Option<Seq<char>>,
    payload: String,
    status: u16,
    body: Vec<u8>,
    now: nat,
)
    requires
        flow.accepts(event),
    ensures
        ({
            let step = flow.advance(state, providers, event, reply, now);
            &&& step.action is Send ==> step.flow.accepts(
                ChatEvent::Upstream(DispatchEvent::SendFailed),
            ) && (100 <= status <= 999 ==> step.flow.accepts(
                ChatEvent::Upstream(DispatchEvent::Status(status)),
            ))
            &&& step.action is ReadBody ==> step.flow.accepts(
                ChatEvent::Upstream(DispatchEvent::BodyFailed),
            ) && step.flow.accepts(ChatEvent::Upstream(DispatchEvent::Body(body)))
        }),
        flow.serializing ==> flow.accepts(ChatEvent::PayloadReady(payload)) && flow.accepts(
            ChatEvent::PayloadFailed(payload),
        ),
{
    if event is Upstream {
        dispatch::law_what_comes_of_an_action_is_accepted(
            flow.dispatch,
            state,
            providers,
            event->Upstream_0,
            status,
            body,
            now,
        );
    }
    if event is PayloadReady {
        dispatch::law_what_comes_of_an_action_is_accepted(
            flow.ready(event->PayloadReady_0@).dispatch,
            state,
            providers,
            DispatchEvent::Start,
            status,
            body,
            now,
        );
    }
}

/// The exact cache is asked for a request with a key, and its answer is a response that was
/// stored under that key.
pub proof fn law_hits_are_stored_responses(
    flow: ChatModel,
    state: GatewayModel,
    payload: String,
    found: Seq<char>,
)
    requires
        flow.key(payload@) is Some,
        flow.may_find(state, ChatEvent::PayloadReady(payload), Some(found)),
    ensures
        state.stored.contains_key(flow.key(payload@)->0),
        state.stored[flow.key(payload@)->0] == found,
{
}

} // verus!
