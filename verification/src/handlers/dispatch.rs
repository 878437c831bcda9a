//! A request on its way through the providers.
//!
//! The providers are tried in order of priority. One whose breaker denies the request at
//! the last moment is skipped. A provider that cannot be reached, is overloaded, times out
//! or fails makes the next one be tried; a request that a provider rejects is not repeated.
//!
//! ```text
//! 2xx, complete         success of the provider
//! 1xx, 3xx              as 2xx for a chat; for embeddings a failure of the provider, the
//!                       next one is tried
//! 401, 403              failure of the provider, the request is rejected
//! other 4xx             success of the provider, the request is rejected
//! 408, 429, 5xx         failure of the provider, the next one is tried
//! no connection         failure of the provider, the next one is tried
//! broken body           failure of the provider, the next one is tried
//! broken stream         failure of the provider
//! ```
//!
//! An answer counts as a success only when it is complete: when the body was read, or when
//! the stream has ended. One that the client does not wait for counts as it stands.
use crate::clock::{self, duration_between};
use crate::config::ProviderConfig;
use crate::error::{AppError, ErrorModel};
use crate::json::{self, JsonTree, UsageCounts};
use crate::middleware::rate_limit::{self, ReservationHandle, TokenAmount};
use crate::proxy::client::{
    self, build_chat_request, build_embeddings_request, OutboundModel, OutboundRequest,
};
use crate::proxy::stream::{self, proxy_stream_passthrough, StreamModel, StreamSession};
use crate::router::selector::{self, ProviderSelector, SelectedProvider};
use crate::state::{AppState, GatewayModel};
use crate::telemetry::metrics::{
    self, record_error, record_request, record_request_latency, record_tokens,
    record_upstream_latency, MetricModel, MetricUpdate,
};
use crate::text::{self, concat};
use axum::http::StatusCode;
use vstd::prelude::*;
use vstd::slice::slice_to_vec;
use vstd::utf8::{decode_utf8, encode_utf8, valid_utf8};

verus! {

/// The number and the standard reason of a status, as in a status line.
pub uninterp spec fn status_line(status: u16) -> Seq<char>;

/// `http::StatusCode::from_u16` and its `to_string`: the number and the standard reason of
/// a status. The text is named; there is a status for every number from 100 to 999.
#[verifier::external_body]
fn describe_status(status: u16) -> (line: String)
    requires
        100 <= status <= 999,
    ensures
        line@ == status_line(status),
{
    StatusCode::from_u16(status).unwrap().to_string()
}

/// The text in bytes, with a mark in place of what is not valid UTF-8.
pub uninterp spec fn lossy_text(bytes: Seq<u8>) -> Seq<char>;

/// `std::string::String::from_utf8_lossy`: the text in the bytes. It is named; for valid
/// UTF-8 it is the text that the bytes encode.
#[verifier::external_body]
fn text_from_utf8_lossy(bytes: &[u8]) -> (text: String)
    ensures
        text@ == lossy_text(bytes@),
        valid_utf8(bytes@) ==> text@ == decode_utf8(bytes@),
{
    String::from_utf8_lossy(bytes).to_string()
}

/// Whether a status of a provider makes the next one be tried: a server error, too many
/// requests, or a timeout.
pub open spec fn retryable(status: u16) -> bool {
    500 <= status <= 599 || status == 429 || status == 408
}

/// Whether a status of a provider rejects the request: any other client error.
pub open spec fn rejecting(status: u16) -> bool {
    400 <= status <= 499 && status != 429 && status != 408
}

/// Whether a status that rejects the request speaks of the provider's configuration: its
/// key is missing, wrong or not allowed to do this.
pub open spec fn misconfigured(status: u16) -> bool {
    status == 401 || status == 403
}

/// Whether a status of a provider makes the next one be tried.
pub fn is_retryable_upstream_status(status: u16) -> (yes: bool)
    ensures
        yes == retryable(status),
{
    (500 <= status && status <= 599) || status == 429 || status == 408
}

/// Whether a status of a provider rejects the request.
pub fn is_non_retryable_client_error(status: u16) -> (yes: bool)
    ensures
        yes == rejecting(status),
{
    400 <= status && status <= 499 && status != 429 && status != 408
}

/// The endpoint of a request.
#[derive(Clone, Copy, Debug, PartialEq, Eq, Structural)]
pub enum Route {
    Chat { stream: bool },
    Embeddings,
}

impl Route {
    /// The path at the provider.
    pub open spec fn path(self) -> Seq<char> {
        match self {
            Route::Chat { .. } => client::CHAT_PATH@,
            Route::Embeddings => client::EMBEDDINGS_PATH@,
        }
    }

    /// Whether the answer is streamed.
    pub open spec fn streamed(self) -> bool {
        self == (Route::Chat { stream: true })
    }

    /// The error when no breaker lets the request pass.
    pub open spec fn unavailable(self) -> ErrorModel {
        match self {
            Route::Chat { .. } => ErrorModel::Upstream(
                "no available providers (all circuit breakers open)"@,
            ),
            Route::Embeddings => ErrorModel::Upstream("no available providers"@),
        }
    }
}

/// The status of a successful response.
pub const OK_STATUS: u16 = 200;

/// A successful response to the client.
#[derive(Debug)]
pub struct GatewayResponse {
    pub status: u16,
    pub headers: Vec<(&'static str, String)>,
    pub body: Vec<u8>,
}

/// What a response is, for contracts.
#[verifier::ext_equal]
pub struct ResponseModel {
    pub status: u16,
    pub headers: Seq<(Seq<char>, Seq<char>)>,
    pub body: Seq<u8>,
}

impl View for GatewayResponse {
    type V = ResponseModel;

    open spec fn view(&self) -> ResponseModel {
        ResponseModel {
            status: self.status,
            headers: self.headers@.map_values(|h: (&'static str, String)| (h.0@, h.1@)),
            body: self.body@,
        }
    }
}

/// What to do next.
#[derive(Debug)]
pub enum DispatchAction {
    /// Send a request to a provider.
    Send(OutboundRequest),
    /// Read the whole body of the provider's response.
    ReadBody,
    /// Pass the provider's response on as a stream. The request is done.
    Stream(StreamSession),
    /// Answer the client. The request is done.
    Respond(GatewayResponse),
    /// Answer the client with an error. The request is done.
    Fail(AppError),
}

/// What to do next, for contracts.
#[verifier::ext_equal]
pub enum ActionModel {
    Send(OutboundModel),
    ReadBody,
    Stream(StreamModel),
    Respond(ResponseModel),
    Fail(ErrorModel),
}

impl View for DispatchAction {
    type V = ActionModel;

    open spec fn view(&self) -> ActionModel {
        match *self {
            DispatchAction::Send(request) => ActionModel::Send(request@),
            DispatchAction::ReadBody => ActionModel::ReadBody,
            DispatchAction::Stream(session) => ActionModel::Stream(session@),
            DispatchAction::Respond(response) => ActionModel::Respond(response@),
            DispatchAction::Fail(error) => ActionModel::Fail(error@),
        }
    }
}

/// The next action, and the metrics that change before it.
#[derive(Debug)]
pub struct DispatchReply {
    pub action: DispatchAction,
    pub metrics: Vec<MetricUpdate>,
}

impl DispatchReply {
    /// What holds of every reply: a stream that is handed out is sound.
    pub open spec fn wf(self) -> bool {
        self.action matches DispatchAction::Stream(session) ==> session.wf()
    }
}

/// What came of the last action.
#[derive(Debug)]
pub enum DispatchEvent {
    /// The request is ready to be sent.
    Start,
    /// The provider could not be reached, or did not answer in time.
    SendFailed,
    /// The provider answered with this status.
    Status(u16),
    /// The body could not be read.
    BodyFailed,
    /// The body.
    Body(Vec<u8>),
}

/// What a request on its way is, for contracts. Times are in nanoseconds, amounts in
/// grains. The provider that was tried last stands before `next`; once it has answered, its
/// body is awaited.
#[verifier::ext_equal]
pub struct DispatchModel {
    pub route: Route,
    pub client: Seq<char>,
    pub reserved: Option<nat>,
    pub cache_key: Option<Seq<char>>,
    pub body: Seq<u8>,
    pub candidates: Seq<ProviderConfig>,
    pub next: nat,
    pub last_error: Option<Seq<char>>,
    pub request_start: nat,
    pub upstream_start: nat,
    pub answered: bool,
}

/// A request on its way, the shared state, the next action and the metrics that change.
#[verifier::ext_equal]
pub struct DispatchStep {
    pub flow: DispatchModel,
    pub state: GatewayModel,
    pub action: ActionModel,
    pub metrics: Seq<MetricModel>,
}

impl DispatchModel {
    /// The provider that was tried last.
    pub open spec fn current(self) -> ProviderConfig {
        self.candidates[self.next - 1]
    }

    /// The request to a provider.
    pub open spec fn outbound_to(self, provider: ProviderConfig) -> OutboundModel {
        client::outbound(provider, self.route.path(), self.route.streamed(), self.body)
    }

    /// The request ends with an error. What is reserved is given back.
    pub open spec fn fail(
        self,
        state: GatewayModel,
        metrics: Seq<MetricModel>,
        error: ErrorModel,
        now: nat,
    ) -> DispatchStep {
        DispatchStep {
            flow: DispatchModel { reserved: None, answered: false, ..self },
            state: self.released(state, now),
            action: ActionModel::Fail(error),
            metrics,
        }
    }

    /// The request is given up. A provider whose answer had begun has not failed.
    pub open spec fn abandon(self, state: GatewayModel, error: ErrorModel, now: nat) -> DispatchStep {
        self.fail(
            if self.answered && 0 < self.next <= self.candidates.len() {
                state.after_success(self.current().name@)
            } else {
                state
            },
            Seq::empty(),
            error,
            now,
        )
    }

    /// The shared state after what is reserved was given back.
    pub open spec fn released(self, state: GatewayModel, now: nat) -> GatewayModel {
        match self.reserved {
            Some(reserved) => state.after_release(self.client, reserved, now),
            None => state,
        }
    }

    /// The next provider whose breaker lets the request pass is tried. When there is none,
    /// the request fails with the last error.
    pub open spec fn try_next(
        self,
        state: GatewayModel,
        metrics: Seq<MetricModel>,
        now: nat,
    ) -> DispatchStep
        decreases self.candidates.len() - self.next,
    {
        if self.next >= self.candidates.len() {
            self.fail(
                state,
                metrics.push(metrics::error_metric("all"@, "all_providers_failed"@)),
                ErrorModel::Upstream(
                    match self.last_error {
                        Some(message) => message,
                        None => "all providers failed"@,
                    },
                ),
                now,
            )
        } else {
            let provider = self.candidates[self.next as int];
            let asked = state.after_allow(provider.name@, now);
            let tried = DispatchModel { next: self.next + 1, ..self };
            if state.breaker(provider.name@).eligible(now) {
                DispatchStep {
                    flow: DispatchModel { upstream_start: now, ..tried },
                    state: asked,
                    action: ActionModel::Send(self.outbound_to(provider)),
                    metrics,
                }
            } else {
                tried.try_next(asked, metrics, now)
            }
        }
    }

    /// The providers are selected and the first one is tried.
    pub open spec fn start(
        self,
        state: GatewayModel,
        providers: Seq<ProviderConfig>,
        now: nat,
    ) -> DispatchStep {
        let candidates = selector::eligible_providers(state, providers, now);
        let selected = DispatchModel { candidates, next: 0, answered: false, ..self };
        let tracking = state.tracking(providers);
        if candidates.len() == 0 {
            selected.fail(
                tracking,
                seq![metrics::error_metric("all"@, "no_available_providers"@)],
                self.route.unavailable(),
                now,
            )
        } else {
            selected.try_next(tracking, Seq::empty(), now)
        }
    }

    /// The provider failed, and the next one is tried.
    pub open spec fn fail_over(
        self,
        state: GatewayModel,
        label: Seq<char>,
        message: Seq<char>,
        now: nat,
    ) -> DispatchStep {
        DispatchModel { last_error: Some(message), answered: false, ..self }.try_next(
            state.after_failure(self.current().name@, now),
            seq![metrics::error_metric(self.current().name@, label)],
            now,
        )
    }

    /// The provider rejected the request.
    pub open spec fn reject(self, state: GatewayModel, status: u16, now: nat) -> DispatchStep {
        let name = self.current().name@;
        self.fail(
            if misconfigured(status) {
                state.after_failure(name, now)
            } else {
                state.after_success(name)
            },
            seq![metrics::error_metric(name, "client_error"@)],
            ErrorModel::BadRequest("upstream rejected request with "@ + status_line(status)),
            now,
        )
    }

    /// The provider accepted the request. It has not succeeded yet: its body or its stream
    /// may still break.
    pub open spec fn accept(self, state: GatewayModel, now: nat) -> DispatchStep {
        let provider = self.current();
        let accepted = seq![
            metrics::request_metric(provider.name@, "success"@),
            metrics::upstream_latency_metric(
                provider.name@,
                clock::time_between(self.upstream_start, now) as u128,
            ),
        ];
        if self.route.streamed() {
            DispatchStep {
                flow: DispatchModel { reserved: None, answered: false, ..self },
                state,
                action: ActionModel::Stream(
                    stream::fresh_stream(
                        provider.name@,
                        self.client,
                        self.reserved,
                        provider.stream_idle_timeout_seconds as nat,
                        self.upstream_start,
                    ),
                ),
                metrics: accepted.push(self.latency(now)),
            }
        } else {
            DispatchStep {
                flow: DispatchModel { answered: true, ..self },
                state,
                action: ActionModel::ReadBody,
                metrics: accepted,
            }
        }
    }

    /// The time that the request has taken.
    pub open spec fn latency(self, now: nat) -> MetricModel {
        metrics::request_latency_metric(clock::time_between(self.request_start, now) as u128)
    }

    /// The provider answered with a status.
    pub open spec fn on_status(self, state: GatewayModel, status: u16, now: nat) -> DispatchStep {
        let name = self.current().name@;
        let returned = name + " returned "@ + status_line(status);
        if retryable(status) {
            self.fail_over(state, "retryable_error"@, returned, now)
        } else if rejecting(status) {
            self.reject(state, status, now)
        } else if self.route == Route::Embeddings && !(200 <= status <= 299) {
            self.fail_over(state, "unexpected_status"@, returned, now)
        } else {
            self.accept(state, now)
        }
    }

    /// The provider could not be reached.
    pub open spec fn on_send_failed(self, state: GatewayModel, now: nat) -> DispatchStep {
        self.fail_over(
            state,
            "connect_error"@,
            self.current().name@ + ": connection error"@,
            now,
        )
    }

    /// The body could not be read.
    pub open spec fn on_body_failed(self, state: GatewayModel, now: nat) -> DispatchStep {
        self.fail_over(
            state,
            "body_read_error"@,
            self.current().name@ + ": body read error"@,
            now,
        )
    }

    /// The tokens that a reported usage comes to.
    pub open spec fn charged(self, usage: UsageCounts) -> nat {
        match self.route {
            Route::Chat { .. } => (json::or_zero(usage.prompt_tokens) + json::or_zero(
                usage.completion_tokens,
            )) as nat,
            Route::Embeddings => json::or_zero(usage.total_tokens) as nat,
        }
    }

    /// The metrics of a reported usage.
    pub open spec fn usage_metrics(self, usage: UsageCounts) -> Seq<MetricModel> {
        let name = self.current().name@;
        match self.route {
            Route::Chat { .. } => seq![
                metrics::tokens_metric(name, "prompt"@, json::or_zero(usage.prompt_tokens)),
                metrics::tokens_metric(name, "completion"@, json::or_zero(usage.completion_tokens)),
            ],
            Route::Embeddings => seq![
                metrics::tokens_metric(name, "embedding"@, json::or_zero(usage.total_tokens)),
            ],
        }
    }

    /// The client is answered. A reported usage settles the reservation; without one all of
    /// it is given back.
    pub open spec fn respond(
        self,
        state: GatewayModel,
        response: ResponseModel,
        usage: Option<UsageCounts>,
        now: nat,
    ) -> DispatchStep {
        DispatchStep {
            flow: DispatchModel { reserved: None, answered: false, ..self },
            state: match (usage, self.reserved) {
                (Some(usage), Some(reserved)) => state.after_reconcile(
                    self.client,
                    reserved,
                    stream::token_grains(self.charged(usage)),
                    now,
                ),
                _ => self.released(state, now),
            },
            action: ActionModel::Respond(response),
            metrics: match usage {
                Some(usage) => self.usage_metrics(usage),
                None => Seq::empty(),
            }.push(self.latency(now)),
        }
    }

    /// The response to a chat, from the provider's text.
    pub open spec fn chat_response(self, text: Seq<char>) -> ResponseModel {
        ResponseModel {
            status: OK_STATUS,
            headers: seq![
                ("content-type"@, "application/json"@),
                ("x-cache"@, "MISS"@),
                ("x-provider"@, self.current().name@),
            ],
            body: encode_utf8(text),
        }
    }

    /// The shared state after the response to a chat was stored, if the request has a key.
    pub open spec fn stored(self, state: GatewayModel, text: Seq<char>) -> GatewayModel {
        match self.cache_key {
            Some(key) => state.storing(key, text),
            None => state,
        }
    }

    /// The response to an embeddings request, from the provider's body.
    pub open spec fn embeddings_response(self, body: Seq<u8>) -> ResponseModel {
        ResponseModel {
            status: OK_STATUS,
            headers: seq![
                ("content-type"@, "application/json"@),
                ("x-provider"@, self.current().name@),
            ],
            body,
        }
    }

    /// The usage that a body reports.
    pub open spec fn reported(self, body: Seq<u8>) -> Option<UsageCounts> {
        let document = match self.route {
            Route::Chat { .. } => json::json_of_text(lossy_text(body)),
            Route::Embeddings => json::json_of_bytes(body),
        };
        match document {
            Some(tree) => json::usage_in(tree),
            None => None,
        }
    }

    /// The body was read: the provider has succeeded.
    pub open spec fn on_body(self, state: GatewayModel, body: Seq<u8>, now: nat) -> DispatchStep {
        let counted = state.after_success(self.current().name@);
        match self.route {
            Route::Chat { .. } => {
                let text = lossy_text(body);
                self.respond(
                    self.stored(counted, text),
                    self.chat_response(text),
                    self.reported(body),
                    now,
                )
            },
            Route::Embeddings => self.respond(
                counted,
                self.embeddings_response(body),
                self.reported(body),
                now,
            ),
        }
    }

    /// From what came of the last action to the next one.
    pub open spec fn advance(
        self,
        state: GatewayModel,
        providers: Seq<ProviderConfig>,
        event: DispatchEvent,
        now: nat,
    ) -> DispatchStep {
        match event {
            DispatchEvent::Start => self.start(state, providers, now),
            DispatchEvent::SendFailed => self.on_send_failed(state, now),
            DispatchEvent::Status(status) => self.on_status(state, status, now),
            DispatchEvent::BodyFailed => self.on_body_failed(state, now),
            DispatchEvent::Body(body) => self.on_body(state, body@, now),
        }
    }

    /// Whether an event can come now: what a provider did can come only when one was tried.
    pub open spec fn accepts(self, event: DispatchEvent) -> bool {
        match event {
            DispatchEvent::Start => true,
            DispatchEvent::Status(status) => 100 <= status <= 999 && 0 < self.next
                <= self.candidates.len(),
            _ => 0 < self.next <= self.candidates.len(),
        }
    }
}

/// A request on its way through the providers.
#[derive(Debug)]
pub struct Dispatch {
    pub route: Route,
    pub client_id: String,
    pub reservation: Option<ReservationHandle>,
    pub cache_key: Option<String>,
    pub body: Vec<u8>,
    pub candidates: Vec<SelectedProvider>,
    pub next: usize,
    pub last_error: Option<String>,
    pub request_start: u64,
    pub upstream_start: u64,
    /// Whether the provider that was tried last has answered, and its body is awaited.
    pub answered: bool,
}

impl View for Dispatch {
    type V = DispatchModel;

    open spec fn view(&self) -> DispatchModel {
        DispatchModel {
            route: self.route,
            client: self.client_id@,
            reserved: stream::reserved_grains(self.reservation),
            cache_key: text::optional(self.cache_key),
            body: self.body@,
            candidates: selector::configs(self.candidates@),
            next: self.next as nat,
            last_error: text::optional(self.last_error),
            request_start: self.request_start as nat,
            upstream_start: self.upstream_start as nat,
            answered: self.answered,
        }
    }
}

/// A request that has not been sent to any provider yet.
pub open spec fn fresh_dispatch(
    route: Route,
    client: Seq<char>,
    reserved: Option<nat>,
    cache_key: Option<Seq<char>>,
    body: Seq<u8>,
    request_start: nat,
) -> DispatchModel {
    DispatchModel {
        route,
        client,
        reserved,
        cache_key,
        body,
        candidates: Seq::empty(),
        next: 0,
        last_error: None,
        request_start,
        upstream_start: request_start,
        answered: false,
    }
}

/// The step that a flow, the shared state and a reply make up.
pub open spec fn step_of(flow: Dispatch, state: AppState, reply: DispatchReply) -> DispatchStep {
    DispatchStep {
        flow: flow@,
        state: state@,
        action: reply.action@,
        metrics: metrics::models(reply.metrics@),
    }
}

/// Whether a reply answers the client with exactly these bytes.
pub open spec fn passes_on(reply: DispatchReply, body: Seq<u8>) -> bool {
    reply.action matches DispatchAction::Respond(response) && response.body@ == body
}

/// A list of one update.
fn single(update: MetricUpdate) -> (list: Vec<MetricUpdate>)
    ensures
        metrics::models(list@) == seq![update@],
{
    let mut list: Vec<MetricUpdate> = Vec::new();
    list.push(update);
    assert(metrics::models(list@) =~= seq![update@]);
    list
}

/// Adds an update to a list.
fn add_update(list: &mut Vec<MetricUpdate>, update: MetricUpdate)
    ensures
        metrics::models(final(list)@) == metrics::models(old(list)@).push(update@),
{
    list.push(update);
    assert(metrics::models(list@) =~= metrics::models(old(list)@).push(update@));
}

impl Dispatch {
    /// A request that has not been sent to any provider yet.
    pub fn new(
        route: Route,
        client_id: String,
        reservation: Option<ReservationHandle>,
        cache_key: Option<String>,
        body: Vec<u8>,
        request_start: u64,
    ) -> (flow: Dispatch)
        ensures
            flow@ == fresh_dispatch(
                route,
                client_id@,
                stream::reserved_grains(reservation),
                text::optional(cache_key),
                body@,
                request_start as nat,
            ),
    {
        let candidates: Vec<SelectedProvider> = Vec::new();
        assert(selector::configs(candidates@) =~= Seq::empty());
        Dispatch {
            route,
            client_id,
            reservation,
            cache_key,
            body,
            candidates,
            next: 0,
            last_error: None,
            request_start,
            upstream_start: request_start,
            answered: false,
        }
    }

    /// Gives back what is reserved.
    fn release(&mut self, state: &mut AppState, now: u64)
        requires
            old(state).wf(),
        ensures
            final(self)@ == (DispatchModel { reserved: None, ..old(self)@ }),
            final(state)@ == old(self)@.released(old(state)@, now as nat),
            final(state).same_setup(*old(state)),
            final(state).wf(),
    {
        if let Some(reservation) = self.reservation.take() {
            state.release_at(self.client_id.as_str(), reservation, now);
        }
    }

    /// Ends the request with an error.
    fn fail(
        &mut self,
        state: &mut AppState,
        updates: Vec<MetricUpdate>,
        error: AppError,
        now: u64,
    ) -> (reply: DispatchReply)
        requires
            old(state).wf(),
        ensures
            step_of(*final(self), *final(state), reply) == old(self)@.fail(
                old(state)@,
                metrics::models(updates@),
                error@,
                now as nat,
            ),
            reply.wf(),
            final(state).same_setup(*old(state)),
            final(state).wf(),
    {
        self.release(state, now);
        self.answered = false;
        DispatchReply { action: DispatchAction::Fail(error), metrics: updates }
    }

    /// Ends the request with an error, wherever it is. A provider whose answer had begun has
    /// not failed.
    pub fn abandon(&mut self, state: &mut AppState, error: AppError, now: u64) -> (reply:
        DispatchReply)
        requires
            old(state).wf(),
        ensures
            step_of(*final(self), *final(state), reply) == old(self)@.abandon(
                old(state)@,
                error@,
                now as nat,
            ),
            reply.wf(),
            final(state).same_setup(*old(state)),
            final(state).wf(),
    {
        let updates: Vec<MetricUpdate> = Vec::new();
        assert(metrics::models(updates@) =~= Seq::empty());
        if self.answered && 0 < self.next && self.next <= self.candidates.len() {
            let name = self.current_name();
            state.breaker_for(name.as_str()).record_success();
        }
        self.fail(state, updates, error, now)
    }

    /// Tries the next provider whose breaker lets the request pass.
    fn try_next(&mut self, state: &mut AppState, updates: Vec<MetricUpdate>, now: u64) -> (reply:
        DispatchReply)
        requires
            old(state).wf(),
        ensures
            step_of(*final(self), *final(state), reply) == old(self)@.try_next(
                old(state)@,
                metrics::models(updates@),
                now as nat,
            ),
            reply.wf(),
            final(state).same_setup(*old(state)),
            final(state).wf(),
    {
        while self.next < self.candidates.len()
            invariant
                state.wf(),
                state.same_setup(*old(state)),
                self@.try_next(state@, metrics::models(updates@), now as nat)
                    == old(self)@.try_next(old(state)@, metrics::models(updates@), now as nat),
            decreases self.candidates@.len() - self.next,
        {
            let at: usize = self.next;
            let provider = self.candidates[at].config.clone();
            assert(self@.candidates[at as int] == provider);
            self.next = at + 1;
            if state.breaker_for(provider.name.as_str()).allow_request_at(now) {
                self.upstream_start = now;
                let body = slice_to_vec(self.body.as_slice());
                let request = match self.route {
                    Route::Chat { stream } => build_chat_request(&provider, stream, body),
                    Route::Embeddings => build_embeddings_request(&provider, body),
                };
                return DispatchReply { action: DispatchAction::Send(request), metrics: updates };
            }
        }
        let error = match &self.last_error {
            Some(message) => AppError::upstream(message.as_str()),
            None => AppError::upstream("all providers failed"),
        };
        let mut updates = updates;
        add_update(&mut updates, record_error("all", "all_providers_failed"));
        self.fail(state, updates, error, now)
    }

    /// Selects the providers and tries the first one.
    fn start(&mut self, state: &mut AppState, now: u64) -> (reply: DispatchReply)
        requires
            old(state).wf(),
        ensures
            step_of(*final(self), *final(state), reply) == old(self)@.start(
                old(state)@,
                old(state).sorted_providers@,
                now as nat,
            ),
            reply.wf(),
            final(state).same_setup(*old(state)),
            final(state).wf(),
    {
        self.candidates = ProviderSelector::new(state).select_ordered_at(now);
        self.next = 0;
        self.answered = false;
        if self.candidates.len() == 0 {
            let error = match self.route {
                Route::Chat { .. } => AppError::upstream(
                    "no available providers (all circuit breakers open)",
                ),
                Route::Embeddings => AppError::upstream("no available providers"),
            };
            self.fail(state, single(record_error("all", "no_available_providers")), error, now)
        } else {
            let updates: Vec<MetricUpdate> = Vec::new();
            assert(metrics::models(updates@) =~= Seq::empty());
            self.try_next(state, updates, now)
        }
    }

    /// The name of the provider that was tried last.
    fn current_name(&self) -> (name: String)
        requires
            0 < self@.next <= self@.candidates.len(),
        ensures
            name@ == self@.current().name@,
    {
        assert(self@.current() == self.candidates@[self.next - 1].config);
        self.candidates[self.next - 1].config.name.clone()
    }

    /// Counts a failure of the provider and tries the next one.
    fn fail_over(&mut self, state: &mut AppState, label: &str, message: String, now: u64) -> (reply:
        DispatchReply)
        requires
            old(state).wf(),
            0 < old(self)@.next <= old(self)@.candidates.len(),
        ensures
            step_of(*final(self), *final(state), reply) == old(self)@.fail_over(
                old(state)@,
                label@,
                message@,
                now as nat,
            ),
            reply.wf(),
            final(state).same_setup(*old(state)),
            final(state).wf(),
    {
        let name = self.current_name();
        state.breaker_for(name.as_str()).record_failure_at(now);
        let updates = single(record_error(name.as_str(), label));
        self.last_error = Some(message);
        self.answered = false;
        assert(self@ == (DispatchModel {
            last_error: Some(message@),
            answered: false,
            ..old(self)@
        }));
        self.try_next(state, updates, now)
    }

    /// The provider answered with a status.
    fn on_status(&mut self, state: &mut AppState, status: u16, now: u64) -> (reply: DispatchReply)
        requires
            old(state).wf(),
            0 < old(self)@.next <= old(self)@.candidates.len(),
            100 <= status <= 999,
        ensures
            step_of(*final(self), *final(state), reply) == old(self)@.on_status(
                old(state)@,
                status,
                now as nat,
            ),
            reply.wf(),
            final(state).same_setup(*old(state)),
            final(state).wf(),
    {
        let name = self.current_name();
        let line = describe_status(status);
        let returned = concat(
            concat(name.as_str(), " returned ").as_str(),
            line.as_str(),
        );
        if is_retryable_upstream_status(status) {
            return self.fail_over(state, "retryable_error", returned, now);
        }
        if is_non_retryable_client_error(status) {
            if status == 401 || status == 403 {
                state.breaker_for(name.as_str()).record_failure_at(now);
            } else {
                state.breaker_for(name.as_str()).record_success();
            }
            let updates = single(record_error(name.as_str(), "client_error"));
            let message = concat("upstream rejected request with ", line.as_str());
            return self.fail(state, updates, AppError::BadRequest(message), now);
        }
        let embeddings: bool = match self.route {
            Route::Chat { .. } => false,
            Route::Embeddings => true,
        };
        if embeddings && !(200 <= status && status <= 299) {
            return self.fail_over(state, "unexpected_status", returned, now);
        }
        self.accept(state, now)
    }

    /// The provider accepted the request.
    fn accept(&mut self, state: &mut AppState, now: u64) -> (reply: DispatchReply)
        requires
            old(state).wf(),
            0 < old(self)@.next <= old(self)@.candidates.len(),
        ensures
            step_of(*final(self), *final(state), reply) == old(self)@.accept(
                old(state)@,
                now as nat,
            ),
            reply.wf(),
            final(state).same_setup(*old(state)),
            final(state).wf(),
    {
        let name = self.current_name();
        let mut updates = single(record_request(name.as_str(), "success"));
        add_update(
            &mut updates,
            record_upstream_latency(name.as_str(), duration_between(self.upstream_start, now)),
        );
        let streamed: bool = match self.route {
            Route::Chat { stream } => stream,
            Route::Embeddings => false,
        };
        if streamed {
            let idle: u64 = self.candidates[self.next - 1].config.stream_idle_timeout_seconds;
            assert(self@.current() == self.candidates@[self.next - 1].config);
            let session = proxy_stream_passthrough(
                name.as_str(),
                self.client_id.as_str(),
                self.reservation.take(),
                idle,
                self.upstream_start,
            );
            self.answered = false;
            add_update(
                &mut updates,
                record_request_latency(duration_between(self.request_start, now)),
            );
            DispatchReply { action: DispatchAction::Stream(session), metrics: updates }
        } else {
            self.answered = true;
            DispatchReply { action: DispatchAction::ReadBody, metrics: updates }
        }
    }

    /// The body could not be read.
    fn on_body_failed(&mut self, state: &mut AppState, now: u64) -> (reply: DispatchReply)
        requires
            old(state).wf(),
            0 < old(self)@.next <= old(self)@.candidates.len(),
        ensures
            step_of(*final(self), *final(state), reply) == old(self)@.on_body_failed(
                old(state)@,
                now as nat,
            ),
            reply.wf(),
            final(state).same_setup(*old(state)),
            final(state).wf(),
    {
        let name = self.current_name();
        let message = concat(name.as_str(), ": body read error");
        self.fail_over(state, "body_read_error", message, now)
    }

    /// Answers the client, given the usage that the body reports.
    pub fn respond(
        &mut self,
        state: &mut AppState,
        response: GatewayResponse,
        usage: Option<UsageCounts>,
        now: u64,
    ) -> (reply: DispatchReply)
        requires
            old(state).wf(),
            0 < old(self)@.next <= old(self)@.candidates.len(),
        ensures
            step_of(*final(self), *final(state), reply) == old(self)@.respond(
                old(state)@,
                response@,
                usage,
                now as nat,
            ),
            reply.wf(),
            final(state).same_setup(*old(state)),
            final(state).wf(),
    {
        let name = self.current_name();
        let mut updates: Vec<MetricUpdate> = Vec::new();
        assert(metrics::models(updates@) =~= Seq::empty());
        if let Some(usage) = usage {
            let actual: TokenAmount = match self.route {
                Route::Chat { .. } => {
                    add_update(
                        &mut updates,
                        record_tokens(name.as_str(), "prompt", usage.prompt()),
                    );
                    add_update(
                        &mut updates,
                        record_tokens(name.as_str(), "completion", usage.completion()),
                    );
                    TokenAmount::total(usage.prompt(), usage.completion())
                },
                Route::Embeddings => {
                    add_update(
                        &mut updates,
                        record_tokens(name.as_str(), "embedding", usage.total()),
                    );
                    TokenAmount::whole(usage.total())
                },
            };
            assert(metrics::models(updates@) =~= self@.usage_metrics(usage));
            if let Some(reservation) = self.reservation.take() {
                state.reconcile_at(self.client_id.as_str(), reservation, actual, now);
            }
        }
        self.release(state, now);
        self.answered = false;
        add_update(
            &mut updates,
            record_request_latency(duration_between(self.request_start, now)),
        );
        DispatchReply { action: DispatchAction::Respond(response), metrics: updates }
    }

    /// The response to a chat, from the provider's text.
    pub fn chat_response(&self, body: &str) -> (response: GatewayResponse)
        requires
            0 < self@.next <= self@.candidates.len(),
        ensures
            response@ == self@.chat_response(body@),
    {
        let mut headers: Vec<(&'static str, String)> = Vec::new();
        headers.push(("content-type", "application/json".to_string()));
        headers.push(("x-cache", "MISS".to_string()));
        headers.push(("x-provider", self.current_name()));
        let response = GatewayResponse {
            status: OK_STATUS,
            headers,
            body: slice_to_vec(body.as_bytes()),
        };
        assert(response@ =~= self@.chat_response(body@));
        response
    }

    /// The response to an embeddings request, from the provider's body.
    pub fn embeddings_response(&self, body: Vec<u8>) -> (response: GatewayResponse)
        requires
            0 < self@.next <= self@.candidates.len(),
        ensures
            response@ == self@.embeddings_response(body@),
    {
        let mut headers: Vec<(&'static str, String)> = Vec::new();
        headers.push(("content-type", "application/json".to_string()));
        headers.push(("x-provider", self.current_name()));
        let response = GatewayResponse { status: OK_STATUS, headers, body };
        assert(response@ =~= self@.embeddings_response(body@));
        response
    }

    /// The body was read.
    fn on_body(&mut self, state: &mut AppState, body: Vec<u8>, now: u64) -> (reply: DispatchReply)
        requires
            old(state).wf(),
            0 < old(self)@.next <= old(self)@.candidates.len(),
        ensures
            step_of(*final(self), *final(state), reply) == old(self)@.on_body(
                old(state)@,
                body@,
                now as nat,
            ),
            old(self).route is Chat && valid_utf8(body@) ==> lossy_text(body@) == decode_utf8(
                body@,
            ) && passes_on(reply, body@),
            reply.wf(),
            final(state).same_setup(*old(state)),
            final(state).wf(),
    {
        let name = self.current_name();
        state.breaker_for(name.as_str()).record_success();
        match self.route {
            Route::Chat { .. } => {
                let text = text_from_utf8_lossy(body.as_slice());
                proof {
                    if valid_utf8(body@) {
                        vstd::utf8::decode_utf8_encode_utf8(body@);
                    }
                }
                let usage: Option<UsageCounts> = match json::parse_text(text.as_str()) {
                    Ok(document) => json::usage_of(&document),
                    Err(_) => None,
                };
                let response = self.chat_response(text.as_str());
                if let Some(key) = &self.cache_key {
                    state.store(key.clone(), text);
                }
                self.respond(state, response, usage, now)
            },
            Route::Embeddings => {
                let usage: Option<UsageCounts> = match json::parse_bytes(body.as_slice()) {
                    Ok(document) => json::usage_of(&document),
                    Err(_) => None,
                };
                let response = self.embeddings_response(body);
                self.respond(state, response, usage, now)
            },
        }
    }

    /// From what came of the last action, at `now`, to the next one.
    pub fn advance(&mut self, state: &mut AppState, event: DispatchEvent, now: u64) -> (reply:
        DispatchReply)
        requires
            old(state).wf(),
            old(self)@.accepts(event),
        ensures
            step_of(*final(self), *final(state), reply) == old(self)@.advance(
                old(state)@,
                old(state).sorted_providers@,
                event,
                now as nat,
            ),
            event matches DispatchEvent::Body(body) ==> (old(self).route is Chat && valid_utf8(
                body@,
            ) ==> lossy_text(body@) == decode_utf8(body@) && passes_on(reply, body@)),
            reply.wf(),
            final(state).same_setup(*old(state)),
            final(state).wf(),
    {
        match event {
            DispatchEvent::Start => self.start(state, now),
            DispatchEvent::SendFailed => {
                let message = concat(self.current_name().as_str(), ": connection error");
                self.fail_over(state, "connect_error", message, now)
            },
            DispatchEvent::Status(status) => self.on_status(state, status, now),
            DispatchEvent::BodyFailed => self.on_body_failed(state, now),
            DispatchEvent::Body(body) => self.on_body(state, body, now),
        }
    }
}

/// Whether the providers are among those with these names.
pub open spec fn all_named(providers: Seq<ProviderConfig>, names: Set<Seq<char>>) -> bool {
    forall|i: int| 0 <= i < providers.len() ==> names.contains((#[trigger] providers[i]).name@)
}

/// Trying the next provider adds only bounded labels.
proof fn lemma_try_next_bounded(
    flow: DispatchModel,
    state: GatewayModel,
    metrics: Seq<MetricModel>,
    names: Set<Seq<char>>,
    now: nat,
)
    requires
        metrics::all_bounded(metrics, names),
    ensures
        metrics::all_bounded(flow.try_next(state, metrics, now).metrics, names),
    decreases flow.candidates.len() - flow.next,
{
    if flow.next < flow.candidates.len() {
        let name = flow.candidates[flow.next as int].name@;
        if !state.breaker(name).eligible(now) {
            lemma_try_next_bounded(
                DispatchModel { next: flow.next + 1, ..flow },
                state.after_allow(name, now),
                metrics,
                names,
                now,
            );
        }
    }
}

/// The providers that are selected are among those of the list.
proof fn lemma_selected_named(
    state: GatewayModel,
    providers: Seq<ProviderConfig>,
    names: Set<Seq<char>>,
    now: nat,
)
    requires
        all_named(providers, names),
    ensures
        all_named(selector::eligible_providers(state, providers, now), names),
    decreases providers.len(),
{
    if providers.len() > 0 {
        assert forall|i: int| 0 <= i < providers.drop_last().len() implies names.contains(
            (#[trigger] providers.drop_last()[i]).name@,
        ) by {
            assert(providers[i] == providers.drop_last()[i]);
        }
        lemma_selected_named(state, providers.drop_last(), names, now);
        assert(names.contains(providers[providers.len() - 1].name@));
    }
}

/// Metrics are labelled with the names of configured providers and with the gateway's own
/// words, and with nothing that a client sends.
pub proof fn law_labels_are_bounded(
    flow: DispatchModel,
    state: GatewayModel,
    providers: Seq<ProviderConfig>,
    event: DispatchEvent,
    names: Set<Seq<char>>,
    now: nat,
)
    requires
        all_named(providers, names),
        all_named(flow.candidates, names),
        flow.accepts(event),
    ensures
        ({
            let step = flow.advance(state, providers, event, now);
            metrics::all_bounded(step.metrics, names) && all_named(step.flow.candidates, names)
        }),
{
    lemma_steps(flow, state, providers, event, now);
    let none = Seq::<MetricModel>::empty();
    assert(metrics::all_bounded(none, names));
    if event is Start {
        lemma_selected_named(state, providers, names, now);
        let candidates = selector::eligible_providers(state, providers, now);
        let selected = DispatchModel { candidates, next: 0, answered: false, ..flow };
        lemma_try_next_bounded(selected, state.tracking(providers), none, names, now);
        lemma_try_next(selected, state.tracking(providers), none, now);
    } else {
        let name = flow.current().name@;
        assert(names.contains(flow.candidates[flow.next - 1].name@));
        let failed = state.after_failure(name, now);
        let labels = seq![
            "connect_error"@,
            "retryable_error"@,
            "unexpected_status"@,
            "body_read_error"@,
        ];
        assert forall|i: int, message: Seq<char>|
            0 <= i < labels.len() implies metrics::all_bounded(
            #[trigger] flow.fail_over(state, labels[i], message, now).metrics,
            names,
        ) by {
            lemma_try_next_bounded(
                DispatchModel { last_error: Some(message), answered: false, ..flow },
                failed,
                seq![metrics::error_metric(name, labels[i])],
                names,
                now,
            );
        }
        assert(labels[0] == "connect_error"@ && labels[1] == "retryable_error"@ && labels[2]
            == "unexpected_status"@ && labels[3] == "body_read_error"@);
    }
}

/// What trying the next provider comes to: a request to the first one in order whose
/// breaker lets it pass, or an error when there is none.
proof fn lemma_try_next(
    flow: DispatchModel,
    state: GatewayModel,
    metrics: Seq<MetricModel>,
    now: nat,
)
    ensures
        ({
            let step = flow.try_next(state, metrics, now);
            &&& step.flow.candidates == flow.candidates
            &&& step.flow.client == flow.client
            &&& step.flow.route == flow.route
            &&& step.flow.cache_key == flow.cache_key
            &&& match step.action {
                ActionModel::Send(request) => {
                    &&& flow.next < step.flow.next <= flow.candidates.len()
                    &&& request == flow.outbound_to(step.flow.current())
                    &&& state.breaker(step.flow.current().name@).eligible(now)
                    &&& forall|j: int|
                        flow.next <= j < step.flow.next - 1 ==> !state.breaker(
                            (#[trigger] flow.candidates[j]).name@,
                        ).eligible(now)
                    &&& step.flow.reserved == flow.reserved
                },
                ActionModel::Fail(error) => {
                    &&& error is Upstream
                    &&& step.flow.reserved is None
                    &&& forall|j: int|
                        flow.next <= j < flow.candidates.len() ==> !state.breaker(
                            (#[trigger] flow.candidates[j]).name@,
                        ).eligible(now)
                },
                _ => false,
            }
        }),
    decreases flow.candidates.len() - flow.next,
{
    if flow.next < flow.candidates.len() {
        let name = flow.candidates[flow.next as int].name@;
        if !state.breaker(name).eligible(now) {
            let asked = state.after_allow(name, now);
            let tried = DispatchModel { next: flow.next + 1, ..flow };
            lemma_try_next(tried, asked, metrics, now);
            assert forall|other: Seq<char>| #[trigger] asked.breaker(other) == state.breaker(other) by {
                if other == name {
                    assert(asked.breakers[name] == state.breaker(name));
                }
            }
            let step = flow.try_next(state, metrics, now);
            assert(step == tried.try_next(asked, metrics, now));
        }
    }
}

/// Selecting the providers leaves the cache key as it is.
pub proof fn lemma_start_keeps_key(
    flow: DispatchModel,
    state: GatewayModel,
    providers: Seq<ProviderConfig>,
    now: nat,
)
    ensures
        flow.start(state, providers, now).flow.cache_key == flow.cache_key,
{
    let candidates = selector::eligible_providers(state, providers, now);
    let selected = DispatchModel { candidates, next: 0, answered: false, ..flow };
    lemma_try_next(selected, state.tracking(providers), Seq::empty(), now);
}

/// A request holds on to its reservation as long as it is on its way, and has none left
/// when it is done: it was settled or given back, or the stream has taken it over.
pub proof fn law_reservation_is_accounted_for(
    flow: DispatchModel,
    state: GatewayModel,
    providers: Seq<ProviderConfig>,
    event: DispatchEvent,
    now: nat,
)
    ensures
        ({
            let step = flow.advance(state, providers, event, now);
            match step.action {
                ActionModel::Send(_) => step.flow.reserved == flow.reserved,
                ActionModel::ReadBody => step.flow.reserved == flow.reserved,
                ActionModel::Stream(stream) => step.flow.reserved is None && stream.reserved
                    == flow.reserved && stream.client == flow.client,
                ActionModel::Respond(_) => step.flow.reserved is None,
                ActionModel::Fail(_) => step.flow.reserved is None,
            }
        }),
{
    lemma_steps(flow, state, providers, event, now);
}

/// The step after each event, as far as it goes through the providers.
proof fn lemma_steps(
    flow: DispatchModel,
    state: GatewayModel,
    providers: Seq<ProviderConfig>,
    event: DispatchEvent,
    now: nat,
)
    ensures
        ({
            let step = flow.advance(state, providers, event, now);
            &&& step.flow.client == flow.client
            &&& !(event is Start) ==> step.flow.candidates == flow.candidates
            &&& step.action matches ActionModel::Send(request) ==> {
                &&& step.flow.reserved == flow.reserved
                &&& event is Start || flow.next < step.flow.next
                &&& 0 < step.flow.next <= step.flow.candidates.len()
                &&& request == flow.outbound_to(step.flow.current())
            }
            &&& step.action is Fail ==> step.flow.reserved is None
            &&& step.action is ReadBody ==> step.flow.reserved == flow.reserved
            &&& step.action is Respond ==> step.flow.reserved is None
            &&& step.action matches ActionModel::Stream(stream) ==> step.flow.reserved is None
                && stream.reserved == flow.reserved && stream.client == flow.client
        }),
{
    let candidates = selector::eligible_providers(state, providers, now);
    let selected = DispatchModel { candidates, next: 0, answered: false, ..flow };
    lemma_try_next(selected, state.tracking(providers), Seq::empty(), now);
    let name = flow.current().name@;
    let failed = state.after_failure(name, now);
    match event {
        DispatchEvent::SendFailed => {
            let message = name + ": connection error"@;
            lemma_try_next(
                DispatchModel { last_error: Some(message), answered: false, ..flow },
                failed,
                seq![metrics::error_metric(name, "connect_error"@)],
                now,
            );
        },
        DispatchEvent::Status(status) => {
            let message = name + " returned "@ + status_line(status);
            lemma_try_next(
                DispatchModel { last_error: Some(message), answered: false, ..flow },
                failed,
                seq![metrics::error_metric(name, "retryable_error"@)],
                now,
            );
            lemma_try_next(
                DispatchModel { last_error: Some(message), answered: false, ..flow },
                failed,
                seq![metrics::error_metric(name, "unexpected_status"@)],
                now,
            );
        },
        DispatchEvent::BodyFailed => {
            let message = name + ": body read error"@;
            lemma_try_next(
                DispatchModel { last_error: Some(message), answered: false, ..flow },
                failed,
                seq![metrics::error_metric(name, "body_read_error"@)],
                now,
            );
        },
        _ => {},
    }
}

/// Providers are tried in the order in which they were selected, and each at most once:
/// every request that is sent goes to a provider further on in the list.
pub proof fn law_providers_are_tried_in_order(
    flow: DispatchModel,
    state: GatewayModel,
    providers: Seq<ProviderConfig>,
    event: DispatchEvent,
    now: nat,
)
    ensures
        ({
            let step = flow.advance(state, providers, event, now);
            &&& event is Start ==> step.flow.candidates == selector::eligible_providers(
                state,
                providers,
                now,
            )
            &&& !(event is Start) ==> step.flow.candidates == flow.candidates
            &&& step.action matches ActionModel::Send(request) ==> {
                &&& event is Start || flow.next < step.flow.next
                &&& 0 < step.flow.next <= step.flow.candidates.len()
                &&& request == flow.outbound_to(step.flow.current())
            }
        }),
{
    lemma_steps(flow, state, providers, event, now);
    if event is Start {
        let candidates = selector::eligible_providers(state, providers, now);
        let selected = DispatchModel { candidates, next: 0, answered: false, ..flow };
        lemma_try_next(selected, state.tracking(providers), Seq::empty(), now);
    }
}

/// A request that a provider rejects is not repeated: the client gets the rejection, and no
/// other provider is tried.
pub proof fn law_rejected_requests_are_not_repeated(
    flow: DispatchModel,
    state: GatewayModel,
    providers: Seq<ProviderConfig>,
    status: u16,
    now: nat,
)
    requires
        rejecting(status),
    ensures
        flow.advance(state, providers, DispatchEvent::Status(status), now).action
            == ActionModel::Fail(
            ErrorModel::BadRequest("upstream rejected request with "@ + status_line(status)),
        ),
{
}

/// After a provider failed, the next one in order whose breaker lets the request pass is
/// tried. The request fails only when there is none.
pub proof fn law_failover_reaches_the_next_provider(
    flow: DispatchModel,
    state: GatewayModel,
    providers: Seq<ProviderConfig>,
    status: u16,
    next: int,
    now: nat,
)
    requires
        retryable(status),
        flow.next <= next < flow.candidates.len(),
        state.after_failure(flow.current().name@, now).breaker(
            flow.candidates[next].name@,
        ).eligible(now),
        forall|j: int|
            flow.next <= j < next ==> !state.after_failure(flow.current().name@, now).breaker(
                (#[trigger] flow.candidates[j]).name@,
            ).eligible(now),
    ensures
        flow.advance(state, providers, DispatchEvent::Status(status), now).action
            == ActionModel::Send(
            flow.outbound_to(flow.candidates[next]),
        ),
        flow.advance(state, providers, DispatchEvent::SendFailed, now).action == ActionModel::Send(
            flow.outbound_to(flow.candidates[next]),
        ),
        flow.advance(state, providers, DispatchEvent::BodyFailed, now).action == ActionModel::Send(
            flow.outbound_to(flow.candidates[next]),
        ),
{
    let name = flow.current().name@;
    let failed = state.after_failure(name, now);
    let returned = DispatchModel {
        last_error: Some(name + " returned "@ + status_line(status)),
        answered: false,
        ..flow
    };
    let refused = DispatchModel {
        last_error: Some(name + ": connection error"@),
        answered: false,
        ..flow
    };
    let broken = DispatchModel {
        last_error: Some(name + ": body read error"@),
        answered: false,
        ..flow
    };
    let first = seq![metrics::error_metric(name, "retryable_error"@)];
    let second = seq![metrics::error_metric(name, "connect_error"@)];
    let third = seq![metrics::error_metric(name, "body_read_error"@)];
    lemma_try_next(returned, failed, first, now);
    lemma_try_next(refused, failed, second, now);
    lemma_try_next(broken, failed, third, now);
    let a = returned.try_next(failed, first, now);
    let b = refused.try_next(failed, second, now);
    let c = broken.try_next(failed, third, now);
    assert(a.action is Send) by {
        assert(failed.breaker(flow.candidates[next].name@).eligible(now));
    }
    assert(b.action is Send) by {
        assert(failed.breaker(flow.candidates[next].name@).eligible(now));
    }
    assert(c.action is Send) by {
        assert(failed.breaker(flow.candidates[next].name@).eligible(now));
    }
    if a.flow.next - 1 > next {
        assert(!failed.breaker(flow.candidates[next].name@).eligible(now));
    }
    if b.flow.next - 1 > next {
        assert(!failed.breaker(flow.candidates[next].name@).eligible(now));
    }
    if c.flow.next - 1 > next {
        assert(!failed.breaker(flow.candidates[next].name@).eligible(now));
    }
}

/// Trying the next provider leaves the breakers of all providers but those that are asked
/// as they were.
proof fn lemma_try_next_isolated(
    flow: DispatchModel,
    state: GatewayModel,
    metrics: Seq<MetricModel>,
    name: Seq<char>,
    now: nat,
)
    requires
        forall|j: int|
            flow.next <= j < flow.candidates.len() ==> (#[trigger] flow.candidates[j]).name@ != name,
    ensures
        flow.try_next(state, metrics, now).state.breaker(name) == state.breaker(name),
    decreases flow.candidates.len() - flow.next,
{
    if flow.next < flow.candidates.len() {
        let asked = flow.candidates[flow.next as int].name@;
        if !state.breaker(asked).eligible(now) {
            lemma_try_next_isolated(
                DispatchModel { next: flow.next + 1, ..flow },
                state.after_allow(asked, now),
                metrics,
                name,
                now,
            );
        }
    }
}

/// A failure counts against the provider, once: a server error, an overload, a timeout, a
/// lost connection or a body that breaks off. (A provider that is listed again further on may be asked at once, so
/// this is said of one that is not.)
pub proof fn law_failures_count_against_the_provider(
    flow: DispatchModel,
    state: GatewayModel,
    providers: Seq<ProviderConfig>,
    status: u16,
    now: nat,
)
    requires
        retryable(status),
        forall|j: int|
            flow.next <= j < flow.candidates.len() ==> (#[trigger] flow.candidates[j]).name@
                != flow.current().name@,
    ensures
        flow.advance(state, providers, DispatchEvent::Status(status), now).state.breaker(
            flow.current().name@,
        ) == state.breaker(flow.current().name@).after_failure(now),
        flow.advance(state, providers, DispatchEvent::SendFailed, now).state.breaker(
            flow.current().name@,
        ) == state.breaker(flow.current().name@).after_failure(now),
        flow.advance(state, providers, DispatchEvent::BodyFailed, now).state.breaker(
            flow.current().name@,
        ) == state.breaker(flow.current().name@).after_failure(now),
{
    let name = flow.current().name@;
    let failed = state.after_failure(name, now);
    lemma_try_next_isolated(
        DispatchModel {
            last_error: Some(name + " returned "@ + status_line(status)),
            answered: false,
            ..flow
        },
        failed,
        seq![metrics::error_metric(name, "retryable_error"@)],
        name,
        now,
    );
    lemma_try_next_isolated(
        DispatchModel {
        last_error: Some(name + ": connection error"@),
        answered: false,
        ..flow
    },
        failed,
        seq![metrics::error_metric(name, "connect_error"@)],
        name,
        now,
    );
    lemma_try_next_isolated(
        DispatchModel {
            last_error: Some(name + ": body read error"@),
            answered: false,
            ..flow
        },
        failed,
        seq![metrics::error_metric(name, "body_read_error"@)],
        name,
        now,
    );
}

/// Only a complete answer is a success of the provider: that it begins to answer changes no
/// breaker, and that its body was read counts once.
pub proof fn law_complete_answers_count_as_successes(
    flow: DispatchModel,
    state: GatewayModel,
    providers: Seq<ProviderConfig>,
    status: u16,
    body: Vec<u8>,
    now: nat,
)
    requires
        200 <= status <= 299,
    ensures
        flow.advance(state, providers, DispatchEvent::Status(status), now).state == state,
        flow.advance(state, providers, DispatchEvent::Body(body), now).state.breakers
            == state.after_success(flow.current().name@).breakers,
{
}

/// A request that is itself at fault does not count against the provider: its breaker has
/// seen a success. Only a status that speaks of the provider's own key counts.
pub proof fn law_bad_requests_do_not_count(
    flow: DispatchModel,
    state: GatewayModel,
    providers: Seq<ProviderConfig>,
    status: u16,
    now: nat,
)
    requires
        rejecting(status),
    ensures
        flow.advance(state, providers, DispatchEvent::Status(status), now).state.breaker(
            flow.current().name@,
        ) == if misconfigured(status) {
            state.breaker(flow.current().name@).after_failure(now)
        } else {
            state.breaker(flow.current().name@).after_success()
        },
{
}

/// A request is never sent to a provider whose breaker denies it at that moment. What came
/// of the last request has been counted by then.
pub proof fn law_open_providers_are_skipped(
    flow: DispatchModel,
    state: GatewayModel,
    providers: Seq<ProviderConfig>,
    event: DispatchEvent,
    now: nat,
)
    ensures
        ({
            let step = flow.advance(state, providers, event, now);
            let counted = if event is Start {
                state
            } else {
                state.after_failure(flow.current().name@, now)
            };
            step.action is Send ==> counted.breaker(step.flow.current().name@).eligible(now)
        }),
{
    let name = flow.current().name@;
    let failed = state.after_failure(name, now);
    let candidates = selector::eligible_providers(state, providers, now);
    let selected = DispatchModel { candidates, next: 0, answered: false, ..flow };
    selector::lemma_tracking_keeps_breakers(state, providers);
    lemma_try_next(selected, state.tracking(providers), Seq::empty(), now);
    assert forall|label: Seq<char>, message: Seq<char>|
        (#[trigger] flow.fail_over(state, label, message, now)).action is Send implies failed.breaker(
        flow.fail_over(state, label, message, now).flow.current().name@,
    ).eligible(now) by {
        lemma_try_next(
            DispatchModel { last_error: Some(message), answered: false, ..flow },
            failed,
            seq![metrics::error_metric(name, label)],
            now,
        );
    }
}

/// When no provider is left, what is reserved is given back, and nothing else happens to
/// any bucket.
proof fn lemma_try_next_releases(
    flow: DispatchModel,
    state: GatewayModel,
    metrics: Seq<MetricModel>,
    now: nat,
)
    ensures
        ({
            let step = flow.try_next(state, metrics, now);
            step.action is Fail ==> step.state.buckets == flow.released(state, now).buckets
        }),
    decreases flow.candidates.len() - flow.next,
{
    if flow.next < flow.candidates.len() {
        let name = flow.candidates[flow.next as int].name@;
        if !state.breaker(name).eligible(now) {
            lemma_try_next_releases(
                DispatchModel { next: flow.next + 1, ..flow },
                state.after_allow(name, now),
                metrics,
                now,
            );
        }
    }
}

/// A request that fails costs nothing: its client's bucket is as if nothing had been
/// reserved. `before` is the state in which the reservation was made, at `now`; the request
/// fails at `later`.
pub proof fn law_failed_requests_cost_nothing(
    flow: DispatchModel,
    before: GatewayModel,
    state: GatewayModel,
    providers: Seq<ProviderConfig>,
    event: DispatchEvent,
    reserved: nat,
    now: nat,
    later: nat,
)
    requires
        before.valid(),
        before.client(flow.client, now).tpm.affords(reserved, now),
        state.buckets == before.after_reserve(flow.client, reserved, now).buckets,
        flow.reserved == Some(reserved),
        flow.advance(state, providers, event, later).action is Fail,
    ensures
        flow.advance(state, providers, event, later).state.client(flow.client, later).tpm
            == before.client(flow.client, now).tpm.refilled(now).refilled(later),
{
    let bucket = before.client(flow.client, now).tpm;
    assert(before.buckets.contains_key(flow.client) ==> before.buckets[flow.client].valid());
    rate_limit::law_release_undoes_reservation(bucket, reserved, now, later);
    let candidates = selector::eligible_providers(state, providers, later);
    let selected = DispatchModel { candidates, next: 0, answered: false, ..flow };
    selector::lemma_tracking_keeps_breakers(state, providers);
    lemma_try_next_releases(selected, state.tracking(providers), Seq::empty(), later);
    let name = flow.current().name@;
    assert forall|label: Seq<char>, message: Seq<char>|
        (#[trigger] flow.fail_over(state, label, message, later)).action is Fail implies flow.fail_over(
        state,
        label,
        message,
        later,
    ).state.buckets == flow.released(state, later).buckets by {
        lemma_try_next_releases(
            DispatchModel { last_error: Some(message), answered: false, ..flow },
            state.after_failure(name, later),
            seq![metrics::error_metric(name, label)],
            later,
        );
    }
}

/// A request that reports less usage than was reserved for it is charged what it used:
/// once the bucket is refilled, it is as if that had been asked for in the first place.
pub proof fn law_reported_usage_is_charged(
    flow: DispatchModel,
    before: GatewayModel,
    state: GatewayModel,
    providers: Seq<ProviderConfig>,
    body: Vec<u8>,
    reserved: nat,
    now: nat,
    later: nat,
)
    requires
        before.valid(),
        before.client(flow.client, now).tpm.affords(reserved, now),
        state.buckets == before.after_reserve(flow.client, reserved, now).buckets,
        flow.reserved == Some(reserved),
        flow.reported(body@) is Some,
        stream::token_grains(flow.charged(flow.reported(body@)->0)) <= reserved,
    ensures
        flow.advance(state, providers, DispatchEvent::Body(body), later).state.client(
            flow.client,
            later,
        ).tpm.refilled(later) == before.client(flow.client, now).tpm.after_consume(
            stream::token_grains(flow.charged(flow.reported(body@)->0)),
            now,
        ).refilled(later),
{
    let bucket = before.client(flow.client, now).tpm;
    let actual = stream::token_grains(flow.charged(flow.reported(body@)->0));
    assert(before.buckets.contains_key(flow.client) ==> before.buckets[flow.client].valid());
    rate_limit::law_reconcile_refunds_the_surplus(bucket, reserved, actual, now, later);
}

/// What trying the next provider leaves as it is, what it records, and with which words it
/// fails.
proof fn lemma_try_next_details(
    flow: DispatchModel,
    state: GatewayModel,
    metrics: Seq<MetricModel>,
    now: nat,
)
    ensures
        ({
            let step = flow.try_next(state, metrics, now);
            &&& step.flow.body == flow.body
            &&& step.flow.request_start == flow.request_start
            &&& step.flow.answered == false || step.flow.answered == flow.answered
            &&& step.state.stored == state.stored
            &&& step.action is Send || step.action is Fail
            &&& step.action is Send ==> {
                &&& step.metrics == metrics
                &&& step.flow.upstream_start == now
                &&& step.state.buckets == state.buckets
            }
            &&& step.action is Fail ==> {
                &&& step.metrics == metrics.push(
                    metrics::error_metric("all"@, "all_providers_failed"@),
                )
                &&& flow.last_error is Some ==> step.action == ActionModel::Fail(
                    ErrorModel::Upstream(flow.last_error->0),
                )
                &&& flow.last_error is None ==> step.action == ActionModel::Fail(
                    ErrorModel::Upstream("all providers failed"@),
                )
            }
        }),
    decreases flow.candidates.len() - flow.next,
{
    if flow.next < flow.candidates.len() {
        let name = flow.candidates[flow.next as int].name@;
        if !state.breaker(name).eligible(now) {
            lemma_try_next_details(
                DispatchModel { next: flow.next + 1, ..flow },
                state.after_allow(name, now),
                metrics,
                now,
            );
        }
    }
}

/// A failure of the provider that was tried last, as it is told of in `message`.
proof fn lemma_fail_over_details(
    flow: DispatchModel,
    state: GatewayModel,
    label: Seq<char>,
    message: Seq<char>,
    now: nat,
)
    ensures
        ({
            let step = flow.fail_over(state, label, message, now);
            let name = flow.current().name@;
            &&& moved_on(flow, state, step, now)
            &&& step.flow.body == flow.body
            &&& step.flow.request_start == flow.request_start
            &&& step.flow.candidates == flow.candidates
            &&& step.flow.route == flow.route
            &&& step.action is Send ==> step.flow.upstream_start == now && step.metrics == seq![
                metrics::error_metric(name, label),
            ]
            &&& step.action is Fail ==> step.action == ActionModel::Fail(
                ErrorModel::Upstream(message),
            ) && step.metrics == seq![
                metrics::error_metric(name, label),
                metrics::error_metric("all"@, "all_providers_failed"@),
            ]
            &&& step.state.stored == state.stored
        }),
{
    let name = flow.current().name@;
    let failed = state.after_failure(name, now);
    let next = DispatchModel { last_error: Some(message), answered: false, ..flow };
    let first = seq![metrics::error_metric(name, label)];
    lemma_try_next(next, failed, first, now);
    lemma_try_next_details(next, failed, first, now);
    assert(first.push(metrics::error_metric("all"@, "all_providers_failed"@)) =~= seq![
        metrics::error_metric(name, label),
        metrics::error_metric("all"@, "all_providers_failed"@),
    ]);
    lemma_try_next_breakers(next, failed, first, now);
    lemma_try_next_releases(next, failed, first, now);
}

/// What trying the next provider does to the breakers.
proof fn lemma_try_next_breakers(
    flow: DispatchModel,
    state: GatewayModel,
    metrics: Seq<MetricModel>,
    now: nat,
)
    ensures
        ({
            let step = flow.try_next(state, metrics, now);
            &&& step.action is Send ==> asked_only(
                state,
                step.state,
                step.flow.current().name@,
                now,
            )
            &&& step.action is Fail ==> forall|other: Seq<char>| #[trigger]
                step.state.breaker(other) == state.breaker(other)
        }),
    decreases flow.candidates.len() - flow.next,
{
    if flow.next < flow.candidates.len() {
        let name = flow.candidates[flow.next as int].name@;
        if !state.breaker(name).eligible(now) {
            let asked = state.after_allow(name, now);
            let tried = DispatchModel { next: flow.next + 1, ..flow };
            lemma_try_next_breakers(tried, asked, metrics, now);
            assert forall|other: Seq<char>| #[trigger] asked.breaker(other) == state.breaker(other) by {
                if other == name {
                    assert(asked.breakers[name] == state.breaker(name));
                }
            }
            let step = flow.try_next(state, metrics, now);
            assert(step == tried.try_next(asked, metrics, now));
            if step.action is Fail {
                assert forall|other: Seq<char>| #[trigger]
                    step.state.breaker(other) == state.breaker(other) by {
                    assert(step.state.breaker(other) == asked.breaker(other));
                }
            }
        }
    }
}

/// Whether a step passes from a provider that failed to the next one: the request goes, as it
/// is, to the first provider further on whose breaker lets it pass now that the failure is
/// counted, or fails if there is none. The failure counts once; the provider that the request
/// goes to is asked once, which takes a probe of one that is not closed; no other breaker
/// changes. The client's tokens stay reserved, or are given back when the request fails.
pub open spec fn moved_on(
    flow: DispatchModel,
    state: GatewayModel,
    step: DispatchStep,
    now: nat,
) -> bool {
    let name = flow.current().name@;
    let failed = state.after_failure(name, now);
    &&& match step.action {
        ActionModel::Send(request) => exists|n: int|
            {
                &&& flow.next <= n < flow.candidates.len()
                &&& failed.breaker((#[trigger] flow.candidates[n]).name@).eligible(now)
                &&& forall|j: int|
                    flow.next <= j < n ==> !failed.breaker(
                        (#[trigger] flow.candidates[j]).name@,
                    ).eligible(now)
                &&& request == sent_to(flow, flow.candidates[n])
                &&& step.flow.next == n + 1
                &&& step.flow.reserved == flow.reserved
                &&& asked_only(failed, step.state, flow.candidates[n].name@, now)
                &&& step.state.buckets == state.buckets
            },
        ActionModel::Fail(error) => {
            &&& error is Upstream
            &&& forall|j: int|
                flow.next <= j < flow.candidates.len() ==> !failed.breaker(
                    (#[trigger] flow.candidates[j]).name@,
                ).eligible(now)
            &&& step.flow.reserved is None
            &&& forall|other: Seq<char>| #[trigger]
                step.state.breaker(other) == failed.breaker(other)
            &&& flow.reserved is Some ==> step.state.client(flow.client, now).tpm == state.client(
                flow.client,
                now,
            ).tpm.after_refund(flow.reserved->0, now)
        },
        _ => false,
    }
    &&& failed.breaker(name) == state.breaker(name).after_failure(now)
}

/// Whether a provider was asked to take a request, and no other breaker changed.
pub open spec fn asked_only(
    before: GatewayModel,
    after: GatewayModel,
    name: Seq<char>,
    now: nat,
) -> bool {
    &&& after.breaker(name) == before.breaker(name).after_allow(now)
    &&& forall|other: Seq<char>|
        other != name ==> #[trigger] after.breaker(other) == before.breaker(other)
}

/// The request to a provider: the body of the flow, under the path of its endpoint.
pub open spec fn sent_to(flow: DispatchModel, provider: ProviderConfig) -> OutboundModel {
    client::outbound(
        provider,
        match flow.route {
            Route::Chat { .. } => "/v1/chat/completions"@,
            Route::Embeddings => "/v1/embeddings"@,
        },
        flow.route == (Route::Chat { stream: true }),
        flow.body,
    )
}

/// A provider that answers with any status from 500 to 599, with 429 or with 408 has failed:
/// the failure counts, and the same request goes to the next provider whose breaker lets it
/// pass. Only when there is none does it fail, with the words of this failure.
pub proof fn law_server_errors_fail_over(
    flow: DispatchModel,
    state: GatewayModel,
    providers: Seq<ProviderConfig>,
    status: u16,
    now: nat,
)
    requires
        500 <= status <= 599 || status == 429 || status == 408,
    ensures
        ({
            let step = flow.advance(state, providers, DispatchEvent::Status(status), now);
            let name = flow.current().name@;
            &&& moved_on(flow, state, step, now)
            &&& step.metrics[0] == error_count(name, "retryable_error"@)
            &&& step.action is Send ==> step.metrics.len() == 1
            &&& step.action is Fail ==> step.metrics.len() == 2 && step.metrics[1] == error_count(
                "all"@,
                "all_providers_failed"@,
            ) && step.action == ActionModel::Fail(
                ErrorModel::Upstream(name + " returned "@ + status_line(status)),
            )
        }),
{
    let name = flow.current().name@;
    let message = name + " returned "@ + status_line(status);
    lemma_fail_over_details(flow, state, "retryable_error"@, message, now);
}

/// One more error, by where it arose and what it was.
pub open spec fn error_count(source: Seq<char>, error: Seq<char>) -> MetricModel {
    MetricModel {
        name: "gateway_request_errors_total"@,
        labels: seq![("provider"@, source), ("error"@, error)],
        op: metrics::MetricOp::CounterAdd(1),
    }
}

/// A provider that cannot be reached, or whose body breaks off, has failed as well, for a
/// chat and for embeddings alike.
pub proof fn law_lost_connections_fail_over(
    flow: DispatchModel,
    state: GatewayModel,
    providers: Seq<ProviderConfig>,
    now: nat,
)
    ensures
        ({
            let step = flow.advance(state, providers, DispatchEvent::SendFailed, now);
            let name = flow.current().name@;
            &&& moved_on(flow, state, step, now)
            &&& step.metrics[0] == error_count(name, "connect_error"@)
            &&& step.action is Fail ==> step.action == ActionModel::Fail(
                ErrorModel::Upstream(name + ": connection error"@),
            )
        }),
        ({
            let step = flow.advance(state, providers, DispatchEvent::BodyFailed, now);
            let name = flow.current().name@;
            &&& moved_on(flow, state, step, now)
            &&& step.metrics[0] == error_count(name, "body_read_error"@)
            &&& step.action is Fail ==> step.action == ActionModel::Fail(
                ErrorModel::Upstream(name + ": body read error"@),
            )
        }),
{
    let name = flow.current().name@;
    lemma_fail_over_details(flow, state, "connect_error"@, name + ": connection error"@, now);
    lemma_fail_over_details(flow, state, "body_read_error"@, name + ": body read error"@, now);
}

/// An answer is passed on, as a stream if one was asked for and else as a whole, if and only
/// if its status is no error, which is one from 400 to 599. For embeddings it must be one from
/// 200 to 299; all others that are no error are failures of the provider. Passing an answer on
/// changes nothing but what is awaited.
pub proof fn law_only_good_answers_are_passed_on(
    flow: DispatchModel,
    state: GatewayModel,
    providers: Seq<ProviderConfig>,
    status: u16,
    now: nat,
)
    ensures
        ({
            let step = flow.advance(state, providers, DispatchEvent::Status(status), now);
            let passed = step.action is ReadBody || step.action is Stream;
            &&& passed ==> status < 400 || status >= 600
            &&& flow.route is Chat ==> (passed <==> status < 400 || status >= 600)
            &&& flow.route is Embeddings ==> (passed <==> 200 <= status <= 299)
            &&& passed ==> (step.action is Stream <==> flow.route == (Route::Chat { stream: true }))
            &&& passed ==> step.state == state && step.flow.body == flow.body
                && step.flow.candidates == flow.candidates && step.flow.next == flow.next
                && step.flow.cache_key == flow.cache_key
            &&& flow.route is Embeddings && !(400 <= status <= 599) && !passed ==> moved_on(
                flow,
                state,
                step,
                now,
            )
            &&& !(step.action is Respond)
        }),
{
    let name = flow.current().name@;
    let message = name + " returned "@ + status_line(status);
    lemma_fail_over_details(flow, state, "retryable_error"@, message, now);
    lemma_fail_over_details(flow, state, "unexpected_status"@, message, now);
}

/// What is recorded of an answer that is passed on: a success of the provider, the time that
/// it took to answer and, for a stream, the time that the request took. The stream is that of
/// the provider, for the client, with the reservation of the request, and it is timed from
/// the moment the request was sent.
pub proof fn law_good_answers_are_measured(
    flow: DispatchModel,
    state: GatewayModel,
    providers: Seq<ProviderConfig>,
    status: u16,
    now: nat,
)
    requires
        200 <= status <= 299,
        flow.request_start <= flow.upstream_start <= now <= u64::MAX,
    ensures
        ({
            let step = flow.advance(state, providers, DispatchEvent::Status(status), now);
            let provider = flow.current();
            let streamed = flow.route == (Route::Chat { stream: true });
            &&& step.metrics.len() == if streamed {
                3int
            } else {
                2int
            }
            &&& step.metrics[0] == (MetricModel {
                name: "gateway_requests_total"@,
                labels: seq![("provider"@, provider.name@), ("status"@, "success"@)],
                op: metrics::MetricOp::CounterAdd(1),
            })
            &&& step.metrics[1] == (MetricModel {
                name: "gateway_upstream_latency_seconds"@,
                labels: seq![("provider"@, provider.name@)],
                op: metrics::MetricOp::HistogramRecord((now - flow.upstream_start) as u128),
            })
            &&& streamed ==> step.metrics[2] == (MetricModel {
                name: "gateway_request_latency_seconds"@,
                labels: Seq::empty(),
                op: metrics::MetricOp::HistogramRecord((now - flow.request_start) as u128),
            })
            &&& step.action matches ActionModel::Stream(s) ==> {
                &&& s.provider == provider.name@
                &&& s.client == flow.client
                &&& s.reserved == flow.reserved
                &&& s.start == flow.upstream_start
                &&& s.idle_timeout_seconds == if provider.stream_idle_timeout_seconds == 0 {
                    1
                } else {
                    provider.stream_idle_timeout_seconds as nat
                }
                &&& s.pending.len() == 0
                &&& !s.ttft_recorded && !s.usage_charged && !s.outcome_reported
            }
            &&& !streamed ==> step.flow.reserved == flow.reserved
        }),
{
}

/// Any other status from 400 to 499 rejects the request for good. The client is told so with
/// the status; only 401 and 403 count against the provider, the others are answers of a sound
/// provider.
pub proof fn law_client_errors_end_the_request(
    flow: DispatchModel,
    state: GatewayModel,
    providers: Seq<ProviderConfig>,
    status: u16,
    now: nat,
)
    requires
        400 <= status <= 499,
        status != 408,
        status != 429,
    ensures
        ({
            let step = flow.advance(state, providers, DispatchEvent::Status(status), now);
            let name = flow.current().name@;
            &&& step.action == ActionModel::Fail(
                ErrorModel::BadRequest("upstream rejected request with "@ + status_line(status)),
            )
            &&& step.metrics.len() == 1
            &&& step.metrics[0] == error_count(name, "client_error"@)
            &&& status == 401 || status == 403 ==> step.state.breaker(name) == state.breaker(
                name,
            ).after_failure(now)
            &&& status != 401 && status != 403 ==> step.state.breaker(name) == state.breaker(
                name,
            ).after_success()
            &&& step.state.stored == state.stored
            &&& step.flow.reserved is None
            &&& flow.reserved is Some ==> step.state.client(flow.client, now).tpm == state.client(
                flow.client,
                now,
            ).tpm.after_refund(flow.reserved->0, now)
        }),
{
}

/// A request starts with the first of the selected providers whose breaker lets it pass, as
/// it is; with none selected it fails at once. It was sent at `now`, and nothing of it is
/// lost on the way.
pub proof fn law_requests_start_with_the_first_provider(
    flow: DispatchModel,
    state: GatewayModel,
    providers: Seq<ProviderConfig>,
    now: nat,
)
    ensures
        ({
            let step = flow.advance(state, providers, DispatchEvent::Start, now);
            let selected = selector::eligible_providers(state, providers, now);
            &&& selected.len() > 0 ==> {
                &&& step.action == ActionModel::Send(sent_to(flow, selected[0]))
                &&& step.flow.next == 1
                &&& step.flow.candidates == selected
                &&& step.flow.upstream_start == now
                &&& step.flow.reserved == flow.reserved
                &&& step.metrics.len() == 0
                &&& step.state.buckets == state.buckets
                &&& asked_only(state, step.state, selected[0].name@, now)
            }
            &&& selected.len() == 0 ==> {
                &&& step.action == ActionModel::Fail(
                    ErrorModel::Upstream(
                        match flow.route {
                            Route::Chat {
                                ..
                            } => "no available providers (all circuit breakers open)"@,
                            Route::Embeddings => "no available providers"@,
                        },
                    ),
                )
                &&& step.metrics.len() == 1
                &&& step.metrics[0] == error_count("all"@, "no_available_providers"@)
            }
            &&& step.flow.body == flow.body
            &&& step.flow.route == flow.route
            &&& step.flow.client == flow.client
            &&& step.flow.cache_key == flow.cache_key
            &&& step.flow.request_start == flow.request_start
            &&& step.state.stored == state.stored
        }),
{
    let selected = selector::eligible_providers(state, providers, now);
    let start = DispatchModel { candidates: selected, next: 0, answered: false, ..flow };
    let tracking = state.tracking(providers);
    selector::lemma_tracking_keeps_breakers(state, providers);
    lemma_try_next(start, tracking, Seq::empty(), now);
    lemma_try_next_details(start, tracking, Seq::empty(), now);
    lemma_try_next_breakers(start, tracking, Seq::empty(), now);
    if selected.len() > 0 {
        selector::law_selected_iff_eligible(state, providers, selected[0], now);
        assert(selected.contains(selected[0]));
        assert(tracking.breaker(selected[0].name@) == state.breaker(selected[0].name@));
    }
}

/// Every request that goes out carries the body of the flow, to the path of its endpoint, and
/// the flow keeps that body for the next provider.
pub proof fn law_every_provider_gets_the_same_request(
    flow: DispatchModel,
    state: GatewayModel,
    providers: Seq<ProviderConfig>,
    event: DispatchEvent,
    now: nat,
)
    ensures
        ({
            let step = flow.advance(state, providers, event, now);
            &&& step.action matches ActionModel::Send(request) ==> {
                &&& request == sent_to(flow, step.flow.current())
                &&& request.body == flow.body
            }
            &&& step.flow.body == flow.body
            &&& step.flow.route == flow.route
            &&& step.flow.client == flow.client
            &&& step.flow.cache_key == flow.cache_key
            &&& step.flow.request_start == flow.request_start
        }),
{
    lemma_steps(flow, state, providers, event, now);
    law_requests_start_with_the_first_provider(flow, state, providers, now);
    let name = flow.current().name@;
    lemma_fail_over_details(flow, state, "connect_error"@, name + ": connection error"@, now);
    lemma_fail_over_details(flow, state, "body_read_error"@, name + ": body read error"@, now);
    lemma_keys_stay(flow, state, "connect_error"@, name + ": connection error"@, now);
    lemma_keys_stay(flow, state, "body_read_error"@, name + ": body read error"@, now);
    if event is Status {
        let message = name + " returned "@ + status_line(event->Status_0);
        lemma_fail_over_details(flow, state, "retryable_error"@, message, now);
        lemma_fail_over_details(flow, state, "unexpected_status"@, message, now);
        lemma_keys_stay(flow, state, "retryable_error"@, message, now);
        lemma_keys_stay(flow, state, "unexpected_status"@, message, now);
    }
}

proof fn lemma_keys_stay(
    flow: DispatchModel,
    state: GatewayModel,
    label: Seq<char>,
    message: Seq<char>,
    now: nat,
)
    ensures
        flow.fail_over(state, label, message, now).flow.cache_key == flow.cache_key,
        flow.fail_over(state, label, message, now).flow.client == flow.client,
{
    lemma_try_next(
        DispatchModel { last_error: Some(message), answered: false, ..flow },
        state.after_failure(flow.current().name@, now),
        seq![metrics::error_metric(flow.current().name@, label)],
        now,
    );
}

/// The client of a chat gets the provider's text with status 200, told that it does not come
/// from the cache and which provider it comes from. If the request has a key, the text is
/// stored under it, and nothing else in the cache changes.
pub proof fn law_chats_get_the_text_of_the_provider(
    flow: DispatchModel,
    state: GatewayModel,
    providers: Seq<ProviderConfig>,
    body: Vec<u8>,
    now: nat,
)
    requires
        flow.route is Chat,
    ensures
        ({
            let step = flow.advance(state, providers, DispatchEvent::Body(body), now);
            &&& step.action is Respond
            &&& step.action->Respond_0.status == 200
            &&& step.action->Respond_0.body == encode_utf8(lossy_text(body@))
            &&& step.action->Respond_0.headers.len() == 3
            &&& step.action->Respond_0.headers[0] == ("content-type"@, "application/json"@)
            &&& step.action->Respond_0.headers[1] == ("x-cache"@, "MISS"@)
            &&& step.action->Respond_0.headers[2] == ("x-provider"@, flow.current().name@)
            &&& flow.cache_key is Some ==> step.state.stored == state.stored.insert(
                flow.cache_key->0,
                lossy_text(body@),
            )
            &&& flow.cache_key is None ==> step.state.stored == state.stored
            &&& step.state.breaker(flow.current().name@) == state.breaker(
                flow.current().name@,
            ).after_success()
        }),
{
}

/// The client of an embeddings request gets the provider's body, every byte of it, with
/// status 200, and told which provider it comes from. Nothing is stored.
pub proof fn law_embeddings_get_the_body_of_the_provider(
    flow: DispatchModel,
    state: GatewayModel,
    providers: Seq<ProviderConfig>,
    body: Vec<u8>,
    now: nat,
)
    requires
        flow.route is Embeddings,
    ensures
        ({
            let step = flow.advance(state, providers, DispatchEvent::Body(body), now);
            &&& step.action is Respond
            &&& step.action->Respond_0.status == 200
            &&& step.action->Respond_0.body == body@
            &&& step.action->Respond_0.headers.len() == 2
            &&& step.action->Respond_0.headers[0] == ("content-type"@, "application/json"@)
            &&& step.action->Respond_0.headers[1] == ("x-provider"@, flow.current().name@)
            &&& step.state.stored == state.stored
            &&& step.state.breaker(flow.current().name@) == state.breaker(
                flow.current().name@,
            ).after_success()
        }),
{
}

/// The tokens under `name` in a usage, zero if there is no such number.
pub open spec fn tokens_in(usage: JsonTree, name: Seq<char>) -> u64 {
    if usage is Object && usage->Object_0.contains_key(name) && usage->Object_0[name] is Number
        && usage->Object_0[name]->Number_0 is Some {
        usage->Object_0[name]->Number_0->0
    } else {
        0
    }
}

/// Whether `usage` stands in the field `usage` of the JSON that a body holds.
pub open spec fn body_reports(flow: DispatchModel, body: Seq<u8>, usage: JsonTree) -> bool {
    let document = match flow.route {
        Route::Chat { .. } => json::json_of_text(lossy_text(body)),
        Route::Embeddings => json::json_of_bytes(body),
    };
    &&& document is Some
    &&& document->0 is Object
    &&& document->0->Object_0.contains_key("usage"@)
    &&& document->0->Object_0["usage"@] == usage
}

/// The tokens that a request is charged: those of the prompt and of the completion for a
/// chat, all of them for embeddings, as the provider's usage says.
pub open spec fn tokens_charged(flow: DispatchModel, usage: JsonTree) -> nat {
    match flow.route {
        Route::Chat { .. } => (tokens_in(usage, "prompt_tokens"@) + tokens_in(
            usage,
            "completion_tokens"@,
        )) as nat,
        Route::Embeddings => tokens_in(usage, "total_tokens"@) as nat,
    }
}

/// A request is charged the tokens that the provider's body reports. The reservation is
/// settled with them; where they are within it, the client's tokens, once refilled, are as if
/// exactly these had been asked for in the first place.
pub proof fn law_bodies_are_charged_what_they_report(
    flow: DispatchModel,
    before: GatewayModel,
    state: GatewayModel,
    providers: Seq<ProviderConfig>,
    body: Vec<u8>,
    usage: JsonTree,
    reserved: nat,
    now: nat,
    later: nat,
)
    requires
        body_reports(flow, body@, usage),
        flow.reserved == Some(reserved),
    ensures
        ({
            let cost = tokens_charged(flow, usage) * 60_000_000_000;
            let after = flow.advance(state, providers, DispatchEvent::Body(body), later).state;
            let tokens = after.client(flow.client, later).tpm;
            &&& tokens == state.client(flow.client, later).tpm.after_reconcile(
                reserved,
                cost,
                later,
            )
            &&& after.client(flow.client, later).rpm == state.client(flow.client, later).rpm
            &&& before.valid() && before.client(flow.client, now).tpm.affords(reserved, now)
                && state.buckets == before.after_reserve(flow.client, reserved, now).buckets && cost
                <= reserved ==> tokens.refilled(later) == before.client(
                flow.client,
                now,
            ).tpm.after_consume(cost, now).refilled(later)
        }),
{
    lemma_reported(flow, body@, usage);
    let bucket = before.client(flow.client, now).tpm;
    let cost = tokens_charged(flow, usage) * 60_000_000_000;
    assert(stream::token_grains(flow.charged(flow.reported(body@)->0)) == cost);
    if before.valid() && bucket.affords(reserved, now) && cost <= reserved {
        assert(before.buckets.contains_key(flow.client) ==> before.buckets[flow.client].valid());
        rate_limit::law_reconcile_refunds_the_surplus(bucket, reserved, cost, now, later);
    }
}

proof fn lemma_reported(flow: DispatchModel, body: Seq<u8>, usage: JsonTree)
    requires
        body_reports(flow, body, usage),
    ensures
        flow.reported(body) is Some,
        json::or_zero(flow.reported(body)->0.prompt_tokens) == tokens_in(usage, "prompt_tokens"@),
        json::or_zero(flow.reported(body)->0.completion_tokens) == tokens_in(
            usage,
            "completion_tokens"@,
        ),
        json::or_zero(flow.reported(body)->0.total_tokens) == tokens_in(usage, "total_tokens"@),
{
}

/// What is recorded of a whole answer: the tokens that it reports, by their kind, and the
/// time that the request took.
pub proof fn law_reported_tokens_are_counted(
    flow: DispatchModel,
    state: GatewayModel,
    providers: Seq<ProviderConfig>,
    body: Vec<u8>,
    usage: JsonTree,
    now: nat,
)
    requires
        body_reports(flow, body@, usage),
        flow.request_start <= now <= u64::MAX,
    ensures
        ({
            let step = flow.advance(state, providers, DispatchEvent::Body(body), now);
            let name = flow.current().name@;
            &&& flow.route is Chat ==> {
                &&& step.metrics.len() == 3
                &&& step.metrics[0] == token_count(
                    name,
                    "prompt"@,
                    tokens_in(usage, "prompt_tokens"@),
                )
                &&& step.metrics[1] == token_count(
                    name,
                    "completion"@,
                    tokens_in(usage, "completion_tokens"@),
                )
            }
            &&& flow.route is Embeddings ==> {
                &&& step.metrics.len() == 2
                &&& step.metrics[0] == token_count(
                    name,
                    "embedding"@,
                    tokens_in(usage, "total_tokens"@),
                )
            }
            &&& step.metrics.last() == (MetricModel {
                name: "gateway_request_latency_seconds"@,
                labels: Seq::empty(),
                op: metrics::MetricOp::HistogramRecord((now - flow.request_start) as u128),
            })
        }),
{
    lemma_reported(flow, body@, usage);
}

/// Tokens that a provider counted, by their kind.
pub open spec fn token_count(provider: Seq<char>, kind: Seq<char>, count: u64) -> MetricModel {
    MetricModel {
        name: "gateway_tokens_total"@,
        labels: seq![("provider"@, provider), ("kind"@, kind)],
        op: metrics::MetricOp::CounterAdd(count),
    }
}

/// A body that is no JSON object with a field `usage` is passed on all the same; its
/// reservation is given back in full, and only the time that it took is recorded.
pub proof fn law_bodies_without_usage_cost_nothing(
    flow: DispatchModel,
    state: GatewayModel,
    providers: Seq<ProviderConfig>,
    body: Vec<u8>,
    now: nat,
)
    requires
        forall|usage: JsonTree| !#[trigger] body_reports(flow, body@, usage),
        flow.reserved is Some,
    ensures
        ({
            let step = flow.advance(state, providers, DispatchEvent::Body(body), now);
            &&& step.action is Respond
            &&& step.metrics.len() == 1
            &&& flow.request_start <= now <= u64::MAX ==> step.metrics[0] == (MetricModel {
                name: "gateway_request_latency_seconds"@,
                labels: Seq::empty(),
                op: metrics::MetricOp::HistogramRecord((now - flow.request_start) as u128),
            })
            &&& step.flow.reserved is None
            &&& step.state.client(flow.client, now).tpm == state.client(
                flow.client,
                now,
            ).tpm.after_refund(flow.reserved->0, now)
        }),
{
    let document = match flow.route {
        Route::Chat { .. } => json::json_of_text(lossy_text(body@)),
        Route::Embeddings => json::json_of_bytes(body@),
    };
    if document is Some && document->0 is Object && document->0->Object_0.contains_key("usage"@) {
        assert(body_reports(flow, body@, document->0->Object_0["usage"@]));
    }
}

/// A request that is given up ends with the error, gives its reservation back, and counts for
/// its provider only if that had begun to answer, as a success.
pub proof fn law_requests_given_up_are_settled(
    flow: DispatchModel,
    state: GatewayModel,
    error: ErrorModel,
    now: nat,
)
    ensures
        ({
            let step = flow.abandon(state, error, now);
            &&& step.action == ActionModel::Fail(error)
            &&& step.metrics.len() == 0
            &&& step.flow.reserved is None
            &&& step.state.stored == state.stored
            &&& flow.reserved is Some ==> step.state.client(flow.client, now).tpm == state.client(
                flow.client,
                now,
            ).tpm.after_refund(flow.reserved->0, now)
            &&& !flow.answered ==> step.state.breakers == state.breakers
            &&& flow.answered && 0 < flow.next <= flow.candidates.len() ==> step.state.breaker(
                flow.current().name@,
            ) == state.breaker(flow.current().name@).after_success()
        }),
{
}

/// A response and an action are what their models say.
pub proof fn law_replies_are_as_modelled(response: GatewayResponse, action: DispatchAction, i: int)
    ensures
        response@.status == response.status,
        response@.body == response.body@,
        response@.headers.len() == response.headers@.len(),
        0 <= i < response.headers@.len() ==> response@.headers[i] == (
            response.headers@[i].0@,
            response.headers@[i].1@,
        ),
        match action {
            DispatchAction::Send(request) => action@ == ActionModel::Send(request@),
            DispatchAction::ReadBody => action@ is ReadBody,
            DispatchAction::Stream(session) => action@ == ActionModel::Stream(session@),
            DispatchAction::Respond(answer) => action@ == ActionModel::Respond(answer@),
            DispatchAction::Fail(error) => action@ == ActionModel::Fail(error@),
        },
{
}

/// Whatever comes of an action can be handed in: a lost connection or any status after a
/// request was sent, a body or its loss after one was awaited.
pub proof fn law_what_comes_of_an_action_is_accepted(
    flow: DispatchModel,
    state: GatewayModel,
    providers: Seq<ProviderConfig>,
    event: DispatchEvent,
    status: u16,
    body: Vec<u8>,
    now: nat,
)
    requires
        flow.accepts(event),
    ensures
        ({
            let step = flow.advance(state, providers, event, now);
            &&& step.action is Send ==> step.flow.accepts(DispatchEvent::SendFailed) && (100
                <= status <= 999 ==> step.flow.accepts(DispatchEvent::Status(status)))
            &&& step.action is ReadBody ==> step.flow.accepts(DispatchEvent::BodyFailed)
                && step.flow.accepts(DispatchEvent::Body(body))
        }),
        flow.accepts(DispatchEvent::Start),
{
    lemma_steps(flow, state, providers, event, now);
    law_requests_start_with_the_first_provider(flow, state, providers, now);
    law_lost_connections_fail_over(flow, state, providers, now);
    if event is Status {
        let message = flow.current().name@ + " returned "@ + status_line(event->Status_0);
        lemma_fail_over_details(flow, state, "retryable_error"@, message, now);
        lemma_fail_over_details(flow, state, "unexpected_status"@, message, now);
    }
}

} // verus!
