//! Embeddings.
//!
//! The tokens that a request may take are estimated from the length of its input and
//! reserved before anything is sent. Embeddings are not cached.
use crate::config::ProviderConfig;
use crate::error::{AppError, ErrorModel};
use crate::handlers::dispatch::{
    self, Dispatch, DispatchEvent, DispatchModel, DispatchReply, DispatchStep, Route,
};
use crate::middleware::rate_limit::{self, TokenAmount, GRAINS_PER_TOKEN};
use crate::state::{AppState, ClientIdentity, GatewayModel};
use crate::telemetry::metrics::{self, record_error, MetricModel, MetricUpdate};
use crate::text::{self, concat};
use crate::types::EmbeddingInput;
use vstd::prelude::*;
use vstd::utf8::encode_utf8;

verus! {

/// The bytes of all texts together.
pub open spec fn total_bytes(texts: Seq<Seq<char>>) -> nat
    decreases texts.len(),
{
    if texts.len() == 0 {
        0
    } else {
        total_bytes(texts.drop_last()) + encode_utf8(texts.last()).len()
    }
}

/// The tokens of all rows together.
pub open spec fn total_tokens(rows: Seq<Vec<u32>>) -> nat
    decreases rows.len(),
{
    if rows.len() == 0 {
        0
    } else {
        total_tokens(rows.drop_last()) + rows.last()@.len()
    }
}

/// The length of an input in characters, of which a token is taken to have four.
pub open spec fn input_chars(input: EmbeddingInput) -> nat {
    match input {
        EmbeddingInput::String(s) => encode_utf8(s@).len(),
        EmbeddingInput::StringArray(list) => total_bytes(text::views(list@)),
        EmbeddingInput::TokenArray(list) => list@.len() * 4,
        EmbeddingInput::TokenMatrix(rows) => total_tokens(rows@) * 4,
    }
}

/// The grains that an input is taken to need: a token for every four characters, and one
/// token at least. Lengths that a `u64` cannot count are taken as the largest that it can.
pub open spec fn estimated_grains(input: EmbeddingInput) -> nat {
    let chars = rate_limit::min_nat(input_chars(input), u64::MAX as nat);
    if chars < 4 {
        GRAINS_PER_TOKEN as nat
    } else {
        chars * (GRAINS_PER_TOKEN as nat / 4)
    }
}

/// The sum of two counts, or the largest count if they do not fit.
fn capped_sum(a: u64, b: u64) -> (sum: u64)
    ensures
        sum == rate_limit::min_nat(a as nat + b as nat, u64::MAX as nat),
{
    match a.checked_add(b) {
        Some(sum) => sum,
        None => u64::MAX,
    }
}

/// Four times a count, or the largest count if that does not fit.
fn capped_quadruple(a: u64) -> (product: u64)
    ensures
        product == rate_limit::min_nat(4 * a as nat, u64::MAX as nat),
{
    match a.checked_mul(4) {
        Some(product) => product,
        None => u64::MAX,
    }
}

/// The length of an input in characters.
fn count_chars(input: &EmbeddingInput) -> (chars: u64)
    ensures
        chars == rate_limit::min_nat(input_chars(*input), u64::MAX as nat),
{
    match input {
        EmbeddingInput::String(s) => s.as_str().as_bytes().len() as u64,
        EmbeddingInput::StringArray(list) => {
            let ghost texts = text::views(list@);
            let mut sum: u64 = 0;
            let mut i: usize = 0;
            assert(texts.take(0) =~= Seq::empty());
            while i < list.len()
                invariant
                    i <= list@.len(),
                    texts == text::views(list@),
                    sum == rate_limit::min_nat(
                        total_bytes(texts.take(i as int)),
                        u64::MAX as nat,
                    ),
                decreases list@.len() - i,
            {
                assert(texts.take(i + 1).drop_last() =~= texts.take(i as int));
                sum = capped_sum(sum, list[i].as_str().as_bytes().len() as u64);
                i += 1;
            }
            assert(texts.take(i as int) =~= texts);
            sum
        },
        EmbeddingInput::TokenArray(list) => capped_quadruple(list.len() as u64),
        EmbeddingInput::TokenMatrix(rows) => {
            let mut sum: u64 = 0;
            let mut i: usize = 0;
            assert(rows@.take(0) =~= Seq::empty());
            while i < rows.len()
                invariant
                    i <= rows@.len(),
                    sum == rate_limit::min_nat(
                        total_tokens(rows@.take(i as int)),
                        u64::MAX as nat,
                    ),
                decreases rows@.len() - i,
            {
                assert(rows@.take(i + 1).drop_last() =~= rows@.take(i as int));
                sum = capped_sum(sum, rows[i].len() as u64);
                i += 1;
            }
            assert(rows@.take(i as int) =~= rows@);
            capped_quadruple(sum)
        },
    }
}

/// The tokens that an input is taken to need.
pub fn estimate_embedding_tokens(input: &EmbeddingInput) -> (amount: TokenAmount)
    ensures
        amount.grains == estimated_grains(*input),
{
    let chars: u64 = count_chars(input);
    if chars < 4 {
        TokenAmount::whole(1)
    } else {
        TokenAmount::quarters(chars)
    }
}

/// What came of the last action.
#[derive(Debug)]
pub enum EmbeddingsEvent {
    /// The request could not be serialized.
    PayloadFailed(String),
    /// The request as JSON.
    PayloadReady(Vec<u8>),
    /// What came of an action of the dispatch.
    Upstream(DispatchEvent),
}

/// What an embeddings request is, for contracts.
#[verifier::ext_equal]
pub struct EmbeddingsModel {
    pub serializing: bool,
    pub dispatch: DispatchModel,
}

impl EmbeddingsModel {
    /// From what came of the last action to the next one.
    pub open spec fn advance(
        self,
        state: GatewayModel,
        providers: Seq<ProviderConfig>,
        event: EmbeddingsEvent,
        now: nat,
    ) -> DispatchStep {
        match event {
            EmbeddingsEvent::PayloadFailed(error) => self.dispatch.abandon(
                state,
                ErrorModel::Internal("failed to serialize payload: "@ + error@),
                now,
            ),
            EmbeddingsEvent::PayloadReady(payload) => (DispatchModel {
                body: payload@,
                ..self.dispatch
            }).start(state, providers, now),
            EmbeddingsEvent::Upstream(event) => self.dispatch.advance(state, providers, event, now),
        }
    }

    /// Whether an event can come now.
    pub open spec fn accepts(self, event: EmbeddingsEvent) -> bool {
        match event {
            EmbeddingsEvent::PayloadFailed(_) => self.serializing,
            EmbeddingsEvent::PayloadReady(_) => self.serializing,
            EmbeddingsEvent::Upstream(event) => !self.serializing && !(event is Start)
                && self.dispatch.accepts(event),
        }
    }
}

/// An embeddings request on its way.
#[derive(Debug)]
pub struct EmbeddingsFlow {
    pub serializing: bool,
    pub dispatch: Dispatch,
}

impl View for EmbeddingsFlow {
    type V = EmbeddingsModel;

    open spec fn view(&self) -> EmbeddingsModel {
        EmbeddingsModel { serializing: self.serializing, dispatch: self.dispatch@ }
    }
}

/// The answer to a request that came in, and the metrics that change with it. An admitted
/// request is serialized next.
#[derive(Debug)]
pub struct EmbeddingsAdmission {
    pub result: Result<EmbeddingsFlow, AppError>,
    pub metrics: Vec<MetricUpdate>,
}

/// A request that has been admitted.
pub open spec fn admitted(client: Seq<char>, reserved: nat, now: nat) -> EmbeddingsModel {
    EmbeddingsModel {
        serializing: true,
        dispatch: dispatch::fresh_dispatch(
            Route::Embeddings,
            client,
            Some(reserved),
            None,
            Seq::empty(),
            now,
        ),
    }
}

/// Admits an embeddings request at `now`, if its client has the tokens that it is taken to
/// need. They are reserved for it. A client that is out of tokens is told how long to wait.
pub fn embeddings(state: &mut AppState, identity: &ClientIdentity, input: &EmbeddingInput, now: u64) -> (admission:
    EmbeddingsAdmission)
    requires
        old(state).wf(),
    ensures
        ({
            let client = identity.client_id@;
            let cost = estimated_grains(*input);
            &&& final(state)@ == old(state)@.after_reserve(client, cost, now as nat)
            &&& match (
                admission.result,
                old(state)@.client(client, now as nat).tpm.answer(cost, now as nat),
            ) {
                (Ok(flow), Ok(_)) => {
                    &&& flow@ == admitted(client, cost, now as nat)
                    &&& metrics::models(admission.metrics@) == Seq::<MetricModel>::empty()
                },
                (Err(error), Err(wait)) => {
                    &&& error@ == (ErrorModel::RateLimited { retry_after: wait as u64 })
                    &&& metrics::models(admission.metrics@) == seq![
                        metrics::error_metric("rate_limit"@, "tpm_exceeded"@),
                    ]
                },
                _ => false,
            }
        }),
        final(state).same_setup(*old(state)),
        final(state).wf(),
{
    let cost = estimate_embedding_tokens(input);
    let mut updates: Vec<MetricUpdate> = Vec::new();
    assert(metrics::models(updates@) =~= Seq::<MetricModel>::empty());
    match state.reserve_at(identity.client_id.as_str(), cost, now) {
        Ok(handle) => {
            let body: Vec<u8> = Vec::new();
            let dispatch = Dispatch::new(
                Route::Embeddings,
                identity.client_id.clone(),
                Some(handle),
                None,
                body,
                now,
            );
            EmbeddingsAdmission {
                result: Ok(EmbeddingsFlow { serializing: true, dispatch }),
                metrics: updates,
            }
        },
        Err(retry_after) => {
            updates.push(record_error("rate_limit", "tpm_exceeded"));
            assert(metrics::models(updates@) =~= seq![
                metrics::error_metric("rate_limit"@, "tpm_exceeded"@),
            ]);
            EmbeddingsAdmission {
                result: Err(AppError::RateLimited { retry_after }),
                metrics: updates,
            }
        },
    }
}

impl EmbeddingsFlow {
    /// From what came of the last action, at `now`, to the next one.
    pub fn advance(&mut self, state: &mut AppState, event: EmbeddingsEvent, now: u64) -> (reply:
        DispatchReply)
        requires
            old(state).wf(),
            old(self)@.accepts(event),
        ensures
            dispatch::step_of(final(self).dispatch, *final(state), reply) == old(self)@.advance(
                old(state)@,
                old(state).sorted_providers@,
                event,
                now as nat,
            ),
            !final(self).serializing,
            reply.wf(),
            final(state).same_setup(*old(state)),
            final(state).wf(),
    {
        self.serializing = false;
        match event {
            EmbeddingsEvent::PayloadFailed(error) => {
                let message = concat("failed to serialize payload: ", error.as_str());
                self.dispatch.abandon(state, AppError::Internal(message), now)
            },
            EmbeddingsEvent::PayloadReady(payload) => {
                self.dispatch.body = payload;
                self.dispatch.advance(state, DispatchEvent::Start, now)
            },
            EmbeddingsEvent::Upstream(event) => self.dispatch.advance(state, event, now),
        }
    }
}

/// Every request that goes out to a provider carries the serialized request, to the
/// embeddings endpoint: the first one and every later one.
pub proof fn law_providers_get_the_serialized_request(
    flow: EmbeddingsModel,
    state: GatewayModel,
    providers: Seq<ProviderConfig>,
    payload: Vec<u8>,
    event: DispatchEvent,
    now: nat,
)
    ensures
        ({
            let step = flow.advance(
                state,
                providers,
                EmbeddingsEvent::PayloadReady(payload),
                now,
            );
            &&& step.action is Send ==> step.action->Send_0.body == payload@
            &&& step.flow.body == payload@
            &&& step.flow.route == flow.dispatch.route
            &&& step.flow.reserved == flow.dispatch.reserved || step.action is Fail
        }),
        ({
            let step = flow.advance(state, providers, EmbeddingsEvent::Upstream(event), now);
            &&& step == flow.dispatch.advance(state, providers, event, now)
            &&& step.action is Send ==> step.action->Send_0.body == flow.dispatch.body
            &&& step.flow.body == flow.dispatch.body
        }),
{
    let ready = DispatchModel { body: payload@, ..flow.dispatch };
    dispatch::law_every_provider_gets_the_same_request(
        ready,
        state,
        providers,
        DispatchEvent::Start,
        now,
    );
    dispatch::law_every_provider_gets_the_same_request(flow.dispatch, state, providers, event, now);
    dispatch::law_requests_start_with_the_first_provider(ready, state, providers, now);
}

/// A request that cannot be serialized fails with an internal error that names the reason,
/// and its reservation is given back.
pub proof fn law_unserializable_requests_fail(
    flow: EmbeddingsModel,
    state: GatewayModel,
    providers: Seq<ProviderConfig>,
    reason: String,
    now: nat,
)
    ensures
        ({
            let step = flow.advance(
                state,
                providers,
                EmbeddingsEvent::PayloadFailed(reason),
                now,
            );
            &&& step.action == dispatch::ActionModel::Fail(
                ErrorModel::Internal("failed to serialize payload: "@ + reason@),
            )
            &&& step.flow.reserved is None
            &&& flow.dispatch.reserved is Some ==> step.state.client(
                flow.dispatch.client,
                now,
            ).tpm == state.client(flow.dispatch.client, now).tpm.after_refund(
                flow.dispatch.reserved->0,
                now,
            )
        }),
{
    dispatch::law_requests_given_up_are_settled(
        flow.dispatch,
        state,
        ErrorModel::Internal("failed to serialize payload: "@ + reason@),
        now,
    );
}

/// An admitted request is the client's, holds what was reserved for it, and goes to the
/// embeddings endpoint.
pub proof fn law_admitted_requests_are_ready(client: Seq<char>, reserved: nat, now: nat)
    ensures
        ({
            let flow = admitted(client, reserved, now);
            &&& flow.serializing
            &&& flow.dispatch.route is Embeddings
            &&& flow.dispatch.client == client
            &&& flow.dispatch.reserved == Some(reserved)
            &&& flow.dispatch.request_start == now
            &&& flow.dispatch.cache_key is None
            &&& flow.dispatch.next == 0
        }),
{
}

/// A text is taken to need a quarter of a token for each of its bytes, and a token at least.
pub proof fn law_texts_need_a_token_for_four_bytes(s: String)
    requires
        encode_utf8(s@).len() <= u64::MAX,
    ensures
        ({
            let bytes = encode_utf8(s@).len();
            let grains = estimated_grains(EmbeddingInput::String(s));
            &&& bytes <= 4 ==> grains == 60_000_000_000
            &&& bytes >= 4 ==> grains == bytes * 15_000_000_000
        }),
{
}

/// A list of texts needs what its texts need together, and tokens are counted as they are, in
/// a list or in several.
pub proof fn law_inputs_add_up(
    texts: Seq<Seq<char>>,
    one: Seq<char>,
    rows: Seq<Vec<u32>>,
    row: Vec<u32>,
)
    ensures
        total_bytes(Seq::<Seq<char>>::empty()) == 0,
        total_bytes(texts.push(one)) == total_bytes(texts) + encode_utf8(one).len(),
        total_tokens(Seq::<Vec<u32>>::empty()) == 0,
        total_tokens(rows.push(row)) == total_tokens(rows) + row@.len(),
{
    assert(texts.push(one).drop_last() =~= texts);
    assert(rows.push(row).drop_last() =~= rows);
}

/// What each kind of input needs: a quarter of a token for each byte of its texts, or a token
/// for each of its tokens, and a token at least.
pub proof fn law_inputs_need_their_tokens(
    list: Vec<String>,
    tokens: Vec<u32>,
    rows: Vec<Vec<u32>>,
)
    requires
        total_bytes(text::views(list@)) <= u64::MAX,
        tokens@.len() * 4 <= u64::MAX,
        total_tokens(rows@) * 4 <= u64::MAX,
    ensures
        ({
            let bytes = total_bytes(text::views(list@));
            let grains = estimated_grains(EmbeddingInput::StringArray(list));
            &&& bytes <= 4 ==> grains == 60_000_000_000
            &&& bytes >= 4 ==> grains == bytes * 15_000_000_000
        }),
        ({
            let grains = estimated_grains(EmbeddingInput::TokenArray(tokens));
            &&& tokens@.len() == 0 ==> grains == 60_000_000_000
            &&& tokens@.len() > 0 ==> grains == tokens@.len() * 60_000_000_000
        }),
        ({
            let count = total_tokens(rows@);
            let grains = estimated_grains(EmbeddingInput::TokenMatrix(rows));
            &&& count == 0 ==> grains == 60_000_000_000
            &&& count > 0 ==> grains == count * 60_000_000_000
        }),
{
}

/// A request that was admitted can be serialized or fail at that, and what comes of its
/// actions after that can be handed in.
pub proof fn law_what_comes_of_an_action_is_accepted(
    flow: EmbeddingsModel,
    payload: Vec<u8>,
    reason: String,
    event: DispatchEvent,
)
    ensures
        flow.serializing ==> flow.accepts(EmbeddingsEvent::PayloadReady(payload))
            && flow.accepts(EmbeddingsEvent::PayloadFailed(reason)),
        !flow.serializing && !(event is Start) && flow.dispatch.accepts(event) ==> flow.accepts(
            EmbeddingsEvent::Upstream(event),
        ),
{
}

} // verus!
