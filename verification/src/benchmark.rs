//! What a benchmark of the gateway needs: a provider whose answers are scripted, a
//! configuration that points at two of them, and the statistics of the latencies.
use crate::config::{
    AppConfig, AuthConfig, CacheConfig, CircuitBreakerConfig, ClientCredential, ProviderConfig,
    RateLimitConfig, ServerConfig,
};
use crate::float_bits::F32Bits;
use crate::json::{self, JsonTree};
use crate::text::{self, concat, decimal};
use vstd::prelude::*;

verus! {

/// How a scripted provider is asked to behave.
#[derive(Clone, Copy, Debug)]
pub struct MockParams {
    /// The time before the answer.
    pub delay_ms: Option<u64>,
    /// The time before the first event of a stream.
    pub first_token_delay_ms: Option<u64>,
    /// The time before each token of a stream.
    pub token_interval_ms: Option<u64>,
    /// The number of tokens in a stream.
    pub tokens: Option<usize>,
    /// The status to answer with.
    pub status: Option<u16>,
    /// Whether to be out of order.
    pub fail: Option<bool>,
    /// Whether to pause for a minute in the middle of a stream.
    pub stall: Option<bool>,
    /// Whether to send something that is no event.
    pub malformed: Option<bool>,
    /// Whether to stream, whatever the request says.
    pub stream: Option<bool>,
}

/// One step of a streamed answer.
#[derive(Debug)]
pub enum MockStep {
    /// Wait for this many milliseconds.
    Sleep(u64),
    /// Send this.
    Emit(String),
}

/// One step of a streamed answer, for contracts.
#[verifier::ext_equal]
pub enum StepModel {
    Sleep(u64),
    Emit(Seq<char>),
}

impl View for MockStep {
    type V = StepModel;

    open spec fn view(&self) -> StepModel {
        match *self {
            MockStep::Sleep(millis) => StepModel::Sleep(millis),
            MockStep::Emit(chars) => StepModel::Emit(chars@),
        }
    }
}

/// The steps of a list.
pub open spec fn steps_of(list: Seq<MockStep>) -> Seq<StepModel> {
    list.map_values(|step: MockStep| step@)
}

/// The answer of a scripted provider. One that is not an error waits for `delay_ms`
/// first, and has status 200.
#[derive(Debug)]
pub enum MockReply {
    Error { status: u16, body: String },
    Stream { delay_ms: u64, steps: Vec<MockStep> },
    Json { delay_ms: u64, body: String },
}

/// The answer of a scripted provider, for contracts.
#[verifier::ext_equal]
pub enum ReplyModel {
    Error { status: u16, body: Seq<char> },
    Stream { delay_ms: u64, steps: Seq<StepModel> },
    Json { delay_ms: u64, body: Seq<char> },
}

impl View for MockReply {
    type V = ReplyModel;

    open spec fn view(&self) -> ReplyModel {
        match *self {
            MockReply::Error { status, body } => ReplyModel::Error { status, body: body@ },
            MockReply::Stream { delay_ms, steps } => ReplyModel::Stream {
                delay_ms,
                steps: steps_of(steps@),
            },
            MockReply::Json { delay_ms, body } => ReplyModel::Json { delay_ms, body: body@ },
        }
    }
}

/// The value of an optional number, zero if it is missing.
pub open spec fn millis_or_zero(millis: Option<u64>) -> u64 {
    match millis {
        Some(n) => n,
        None => 0,
    }
}

/// The value of an optional flag, false if it is missing.
pub open spec fn flag(set: Option<bool>) -> bool {
    set == Some(true)
}

/// The body of an answer that is not streamed.
pub const MOCK_BODY: &'static str = "{\"choices\":[{\"finish_reason\":\"stop\",\"index\":0,\"message\":{\"content\":\"Hello from deterministic mock provider!\",\"role\":\"assistant\"}}],\"created\":1700000000,\"id\":\"chatcmpl-mock\",\"model\":\"mock-llm\",\"object\":\"chat.completion\",\"usage\":{\"completion_tokens\":8,\"prompt_tokens\":10,\"total_tokens\":18}}";

/// What stands before the number of a token in its event.
pub const TOKEN_HEAD: &'static str = "data: {\"choices\":[{\"delta\":{\"content\":\" token_";

/// What stands behind the number of a token.
pub const TOKEN_MIDDLE: &'static str = "\"},\"finish_reason\":";

/// What ends the event of a token.
pub const TOKEN_TAIL: &'static str = ",\"index\":0}],\"created\":1700000000,\"id\":\"chatcmpl-mock\",\"model\":\"mock-llm\",\"object\":\"chat.completion.chunk\"}\n\n";

/// What stands before the completion tokens in the event with the usage.
pub const USAGE_HEAD: &'static str = "data: {\"choices\":[],\"id\":\"chatcmpl-mock\",\"object\":\"chat.completion.chunk\",\"usage\":{\"completion_tokens\":";

/// What stands between the completion tokens and all tokens.
pub const USAGE_MIDDLE: &'static str = ",\"prompt_tokens\":15,\"total_tokens\":";

/// The event of the token `i` of `n`.
pub open spec fn token_event(i: nat, n: nat) -> Seq<char> {
    TOKEN_HEAD@ + text::decimal_text(i) + TOKEN_MIDDLE@ + (if i + 1 == n {
        "\"stop\""@
    } else {
        "null"@
    }) + TOKEN_TAIL@
}

/// The event with the usage after `n` tokens.
pub open spec fn usage_event(n: nat) -> Seq<char> {
    USAGE_HEAD@ + text::decimal_text(n) + USAGE_MIDDLE@ + text::decimal_text(15 + n) + "}}\n\n"@
}

/// A wait, if there is one.
pub open spec fn wait(millis: u64) -> Seq<StepModel> {
    if millis > 0 {
        seq![StepModel::Sleep(millis)]
    } else {
        Seq::empty()
    }
}

/// The steps for the token `i` of `n`.
pub open spec fn token_steps(interval: u64, stall: bool, i: nat, n: nat) -> Seq<StepModel> {
    wait(interval) + (if stall && i == n / 2 {
        seq![StepModel::Sleep(60_000)]
    } else {
        Seq::empty()
    }) + seq![StepModel::Emit(token_event(i, n))]
}

/// The steps for the first `i` tokens of `n`.
pub open spec fn all_token_steps(interval: u64, stall: bool, i: nat, n: nat) -> Seq<StepModel>
    decreases i,
{
    if i == 0 {
        Seq::empty()
    } else {
        all_token_steps(interval, stall, (i - 1) as nat, n) + token_steps(
            interval,
            stall,
            (i - 1) as nat,
            n,
        )
    }
}

/// The number of tokens in a stream: ten, unless another number is asked for.
pub open spec fn token_count(params: MockParams) -> nat {
    match params.tokens {
        Some(n) => n as nat,
        None => 10,
    }
}

/// The steps of a streamed answer.
pub open spec fn script(params: MockParams) -> Seq<StepModel> {
    let n = token_count(params);
    let opening = wait(millis_or_zero(params.first_token_delay_ms));
    if flag(params.malformed) {
        opening.push(StepModel::Emit("BAD_SSE_DATA_NO_PREFIX\n\n"@))
    } else {
        (opening + all_token_steps(
            millis_or_zero(params.token_interval_ms),
            flag(params.stall),
            n,
            n,
        )).push(StepModel::Emit(usage_event(n))).push(StepModel::Emit("data: [DONE]\n\n"@))
    }
}

/// The answer of a scripted provider, given whether the request asks for a stream.
pub open spec fn planned(params: MockParams, asked: bool) -> ReplyModel {
    let delay_ms = millis_or_zero(params.delay_ms);
    if params.status is Some && params.status != Some(200u16) {
        let status = params.status->0;
        ReplyModel::Error {
            status: if 100 <= status <= 999 {
                status
            } else {
                500
            },
            body: "Mock upstream error: "@ + text::decimal_text(status as nat),
        }
    } else if flag(params.fail) {
        ReplyModel::Error { status: 503, body: "Mock provider simulated outage"@ }
    } else if flag(params.stream) || asked {
        ReplyModel::Stream { delay_ms, steps: script(params) }
    } else {
        ReplyModel::Json { delay_ms, body: MOCK_BODY@ }
    }
}

/// Whether a body is JSON whose field `stream` is true.
pub open spec fn asks_for_stream(body: Seq<u8>) -> bool {
    match json::json_of_bytes(body) {
        Some(tree) => tree.field("stream") == Some(JsonTree::Bool(true)),
        None => false,
    }
}

/// Appends a wait, if there is one.
fn push_wait(steps: &mut Vec<MockStep>, millis: u64)
    ensures
        steps_of(final(steps)@) == steps_of(old(steps)@) + wait(millis),
{
    if millis > 0 {
        steps.push(MockStep::Sleep(millis));
    }
    assert(steps_of(steps@) =~= steps_of(old(steps)@) + wait(millis));
}

/// Appends something to send.
fn push_emit(steps: &mut Vec<MockStep>, chars: String)
    ensures
        steps_of(final(steps)@) == steps_of(old(steps)@).push(StepModel::Emit(chars@)),
{
    steps.push(MockStep::Emit(chars));
    assert(steps_of(steps@) =~= steps_of(old(steps)@).push(StepModel::Emit(chars@)));
}

/// The event of the token `i` of `n`.
fn render_token(i: usize, n: usize) -> (event: String)
    requires
        i < n,
    ensures
        event@ == token_event(i as nat, n as nat),
{
    let mut event = TOKEN_HEAD.to_string();
    event.append(decimal(i as u64).as_str());
    event.append(TOKEN_MIDDLE);
    if i + 1 == n {
        event.append("\"stop\"");
    } else {
        event.append("null");
    }
    event.append(TOKEN_TAIL);
    event
}

/// The event with the usage after `n` tokens.
fn render_usage(n: usize) -> (event: String)
    requires
        n <= usize::MAX - 15,
    ensures
        event@ == usage_event(n as nat),
{
    let mut event = USAGE_HEAD.to_string();
    event.append(decimal(n as u64).as_str());
    event.append(USAGE_MIDDLE);
    event.append(decimal(15 + n as u64).as_str());
    event.append("}}\n\n");
    event
}

fn or_zero(millis: Option<u64>) -> (n: u64)
    ensures
        n == millis_or_zero(millis),
{
    match millis {
        Some(n) => n,
        None => 0,
    }
}

fn is_set(set: Option<bool>) -> (yes: bool)
    ensures
        yes == flag(set),
{
    match set {
        Some(yes) => yes,
        None => false,
    }
}

/// The steps of a streamed answer.
pub fn plan_stream(params: &MockParams) -> (steps: Vec<MockStep>)
    requires
        token_count(*params) <= usize::MAX - 15,
    ensures
        steps_of(steps@) == script(*params),
{
    let n: usize = match params.tokens {
        Some(n) => n,
        None => 10,
    };
    let interval: u64 = or_zero(params.token_interval_ms);
    let stall: bool = is_set(params.stall);
    let mut steps: Vec<MockStep> = Vec::new();
    push_wait(&mut steps, or_zero(params.first_token_delay_ms));
    let ghost opening = wait(millis_or_zero(params.first_token_delay_ms));
    assert(steps_of(steps@) =~= opening);
    if is_set(params.malformed) {
        push_emit(&mut steps, "BAD_SSE_DATA_NO_PREFIX\n\n".to_string());
        return steps;
    }
    let mut i: usize = 0;
    while i < n
        invariant
            i <= n,
            steps_of(steps@) == opening + all_token_steps(interval, stall, i as nat, n as nat),
        decreases n - i,
    {
        let ghost before = steps_of(steps@);
        push_wait(&mut steps, interval);
        let ghost waited = steps_of(steps@);
        if stall && i == n / 2 {
            steps.push(MockStep::Sleep(60_000));
            assert(steps_of(steps@) =~= waited + seq![StepModel::Sleep(60_000)]);
        } else {
            assert(steps_of(steps@) =~= waited + Seq::<StepModel>::empty());
        }
        push_emit(&mut steps, render_token(i, n));
        assert(steps_of(steps@) =~= before + token_steps(interval, stall, i as nat, n as nat));
        i += 1;
        assert(steps_of(steps@) =~= opening + all_token_steps(interval, stall, i as nat, n as nat));
    }
    push_emit(&mut steps, render_usage(n));
    push_emit(&mut steps, "data: [DONE]\n\n".to_string());
    steps
}

/// The answer of a scripted provider, given whether the request asks for a stream.
pub fn plan_reply(params: &MockParams, asked: bool) -> (reply: MockReply)
    requires
        token_count(*params) <= usize::MAX - 15,
    ensures
        reply@ == planned(*params, asked),
{
    if let Some(status) = params.status {
        if status != 200 {
            return MockReply::Error {
                status: if 100 <= status && status <= 999 {
                    status
                } else {
                    500
                },
                body: concat("Mock upstream error: ", decimal(status as u64).as_str()),
            };
        }
    }
    if is_set(params.fail) {
        return MockReply::Error {
            status: 503,
            body: "Mock provider simulated outage".to_string(),
        };
    }
    let delay_ms: u64 = or_zero(params.delay_ms);
    if is_set(params.stream) || asked {
        MockReply::Stream { delay_ms, steps: plan_stream(params) }
    } else {
        MockReply::Json { delay_ms, body: MOCK_BODY.to_string() }
    }
}

/// The answer of a scripted provider to a request.
pub fn mock_chat_handler(params: &MockParams, body: &[u8]) -> (reply: MockReply)
    requires
        token_count(*params) <= usize::MAX - 15,
    ensures
        reply@ == planned(*params, asks_for_stream(body@)),
{
    let asked: bool = match json::parse_bytes(body) {
        Ok(document) => match json::get_field(&document, "stream") {
            Some(field) => is_set(field.as_bool()),
            None => false,
        },
        Err(_) => false,
    };
    plan_reply(params, asked)
}

/// The bits of 0.85 in single precision.
pub const BENCH_THRESHOLD_BITS: u32 = 0x3f59_999a;

/// A scripted provider in the configuration of a benchmark.
pub open spec fn is_bench_provider(p: ProviderConfig, name: &str, address: Seq<char>, priority: u32) -> bool {
    &&& p.name@ == name@
    &&& p.endpoint@ == "http://"@ + address
    &&& p.api_key matches Some(key) && key@ == "mock-key"@
    &&& p.priority == priority
    &&& p.connect_timeout_seconds == 2
    &&& p.request_timeout_seconds == 5
    &&& p.stream_idle_timeout_seconds == 5
}

fn bench_provider(name: &str, address: &str, priority: u32) -> (p: ProviderConfig)
    ensures
        is_bench_provider(p, name, address@, priority),
{
    ProviderConfig {
        name: name.to_string(),
        endpoint: concat("http://", address),
        api_key: Some("mock-key".to_string()),
        priority,
        connect_timeout_seconds: 2,
        request_timeout_seconds: 5,
        stream_idle_timeout_seconds: 5,
    }
}

/// The configuration of a benchmark, with two scripted providers.
pub fn build_gateway(primary_addr: &str, fallback_addr: &str) -> (config: AppConfig)
    ensures
        config.server.host@ == "127.0.0.1"@,
        config.server.port == 0,
        config.server.max_body_bytes == 10 * 1024 * 1024,
        config.auth.credentials@.len() == 1,
        config.auth.credentials@[0].key@ == "bench-secret-key-12345"@,
        config.auth.credentials@[0].client_id@ == "bench-client"@,
        config.auth.credentials@[0].tier@ == "unlimited"@,
        config.rate_limit.default_rpm == 5_000_000,
        config.rate_limit.default_tpm == 100_000_000,
        config.cache.exact_max_entries == 50_000,
        config.cache.exact_ttl_seconds == 300,
        !config.cache.semantic_enabled,
        config.cache.semantic_threshold.bits == BENCH_THRESHOLD_BITS,
        config.circuit_breaker.failure_threshold == 5,
        config.circuit_breaker.cooldown_seconds == 2,
        config.circuit_breaker.half_open_max_calls == 2,
        config.providers@.len() == 2,
        is_bench_provider(config.providers@[0], "primary-mock", primary_addr@, 1),
        is_bench_provider(config.providers@[1], "fallback-mock", fallback_addr@, 2),
{
    let mut credentials: Vec<ClientCredential> = Vec::new();
    credentials.push(
        ClientCredential {
            key: "bench-secret-key-12345".to_string(),
            client_id: "bench-client".to_string(),
            tier: "unlimited".to_string(),
        },
    );
    let mut providers: Vec<ProviderConfig> = Vec::new();
    providers.push(bench_provider("primary-mock", primary_addr, 1));
    providers.push(bench_provider("fallback-mock", fallback_addr, 2));
    AppConfig {
        server: ServerConfig {
            host: "127.0.0.1".to_string(),
            port: 0,
            max_body_bytes: 10 * 1024 * 1024,
        },
        auth: AuthConfig { credentials },
        rate_limit: RateLimitConfig { default_rpm: 5_000_000, default_tpm: 100_000_000 },
        cache: CacheConfig {
            exact_max_entries: 50_000,
            exact_ttl_seconds: 300,
            semantic_enabled: false,
            semantic_threshold: F32Bits::from_bits(BENCH_THRESHOLD_BITS),
        },
        circuit_breaker: CircuitBreakerConfig {
            failure_threshold: 5,
            cooldown_seconds: 2,
            half_open_max_calls: 2,
        },
        providers,
    }
}

/// The statistics of some latencies, in nanoseconds. The mean is `sum / count`.
#[derive(Clone, Copy, Debug)]
pub struct LatencyStats {
    pub p50: u64,
    pub p95: u64,
    pub p99: u64,
    pub max: u64,
    pub sum: u128,
    pub count: usize,
}

/// Whether `sorted` holds the items of `list` in ascending order.
pub open spec fn sorts(list: Seq<u64>, sorted: Seq<u64>) -> bool {
    &&& sorted.to_multiset() == list.to_multiset()
    &&& forall|i: int, j: int| 0 <= i <= j < sorted.len() ==> sorted[i] <= sorted[j]
}

/// The sum of a list.
pub open spec fn total(list: Seq<u64>) -> nat
    decreases list.len(),
{
    if list.len() == 0 {
        0
    } else {
        total(list.drop_last()) + list.last() as nat
    }
}

/// The place of the percentile `p` in a sorted list of `len` items.
pub open spec fn percentile_place(len: nat, p: nat) -> nat {
    if len * p / 100 < len {
        len * p / 100
    } else {
        (len - 1) as nat
    }
}

fn place_of(len: usize, p: u64) -> (place: usize)
    requires
        len > 0,
        p < 100,
    ensures
        place == percentile_place(len as nat, p as nat),
        place < len,
{
    assert(0 <= len * p <= len * 100) by (nonlinear_arith)
        requires
            p < 100,
    ;
    let scaled: u128 = len as u128 * p as u128 / 100;
    if scaled < len as u128 {
        scaled as usize
    } else {
        len - 1
    }
}

/// The items of a list in ascending order.
fn sort(list: &Vec<u64>) -> (sorted: Vec<u64>)
    ensures
        sorts(list@, sorted@),
        sorted@.len() == list@.len(),
{
    let mut sorted: Vec<u64> = Vec::new();
    let mut next: usize = 0;
    assert(list@.take(0) =~= Seq::empty());
    while next < list.len()
        invariant
            next <= list@.len(),
            sorted@.len() == next,
            sorts(list@.take(next as int), sorted@),
        decreases list@.len() - next,
    {
        let item: u64 = list[next];
        let mut at: usize = sorted.len();
        while at > 0 && sorted[at - 1] > item
            invariant
                at <= sorted@.len(),
                forall|i: int| at <= i < sorted@.len() ==> sorted@[i] > item,
            decreases at,
        {
            at -= 1;
        }
        let ghost before = sorted@;
        sorted.insert(at, item);
        proof {
            assert(list@.take(next + 1) =~= list@.take(next as int).push(item));
            vstd::seq_lib::to_multiset_insert(before, at as int, item);
            list@.take(next as int).to_multiset_ensures();
            assert forall|i: int, j: int| 0 <= i <= j < sorted@.len() implies sorted@[i]
                <= sorted@[j] by {
                let a = if i < at { i } else { i - 1 };
                let b = if j < at { j } else { j - 1 };
                if i < at && j == at {
                    assert(before[i] <= before[at - 1]);
                }
            }
        }
        next += 1;
    }
    assert(list@.take(next as int) =~= list@);
    sorted
}

/// The statistics of some latencies, all zero if there are none.
pub fn calculate_percentiles(latencies: &Vec<u64>) -> (stats: LatencyStats)
    ensures
        stats.count == latencies@.len(),
        stats.sum == total(latencies@),
        latencies@.len() == 0 ==> stats.p50 == 0 && stats.p95 == 0 && stats.p99 == 0 && stats.max
            == 0,
        latencies@.len() > 0 ==> exists|sorted: Seq<u64>| #[trigger]
            sorts(latencies@, sorted) && sorted.len() == latencies@.len() && stats.p50
                == sorted[percentile_place(sorted.len(), 50) as int] && stats.p95
                == sorted[percentile_place(sorted.len(), 95) as int] && stats.p99
                == sorted[percentile_place(sorted.len(), 99) as int] && stats.max == sorted.last(),
{
    let len: usize = latencies.len();
    let mut sum: u128 = 0;
    let mut i: usize = 0;
    assert(latencies@.take(0) =~= Seq::empty());
    while i < len
        invariant
            i <= len == latencies@.len(),
            sum == total(latencies@.take(i as int)),
            sum <= i * u64::MAX,
        decreases len - i,
    {
        assert(latencies@.take(i + 1).drop_last() =~= latencies@.take(i as int));
        assert(i * u64::MAX + u64::MAX <= u128::MAX) by (nonlinear_arith)
            requires
                i < 0xffff_ffff_ffff_ffff,
        ;
        sum = sum + latencies[i] as u128;
        i += 1;
    }
    assert(latencies@.take(i as int) =~= latencies@);
    if len == 0 {
        return LatencyStats { p50: 0, p95: 0, p99: 0, max: 0, sum, count: len };
    }
    let sorted = sort(latencies);
    LatencyStats {
        p50: sorted[place_of(len, 50)],
        p95: sorted[place_of(len, 95)],
        p99: sorted[place_of(len, 99)],
        max: sorted[len - 1],
        sum,
        count: len,
    }
}

/// A scripted provider answers with the status it is asked for, if that is not 200, then with
/// an outage if it is asked for one; else it streams if it is asked to, by its settings or by
/// the request, and otherwise sends its body. It waits before it answers as long as it is
/// asked to.
pub proof fn law_scripted_providers_do_as_asked(params: MockParams, asked: bool)
    ensures
        ({
            let reply = planned(params, asked);
            let delay = if params.delay_ms is Some {
                params.delay_ms->0
            } else {
                0
            };
            let failing = params.status is Some && params.status->0 != 200;
            &&& failing && 100 <= params.status->0 <= 999 ==> reply is Error
                && reply->Error_status == params.status->0
            &&& failing && !(100 <= params.status->0 <= 999) ==> reply is Error
                && reply->Error_status == 500
            &&& failing ==> exists|digits: Seq<char>|
                #[trigger] text::decimal_value(digits) == params.status->0 && reply->Error_body
                    == "Mock upstream error: "@ + digits
            &&& !failing && params.fail == Some(true) ==> reply == (ReplyModel::Error {
                status: 503,
                body: "Mock provider simulated outage"@,
            })
            &&& !failing && params.fail != Some(true) ==> {
                &&& reply is Stream <==> asked || params.stream == Some(true)
                &&& reply is Json <==> !asked && params.stream != Some(true)
                &&& reply is Stream ==> reply->Stream_delay_ms == delay
                &&& reply is Json ==> reply->Json_delay_ms == delay
            }
        }),
{
    if params.status is Some {
        text::law_decimal_notation_reads_back(params.status->0 as nat);
        assert(text::decimal_value(text::decimal_text(params.status->0 as nat)) == params.status->0);
    }
}

/// A request asks for a stream if and only if it is a JSON object whose field `stream` is
/// true.
pub proof fn law_requests_ask_for_streams(body: Seq<u8>)
    ensures
        asks_for_stream(body) <==> {
            let document = json::json_of_bytes(body);
            &&& document is Some
            &&& document->0 is Object
            &&& document->0->Object_0.contains_key("stream"@)
            &&& document->0->Object_0["stream"@] == JsonTree::Bool(true)
        },
{
}

/// How many of the steps send something.
pub open spec fn sends(steps: Seq<StepModel>) -> nat
    decreases steps.len(),
{
    if steps.len() == 0 {
        0
    } else if steps.last() is Emit {
        sends(steps.drop_last()) + 1
    } else {
        sends(steps.drop_last())
    }
}

proof fn lemma_sends_add(a: Seq<StepModel>, b: Seq<StepModel>)
    ensures
        sends(a + b) == sends(a) + sends(b),
    decreases b.len(),
{
    if b.len() == 0 {
        assert(a + b =~= a);
    } else {
        assert((a + b).drop_last() =~= a + b.drop_last());
        lemma_sends_add(a, b.drop_last());
    }
}

proof fn lemma_token_sends(interval: u64, stall: bool, i: nat, n: nat)
    ensures
        sends(all_token_steps(interval, stall, i, n)) == i,
    decreases i,
{
    if i > 0 {
        let k = (i - 1) as nat;
        lemma_token_sends(interval, stall, k, n);
        let pause = if stall && k == n / 2 {
            seq![StepModel::Sleep(60_000)]
        } else {
            Seq::empty()
        };
        let event = seq![StepModel::Emit(token_event(k, n))];
        lemma_sends_add(all_token_steps(interval, stall, k, n), token_steps(interval, stall, k, n));
        lemma_sends_add(wait(interval) + pause, event);
        lemma_sends_add(wait(interval), pause);
        lemma_no_sends(interval);
        lemma_no_sends(60_000);
        assert(event.drop_last() =~= Seq::empty());
        assert(sends(event) == 1);
        assert(pause =~= Seq::empty() || pause =~= wait(60_000));
    } else {
        assert(all_token_steps(interval, stall, i, n) =~= Seq::empty());
    }
}

proof fn lemma_no_sends(millis: u64)
    ensures
        sends(wait(millis)) == 0,
        sends(Seq::<StepModel>::empty()) == 0,
{
    assert(sends(Seq::<StepModel>::empty()) == 0);
    if millis > 0 {
        assert(wait(millis).drop_last() =~= Seq::empty());
    }
}

/// A scripted stream sends as many tokens as it is asked to, ten if it is not told, then the
/// usage and the mark of its end. A malformed one sends a single thing that is no event.
pub proof fn law_scripted_streams_send_their_tokens(params: MockParams)
    ensures
        ({
            let steps = script(params);
            let n = if params.tokens is Some {
                params.tokens->0 as nat
            } else {
                10
            };
            &&& params.malformed != Some(true) ==> {
                &&& sends(steps) == n + 2
                &&& steps.last() == StepModel::Emit("data: [DONE]\n\n"@)
                &&& steps[steps.len() - 2] == StepModel::Emit(usage_event(n))
            }
            &&& params.malformed == Some(true) ==> {
                &&& sends(steps) == 1
                &&& steps.last() == StepModel::Emit("BAD_SSE_DATA_NO_PREFIX\n\n"@)
            }
        }),
{
    let n = token_count(params);
    let opening = wait(millis_or_zero(params.first_token_delay_ms));
    lemma_no_sends(millis_or_zero(params.first_token_delay_ms));
    if flag(params.malformed) {
        let bad = StepModel::Emit("BAD_SSE_DATA_NO_PREFIX\n\n"@);
        assert(opening.push(bad).drop_last() =~= opening);
        assert(sends(opening.push(bad)) == 1);
    } else {
        let interval = millis_or_zero(params.token_interval_ms);
        let tokens = all_token_steps(interval, flag(params.stall), n, n);
        lemma_token_sends(interval, flag(params.stall), n, n);
        lemma_sends_add(opening, tokens);
        let usage = StepModel::Emit(usage_event(n));
        let done = StepModel::Emit("data: [DONE]\n\n"@);
        let most = (opening + tokens).push(usage);
        assert(most.drop_last() =~= opening + tokens);
        assert(sends(most) == n + 1);
        assert(most.push(done).drop_last() =~= most);
        assert(sends(most.push(done)) == n + 2);
        assert(script(params) == most.push(done));
    }
}

/// The percentile `p` of `len` items stands behind the same share of them: as many items as
/// there are whole in that share come before it.
pub proof fn law_percentiles_stand_behind_their_share(len: nat, p: nat)
    requires
        len > 0,
        p < 100,
    ensures
        ({
            let place = percentile_place(len, p);
            &&& place < len
            &&& place * 100 <= len * p < (place + 1) * 100
        }),
{
    assert(len * p / 100 < len) by (nonlinear_arith)
        requires
            len > 0,
            p < 100,
    ;
}

/// The sum of latencies counts each of them once.
pub proof fn law_latencies_add_up(list: Seq<u64>, one: u64)
    ensures
        total(Seq::<u64>::empty()) == 0,
        total(list.push(one)) == total(list) + one,
{
    assert(list.push(one).drop_last() =~= list);
}

/// The events of a scripted stream are those of a chat: each token is a piece of content with
/// its number, the last one says that it is, and the usage counts fifteen tokens of the prompt
/// and the tokens that were sent.
pub proof fn law_scripted_events_read_as_a_chat(i: nat, n: nat)
    ensures
        ({
            let end = if i + 1 == n {
                "\"stop\""@
            } else {
                "null"@
            };
            exists|number: Seq<char>|
                #[trigger] text::decimal_value(number) == i && token_event(i, n)
                    == "data: {\"choices\":[{\"delta\":{\"content\":\" token_"@ + number
                    + "\"},\"finish_reason\":"@ + end
                    + ",\"index\":0}],\"created\":1700000000,\"id\":\"chatcmpl-mock\",\"model\":\"mock-llm\",\"object\":\"chat.completion.chunk\"}\n\n"@
        }),
        exists|sent: Seq<char>, all: Seq<char>|
            #[trigger] text::decimal_value(sent) == n && #[trigger] text::decimal_value(all) == 15
                + n && usage_event(n)
                == "data: {\"choices\":[],\"id\":\"chatcmpl-mock\",\"object\":\"chat.completion.chunk\",\"usage\":{\"completion_tokens\":"@
                + sent + ",\"prompt_tokens\":15,\"total_tokens\":"@ + all + "}}\n\n"@,
{
    text::law_decimal_notation_reads_back(i);
    text::law_decimal_notation_reads_back(n);
    text::law_decimal_notation_reads_back(15 + n);
    let number = text::decimal_text(i);
    assert(text::decimal_value(number) == i);
    let sent = text::decimal_text(n);
    let all = text::decimal_text(15 + n);
    assert(text::decimal_value(sent) == n && text::decimal_value(all) == 15 + n);
}

/// Before each token a scripted stream waits as long as it is asked to; one that stalls
/// pauses for a minute in the middle.
pub proof fn law_scripted_streams_keep_their_pace(interval: u64, stall: bool, i: nat, n: nat)
    ensures
        ({
            let steps = token_steps(interval, stall, i, n);
            &&& steps.last() == StepModel::Emit(token_event(i, n))
            &&& interval > 0 ==> steps[0] == StepModel::Sleep(interval)
            &&& interval == 0 && !(stall && i == n / 2) ==> steps.len() == 1
            &&& stall && i == n / 2 ==> steps[steps.len() - 2] == StepModel::Sleep(60_000)
            &&& steps.len() == 1 + (if interval > 0 {
                1int
            } else {
                0
            }) + (if stall && i == n / 2 {
                1int
            } else {
                0
            })
        }),
{
}

/// A scripted provider stands at its address, under its name and priority, with a key and
/// short time limits.
pub proof fn law_bench_providers(p: ProviderConfig, name: &str, address: Seq<char>, priority: u32)
    requires
        is_bench_provider(p, name, address, priority),
    ensures
        p.name@ == name@,
        p.endpoint@ == "http://"@ + address,
        p.api_key is Some,
        p.api_key->0@ == "mock-key"@,
        p.priority == priority,
        p.connect_timeout_seconds == 2,
        p.request_timeout_seconds == 5,
        p.stream_idle_timeout_seconds == 5,
        BENCH_THRESHOLD_BITS == 0x3f59_999a,
{
}

/// A sorted list holds the same items, and none stands behind a larger one.
pub proof fn law_sorted_lists_hold_the_same_items(
    list: Seq<u64>,
    sorted: Seq<u64>,
    item: u64,
    i: int,
    j: int,
)
    requires
        sorts(list, sorted),
    ensures
        sorted.len() == list.len(),
        sorted.to_multiset().count(item) == list.to_multiset().count(item),
        0 <= i <= j < sorted.len() ==> sorted[i] <= sorted[j],
{
    list.to_multiset_ensures();
    sorted.to_multiset_ensures();
}

} // verus!
