use rust_llm_gateway::cache::exact::ExactCache;
use rust_llm_gateway::config::{
    AppConfig, AuthConfig, CacheConfig, CircuitBreakerConfig, ClientCredential, ProviderConfig,
    RateLimitConfig, ServerConfig,
};
use rust_llm_gateway::error::AppError;
use rust_llm_gateway::float_bits::F32Bits;
use rust_llm_gateway::handlers::chat::{
    chat_completions, estimate_tokens, ChatEvent, ChatFlow,
};
use rust_llm_gateway::handlers::dispatch::{
    is_non_retryable_client_error, is_retryable_upstream_status, Dispatch, DispatchAction,
    DispatchEvent, DispatchReply, Route,
};
use rust_llm_gateway::handlers::embeddings::{
    embeddings, estimate_embedding_tokens, EmbeddingsEvent,
};
use rust_llm_gateway::handlers::health::healthz;
use rust_llm_gateway::json::UsageCounts;
use rust_llm_gateway::middleware::rate_limit::TokenAmount;
use rust_llm_gateway::proxy::client::{
    build_chat_request, build_embeddings_request, OutboundRequest,
};
use rust_llm_gateway::proxy::stream::{
    proxy_stream_passthrough, stream_head, EventFacts, StreamEvent, StreamSession,
};
use rust_llm_gateway::router::circuit_breaker::BreakerState;
use rust_llm_gateway::router::selector::ProviderSelector;
use rust_llm_gateway::state::{AppState, ClientIdentity};
use rust_llm_gateway::telemetry::metrics::{MetricOp, MetricUpdate};
use rust_llm_gateway::types::{ChatCompletionRequest, EmbeddingInput, StreamOptions};

const MS: u64 = 1_000_000;
const SECOND: u64 = 1_000_000_000;

fn provider(name: &str, priority: u32) -> ProviderConfig {
    ProviderConfig {
        name: name.to_string(),
        endpoint: format!("http://{}:8000/", name),
        api_key: None,
        priority,
        connect_timeout_seconds: 1,
        request_timeout_seconds: 7,
        stream_idle_timeout_seconds: 5,
    }
}

fn state_with(providers: Vec<ProviderConfig>, tpm: u32) -> AppState {
    AppState::new(AppConfig {
        server: ServerConfig {
            host: "127.0.0.1".to_string(),
            port: 0,
            max_body_bytes: 1024 * 1024,
        },
        auth: AuthConfig {
            credentials: vec![ClientCredential {
                key: "test-key".to_string(),
                client_id: "test-client".to_string(),
                tier: "default".to_string(),
            }],
        },
        rate_limit: RateLimitConfig { default_rpm: 1000, default_tpm: tpm },
        cache: CacheConfig {
            exact_max_entries: 100,
            exact_ttl_seconds: 60,
            semantic_enabled: false,
            semantic_threshold: F32Bits::from_bits(0.96f32.to_bits()),
        },
        circuit_breaker: CircuitBreakerConfig {
            failure_threshold: 5,
            cooldown_seconds: 1,
            half_open_max_calls: 1,
        },
        providers,
    })
}

fn client() -> ClientIdentity {
    ClientIdentity {
        client_id: "test-client".to_string(),
        tier: "default".to_string(),
    }
}

fn request(stream: bool, temperature: f32) -> ChatCompletionRequest {
    ChatCompletionRequest {
        model: "gpt-4".to_string(),
        message_count: 1,
        temperature: F32Bits::from_bits(temperature.to_bits()),
        stream,
        stream_options: None,
        max_tokens: None,
    }
}

fn accepted(state: &mut AppState, request: ChatCompletionRequest) -> ChatFlow {
    let admission = chat_completions(state, &client(), request, 0);
    assert!(admission.metrics.is_empty());
    admission.result.unwrap()
}

/// The tokens that the client has left.
fn left(state: &mut AppState, now: u64) -> TokenAmount {
    state.buckets_for("test-client", now).tpm.available_tokens_at(now)
}

fn sent(reply: DispatchReply) -> OutboundRequest {
    match reply.action {
        DispatchAction::Send(request) => request,
        other => panic!("expected a request, got {:?}", other),
    }
}

fn failed(reply: DispatchReply) -> AppError {
    match reply.action {
        DispatchAction::Fail(error) => error,
        other => panic!("expected an error, got {:?}", other),
    }
}

fn upstream(flow: &mut ChatFlow, state: &mut AppState, event: DispatchEvent, now: u64) -> DispatchReply {
    flow.advance(state, ChatEvent::Upstream(event), now)
}

/// The names and label values of updates.
fn summary(updates: &[MetricUpdate]) -> Vec<String> {
    updates
        .iter()
        .map(|u| {
            let values: Vec<&str> = u.labels.iter().map(|l| l.1.as_str()).collect();
            format!("{} {}", u.name, values.join(" "))
        })
        .collect()
}

#[test]
fn healthz_returns_200() {
    let mut state = state_with(vec![provider("a", 1), provider("b", 2)], 1000);
    let report = healthz(&state);
    assert_eq!(report.response_status, 200);
    assert_eq!(report.status, "ok");
    assert_eq!(report.providers_configured, 2);
    assert_eq!(report.circuit_breakers_tracked, 0);
    ProviderSelector::new(&mut state).select_ordered();
    assert_eq!(healthz(&state).circuit_breakers_tracked, 2);
    state.breaker_for("a").record_failure();
    assert_eq!(healthz(&state).circuit_breakers_tracked, 2);
}

#[test]
fn statuses_are_classified() {
    for status in [500u16, 503, 599, 429, 408] {
        assert!(is_retryable_upstream_status(status));
        assert!(!is_non_retryable_client_error(status));
    }
    for status in [400u16, 401, 403, 404, 422, 499] {
        assert!(!is_retryable_upstream_status(status));
        assert!(is_non_retryable_client_error(status));
    }
    for status in [100u16, 200, 204, 301, 600, 999] {
        assert!(!is_retryable_upstream_status(status));
        assert!(!is_non_retryable_client_error(status));
    }
}

#[test]
fn outbound_requests_are_built() {
    let mut p = provider("a", 1);
    p.endpoint = "https://api.example.com/openai//".to_string();
    let r = build_chat_request(&p, false, b"{}".to_vec());
    assert_eq!(r.url, "https://api.example.com/openai/v1/chat/completions");
    assert_eq!(r.timeout_seconds, 7);
    assert_eq!(r.connect_timeout_seconds, 1);
    assert!(r.timeout_covers_body);
    assert!(!build_chat_request(&p, true, vec![]).timeout_covers_body);
    assert_eq!(
        r.headers,
        [
            ("content-type", "application/json"),
            ("accept", "application/json, text/event-stream")
        ]
    );
    assert_eq!(r.bearer, None);
    assert_eq!(r.body, b"{}");

    p.api_key = Some(String::new());
    assert_eq!(build_chat_request(&p, false, vec![]).bearer, None);
    p.api_key = Some("sk-1".to_string());
    let r = build_embeddings_request(&p, vec![]);
    assert_eq!(r.url, "https://api.example.com/openai/v1/embeddings");
    assert_eq!(r.bearer.as_deref(), Some("sk-1"));
}

#[test]
fn selection_skips_open_breakers_and_consumes_nothing() {
    let mut state = state_with(vec![provider("b", 2), provider("a", 1), provider("c", 3)], 1000);
    for _ in 0..5 {
        state.breaker_for("a").record_failure_at(0);
    }
    let names = |list: Vec<rust_llm_gateway::router::selector::SelectedProvider>| {
        list.into_iter().map(|s| s.config.name).collect::<Vec<String>>()
    };
    let mut selector = ProviderSelector::new(&mut state);
    assert_eq!(names(selector.select_ordered_at(SECOND - 1)), ["b", "c"]);
    assert_eq!(names(selector.select_ordered_at(SECOND)), ["a", "b", "c"]);
    assert_eq!(names(selector.select_ordered_at(SECOND)), ["a", "b", "c"]);
    assert_eq!(state.breaker_for("a").current_state(), BreakerState::Open);
    assert!(state.breaker_for("a").allow_request_at(SECOND));
    let mut selector = ProviderSelector::new(&mut state);
    assert_eq!(names(selector.select_ordered_at(SECOND)), ["b", "c"]);
}

#[test]
fn tokens_are_estimated() {
    assert_eq!(estimate_tokens(None, 1), TokenAmount::whole(276));
    assert_eq!(estimate_tokens(Some(100), 3), TokenAmount::whole(160));
    assert_eq!(estimate_tokens(Some(0), 0), TokenAmount::whole(0));

    let e = estimate_embedding_tokens;
    assert_eq!(e(&EmbeddingInput::String("hello world".to_string())), TokenAmount::quarters(11));
    assert_eq!(e(&EmbeddingInput::String(String::new())), TokenAmount::whole(1));
    assert_eq!(e(&EmbeddingInput::String("\u{e9}\u{e9}\u{e9}".to_string())), TokenAmount::quarters(6));
    assert_eq!(
        e(&EmbeddingInput::StringArray(vec!["abcd".to_string(), "ef".to_string()])),
        TokenAmount::quarters(6)
    );
    assert_eq!(e(&EmbeddingInput::TokenArray(vec![1, 2, 3])), TokenAmount::whole(3));
    assert_eq!(
        e(&EmbeddingInput::TokenMatrix(vec![vec![1], vec![2, 3]])),
        TokenAmount::whole(3)
    );
}

#[test]
fn a_client_without_tokens_is_refused() {
    let mut state = state_with(vec![provider("a", 1)], 300);
    accepted(&mut state, request(false, 1.0));
    let refused = chat_completions(&mut state, &client(), request(false, 1.0), 0);
    let response = refused.result.unwrap_err().into_response();
    assert_eq!(response.status, 429);
    // 276 of 300 tokens are reserved; 252 more come back at 5 per second.
    assert_eq!(response.retry_after, Some(51));
    assert_eq!(
        summary(&refused.metrics),
        ["gateway_request_errors_total rate_limit tpm_exceeded"]
    );
    let refused = embeddings(
        &mut state,
        &client(),
        &EmbeddingInput::TokenArray(vec![0; 100]),
        0,
    );
    assert!(matches!(refused.result, Err(AppError::RateLimited { retry_after: 16 })));
}

#[test]
fn streamed_requests_ask_for_the_usage() {
    let mut state = state_with(vec![provider("a", 1)], 100_000);
    let flow = accepted(&mut state, request(true, 0.0));
    assert_eq!(flow.request.stream_options, Some(StreamOptions { include_usage: true }));
    let flow = accepted(&mut state, request(false, 0.0));
    assert_eq!(flow.request.stream_options, None);
    let mut own = request(true, 0.0);
    own.stream_options = Some(StreamOptions { include_usage: false });
    let flow = accepted(&mut state, own);
    assert_eq!(flow.request.stream_options, Some(StreamOptions { include_usage: false }));
}

#[test]
fn chat_completions_happy_path_with_mock_upstream() {
    let mut state = state_with(vec![provider("test-mock", 1)], 100_000);
    let mut flow = accepted(&mut state, request(false, 0.0));
    assert_eq!(left(&mut state, 0), TokenAmount::whole(99_724));

    let payload = "{\"model\":\"gpt-4\"}".to_string();
    let key = ExactCache::compute_key("gpt-4", &payload, F32Bits::from_bits(0)).unwrap();
    let reply = flow.advance(&mut state, ChatEvent::PayloadReady(payload.clone()), 0);
    assert_eq!(summary(&reply.metrics), ["gateway_cache_misses_total exact"]);
    let out = sent(reply);
    assert_eq!(out.url, "http://test-mock:8000/v1/chat/completions");
    assert_eq!(out.body, payload.as_bytes());

    let reply = upstream(&mut flow, &mut state, DispatchEvent::Status(200), 3 * MS);
    assert_eq!(
        summary(&reply.metrics),
        [
            "gateway_requests_total test-mock success",
            "gateway_upstream_latency_seconds test-mock"
        ]
    );
    assert_eq!(reply.metrics[1].op, MetricOp::HistogramRecord(3_000_000));
    assert!(matches!(reply.action, DispatchAction::ReadBody));

    let body = "{\"choices\":[{\"message\":{\"content\":\"Hello from mock upstream!\"}}],\
                \"usage\":{\"prompt_tokens\":10,\"completion_tokens\":10,\"total_tokens\":20}}";
    let reply = upstream(
        &mut flow,
        &mut state,
        DispatchEvent::Body(body.as_bytes().to_vec()),
        0,
    );
    assert_eq!(
        summary(&reply.metrics),
        [
            "gateway_tokens_total test-mock prompt",
            "gateway_tokens_total test-mock completion",
            "gateway_request_latency_seconds "
        ]
    );
    assert_eq!(reply.metrics[0].op, MetricOp::CounterAdd(10));
    let response = match reply.action {
        DispatchAction::Respond(response) => response,
        other => panic!("expected a response, got {:?}", other),
    };
    let v: serde_json::Value = serde_json::from_slice(&response.body).unwrap();
    assert_eq!(
        v["choices"][0]["message"]["content"],
        "Hello from mock upstream!"
    );
    assert_eq!(response.headers[0], ("content-type", "application/json".to_string()));
    assert_eq!(response.status, 200);
    assert_eq!(response.headers[1], ("x-cache", "MISS".to_string()));
    assert_eq!(response.headers[2], ("x-provider", "test-mock".to_string()));
    assert_eq!(state.look_up(&key), Some(body.to_string()));
    // 276 tokens were reserved, 20 were used.
    assert_eq!(left(&mut state, 0), TokenAmount::whole(99_980));
}

#[test]
fn a_cache_hit_is_served_again_and_costs_nothing() {
    let mut state = state_with(vec![provider("a", 1)], 100_000);
    let mut first = accepted(&mut state, request(false, 0.0));
    sent(first.advance(&mut state, ChatEvent::PayloadReady("{}".to_string()), 0));
    upstream(&mut first, &mut state, DispatchEvent::Status(200), 0);
    let body = DispatchEvent::Body("cached \u{e9}".as_bytes().to_vec());
    upstream(&mut first, &mut state, body, 0);
    let mut flow = accepted(&mut state, request(false, 0.0));
    let reply = flow.advance(&mut state, ChatEvent::PayloadReady("{}".to_string()), 2 * MS);
    assert_eq!(
        summary(&reply.metrics),
        [
            "gateway_cache_hits_total exact",
            "gateway_request_latency_seconds ",
            "gateway_requests_total exact_cache cache_hit"
        ]
    );
    assert_eq!(reply.metrics[1].op, MetricOp::HistogramRecord(2_000_000));
    match reply.action {
        DispatchAction::Respond(response) => {
            assert_eq!(response.status, 200);
            assert_eq!(response.body, "cached \u{e9}".as_bytes());
            assert_eq!(response.headers[1], ("x-cache", "HIT".to_string()));
        }
        other => panic!("expected a response, got {:?}", other),
    }
    assert_eq!(left(&mut state, 2 * MS), TokenAmount::whole(100_000));
    // Another request is not answered with this response.
    let mut other = accepted(&mut state, request(false, 0.0));
    sent(other.advance(&mut state, ChatEvent::PayloadReady("[]".to_string()), 2 * MS));
}

#[test]
fn the_answer_of_the_cache_decides_what_follows() {
    let mut state = state_with(vec![provider("a", 1)], 100_000);
    let mut flow = accepted(&mut state, request(false, 0.0));
    let reply = flow.on_lookup(&mut state, Some("found".to_string()), 0);
    assert!(matches!(reply.action, DispatchAction::Respond(response) if response.body == b"found"));
    let mut flow = accepted(&mut state, request(false, 0.0));
    let reply = flow.on_lookup(&mut state, None, 0);
    assert_eq!(summary(&reply.metrics), ["gateway_cache_misses_total exact"]);
    assert_eq!(sent(reply).url, "http://a:8000/v1/chat/completions");
}

#[test]
fn requests_that_are_not_deterministic_skip_the_cache() {
    let mut state = state_with(vec![provider("a", 1)], 100_000);
    for (stream, temperature) in [(true, 0.0f32), (false, 0.7), (false, -1.0)] {
        let mut flow = accepted(&mut state, request(stream, temperature));
        let reply = flow.advance(&mut state, ChatEvent::PayloadReady("{}".to_string()), 0);
        assert!(reply.metrics.is_empty());
        sent(reply);
        upstream(&mut flow, &mut state, DispatchEvent::Status(200), 0);
        if !stream {
            upstream(&mut flow, &mut state, DispatchEvent::Body(b"{}".to_vec()), 0);
        }
    }
    let key = ExactCache::compute_key("gpt-4", "{}", F32Bits::from_bits(0)).unwrap();
    assert_eq!(state.look_up(&key), None);
}

#[test]
fn chat_completions_fails_over_when_upstream_unreachable() {
    let mut state = state_with(vec![provider("test-unreachable", 1)], 100_000);
    let mut flow = accepted(&mut state, request(false, 0.0));
    sent(flow.advance(&mut state, ChatEvent::PayloadReady("{}".to_string()), 0));
    let reply = upstream(&mut flow, &mut state, DispatchEvent::SendFailed, 0);
    assert_eq!(
        summary(&reply.metrics),
        [
            "gateway_request_errors_total test-unreachable connect_error",
            "gateway_request_errors_total all all_providers_failed"
        ]
    );
    let error = failed(reply);
    assert_eq!(error.text(), "upstream: test-unreachable: connection error");
    assert_eq!(error.into_response().status, 502);
    // The reservation is given back.
    assert_eq!(left(&mut state, 0), TokenAmount::whole(100_000));
}

#[test]
fn providers_are_tried_in_order_and_each_once() {
    let mut state = state_with(
        vec![provider("c", 3), provider("a", 1), provider("b", 2)],
        100_000,
    );
    let mut flow = accepted(&mut state, request(false, 1.0));
    let out = sent(flow.advance(&mut state, ChatEvent::PayloadReady("{}".to_string()), 0));
    assert_eq!(out.url, "http://a:8000/v1/chat/completions");
    let reply = upstream(&mut flow, &mut state, DispatchEvent::Status(503), 0);
    assert_eq!(
        summary(&reply.metrics),
        ["gateway_request_errors_total a retryable_error"]
    );
    assert_eq!(sent(reply).url, "http://b:8000/v1/chat/completions");
    let reply = upstream(&mut flow, &mut state, DispatchEvent::Status(200), 0);
    assert!(matches!(reply.action, DispatchAction::ReadBody));
    let reply = upstream(&mut flow, &mut state, DispatchEvent::BodyFailed, 0);
    assert_eq!(
        summary(&reply.metrics),
        ["gateway_request_errors_total b body_read_error"]
    );
    assert_eq!(sent(reply).url, "http://c:8000/v1/chat/completions");
    let error = failed(upstream(&mut flow, &mut state, DispatchEvent::Status(429), 0));
    assert_eq!(error.text(), "upstream: c returned 429 Too Many Requests");
    assert_eq!(left(&mut state, 0), TokenAmount::whole(100_000));
}

#[test]
fn a_breaker_that_denies_at_the_last_moment_is_skipped() {
    let mut state = state_with(vec![provider("a", 1), provider("b", 2)], 100_000);
    let mut first = accepted(&mut state, request(false, 1.0));
    sent(first.advance(&mut state, ChatEvent::PayloadReady("{}".to_string()), 0));
    // Meanwhile the second provider trips.
    for _ in 0..5 {
        state.breaker_for("b").record_failure_at(0);
    }
    let error = failed(upstream(&mut first, &mut state, DispatchEvent::Status(500), 0));
    assert_eq!(error.text(), "upstream: a returned 500 Internal Server Error");
}

#[test]
fn without_any_provider_the_request_fails_at_once() {
    let mut state = state_with(vec![provider("a", 1)], 100_000);
    for _ in 0..5 {
        state.breaker_for("a").record_failure_at(0);
    }
    let mut flow = accepted(&mut state, request(false, 1.0));
    let reply = flow.advance(&mut state, ChatEvent::PayloadReady("{}".to_string()), 0);
    assert_eq!(
        summary(&reply.metrics),
        ["gateway_request_errors_total all no_available_providers"]
    );
    assert_eq!(
        failed(reply).text(),
        "upstream: no available providers (all circuit breakers open)"
    );
    assert_eq!(left(&mut state, 0), TokenAmount::whole(100_000));
}

#[test]
fn a_rejected_request_is_not_repeated() {
    for (status, line, failures) in [
        (400u16, "400 Bad Request", false),
        (401, "401 Unauthorized", true),
        (403, "403 Forbidden", true),
        (422, "422 Unprocessable Entity", false),
    ] {
        let mut state = state_with(vec![provider("a", 1), provider("b", 2)], 100_000);
        for _ in 0..4 {
            state.breaker_for("a").record_failure_at(0);
        }
        let mut flow = accepted(&mut state, request(false, 1.0));
        sent(flow.advance(&mut state, ChatEvent::PayloadReady("{}".to_string()), 0));
        let reply = upstream(&mut flow, &mut state, DispatchEvent::Status(status), 0);
        assert_eq!(
            summary(&reply.metrics),
            ["gateway_request_errors_total a client_error"]
        );
        let error = failed(reply);
        assert_eq!(
            error.text(),
            format!("bad request: upstream rejected request with {}", line)
        );
        assert_eq!(error.into_response().status, 400);
        // A wrong key is a failure of the provider, a bad request is not.
        let state_of_a = state.breaker_for("a").current_state();
        assert_eq!(state_of_a == BreakerState::Open, failures);
        assert_eq!(left(&mut state, 0), TokenAmount::whole(100_000));
    }
}

#[test]
fn a_request_that_cannot_be_serialized_is_abandoned() {
    let mut state = state_with(vec![provider("a", 1)], 100_000);
    let mut flow = accepted(&mut state, request(false, 1.0));
    let error = failed(flow.advance(
        &mut state,
        ChatEvent::PayloadFailed("too deep".to_string()),
        0,
    ));
    assert_eq!(error.text(), "internal: failed to serialize payload: too deep");
    assert_eq!(left(&mut state, 0), TokenAmount::whole(100_000));
}

#[test]
fn a_body_without_usage_costs_nothing_and_is_passed_on() {
    let mut state = state_with(vec![provider("a", 1)], 100_000);
    let mut flow = accepted(&mut state, request(false, 1.0));
    sent(flow.advance(&mut state, ChatEvent::PayloadReady("{}".to_string()), 0));
    upstream(&mut flow, &mut state, DispatchEvent::Status(200), 0);
    let reply = upstream(&mut flow, &mut state, DispatchEvent::Body(b"not \xff json".to_vec()), 0);
    match reply.action {
        DispatchAction::Respond(response) => {
            assert_eq!(response.body, "not \u{fffd} json".as_bytes());
        }
        other => panic!("expected a response, got {:?}", other),
    }
    assert_eq!(left(&mut state, 0), TokenAmount::whole(100_000));
}

#[test]
fn a_body_with_a_usage_that_is_no_object_reports_zeros() {
    for usage in ["null", "7", "{}"] {
        let mut state = state_with(vec![provider("a", 1)], 100_000);
        let mut flow = accepted(&mut state, request(false, 1.0));
        sent(flow.advance(&mut state, ChatEvent::PayloadReady("{}".to_string()), 0));
        upstream(&mut flow, &mut state, DispatchEvent::Status(200), 0);
        let body = format!("{{\"usage\":{}}}", usage).into_bytes();
        let reply = upstream(&mut flow, &mut state, DispatchEvent::Body(body), 0);
        assert_eq!(
            summary(&reply.metrics),
            [
                "gateway_tokens_total a prompt",
                "gateway_tokens_total a completion",
                "gateway_request_latency_seconds "
            ]
        );
        assert_eq!(reply.metrics[0].op, MetricOp::CounterAdd(0));
        assert_eq!(left(&mut state, 0), TokenAmount::whole(100_000));
    }
}

fn streaming(state: &mut AppState) -> StreamSession {
    let mut flow = accepted(state, request(true, 0.0));
    sent(flow.advance(state, ChatEvent::PayloadReady("{}".to_string()), 0));
    let reply = upstream(&mut flow, state, DispatchEvent::Status(200), 0);
    assert_eq!(reply.metrics.len(), 3);
    match reply.action {
        DispatchAction::Stream(session) => session,
        other => panic!("expected a stream, got {:?}", other),
    }
}

#[test]
fn a_stream_is_timed_and_charged_once() {
    let mut state = state_with(vec![provider("a", 1)], 100_000);
    let mut session = streaming(&mut state);
    assert_eq!(session.idle_timeout_seconds(), 5);
    assert_eq!(left(&mut state, 0), TokenAmount::whole(99_724));

    let updates = session.on_chunk(&mut state, b"data: {\"choices\":[{\"delta\":{\"role\":\"x\"}}]}\n\nda", 0);
    assert!(updates.is_empty());
    // A usage that is null is none.
    let updates = session.on_chunk(
        &mut state,
        b"ta: {\"choices\":[{\"delta\":{\"content\":\"Hi\"}}],\"usage\":null}\n\n",
        0,
    );
    assert_eq!(summary(&updates), ["gateway_ttft_seconds a"]);
    let usage = b"data: {\"choices\":[],\"usage\":{\"prompt_tokens\":15,\"completion_tokens\":10}}\n\n";
    let updates = session.on_chunk(&mut state, usage, 0);
    assert_eq!(
        summary(&updates),
        ["gateway_tokens_total a prompt", "gateway_tokens_total a completion"]
    );
    assert_eq!(left(&mut state, 0), TokenAmount::whole(99_975));
    // Nothing of this happens twice.
    let updates = session.on_chunk(&mut state, usage, 0);
    assert!(updates.is_empty());
    let updates = session.on_chunk(
        &mut state,
        b"data: {\"choices\":[{\"delta\":{\"content\":\"Hi\"}}]}\n\ndata: [DONE]\n\n",
        0,
    );
    assert!(updates.is_empty());
    session.on_end(&mut state, 0);
    assert_eq!(left(&mut state, 0), TokenAmount::whole(99_975));
}

#[test]
fn a_broken_stream_counts_once_and_gives_its_tokens_back() {
    let mut state = state_with(vec![provider("a", 1)], 100_000);
    for _ in 0..4 {
        state.breaker_for("a").record_failure_at(0);
    }
    // That the stream begins is no success yet.
    let mut session = streaming(&mut state);
    assert_eq!(state.breaker_for("a").current_state(), BreakerState::Closed);
    session.on_break(&mut state, 0);
    assert_eq!(state.breaker_for("a").current_state(), BreakerState::Open);
    state.breaker_for("a").allow_request_at(SECOND);
    state.breaker_for("a").record_success();
    session.on_break(&mut state, 2 * SECOND);
    assert_eq!(state.breaker_for("a").current_state(), BreakerState::Closed);
    session.on_end(&mut state, 0);
    session.on_end(&mut state, 0);
    assert_eq!(left(&mut state, 0), TokenAmount::whole(100_000));
}

#[test]
fn a_provider_that_keeps_dropping_streams_is_broken_off() {
    let mut state = state_with(vec![provider("a", 1)], 100_000);
    for i in 0..5 {
        assert_eq!(state.breaker_for("a").current_state(), BreakerState::Closed, "stream {}", i);
        let mut session = streaming(&mut state);
        session.advance(&mut state, StreamEvent::Chunk(b"data: {}\n\n"), 0);
        session.advance(&mut state, StreamEvent::Broken("reset".to_string()), 0);
    }
    assert_eq!(state.breaker_for("a").current_state(), BreakerState::Open);
}

#[test]
fn a_complete_stream_is_a_success() {
    let mut state = state_with(vec![provider("a", 1)], 100_000);
    for _ in 0..4 {
        state.breaker_for("a").record_failure_at(0);
    }
    let mut session = streaming(&mut state);
    let reply = session.advance(&mut state, StreamEvent::Ended, 0);
    assert!(reply.stop && !reply.forward && reply.error.is_none() && reply.metrics.is_empty());
    // The failures before it are forgotten, and a late break does not count.
    session.on_break(&mut state, 0);
    state.breaker_for("a").record_failure_at(0);
    assert_eq!(state.breaker_for("a").current_state(), BreakerState::Closed);
    assert_eq!(left(&mut state, 0), TokenAmount::whole(100_000));
}

#[test]
fn every_event_of_a_stream_has_its_reply() {
    let mut state = state_with(vec![provider("a", 1)], 100_000);
    let mut session = streaming(&mut state);
    let chunk = b"data: {\"usage\":{\"prompt_tokens\":1,\"completion_tokens\":2}}\n\n";
    let reply = session.advance(&mut state, StreamEvent::Chunk(chunk), 0);
    assert!(reply.forward && !reply.stop && reply.error.is_none());
    assert_eq!(reply.metrics.len(), 2);
    let reply = session.advance(&mut state, StreamEvent::Broken("reset".to_string()), 0);
    assert!(!reply.forward && reply.stop);
    let error = reply.error.unwrap();
    assert_eq!((error.timed_out, error.message.as_str()), (false, "reset"));
    assert_eq!(left(&mut state, 0), TokenAmount::whole(99_997));

    let mut session = streaming(&mut state);
    let reply = session.advance(&mut state, StreamEvent::Idle, 0);
    assert!(!reply.forward && reply.stop);
    let error = reply.error.unwrap();
    assert_eq!(
        (error.timed_out, error.message.as_str()),
        (true, "stream idle timeout exceeded")
    );
    assert_eq!(left(&mut state, 0), TokenAmount::whole(99_997));
}

#[test]
fn time_to_first_token_starts_when_the_request_is_dispatched() {
    let mut state = state_with(vec![provider("a", 1)], 100_000);
    let mut flow = accepted(&mut state, request(true, 0.0));
    sent(flow.advance(&mut state, ChatEvent::PayloadReady("{}".to_string()), 5 * MS));
    let reply = upstream(&mut flow, &mut state, DispatchEvent::Status(200), 40 * MS);
    let mut session = match reply.action {
        DispatchAction::Stream(session) => session,
        other => panic!("expected a stream, got {:?}", other),
    };
    let chunk = b"data: {\"choices\":[{\"delta\":{\"content\":\"Hi\"}}]}\n\n";
    let updates = session.on_chunk(&mut state, chunk, 65 * MS);
    assert_eq!(updates[0].op, MetricOp::HistogramRecord(60_000_000));
}

#[test]
fn an_answer_counts_when_its_body_was_read() {
    // The body is read: the failures before it are forgotten.
    let mut state = state_with(vec![provider("a", 1)], 100_000);
    for _ in 0..4 {
        state.breaker_for("a").record_failure_at(0);
    }
    let mut flow = accepted(&mut state, request(false, 1.0));
    sent(flow.advance(&mut state, ChatEvent::PayloadReady("{}".to_string()), 0));
    upstream(&mut flow, &mut state, DispatchEvent::Status(200), 0);
    upstream(&mut flow, &mut state, DispatchEvent::Body(b"{}".to_vec()), 0);
    state.breaker_for("a").record_failure_at(0);
    assert_eq!(state.breaker_for("a").current_state(), BreakerState::Closed);

    // The body breaks off: the failure counts with those before it.
    for _ in 0..3 {
        state.breaker_for("a").record_failure_at(0);
    }
    let mut flow = accepted(&mut state, request(false, 1.0));
    sent(flow.advance(&mut state, ChatEvent::PayloadReady("{}".to_string()), 0));
    upstream(&mut flow, &mut state, DispatchEvent::Status(200), 0);
    assert_eq!(state.breaker_for("a").current_state(), BreakerState::Closed);
    upstream(&mut flow, &mut state, DispatchEvent::BodyFailed, 0);
    assert_eq!(state.breaker_for("a").current_state(), BreakerState::Open);

    // The client goes away while a probe answers: the probe has not failed.
    let mut flow = accepted(&mut state, request(false, 1.0));
    sent(flow.advance(&mut state, ChatEvent::PayloadReady("{}".to_string()), SECOND));
    upstream(&mut flow, &mut state, DispatchEvent::Status(200), SECOND);
    assert_eq!(state.breaker_for("a").current_state(), BreakerState::HalfOpen);
    flow.dispatch.abandon(&mut state, AppError::internal("gone"), SECOND);
    assert_eq!(state.breaker_for("a").current_state(), BreakerState::Closed);
}

#[test]
fn what_is_read_of_an_event_decides() {
    let mut state = state_with(vec![provider("a", 1)], 100_000);
    let mut session = proxy_stream_passthrough("a", "test-client", None, 0, 10);
    assert_eq!(session.idle_timeout_seconds(), 1);
    let mut updates = Vec::new();
    let facts = EventFacts { content: true, usage: Some((1, 2)) };
    session.on_event(&mut state, facts, 25, &mut updates);
    assert_eq!(
        summary(&updates),
        [
            "gateway_ttft_seconds a",
            "gateway_tokens_total a prompt",
            "gateway_tokens_total a completion"
        ]
    );
    assert_eq!(updates[0].op, MetricOp::HistogramRecord(15));
    assert_eq!(updates[2].op, MetricOp::CounterAdd(2));
    session.on_event(&mut state, facts, 30, &mut updates);
    assert_eq!(updates.len(), 3);
    assert_eq!(stream_head().status, 200);
    assert_eq!(
        stream_head().headers,
        [
            ("content-type", "text/event-stream"),
            ("cache-control", "no-cache"),
            ("x-accel-buffering", "no")
        ]
    );
}

#[test]
fn embeddings_happy_path_with_mock_upstream() {
    let mut state = state_with(vec![provider("test-mock", 1)], 1000);
    let input = EmbeddingInput::String("hello world".to_string());
    let mut flow = embeddings(&mut state, &client(), &input, 0).result.unwrap();
    let reply = flow.advance(&mut state, EmbeddingsEvent::PayloadReady(b"{}".to_vec()), 0);
    match reply.action {
        DispatchAction::Send(out) => {
            assert_eq!(out.url, "http://test-mock:8000/v1/embeddings");
            assert_eq!(out.body, b"{}");
        }
        other => panic!("expected a request, got {:?}", other),
    }
    let reply = flow.advance(
        &mut state,
        EmbeddingsEvent::Upstream(DispatchEvent::Status(200)),
        0,
    );
    assert!(matches!(reply.action, DispatchAction::ReadBody));
    let body = b"{\"data\":[],\"usage\":{\"prompt_tokens\":5,\"total_tokens\":5}}".to_vec();
    let reply = flow.advance(
        &mut state,
        EmbeddingsEvent::Upstream(DispatchEvent::Body(body.clone())),
        0,
    );
    assert_eq!(
        summary(&reply.metrics),
        ["gateway_tokens_total test-mock embedding", "gateway_request_latency_seconds "]
    );
    match reply.action {
        DispatchAction::Respond(response) => {
            assert_eq!(response.body, body);
            assert_eq!(response.headers.len(), 2);
            assert_eq!(response.status, 200);
            assert_eq!(response.headers[1], ("x-provider", "test-mock".to_string()));
        }
        other => panic!("expected a response, got {:?}", other),
    }
    assert_eq!(left(&mut state, 0), TokenAmount::whole(995));
}

#[test]
fn embeddings_take_redirects_and_broken_bodies_as_failures() {
    let mut state = state_with(vec![provider("a", 1), provider("b", 2)], 1000);
    let input = EmbeddingInput::TokenArray(vec![1, 2]);
    let mut flow = embeddings(&mut state, &client(), &input, 0).result.unwrap();
    flow.advance(&mut state, EmbeddingsEvent::PayloadReady(b"{}".to_vec()), 0);
    let reply = flow.advance(
        &mut state,
        EmbeddingsEvent::Upstream(DispatchEvent::Status(304)),
        0,
    );
    assert_eq!(
        summary(&reply.metrics),
        ["gateway_request_errors_total a unexpected_status"]
    );
    assert!(matches!(reply.action, DispatchAction::Send(_)));
    flow.advance(
        &mut state,
        EmbeddingsEvent::Upstream(DispatchEvent::Status(201)),
        0,
    );
    let reply = flow.advance(
        &mut state,
        EmbeddingsEvent::Upstream(DispatchEvent::BodyFailed),
        0,
    );
    assert_eq!(
        summary(&reply.metrics),
        [
            "gateway_request_errors_total b body_read_error",
            "gateway_request_errors_total all all_providers_failed"
        ]
    );
    match reply.action {
        DispatchAction::Fail(error) => assert_eq!(error.text(), "upstream: b: body read error"),
        other => panic!("expected an error, got {:?}", other),
    }
    assert_eq!(left(&mut state, 0), TokenAmount::whole(1000));
}

#[test]
fn embeddings_fail_over_when_a_body_breaks_off() {
    let mut state = state_with(vec![provider("a", 1), provider("b", 2)], 1000);
    for _ in 0..4 {
        state.breaker_for("a").record_failure_at(0);
    }
    let input = EmbeddingInput::TokenArray(vec![1, 2]);
    let mut flow = embeddings(&mut state, &client(), &input, 0).result.unwrap();
    flow.advance(&mut state, EmbeddingsEvent::PayloadReady(b"{}".to_vec()), 0);
    let events = [DispatchEvent::Status(200), DispatchEvent::BodyFailed];
    let mut replies = Vec::new();
    for event in events {
        replies.push(flow.advance(&mut state, EmbeddingsEvent::Upstream(event), 0));
    }
    assert_eq!(
        summary(&replies[1].metrics),
        ["gateway_request_errors_total a body_read_error"]
    );
    assert_eq!(state.breaker_for("a").current_state(), BreakerState::Open);
    assert_eq!(sent(replies.pop().unwrap()).url, "http://b:8000/v1/embeddings");
    flow.advance(&mut state, EmbeddingsEvent::Upstream(DispatchEvent::Status(200)), 0);
    let body = b"{\"data\":[]}".to_vec();
    let reply = flow.advance(
        &mut state,
        EmbeddingsEvent::Upstream(DispatchEvent::Body(body.clone())),
        0,
    );
    match reply.action {
        DispatchAction::Respond(response) => {
            assert_eq!(response.body, body);
            assert_eq!(response.headers[1], ("x-provider", "b".to_string()));
        }
        other => panic!("expected a response, got {:?}", other),
    }
    assert_eq!(left(&mut state, 0), TokenAmount::whole(1000));
}

#[test]
fn embeddings_without_a_provider_fail() {
    let mut state = state_with(vec![provider("a", 1)], 1000);
    for _ in 0..5 {
        state.breaker_for("a").record_failure_at(0);
    }
    let input = EmbeddingInput::TokenArray(vec![1]);
    let mut flow = embeddings(&mut state, &client(), &input, 0).result.unwrap();
    let reply = flow.advance(&mut state, EmbeddingsEvent::PayloadReady(vec![]), 0);
    match reply.action {
        DispatchAction::Fail(error) => {
            assert_eq!(error.text(), "upstream: no available providers")
        }
        other => panic!("expected an error, got {:?}", other),
    }
    let mut flow = embeddings(&mut state, &client(), &input, 0).result.unwrap();
    let reply = flow.advance(
        &mut state,
        EmbeddingsEvent::PayloadFailed("x".to_string()),
        0,
    );
    assert!(matches!(reply.action, DispatchAction::Fail(AppError::Internal(_))));
    assert_eq!(left(&mut state, 0), TokenAmount::whole(1000));
}

#[test]
fn the_reported_usage_settles_the_reservation() {
    let mut state = state_with(vec![provider("a", 1)], 1000);
    let handle = state.reserve_at("test-client", TokenAmount::whole(100), 0).unwrap();
    let mut dispatch = Dispatch::new(
        Route::Embeddings,
        "test-client".to_string(),
        Some(handle),
        None,
        b"{}".to_vec(),
        0,
    );
    let started: DispatchReply = dispatch.advance(&mut state, DispatchEvent::Start, 0);
    assert!(matches!(started.action, DispatchAction::Send(_)));
    let response = dispatch.embeddings_response(vec![1, 2]);
    let usage = UsageCounts {
        prompt_tokens: Some(7),
        completion_tokens: Some(8),
        total_tokens: None,
    };
    dispatch.respond(&mut state, response, Some(usage), 0);
    // Embeddings are charged by the total, which is missing here.
    assert_eq!(left(&mut state, 0), TokenAmount::whole(1000));
}

#[test]
fn states_start_from_their_configuration() {
    let state = state_with(vec![provider("b", 2), provider("a", 1)], 1000);
    let names: Vec<&str> = state.sorted_providers.iter().map(|p| p.name.as_str()).collect();
    assert_eq!(names, ["a", "b"]);
    assert_eq!(state.config.providers[0].name, "b");
    assert_eq!(state.semantic_cache.config.max_entries, 100);
    assert_eq!(state.semantic_cache.config.ttl, std::time::Duration::from_secs(60));
    assert!(!state.semantic_cache.config.enabled);
}
