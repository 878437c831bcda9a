use axum::http::{HeaderMap, HeaderValue};
use rust_llm_gateway::config::{
    AppConfig, AuthConfig, CacheConfig, CircuitBreakerConfig, ClientCredential, ProviderConfig,
    RateLimitConfig, ServerConfig,
};
use rust_llm_gateway::digest::digest_text;
use rust_llm_gateway::error::AppError;
use rust_llm_gateway::float_bits::F32Bits;
use rust_llm_gateway::middleware::auth::{
    auth_middleware, bearer_key, extract_api_key, identify,
};
use rust_llm_gateway::middleware::rate_limit::rate_limit_middleware;
use rust_llm_gateway::middleware::trace::{RequestId, RequestStart};
use rust_llm_gateway::state::{AppState, ClientIdentity};

fn build_headers(token: &str) -> HeaderMap {
    let mut h = HeaderMap::new();
    h.insert(
        "authorization",
        HeaderValue::from_str(&format!("Bearer {}", token)).unwrap(),
    );
    h
}

fn credential(key: &str, client_id: &str) -> ClientCredential {
    ClientCredential {
        key: key.to_string(),
        client_id: client_id.to_string(),
        tier: "default".to_string(),
    }
}

fn state_with(credentials: Vec<ClientCredential>, rpm: u32) -> AppState {
    AppState::new(AppConfig {
        server: ServerConfig {
            host: "127.0.0.1".to_string(),
            port: 0,
            max_body_bytes: 1024 * 1024,
        },
        auth: AuthConfig { credentials },
        rate_limit: RateLimitConfig { default_rpm: rpm, default_tpm: 1000 },
        cache: CacheConfig {
            exact_max_entries: 100,
            exact_ttl_seconds: 60,
            semantic_enabled: false,
            semantic_threshold: F32Bits::from_bits(0.96f32.to_bits()),
        },
        circuit_breaker: CircuitBreakerConfig {
            failure_threshold: 5,
            cooldown_seconds: 1,
            half_open_max_calls: 1,
        },
        providers: vec![ProviderConfig {
            name: "test-unreachable".to_string(),
            endpoint: "http://127.0.0.1:1".to_string(),
            api_key: None,
            priority: 1,
            connect_timeout_seconds: 1,
            request_timeout_seconds: 1,
            stream_idle_timeout_seconds: 5,
        }],
    })
}

#[test]
fn extracts_valid_bearer() {
    let key = extract_api_key(&build_headers("sk-abc-123")).unwrap();
    assert_eq!(key, "sk-abc-123");
}

#[test]
fn rejects_missing_header() {
    let headers = HeaderMap::new();
    assert!(matches!(
        extract_api_key(&headers),
        Err(AppError::Unauthorized)
    ));
}

#[test]
fn rejects_non_bearer() {
    let mut h = HeaderMap::new();
    h.insert("authorization", HeaderValue::from_static("Basic abc123"));
    assert!(matches!(extract_api_key(&h), Err(AppError::Unauthorized)));
}

#[test]
fn rejects_empty_token() {
    assert!(matches!(
        extract_api_key(&build_headers("")),
        Err(AppError::Unauthorized)
    ));
}

#[test]
fn rejects_a_header_that_is_not_text() {
    let mut h = HeaderMap::new();
    h.insert(
        "authorization",
        HeaderValue::from_bytes(b"Bearer sk-\xff").unwrap(),
    );
    assert!(matches!(extract_api_key(&h), Err(AppError::Unauthorized)));
}

#[test]
fn the_first_of_several_headers_counts() {
    let mut h = HeaderMap::new();
    h.append("authorization", HeaderValue::from_static("Bearer one"));
    h.append("authorization", HeaderValue::from_static("Bearer two"));
    h.append("x-other", HeaderValue::from_static("Bearer three"));
    assert_eq!(extract_api_key(&h).unwrap(), "one");
}

#[test]
fn white_space_around_a_token_is_dropped() {
    assert_eq!(bearer_key("Bearer  sk-1\t ").as_deref(), Some("sk-1"));
    assert_eq!(bearer_key("Bearer    ").as_deref(), None);
    assert_eq!(bearer_key("bearer sk-1").as_deref(), None);
    assert_eq!(bearer_key("Bearer").as_deref(), None);
}

#[test]
fn digests_are_those_of_sha_256() {
    assert_eq!(
        digest_text("abc"),
        "ba7816bf8f01cfea414140de5dae2223b00361a396177a9cb410ff61f20015ad"
    );
}

#[test]
fn chat_completions_without_api_key_returns_401() {
    let state = state_with(vec![credential("test-key", "test-client")], 10);
    let error = auth_middleware(&state, &HeaderMap::new()).unwrap_err();
    assert_eq!(error.into_response().status, 401);
}

#[test]
fn chat_completions_with_invalid_api_key_returns_401() {
    let state = state_with(vec![credential("test-key", "test-client")], 10);
    let error = auth_middleware(&state, &build_headers("wrong-key")).unwrap_err();
    assert_eq!(error.into_response().status, 401);
}

#[test]
fn a_configured_key_is_admitted() {
    let state = state_with(
        vec![credential("test-key", "test-client"), credential("other", "other-client")],
        10,
    );
    let identity = auth_middleware(&state, &build_headers("test-key")).unwrap();
    assert_eq!(identity.client_id, "test-client");
    assert_eq!(identity.tier, "default");
    assert_eq!(identify(&state, "other").unwrap().client_id, "other-client");
    assert!(identify(&state, "test-key ").is_err());
}

#[test]
fn of_two_equal_keys_the_later_counts() {
    let state = state_with(vec![credential("k", "first"), credential("k", "second")], 10);
    assert_eq!(identify(&state, "k").unwrap().client_id, "second");
}

#[test]
fn without_credentials_nobody_is_admitted() {
    let state = state_with(vec![], 10);
    assert!(auth_middleware(&state, &build_headers("test-key")).is_err());
}

#[test]
fn chat_completions_returns_429_when_rate_limit_exhausted() {
    let mut state = state_with(vec![credential("test-key", "test-client")], 1);
    let identity = identify(&state, "test-key").unwrap();

    // The first request takes the only token.
    let first = rate_limit_middleware(&mut state, Some(&identity), 0);
    assert!(first.result.is_ok());
    assert!(first.metrics.is_empty());

    // The second one is over the limit.
    let second = rate_limit_middleware(&mut state, Some(&identity), 0);
    let response = second.result.unwrap_err().into_response();
    assert_eq!(response.status, 429);
    assert_eq!(response.retry_after, Some(60));
    assert_eq!(response.retry_after_header.as_deref(), Some("60"));
    assert_eq!(second.metrics.len(), 1);
    assert_eq!(second.metrics[0].name, "gateway_request_errors_total");
    assert_eq!(second.metrics[0].labels[0], ("provider", "rate_limit".to_string()));
    assert_eq!(second.metrics[0].labels[1], ("error", "rpm_exceeded".to_string()));

    // Another client is not affected.
    let other = ClientIdentity {
        client_id: "other".to_string(),
        tier: "default".to_string(),
    };
    assert!(rate_limit_middleware(&mut state, Some(&other), 0).result.is_ok());
}

#[test]
fn a_request_without_an_identity_fails_closed() {
    let mut state = state_with(vec![], 1);
    let refused = rate_limit_middleware(&mut state, None, 0);
    assert_eq!(refused.result.unwrap_err().into_response().status, 401);
    assert!(refused.metrics.is_empty());
}

#[test]
fn traced_requests_carry_what_they_were_given() {
    let id = RequestId("abc".to_string());
    assert_eq!(id.clone().0, "abc");
    let start = RequestStart(std::time::Instant::now());
    let copy = start;
    assert_eq!(copy.0, start.0);
}
