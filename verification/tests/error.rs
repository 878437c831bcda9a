use axum::body::{Body, Bytes};
use axum::extract::{FromRequest, Request};
use rust_llm_gateway::error::AppError;

#[test]
fn errors_become_responses() {
    let r = AppError::Unauthorized.into_response();
    assert_eq!((r.status, r.code), (401, "unauthorized"));
    assert_eq!(r.message, "Invalid or missing API key");
    assert_eq!(r.retry_after, None);

    let r = AppError::RateLimited { retry_after: 17 }.into_response();
    assert_eq!((r.status, r.code), (429, "rate_limited"));
    assert_eq!(r.message, "Rate limit exceeded");
    assert_eq!(r.retry_after, Some(17));
    assert_eq!(r.retry_after_header.as_deref(), Some("17"));

    let r = AppError::bad_request("no such field").into_response();
    assert_eq!((r.status, r.code), (400, "bad_request"));
    assert_eq!(r.message, "no such field");
    assert_eq!(r.retry_after_header, None);
}

#[test]
fn upstream_error_does_not_leak_internal_details() {
    let r = AppError::upstream("connect to 127.0.0.1:1 refused").into_response();
    assert_eq!((r.status, r.code), (502, "upstream_error"));
    assert!(
        !r.message.contains("127.0.0.1"),
        "error message leaked internal IP: {}",
        r.message
    );
    assert!(
        !r.message.contains("connect"),
        "error message leaked connection details: {}",
        r.message
    );
    assert_eq!(r.message, "Upstream provider error or timeout");

    let r = AppError::internal("stack trace").into_response();
    assert_eq!((r.status, r.code), (500, "internal_error"));
    assert_eq!(r.message, "Internal server error");
}

#[test]
fn errors_in_words() {
    assert_eq!(AppError::Unauthorized.text(), "unauthorized");
    assert_eq!(
        AppError::RateLimited { retry_after: u64::MAX }.text(),
        "rate_limited (retry after 18446744073709551615s)"
    );
    assert_eq!(AppError::upstream("x").text(), "upstream: x");
    assert_eq!(AppError::bad_request("x").text(), "bad request: x");
    assert_eq!(AppError::internal("x").text(), "internal: x");
}

#[test]
fn malformed_json_returns_400_with_error_envelope() {
    let e = serde_json::from_str::<serde_json::Value>("this is not json").unwrap_err();
    let words = e.to_string();
    let error = AppError::from(e);
    assert_eq!(error.text(), format!("bad request: invalid JSON: {}", words));
    let r = error.into_response();
    assert_eq!(r.status, 400);
    assert_eq!(r.code, "bad_request");
    assert_eq!(r.message, format!("invalid JSON: {}", words));
}

#[test]
fn rejected_bodies_are_bad_requests() {
    let rejection = axum::Json::<serde_json::Value>::from_bytes(b"this is not json").unwrap_err();
    let words = rejection.to_string();
    assert_eq!(
        AppError::from(rejection).text(),
        format!("bad request: invalid JSON body: {}", words)
    );

    let chunks = vec![Err::<Bytes, _>(std::io::Error::other("gone"))];
    let request = Request::new(Body::from_stream(futures_util::stream::iter(chunks)));
    let runtime = tokio::runtime::Builder::new_current_thread().build().unwrap();
    let rejection = runtime.block_on(Bytes::from_request(request, &())).unwrap_err();
    let words = rejection.to_string();
    assert_eq!(
        AppError::from(rejection).text(),
        format!("bad request: body extraction failed: {}", words)
    );
}

#[test]
fn failed_requests_are_upstream_errors() {
    let e = reqwest::Client::new().get("not a url").build().unwrap_err();
    let words = e.to_string();
    assert_eq!(AppError::from(e).text(), format!("upstream: reqwest: {}", words));
}
