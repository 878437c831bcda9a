use rust_llm_gateway::benchmark::{
    build_gateway, calculate_percentiles, mock_chat_handler, plan_reply, MockParams, MockReply,
    MockStep,
};
use rust_llm_gateway::proxy::sse_parser::SseParser;

fn params() -> MockParams {
    MockParams {
        delay_ms: None,
        first_token_delay_ms: None,
        token_interval_ms: None,
        tokens: None,
        status: None,
        fail: None,
        stall: None,
        malformed: None,
        stream: None,
    }
}

fn emitted(steps: &[MockStep]) -> Vec<String> {
    steps
        .iter()
        .filter_map(|step| match step {
            MockStep::Emit(text) => Some(text.clone()),
            MockStep::Sleep(_) => None,
        })
        .collect()
}

#[test]
fn plain_answers_are_json() {
    match mock_chat_handler(&params(), b"{\"model\":\"m\"}") {
        MockReply::Json { delay_ms, body } => {
            assert_eq!(delay_ms, 0);
            let v: serde_json::Value = serde_json::from_str(&body).unwrap();
            assert_eq!(
                v["choices"][0]["message"]["content"],
                "Hello from deterministic mock provider!"
            );
            assert_eq!(v["usage"]["total_tokens"], 18);
            assert_eq!(v["usage"]["prompt_tokens"], 10);
            assert_eq!(v["usage"]["completion_tokens"], 8);
            assert_eq!(v["created"], 1700000000);
            assert_eq!(v["object"], "chat.completion");
        }
        other => panic!("expected JSON, got {:?}", other),
    }
}

#[test]
fn requests_can_ask_for_a_stream() {
    let mut p = params();
    p.tokens = Some(3);
    p.delay_ms = Some(9);
    let steps = match mock_chat_handler(&p, b"{\"stream\":true}") {
        MockReply::Stream { delay_ms, steps } => {
            assert_eq!(delay_ms, 9);
            steps
        }
        other => panic!("expected a stream, got {:?}", other),
    };
    assert_eq!(steps.len(), 5);
    let events = emitted(&steps);
    for (i, event) in events.iter().take(3).enumerate() {
        let v: serde_json::Value =
            serde_json::from_str(event.strip_prefix("data: ").unwrap()).unwrap();
        assert_eq!(v["choices"][0]["delta"]["content"], format!(" token_{}", i));
        assert_eq!(v["choices"][0]["finish_reason"] == "stop", i == 2);
        assert_eq!(v["id"], "chatcmpl-mock");
        assert_eq!(v["model"], "mock-llm");
        assert_eq!(v["object"], "chat.completion.chunk");
        assert!(SseParser::is_content_event(event));
    }
    assert_eq!(SseParser::extract_usage(&events[3]), Some((15, 3)));
    let v: serde_json::Value =
        serde_json::from_str(events[3].strip_prefix("data: ").unwrap()).unwrap();
    assert_eq!(v["usage"]["total_tokens"], 18);
    assert_eq!(events[4], "data: [DONE]\n\n");

    assert!(matches!(
        mock_chat_handler(&p, b"{\"stream\":\"true\"}"),
        MockReply::Json { .. }
    ));
    assert!(matches!(mock_chat_handler(&p, b"not json"), MockReply::Json { .. }));
}

#[test]
fn streams_wait_and_stall_as_asked() {
    let mut p = params();
    p.stream = Some(true);
    p.tokens = Some(4);
    p.first_token_delay_ms = Some(5);
    p.token_interval_ms = Some(2);
    p.stall = Some(true);
    let steps = match plan_reply(&p, false) {
        MockReply::Stream { steps, .. } => steps,
        other => panic!("expected a stream, got {:?}", other),
    };
    let waits: Vec<u64> = steps
        .iter()
        .filter_map(|step| match step {
            MockStep::Sleep(millis) => Some(*millis),
            MockStep::Emit(_) => None,
        })
        .collect();
    assert_eq!(waits, [5, 2, 2, 2, 60_000, 2]);
    assert_eq!(emitted(&steps).len(), 6);

    p.malformed = Some(true);
    match plan_reply(&p, false) {
        MockReply::Stream { steps, .. } => {
            assert_eq!(emitted(&steps), ["BAD_SSE_DATA_NO_PREFIX\n\n"]);
            assert_eq!(steps.len(), 2);
        }
        other => panic!("expected a stream, got {:?}", other),
    }
}

#[test]
fn outages_are_simulated() {
    let mut p = params();
    p.status = Some(429);
    p.fail = Some(true);
    match plan_reply(&p, true) {
        MockReply::Error { status, body } => {
            assert_eq!(status, 429);
            assert_eq!(body, "Mock upstream error: 429");
        }
        other => panic!("expected an error, got {:?}", other),
    }
    p.status = Some(42);
    assert!(matches!(plan_reply(&p, true), MockReply::Error { status: 500, .. }));
    p.status = Some(200);
    match plan_reply(&p, true) {
        MockReply::Error { status, body } => {
            assert_eq!(status, 503);
            assert_eq!(body, "Mock provider simulated outage");
        }
        other => panic!("expected an error, got {:?}", other),
    }
}

#[test]
fn percentiles_are_taken_from_the_sorted_list() {
    let latencies: Vec<u64> = (1..=100u64).rev().collect();
    let stats = calculate_percentiles(&latencies);
    assert_eq!((stats.p50, stats.p95, stats.p99, stats.max), (51, 96, 100, 100));
    assert_eq!(stats.sum, 5050);
    assert_eq!(stats.count, 100);

    let stats = calculate_percentiles(&vec![7]);
    assert_eq!((stats.p50, stats.p95, stats.p99, stats.max), (7, 7, 7, 7));

    let stats = calculate_percentiles(&vec![]);
    assert_eq!((stats.p50, stats.p95, stats.p99, stats.max), (0, 0, 0, 0));
    assert_eq!((stats.sum, stats.count), (0, 0));
}

#[test]
fn the_configuration_of_a_benchmark_is_valid() {
    let config = build_gateway("127.0.0.1:18081", "127.0.0.1:18082");
    assert!(config.validate().is_ok());
    assert_eq!(config.providers[0].name, "primary-mock");
    assert_eq!(config.providers[1].endpoint, "http://127.0.0.1:18082");
    assert_eq!(config.cache.semantic_threshold.bits, 0.85f32.to_bits());
    assert_eq!(config.server.max_body_bytes, 10_485_760);
}
