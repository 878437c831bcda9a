use rust_llm_gateway::handlers::metrics::prometheus_metrics;
use rust_llm_gateway::telemetry::metrics::{
    describe_metrics, names, record_cache_hit, record_cache_miss, record_error,
    record_gateway_overhead, record_provider_failure, record_provider_request,
    record_rate_limit_rejection, record_request, record_request_latency, record_tokens,
    record_ttft, record_upstream_latency, set_active_connections, set_provider_circuit_state,
    MetricKind, MetricOp, MetricUpdate,
};
use std::time::Duration;

fn check(update: MetricUpdate, name: &str, labels: &[(&str, &str)], op: MetricOp) {
    assert_eq!(update.name, name);
    assert_eq!(update.labels.len(), labels.len());
    for (found, expected) in update.labels.iter().zip(labels) {
        assert_eq!(found.0, expected.0);
        assert_eq!(found.1, expected.1);
    }
    assert_eq!(update.op, op);
}

#[test]
fn counters_grow() {
    check(
        record_request("test-provider", "success"),
        "gateway_requests_total",
        &[("provider", "test-provider"), ("status", "success")],
        MetricOp::CounterAdd(1),
    );
    check(
        record_error("p", "e"),
        names::REQUEST_ERRORS_TOTAL,
        &[("provider", "p"), ("error", "e")],
        MetricOp::CounterAdd(1),
    );
    check(
        record_cache_hit("exact"),
        names::CACHE_HITS_TOTAL,
        &[("type", "exact")],
        MetricOp::CounterAdd(1),
    );
    check(
        record_cache_miss("exact"),
        names::CACHE_MISSES_TOTAL,
        &[("type", "exact")],
        MetricOp::CounterAdd(1),
    );
    check(
        record_tokens("p", "prompt", 42),
        names::TOKENS_TOTAL,
        &[("provider", "p"), ("kind", "prompt")],
        MetricOp::CounterAdd(42),
    );
    check(
        record_rate_limit_rejection("rpm"),
        names::RATE_LIMIT_REJECTIONS_TOTAL,
        &[("kind", "rpm")],
        MetricOp::CounterAdd(1),
    );
    check(
        record_provider_request("p"),
        names::PROVIDER_REQUESTS_TOTAL,
        &[("provider", "p")],
        MetricOp::CounterAdd(1),
    );
    check(
        record_provider_failure("p", "timeout"),
        names::PROVIDER_FAILURES_TOTAL,
        &[("provider", "p"), ("reason", "timeout")],
        MetricOp::CounterAdd(1),
    );
}

#[test]
fn gauges_are_set() {
    check(
        set_active_connections(7),
        "gateway_active_connections",
        &[],
        MetricOp::GaugeSet(7),
    );
    check(
        set_provider_circuit_state("p", 2),
        "gateway_provider_circuit_state",
        &[("provider", "p")],
        MetricOp::GaugeSet(2),
    );
}

#[test]
fn histograms_take_in_durations() {
    let d = Duration::from_micros(1500);
    let op = MetricOp::HistogramRecord(1_500_000);
    check(record_ttft("p", d), "gateway_ttft_seconds", &[("provider", "p")], op);
    check(record_request_latency(d), "gateway_request_latency_seconds", &[], op);
    check(
        record_upstream_latency("p", d),
        "gateway_upstream_latency_seconds",
        &[("provider", "p")],
        op,
    );
    check(record_gateway_overhead(d), "gateway_overhead_seconds", &[], op);
}

#[test]
fn every_metric_is_described() {
    let list = describe_metrics();
    assert_eq!(list.len(), 15);
    assert_eq!(list[0].name, "gateway_requests_total");
    assert_eq!(list[0].help, "Total requests processed by the gateway");
    assert_eq!(list[0].kind, MetricKind::Counter);
    assert_eq!(list[13].name, names::PROVIDER_CIRCUIT_STATE);
    assert_eq!(list[13].kind, MetricKind::Gauge);
    assert_eq!(list[14].name, names::UPSTREAM_FIRST_BYTE_SECONDS);
    assert_eq!(list[14].kind, MetricKind::Histogram);
}

#[test]
fn metrics_endpoint_returns_prometheus_format() {
    let page = prometheus_metrics("# HELP gateway_requests_total\n");
    assert_eq!(page.status, 200);
    assert_eq!(page.headers.len(), 1);
    assert_eq!(page.headers[0].0, "content-type");
    assert_eq!(page.headers[0].1, "text/plain; version=0.0.4; charset=utf-8");
    assert_eq!(page.body, b"# HELP gateway_requests_total\n");
}
