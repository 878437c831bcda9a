//! The names of the metrics.
use vstd::prelude::*;

verus! {

pub const REQUESTS_TOTAL: &'static str = "gateway_requests_total";

pub const REQUEST_ERRORS_TOTAL: &'static str = "gateway_request_errors_total";

pub const CACHE_HITS_TOTAL: &'static str = "gateway_cache_hits_total";

pub const CACHE_MISSES_TOTAL: &'static str = "gateway_cache_misses_total";

pub const TOKENS_TOTAL: &'static str = "gateway_tokens_total";

pub const ACTIVE_CONNECTIONS: &'static str = "gateway_active_connections";

pub const TTFT_SECONDS: &'static str = "gateway_ttft_seconds";

pub const REQUEST_LATENCY_SECONDS: &'static str = "gateway_request_latency_seconds";

pub const UPSTREAM_LATENCY_SECONDS: &'static str = "gateway_upstream_latency_seconds";

pub const GATEWAY_OVERHEAD_SECONDS: &'static str = "gateway_overhead_seconds";

pub const RATE_LIMIT_REJECTIONS_TOTAL: &'static str = "gateway_rate_limit_rejections_total";

pub const PROVIDER_REQUESTS_TOTAL: &'static str = "gateway_provider_requests_total";

pub const PROVIDER_FAILURES_TOTAL: &'static str = "gateway_provider_failures_total";

pub const PROVIDER_CIRCUIT_STATE: &'static str = "gateway_provider_circuit_state";

pub const UPSTREAM_FIRST_BYTE_SECONDS: &'static str = "gateway_upstream_first_byte_seconds";

} // verus!
