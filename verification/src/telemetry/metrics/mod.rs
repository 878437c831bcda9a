//! The updates that the gateway makes to its metrics.
//!
//! Each helper says which metric changes, under which labels and how. The updates are
//! handed to the recorder by the server.
use crate::clock;
use std::time::Duration;
use vstd::prelude::*;

pub mod names;

verus! {

/// How a metric changes.
#[derive(Clone, Copy, Debug, PartialEq, Eq, Structural)]
pub enum MetricOp {
    /// A counter grows by this much.
    CounterAdd(u64),
    /// A gauge is set to this value.
    GaugeSet(u64),
    /// A histogram of seconds takes in a duration of this many nanoseconds.
    HistogramRecord(u128),
}

/// One update of one metric.
#[derive(Debug)]
pub struct MetricUpdate {
    pub name: &'static str,
    pub labels: Vec<(&'static str, String)>,
    pub op: MetricOp,
}

/// What an update is, for contracts.
#[verifier::ext_equal]
pub struct MetricModel {
    pub name: Seq<char>,
    pub labels: Seq<(Seq<char>, Seq<char>)>,
    pub op: MetricOp,
}

impl View for MetricUpdate {
    type V = MetricModel;

    open spec fn view(&self) -> MetricModel {
        MetricModel {
            name: self.name@,
            labels: Seq::new(self.labels@.len(), |i: int| (self.labels@[i].0@, self.labels@[i].1@)),
            op: self.op,
        }
    }
}

/// The models of a list of updates.
pub open spec fn models(updates: Seq<MetricUpdate>) -> Seq<MetricModel> {
    updates.map_values(|u: MetricUpdate| u@)
}

/// Whether a label value is one of the words that the gateway itself uses.
pub open spec fn fixed_label(value: Seq<char>) -> bool {
    ||| value == "all"@
    ||| value == "rate_limit"@
    ||| value == "exact_cache"@
    ||| value == "exact"@
    ||| value == "success"@
    ||| value == "cache_hit"@
    ||| value == "rpm_exceeded"@
    ||| value == "tpm_exceeded"@
    ||| value == "no_available_providers"@
    ||| value == "all_providers_failed"@
    ||| value == "connect_error"@
    ||| value == "retryable_error"@
    ||| value == "client_error"@
    ||| value == "unexpected_status"@
    ||| value == "body_read_error"@
    ||| value == "prompt"@
    ||| value == "completion"@
    ||| value == "embedding"@
}

/// Whether all label values of an update are fixed words or among `names`.
pub open spec fn bounded_labels(update: MetricModel, names: Set<Seq<char>>) -> bool {
    forall|i: int|
        0 <= i < update.labels.len() ==> fixed_label((#[trigger] update.labels[i]).1)
            || names.contains(update.labels[i].1)
}

/// Whether this holds of all updates of a list.
pub open spec fn all_bounded(updates: Seq<MetricModel>, names: Set<Seq<char>>) -> bool {
    forall|i: int| 0 <= i < updates.len() ==> bounded_labels(#[trigger] updates[i], names)
}

/// An update without labels.
pub open spec fn bare(name: &str, op: MetricOp) -> MetricModel {
    MetricModel { name: name@, labels: Seq::empty(), op }
}

/// An update with one label.
pub open spec fn labelled(name: &str, key: &str, value: Seq<char>, op: MetricOp) -> MetricModel {
    MetricModel { name: name@, labels: seq![(key@, value)], op }
}

/// An update with two labels.
pub open spec fn labelled_twice(
    name: &str,
    key: &str,
    value: Seq<char>,
    key2: &str,
    value2: Seq<char>,
    op: MetricOp,
) -> MetricModel {
    MetricModel { name: name@, labels: seq![(key@, value), (key2@, value2)], op }
}

fn update(name: &'static str, op: MetricOp) -> (u: MetricUpdate)
    ensures
        u@ == bare(name, op),
{
    let u = MetricUpdate { name, labels: Vec::new(), op };
    assert(u@.labels =~= Seq::empty());
    u
}

fn update_with(name: &'static str, key: &'static str, value: &str, op: MetricOp) -> (u: MetricUpdate)
    ensures
        u@ == labelled(name, key, value@, op),
{
    let mut u = update(name, op);
    u.labels.push((key, value.to_string()));
    assert(u@.labels =~= seq![(key@, value@)]);
    u
}

fn update_with_two(
    name: &'static str,
    key: &'static str,
    value: &str,
    key2: &'static str,
    value2: &str,
    op: MetricOp,
) -> (u: MetricUpdate)
    ensures
        u@ == labelled_twice(name, key, value@, key2, value2@, op),
{
    let mut u = update_with(name, key, value, op);
    let ghost before = u@.labels;
    u.labels.push((key2, value2.to_string()));
    assert(u@.labels =~= before.push((key2@, value2@)));
    assert(u@.labels =~= seq![(key@, value@), (key2@, value2@)]);
    u
}

/// The kind of a metric.
#[derive(Clone, Copy, Debug, PartialEq, Eq, Structural)]
pub enum MetricKind {
    Counter,
    Gauge,
    Histogram,
}

/// What a metric is, as it is announced to the recorder.
#[derive(Clone, Copy, Debug)]
pub struct MetricDescription {
    pub kind: MetricKind,
    pub name: &'static str,
    pub help: &'static str,
}

/// The announcement of a metric, for contracts.
pub open spec fn described(kind: MetricKind, name: &'static str, help: &'static str) -> MetricDescription {
    MetricDescription { kind, name, help }
}

fn describe(kind: MetricKind, name: &'static str, help: &'static str) -> (d: MetricDescription)
    ensures
        d == described(kind, name, help),
{
    MetricDescription { kind, name, help }
}

/// The announcements of all metrics.
pub fn describe_metrics() -> (list: Vec<MetricDescription>)
    ensures
        list@ == seq![
            described(
                MetricKind::Counter,
                names::REQUESTS_TOTAL,
                "Total requests processed by the gateway",
            ),
            described(MetricKind::Counter, names::REQUEST_ERRORS_TOTAL, "Total request errors"),
            described(
                MetricKind::Counter,
                names::CACHE_HITS_TOTAL,
                "Total cache hits (exact + semantic)",
            ),
            described(MetricKind::Counter, names::CACHE_MISSES_TOTAL, "Total cache misses"),
            described(
                MetricKind::Counter,
                names::TOKENS_TOTAL,
                "Total tokens (prompt + completion)",
            ),
            described(
                MetricKind::Gauge,
                names::ACTIVE_CONNECTIONS,
                "Active in-flight connections",
            ),
            described(
                MetricKind::Histogram,
                names::TTFT_SECONDS,
                "Time-to-first-token (streaming)",
            ),
            described(
                MetricKind::Histogram,
                names::REQUEST_LATENCY_SECONDS,
                "End-to-end request latency",
            ),
            described(
                MetricKind::Histogram,
                names::UPSTREAM_LATENCY_SECONDS,
                "Upstream provider latency",
            ),
            described(
                MetricKind::Histogram,
                names::GATEWAY_OVERHEAD_SECONDS,
                "Gateway processing overhead",
            ),
            described(
                MetricKind::Counter,
                names::RATE_LIMIT_REJECTIONS_TOTAL,
                "Rate limit rejections",
            ),
            described(
                MetricKind::Counter,
                names::PROVIDER_REQUESTS_TOTAL,
                "Requests sent to providers",
            ),
            described(MetricKind::Counter, names::PROVIDER_FAILURES_TOTAL, "Provider failures"),
            described(
                MetricKind::Gauge,
                names::PROVIDER_CIRCUIT_STATE,
                "Circuit breaker state (0=closed, 1=open, 2=half_open)",
            ),
            described(
                MetricKind::Histogram,
                names::UPSTREAM_FIRST_BYTE_SECONDS,
                "Time to first byte from upstream",
            ),
        ],
{
    let mut list: Vec<MetricDescription> = Vec::new();
    list.push(
        describe(
            MetricKind::Counter,
            names::REQUESTS_TOTAL,
            "Total requests processed by the gateway",
        ),
    );
    list.push(describe(MetricKind::Counter, names::REQUEST_ERRORS_TOTAL, "Total request errors"));
    list.push(
        describe(
            MetricKind::Counter,
            names::CACHE_HITS_TOTAL,
            "Total cache hits (exact + semantic)",
        ),
    );
    list.push(describe(MetricKind::Counter, names::CACHE_MISSES_TOTAL, "Total cache misses"));
    list.push(
        describe(MetricKind::Counter, names::TOKENS_TOTAL, "Total tokens (prompt + completion)"),
    );
    list.push(
        describe(MetricKind::Gauge, names::ACTIVE_CONNECTIONS, "Active in-flight connections"),
    );
    list.push(
        describe(MetricKind::Histogram, names::TTFT_SECONDS, "Time-to-first-token (streaming)"),
    );
    list.push(
        describe(
            MetricKind::Histogram,
            names::REQUEST_LATENCY_SECONDS,
            "End-to-end request latency",
        ),
    );
    list.push(
        describe(
            MetricKind::Histogram,
            names::UPSTREAM_LATENCY_SECONDS,
            "Upstream provider latency",
        ),
    );
    list.push(
        describe(
            MetricKind::Histogram,
            names::GATEWAY_OVERHEAD_SECONDS,
            "Gateway processing overhead",
        ),
    );
    list.push(
        describe(MetricKind::Counter, names::RATE_LIMIT_REJECTIONS_TOTAL, "Rate limit rejections"),
    );
    list.push(
        describe(MetricKind::Counter, names::PROVIDER_REQUESTS_TOTAL, "Requests sent to providers"),
    );
    list.push(describe(MetricKind::Counter, names::PROVIDER_FAILURES_TOTAL, "Provider failures"));
    list.push(
        describe(
            MetricKind::Gauge,
            names::PROVIDER_CIRCUIT_STATE,
            "Circuit breaker state (0=closed, 1=open, 2=half_open)",
        ),
    );
    list.push(
        describe(
            MetricKind::Histogram,
            names::UPSTREAM_FIRST_BYTE_SECONDS,
            "Time to first byte from upstream",
        ),
    );
    list
}

pub open spec fn request_metric(provider: Seq<char>, status: Seq<char>) -> MetricModel {
    labelled_twice(
        names::REQUESTS_TOTAL,
        "provider",
        provider,
        "status",
        status,
        MetricOp::CounterAdd(1),
    )
}

/// One more request, by the provider that took it and the outcome.
pub fn record_request(provider: &str, status: &str) -> (u: MetricUpdate)
    ensures
        u@ == request_metric(provider@, status@),
{
    update_with_two(
        names::REQUESTS_TOTAL,
        "provider",
        provider,
        "status",
        status,
        MetricOp::CounterAdd(1),
    )
}

pub open spec fn error_metric(provider: Seq<char>, error: Seq<char>) -> MetricModel {
    labelled_twice(
        names::REQUEST_ERRORS_TOTAL,
        "provider",
        provider,
        "error",
        error,
        MetricOp::CounterAdd(1),
    )
}

/// One more error, by where it arose and what it was.
pub fn record_error(provider: &str, error: &str) -> (u: MetricUpdate)
    ensures
        u@ == error_metric(provider@, error@),
{
    update_with_two(
        names::REQUEST_ERRORS_TOTAL,
        "provider",
        provider,
        "error",
        error,
        MetricOp::CounterAdd(1),
    )
}

pub open spec fn cache_hit_metric(cache_type: Seq<char>) -> MetricModel {
    labelled(names::CACHE_HITS_TOTAL, "type", cache_type, MetricOp::CounterAdd(1))
}

/// One more cache hit.
pub fn record_cache_hit(cache_type: &str) -> (u: MetricUpdate)
    ensures
        u@ == cache_hit_metric(cache_type@),
{
    update_with(names::CACHE_HITS_TOTAL, "type", cache_type, MetricOp::CounterAdd(1))
}

pub open spec fn cache_miss_metric(cache_type: Seq<char>) -> MetricModel {
    labelled(names::CACHE_MISSES_TOTAL, "type", cache_type, MetricOp::CounterAdd(1))
}

/// One more cache miss.
pub fn record_cache_miss(cache_type: &str) -> (u: MetricUpdate)
    ensures
        u@ == cache_miss_metric(cache_type@),
{
    update_with(names::CACHE_MISSES_TOTAL, "type", cache_type, MetricOp::CounterAdd(1))
}

pub open spec fn tokens_metric(provider: Seq<char>, kind: Seq<char>, count: u64) -> MetricModel {
    labelled_twice(
        names::TOKENS_TOTAL,
        "provider",
        provider,
        "kind",
        kind,
        MetricOp::CounterAdd(count),
    )
}

/// Tokens that a provider counted. `kind` is `"prompt"`, `"completion"` or `"embedding"`.
pub fn record_tokens(provider: &str, kind: &str, count: u64) -> (u: MetricUpdate)
    ensures
        u@ == tokens_metric(provider@, kind@, count),
{
    update_with_two(
        names::TOKENS_TOTAL,
        "provider",
        provider,
        "kind",
        kind,
        MetricOp::CounterAdd(count),
    )
}

/// The number of connections in flight.
pub fn set_active_connections(count: u64) -> (u: MetricUpdate)
    ensures
        u@ == bare(names::ACTIVE_CONNECTIONS, MetricOp::GaugeSet(count)),
{
    update(names::ACTIVE_CONNECTIONS, MetricOp::GaugeSet(count))
}

pub open spec fn ttft_metric(provider: Seq<char>, nanos: u128) -> MetricModel {
    labelled(names::TTFT_SECONDS, "provider", provider, MetricOp::HistogramRecord(nanos))
}

/// The time to the first token of a stream.
pub fn record_ttft(provider: &str, duration: Duration) -> (u: MetricUpdate)
    ensures
        u@ == ttft_metric(provider@, clock::duration_nanos(duration) as u128),
{
    let nanos: u128 = duration.as_nanos();
    update_with(names::TTFT_SECONDS, "provider", provider, MetricOp::HistogramRecord(nanos))
}

pub open spec fn request_latency_metric(nanos: u128) -> MetricModel {
    bare(names::REQUEST_LATENCY_SECONDS, MetricOp::HistogramRecord(nanos))
}

/// The time that a request took from end to end.
pub fn record_request_latency(duration: Duration) -> (u: MetricUpdate)
    ensures
        u@ == request_latency_metric(clock::duration_nanos(duration) as u128),
{
    let nanos: u128 = duration.as_nanos();
    update(names::REQUEST_LATENCY_SECONDS, MetricOp::HistogramRecord(nanos))
}

pub open spec fn upstream_latency_metric(provider: Seq<char>, nanos: u128) -> MetricModel {
    labelled(names::UPSTREAM_LATENCY_SECONDS, "provider", provider, MetricOp::HistogramRecord(nanos))
}

/// The time that a provider took to answer.
pub fn record_upstream_latency(provider: &str, duration: Duration) -> (u: MetricUpdate)
    ensures
        u@ == upstream_latency_metric(provider@, clock::duration_nanos(duration) as u128),
{
    let nanos: u128 = duration.as_nanos();
    update_with(names::UPSTREAM_LATENCY_SECONDS, "provider", provider, MetricOp::HistogramRecord(nanos))
}

/// The time that the gateway itself took.
pub fn record_gateway_overhead(duration: Duration) -> (u: MetricUpdate)
    ensures
        u@ == bare(
            names::GATEWAY_OVERHEAD_SECONDS,
            MetricOp::HistogramRecord(clock::duration_nanos(duration) as u128),
        ),
{
    let nanos: u128 = duration.as_nanos();
    update(names::GATEWAY_OVERHEAD_SECONDS, MetricOp::HistogramRecord(nanos))
}

/// One more request turned away by a limit.
pub fn record_rate_limit_rejection(kind: &str) -> (u: MetricUpdate)
    ensures
        u@ == labelled(
            names::RATE_LIMIT_REJECTIONS_TOTAL,
            "kind",
            kind@,
            MetricOp::CounterAdd(1),
        ),
{
    update_with(names::RATE_LIMIT_REJECTIONS_TOTAL, "kind", kind, MetricOp::CounterAdd(1))
}

/// One more request sent to a provider.
pub fn record_provider_request(provider: &str) -> (u: MetricUpdate)
    ensures
        u@ == labelled(
            names::PROVIDER_REQUESTS_TOTAL,
            "provider",
            provider@,
            MetricOp::CounterAdd(1),
        ),
{
    update_with(names::PROVIDER_REQUESTS_TOTAL, "provider", provider, MetricOp::CounterAdd(1))
}

/// One more failure of a provider.
pub fn record_provider_failure(provider: &str, reason: &str) -> (u: MetricUpdate)
    ensures
        u@ == labelled_twice(
            names::PROVIDER_FAILURES_TOTAL,
            "provider",
            provider@,
            "reason",
            reason@,
            MetricOp::CounterAdd(1),
        ),
{
    update_with_two(
        names::PROVIDER_FAILURES_TOTAL,
        "provider",
        provider,
        "reason",
        reason,
        MetricOp::CounterAdd(1),
    )
}

/// The state of a provider's breaker: 0 is closed, 1 is open, 2 is half-open.
pub fn set_provider_circuit_state(provider: &str, state: u64) -> (u: MetricUpdate)
    ensures
        u@ == labelled(
            names::PROVIDER_CIRCUIT_STATE,
            "provider",
            provider@,
            MetricOp::GaugeSet(state),
        ),
{
    update_with(names::PROVIDER_CIRCUIT_STATE, "provider", provider, MetricOp::GaugeSet(state))
}

/// Every update says which metric changes, under which labels and by how much.
pub proof fn law_updates_are_labelled(a: Seq<char>, b: Seq<char>, count: u64, nanos: u128)
    ensures
        request_metric(a, b) == (MetricModel {
            name: "gateway_requests_total"@,
            labels: seq![("provider"@, a), ("status"@, b)],
            op: MetricOp::CounterAdd(1),
        }),
        error_metric(a, b) == (MetricModel {
            name: "gateway_request_errors_total"@,
            labels: seq![("provider"@, a), ("error"@, b)],
            op: MetricOp::CounterAdd(1),
        }),
        cache_hit_metric(a) == (MetricModel {
            name: "gateway_cache_hits_total"@,
            labels: seq![("type"@, a)],
            op: MetricOp::CounterAdd(1),
        }),
        cache_miss_metric(a) == (MetricModel {
            name: "gateway_cache_misses_total"@,
            labels: seq![("type"@, a)],
            op: MetricOp::CounterAdd(1),
        }),
        tokens_metric(a, b, count) == (MetricModel {
            name: "gateway_tokens_total"@,
            labels: seq![("provider"@, a), ("kind"@, b)],
            op: MetricOp::CounterAdd(count),
        }),
        ttft_metric(a, nanos) == (MetricModel {
            name: "gateway_ttft_seconds"@,
            labels: seq![("provider"@, a)],
            op: MetricOp::HistogramRecord(nanos),
        }),
        request_latency_metric(nanos) == (MetricModel {
            name: "gateway_request_latency_seconds"@,
            labels: Seq::empty(),
            op: MetricOp::HistogramRecord(nanos),
        }),
        upstream_latency_metric(a, nanos) == (MetricModel {
            name: "gateway_upstream_latency_seconds"@,
            labels: seq![("provider"@, a)],
            op: MetricOp::HistogramRecord(nanos),
        }),
{
}

/// The helpers for an update with given labels keep all that they are given, in order.
pub proof fn law_labels_are_kept(
    name: &str,
    key: &str,
    value: Seq<char>,
    key2: &str,
    value2: Seq<char>,
    op: MetricOp,
)
    ensures
        ({
            let u = bare(name, op);
            u.name == name@ && u.labels.len() == 0 && u.op == op
        }),
        ({
            let u = labelled(name, key, value, op);
            u.name == name@ && u.labels.len() == 1 && u.labels[0] == (key@, value) && u.op == op
        }),
        ({
            let u = labelled_twice(name, key, value, key2, value2, op);
            u.name == name@ && u.labels.len() == 2 && u.labels[0] == (key@, value) && u.labels[1]
                == (key2@, value2) && u.op == op
        }),
{
}

/// An update is what its model says, and so is each of a list of updates, in order.
pub proof fn law_updates_are_as_modelled(updates: Seq<MetricUpdate>, i: int, k: int)
    ensures
        models(updates).len() == updates.len(),
        0 <= i < updates.len() ==> {
            let u = updates[i];
            let m = models(updates)[i];
            &&& m.name == u.name@
            &&& m.op == u.op
            &&& m.labels.len() == u.labels@.len()
            &&& 0 <= k < u.labels@.len() ==> m.labels[k] == (u.labels@[k].0@, u.labels@[k].1@)
        },
{
}

/// The metrics go by these names.
pub proof fn law_names_of_the_metrics()
    ensures
        names::REQUESTS_TOTAL@ == "gateway_requests_total"@,
        names::REQUEST_ERRORS_TOTAL@ == "gateway_request_errors_total"@,
        names::CACHE_HITS_TOTAL@ == "gateway_cache_hits_total"@,
        names::CACHE_MISSES_TOTAL@ == "gateway_cache_misses_total"@,
        names::TOKENS_TOTAL@ == "gateway_tokens_total"@,
        names::ACTIVE_CONNECTIONS@ == "gateway_active_connections"@,
        names::TTFT_SECONDS@ == "gateway_ttft_seconds"@,
        names::REQUEST_LATENCY_SECONDS@ == "gateway_request_latency_seconds"@,
        names::UPSTREAM_LATENCY_SECONDS@ == "gateway_upstream_latency_seconds"@,
        names::GATEWAY_OVERHEAD_SECONDS@ == "gateway_overhead_seconds"@,
        names::RATE_LIMIT_REJECTIONS_TOTAL@ == "gateway_rate_limit_rejections_total"@,
        names::PROVIDER_REQUESTS_TOTAL@ == "gateway_provider_requests_total"@,
        names::PROVIDER_FAILURES_TOTAL@ == "gateway_provider_failures_total"@,
        names::PROVIDER_CIRCUIT_STATE@ == "gateway_provider_circuit_state"@,
        names::UPSTREAM_FIRST_BYTE_SECONDS@ == "gateway_upstream_first_byte_seconds"@,
{
}

/// An announcement keeps the kind, the name and the words that it is given.
pub proof fn law_announcements_are_kept(kind: MetricKind, name: &'static str, help: &'static str)
    ensures
        described(kind, name, help).kind == kind,
        described(kind, name, help).name == name,
        described(kind, name, help).help == help,
{
}

} // verus!
