//! The metrics page.
use crate::handlers::dispatch::{GatewayResponse, ResponseModel, OK_STATUS};
use vstd::prelude::*;
use vstd::slice::slice_to_vec;
use vstd::utf8::encode_utf8;

verus! {

/// The page with a snapshot of the metrics in the text format of Prometheus.
pub fn prometheus_metrics(snapshot: &str) -> (response: GatewayResponse)
    ensures
        response@ == (ResponseModel {
            status: OK_STATUS,
            headers: seq![("content-type"@, "text/plain; version=0.0.4; charset=utf-8"@)],
            body: encode_utf8(snapshot@),
        }),
{
    let mut headers: Vec<(&'static str, String)> = Vec::new();
    headers.push(("content-type", "text/plain; version=0.0.4; charset=utf-8".to_string()));
    let response = GatewayResponse {
        status: OK_STATUS,
        headers,
        body: slice_to_vec(snapshot.as_bytes()),
    };
    assert(response@.headers =~= seq![
        ("content-type"@, "text/plain; version=0.0.4; charset=utf-8"@),
    ]);
    response
}

} // verus!
