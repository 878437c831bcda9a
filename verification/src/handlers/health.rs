//! The liveness report.
use crate::handlers::dispatch::OK_STATUS;
use crate::state::AppState;
use vstd::prelude::*;

verus! {

/// What the liveness probe reports, and the status of the response.
#[derive(Debug)]
pub struct HealthReport {
    pub response_status: u16,
    pub status: &'static str,
    pub providers_configured: usize,
    pub circuit_breakers_tracked: usize,
}

/// The report on a gateway that is alive. Providers are not asked.
pub fn healthz(state: &AppState) -> (report: HealthReport)
    requires
        state.wf(),
    ensures
        report.response_status == OK_STATUS,
        report.status == "ok",
        report.providers_configured == state.config.providers@.len(),
        report.circuit_breakers_tracked == state.circuit_breakers@.dom().len(),
{
    HealthReport {
        response_status: OK_STATUS,
        status: "ok",
        providers_configured: state.config.providers.len(),
        circuit_breakers_tracked: state.circuit_breakers.len(),
    }
}

} // verus!
