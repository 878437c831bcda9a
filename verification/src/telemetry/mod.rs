//! Telemetry: the metrics that the gateway keeps.
pub mod metrics;
