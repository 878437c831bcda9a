//! Which provider gets a request: circuit breakers and the order of failover.
pub mod circuit_breaker;
pub mod selector;
