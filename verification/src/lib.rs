//! A gateway in front of OpenAI-compatible model providers.
pub mod benchmark;
pub mod cache;
pub mod clock;
pub mod config;
pub mod digest;
pub mod error;
pub mod float_bits;
pub mod handlers;
pub mod json;
pub mod middleware;
pub mod proxy;
pub mod registry;
pub mod router;
pub mod state;
pub mod telemetry;
pub mod text;
pub mod types;
