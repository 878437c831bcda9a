//! Requests to upstream providers and the streams that come back.
pub mod client;
pub mod sse_parser;
pub mod stream;
