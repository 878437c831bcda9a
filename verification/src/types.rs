//! What the gateway reads of the requests that it forwards.
use crate::float_bits::F32Bits;
use vstd::prelude::*;

verus! {

/// The options of a streamed response.
#[derive(Clone, Copy, Debug, PartialEq, Eq, Structural)]
pub struct StreamOptions {
    /// Whether the stream ends with an event that reports the usage.
    pub include_usage: bool,
}

/// A chat request. Of its messages only their number matters here.
#[derive(Debug)]
pub struct ChatCompletionRequest {
    pub model: String,
    pub message_count: usize,
    pub temperature: F32Bits,
    pub stream: bool,
    pub stream_options: Option<StreamOptions>,
    pub max_tokens: Option<u32>,
}

/// The input of an embeddings request.
#[derive(Debug)]
pub enum EmbeddingInput {
    String(String),
    StringArray(Vec<String>),
    TokenArray(Vec<u32>),
    TokenMatrix(Vec<Vec<u32>>),
}

} // verus!
