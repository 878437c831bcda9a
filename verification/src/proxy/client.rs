//! The requests that go out to a provider.
use crate::config::ProviderConfig;
use crate::text::{self, concat, trim_end_slashes};
use vstd::prelude::*;

verus! {

/// A POST request to a provider, ready to be sent.
#[derive(Debug)]
pub struct OutboundRequest {
    pub url: String,
    /// The time limit for the connection.
    pub connect_timeout_seconds: u64,
    /// The time limit for the request.
    pub timeout_seconds: u64,
    /// Whether that limit covers the body of the response. That of a stream may take as
    /// long as it keeps coming, so there the limit ends with the head of the response.
    pub timeout_covers_body: bool,
    pub headers: Vec<(&'static str, &'static str)>,
    /// The token of the `Authorization: Bearer` header, if there is one.
    pub bearer: Option<String>,
    pub body: Vec<u8>,
}

/// What a request is, for contracts.
#[verifier::ext_equal]
pub struct OutboundModel {
    pub url: Seq<char>,
    pub connect_timeout_seconds: u64,
    pub timeout_seconds: u64,
    pub timeout_covers_body: bool,
    pub headers: Seq<(Seq<char>, Seq<char>)>,
    pub bearer: Option<Seq<char>>,
    pub body: Seq<u8>,
}

impl View for OutboundRequest {
    type V = OutboundModel;

    open spec fn view(&self) -> OutboundModel {
        OutboundModel {
            url: self.url@,
            connect_timeout_seconds: self.connect_timeout_seconds,
            timeout_seconds: self.timeout_seconds,
            timeout_covers_body: self.timeout_covers_body,
            headers: self.headers@.map_values(|h: (&'static str, &'static str)| (h.0@, h.1@)),
            bearer: text::optional(self.bearer),
            body: self.body@,
        }
    }
}

/// The path of the chat endpoint.
pub const CHAT_PATH: &'static str = "/v1/chat/completions";

/// The path of the embeddings endpoint.
pub const EMBEDDINGS_PATH: &'static str = "/v1/embeddings";

/// The token to send to a provider: its key, if it has one that is not empty.
pub open spec fn provider_token(provider: ProviderConfig) -> Option<Seq<char>> {
    match provider.api_key {
        Some(key) => if key@.len() > 0 {
            Some(key@)
        } else {
            None
        },
        None => None,
    }
}

/// The request to a provider under `path`.
pub open spec fn outbound(
    provider: ProviderConfig,
    path: Seq<char>,
    streamed: bool,
    body: Seq<u8>,
) -> OutboundModel {
    OutboundModel {
        url: text::trim_slashes_text(provider.endpoint@) + path,
        connect_timeout_seconds: provider.connect_timeout_seconds,
        timeout_seconds: provider.request_timeout_seconds,
        timeout_covers_body: !streamed,
        headers: seq![
            ("content-type"@, "application/json"@),
            ("accept"@, "application/json, text/event-stream"@),
        ],
        bearer: provider_token(provider),
        body,
    }
}

/// A request to the provider's chat endpoint, for an answer that is streamed or not.
pub fn build_chat_request(provider: &ProviderConfig, streamed: bool, body: Vec<u8>) -> (request:
    OutboundRequest)
    ensures
        request@ == outbound(*provider, CHAT_PATH@, streamed, body@),
{
    build_request(provider, CHAT_PATH, streamed, body)
}

/// A request to the provider's embeddings endpoint.
pub fn build_embeddings_request(provider: &ProviderConfig, body: Vec<u8>) -> (request:
    OutboundRequest)
    ensures
        request@ == outbound(*provider, EMBEDDINGS_PATH@, false, body@),
{
    build_request(provider, EMBEDDINGS_PATH, false, body)
}

fn build_request(provider: &ProviderConfig, path: &str, streamed: bool, body: Vec<u8>) -> (request:
    OutboundRequest)
    ensures
        request@ == outbound(*provider, path@, streamed, body@),
{
    let url = concat(trim_end_slashes(provider.endpoint.as_str()).as_str(), path);
    let mut headers: Vec<(&'static str, &'static str)> = Vec::new();
    headers.push(("content-type", "application/json"));
    headers.push(("accept", "application/json, text/event-stream"));
    let bearer: Option<String> = match &provider.api_key {
        Some(key) => if key.as_str().unicode_len() > 0 {
            Some(key.clone())
        } else {
            None
        },
        None => None,
    };
    let request = OutboundRequest {
        url,
        connect_timeout_seconds: provider.connect_timeout_seconds,
        timeout_seconds: provider.request_timeout_seconds,
        timeout_covers_body: !streamed,
        headers,
        bearer,
        body,
    };
    assert(request@ =~= outbound(*provider, path@, streamed, body@));
    request
}

/// A request goes to the provider's endpoint without the slashes at its end, followed by the
/// path. It carries the body, asks for JSON or events, and bears the provider's key if there
/// is one that is not empty. Its time limits are those of the provider, and only that of a
/// stream ends with the head of the response.
pub proof fn law_requests_carry_what_the_provider_needs(
    provider: ProviderConfig,
    base: Seq<char>,
    slashes: Seq<char>,
    path: Seq<char>,
    streamed: bool,
    body: Seq<u8>,
)
    requires
        provider.endpoint@ == base + slashes,
        base.len() > 0 ==> base.last() != '/',
        forall|i: int| 0 <= i < slashes.len() ==> #[trigger] slashes[i] == '/',
    ensures
        ({
            let request = outbound(provider, path, streamed, body);
            &&& request.url == base + path
            &&& request.body == body
            &&& request.connect_timeout_seconds == provider.connect_timeout_seconds
            &&& request.timeout_seconds == provider.request_timeout_seconds
            &&& request.timeout_covers_body <==> !streamed
            &&& request.headers.len() == 2
            &&& request.headers[0] == ("content-type"@, "application/json"@)
            &&& request.headers[1] == ("accept"@, "application/json, text/event-stream"@)
            &&& request.bearer is Some <==> (provider.api_key is Some && provider.api_key->0@.len()
                > 0)
            &&& request.bearer is Some ==> request.bearer->0 == provider.api_key->0@
        }),
{
    text::law_slashes_at_the_end_are_taken_off(base, slashes);
}

/// A request that is ready to be sent is what its model says.
pub proof fn law_requests_are_as_modelled(request: OutboundRequest, i: int)
    ensures
        request@.url == request.url@,
        request@.connect_timeout_seconds == request.connect_timeout_seconds,
        request@.timeout_seconds == request.timeout_seconds,
        request@.timeout_covers_body == request.timeout_covers_body,
        request@.body == request.body@,
        request@.headers.len() == request.headers@.len(),
        0 <= i < request.headers@.len() ==> request@.headers[i] == (
            request.headers@[i].0@,
            request.headers@[i].1@,
        ),
        request@.bearer is Some <==> request.bearer is Some,
        request.bearer is Some ==> request@.bearer->0 == request.bearer->0@,
{
}

} // verus!
