//! The errors of the gateway and the responses that they become.
//!
//! A response tells the client what went wrong, but never how: what an upstream provider
//! or the gateway itself reported stays in the error.
use crate::text::{self, concat, decimal};
use axum::extract::rejection::{BytesRejection, JsonRejection};
use vstd::prelude::*;

verus! {

/// An error of the gateway.
#[derive(Debug)]
pub enum AppError {
    /// 401: a missing or invalid bearer token.
    Unauthorized,
    /// 429: a limit is exceeded. The client should wait for `retry_after` seconds.
    RateLimited { retry_after: u64 },
    /// 502: an upstream provider returned an error, or all providers failed.
    Upstream(String),
    /// 400: a malformed request.
    BadRequest(String),
    /// 500: an unexpected internal failure.
    Internal(String),
}

/// What an error is, for contracts.
#[verifier::ext_equal]
pub enum ErrorModel {
    Unauthorized,
    RateLimited { retry_after: u64 },
    Upstream(Seq<char>),
    BadRequest(Seq<char>),
    Internal(Seq<char>),
}

impl View for AppError {
    type V = ErrorModel;

    open spec fn view(&self) -> ErrorModel {
        match *self {
            AppError::Unauthorized => ErrorModel::Unauthorized,
            AppError::RateLimited { retry_after } => ErrorModel::RateLimited { retry_after },
            AppError::Upstream(msg) => ErrorModel::Upstream(msg@),
            AppError::BadRequest(msg) => ErrorModel::BadRequest(msg@),
            AppError::Internal(msg) => ErrorModel::Internal(msg@),
        }
    }
}

/// The response that an error becomes. The body is a JSON object `error` with the fields
/// `code`, `message` and, where there is one, `retry_after`; `retry_after_header` is the
/// value of the `retry-after` header.
#[derive(Debug)]
pub struct ErrorResponse {
    pub status: u16,
    pub code: &'static str,
    pub message: String,
    pub retry_after: Option<u64>,
    pub retry_after_header: Option<String>,
}

/// What an error response is, for contracts.
#[verifier::ext_equal]
pub struct ErrorResponseModel {
    pub status: u16,
    pub code: Seq<char>,
    pub message: Seq<char>,
    pub retry_after: Option<u64>,
    pub retry_after_header: Option<Seq<char>>,
}

impl View for ErrorResponse {
    type V = ErrorResponseModel;

    open spec fn view(&self) -> ErrorResponseModel {
        ErrorResponseModel {
            status: self.status,
            code: self.code@,
            message: self.message@,
            retry_after: self.retry_after,
            retry_after_header: match self.retry_after_header {
                Some(value) => Some(value@),
                None => None,
            },
        }
    }
}

impl ErrorModel {
    /// A response without a time to wait.
    pub open spec fn plain_response(status: u16, code: &str, message: Seq<char>) -> ErrorResponseModel {
        ErrorResponseModel {
            status,
            code: code@,
            message,
            retry_after: None,
            retry_after_header: None,
        }
    }

    /// The response that the error becomes.
    pub open spec fn response(self) -> ErrorResponseModel {
        match self {
            ErrorModel::Unauthorized => Self::plain_response(
                401,
                "unauthorized",
                "Invalid or missing API key"@,
            ),
            ErrorModel::RateLimited { retry_after } => ErrorResponseModel {
                status: 429,
                code: "rate_limited"@,
                message: "Rate limit exceeded"@,
                retry_after: Some(retry_after),
                retry_after_header: Some(text::decimal_text(retry_after as nat)),
            },
            ErrorModel::Upstream(_) => Self::plain_response(
                502,
                "upstream_error",
                "Upstream provider error or timeout"@,
            ),
            ErrorModel::BadRequest(msg) => Self::plain_response(400, "bad_request", msg),
            ErrorModel::Internal(_) => Self::plain_response(
                500,
                "internal_error",
                "Internal server error"@,
            ),
        }
    }

    /// The error in words, for logs.
    pub open spec fn text(self) -> Seq<char> {
        match self {
            ErrorModel::Unauthorized => "unauthorized"@,
            ErrorModel::RateLimited { retry_after } => "rate_limited (retry after "@
                + text::decimal_text(retry_after as nat) + "s)"@,
            ErrorModel::Upstream(msg) => "upstream: "@ + msg,
            ErrorModel::BadRequest(msg) => "bad request: "@ + msg,
            ErrorModel::Internal(msg) => "internal: "@ + msg,
        }
    }
}

/// A response without a time to wait.
fn plain_response(status: u16, code: &'static str, message: String) -> (response: ErrorResponse)
    ensures
        response@ == ErrorModel::plain_response(status, code, message@),
{
    ErrorResponse { status, code, message, retry_after: None, retry_after_header: None }
}

impl AppError {
    /// An internal failure.
    pub fn internal(msg: &str) -> (error: AppError)
        ensures
            error@ == ErrorModel::Internal(msg@),
    {
        AppError::Internal(msg.to_string())
    }

    /// A failure of an upstream provider.
    pub fn upstream(msg: &str) -> (error: AppError)
        ensures
            error@ == ErrorModel::Upstream(msg@),
    {
        AppError::Upstream(msg.to_string())
    }

    /// A malformed request.
    pub fn bad_request(msg: &str) -> (error: AppError)
        ensures
            error@ == ErrorModel::BadRequest(msg@),
    {
        AppError::BadRequest(msg.to_string())
    }

    /// The error in words, for logs.
    pub fn text(&self) -> (words: String)
        ensures
            words@ == self@.text(),
    {
        match self {
            AppError::Unauthorized => "unauthorized".to_string(),
            AppError::RateLimited { retry_after } => {
                let mut words = "rate_limited (retry after ".to_string();
                words.append(decimal(*retry_after).as_str());
                words.append("s)");
                words
            },
            AppError::Upstream(msg) => concat("upstream: ", msg.as_str()),
            AppError::BadRequest(msg) => concat("bad request: ", msg.as_str()),
            AppError::Internal(msg) => concat("internal: ", msg.as_str()),
        }
    }

    /// The response that the error becomes.
    pub fn into_response(self) -> (response: ErrorResponse)
        ensures
            response@ == self@.response(),
    {
        match self {
            AppError::Unauthorized => plain_response(
                401,
                "unauthorized",
                "Invalid or missing API key".to_string(),
            ),
            AppError::RateLimited { retry_after } => ErrorResponse {
                status: 429,
                code: "rate_limited",
                message: "Rate limit exceeded".to_string(),
                retry_after: Some(retry_after),
                retry_after_header: Some(decimal(retry_after)),
            },
            AppError::Upstream(_) => plain_response(
                502,
                "upstream_error",
                "Upstream provider error or timeout".to_string(),
            ),
            AppError::BadRequest(msg) => plain_response(400, "bad_request", msg),
            AppError::Internal(_) => plain_response(
                500,
                "internal_error",
                "Internal server error".to_string(),
            ),
        }
    }
}

/// `serde_json::Error`, opaque.
#[verifier::external_type_specification]
#[verifier::external_body]
pub struct ExJsonError(serde_json::Error);

/// `reqwest::Error`, opaque.
#[verifier::external_type_specification]
#[verifier::external_body]
pub struct ExReqwestError(reqwest::Error);

/// `axum::extract::rejection::JsonRejection`, opaque.
#[verifier::external_type_specification]
#[verifier::external_body]
pub struct ExJsonRejection(JsonRejection);

/// `axum::extract::rejection::BytesRejection`, opaque.
#[verifier::external_type_specification]
#[verifier::external_body]
pub struct ExBytesRejection(BytesRejection);

/// The words of a `serde_json::Error`.
pub uninterp spec fn json_error_text(error: serde_json::Error) -> Seq<char>;

/// The words of a `reqwest::Error`.
pub uninterp spec fn reqwest_error_text(error: reqwest::Error) -> Seq<char>;

/// The words of a `JsonRejection`.
pub uninterp spec fn json_rejection_text(error: JsonRejection) -> Seq<char>;

/// The words of a `BytesRejection`.
pub uninterp spec fn bytes_rejection_text(error: BytesRejection) -> Seq<char>;

/// `serde_json::Error::to_string`: the words of the error, which are named.
#[verifier::external_body]
fn json_error_words(error: &serde_json::Error) -> (words: String)
    ensures
        words@ == json_error_text(*error),
{
    error.to_string()
}

/// `reqwest::Error::to_string`: the words of the error, which are named.
#[verifier::external_body]
fn reqwest_error_words(error: &reqwest::Error) -> (words: String)
    ensures
        words@ == reqwest_error_text(*error),
{
    error.to_string()
}

/// `JsonRejection::to_string`: the words of the rejection, which are named.
#[verifier::external_body]
fn json_rejection_words(error: &JsonRejection) -> (words: String)
    ensures
        words@ == json_rejection_text(*error),
{
    error.to_string()
}

/// `BytesRejection::to_string`: the words of the rejection, which are named.
#[verifier::external_body]
fn bytes_rejection_words(error: &BytesRejection) -> (words: String)
    ensures
        words@ == bytes_rejection_text(*error),
{
    error.to_string()
}

impl From<serde_json::Error> for AppError {
    fn from(e: serde_json::Error) -> (error: AppError)
        ensures
            error@ == ErrorModel::BadRequest("invalid JSON: "@ + json_error_text(e)),
    {
        AppError::BadRequest(concat("invalid JSON: ", json_error_words(&e).as_str()))
    }
}

impl vstd::std_specs::convert::FromSpecImpl<serde_json::Error> for AppError {
    open spec fn obeys_from_spec() -> bool {
        false
    }

    open spec fn from_spec(e: serde_json::Error) -> AppError {
        arbitrary()
    }
}

impl From<reqwest::Error> for AppError {
    fn from(e: reqwest::Error) -> (error: AppError)
        ensures
            error@ == ErrorModel::Upstream("reqwest: "@ + reqwest_error_text(e)),
    {
        AppError::Upstream(concat("reqwest: ", reqwest_error_words(&e).as_str()))
    }
}

impl vstd::std_specs::convert::FromSpecImpl<reqwest::Error> for AppError {
    open spec fn obeys_from_spec() -> bool {
        false
    }

    open spec fn from_spec(e: reqwest::Error) -> AppError {
        arbitrary()
    }
}

impl From<JsonRejection> for AppError {
    fn from(e: JsonRejection) -> (error: AppError)
        ensures
            error@ == ErrorModel::BadRequest("invalid JSON body: "@ + json_rejection_text(e)),
    {
        AppError::BadRequest(concat("invalid JSON body: ", json_rejection_words(&e).as_str()))
    }
}

impl vstd::std_specs::convert::FromSpecImpl<JsonRejection> for AppError {
    open spec fn obeys_from_spec() -> bool {
        false
    }

    open spec fn from_spec(e: JsonRejection) -> AppError {
        arbitrary()
    }
}

impl From<BytesRejection> for AppError {
    fn from(e: BytesRejection) -> (error: AppError)
        ensures
            error@ == ErrorModel::BadRequest("body extraction failed: "@ + bytes_rejection_text(e)),
    {
        AppError::BadRequest(concat("body extraction failed: ", bytes_rejection_words(&e).as_str()))
    }
}

impl vstd::std_specs::convert::FromSpecImpl<BytesRejection> for AppError {
    open spec fn obeys_from_spec() -> bool {
        false
    }

    open spec fn from_spec(e: BytesRejection) -> AppError {
        arbitrary()
    }
}

/// What an upstream provider or the gateway itself reported never reaches the client: two
/// upstream failures get the same response, whatever they say, and so do two internal ones.
pub proof fn law_responses_do_not_leak(a: Seq<char>, b: Seq<char>)
    ensures
        ErrorModel::Upstream(a).response() == ErrorModel::Upstream(b).response(),
        ErrorModel::Internal(a).response() == ErrorModel::Internal(b).response(),
{
}

/// A response names a time to wait, in its body and as a header, if and only if a limit
/// was exceeded, and then its status is 429.
pub proof fn law_retry_after_iff_rate_limited(error: ErrorModel)
    ensures
        error.response().retry_after is Some <==> error is RateLimited,
        error.response().retry_after_header is Some <==> error is RateLimited,
        error.response().status == 429 <==> error is RateLimited,
{
}

/// Every error has its status and its code, whatever it says. Only what was wrong with a
/// request is told to the client in the error's own words.
pub proof fn law_status_and_code_of_each_error(message: Seq<char>, seconds: u64)
    ensures
        ({
            let r = ErrorModel::Unauthorized.response();
            r.status == 401 && r.code == "unauthorized"@ && r.message
                == "Invalid or missing API key"@
        }),
        ({
            let r = (ErrorModel::RateLimited { retry_after: seconds }).response();
            r.status == 429 && r.code == "rate_limited"@ && r.message == "Rate limit exceeded"@
                && r.retry_after == Some(seconds) && r.retry_after_header is Some
                && text::decimal_value(r.retry_after_header->0) == seconds
        }),
        ({
            let r = ErrorModel::Upstream(message).response();
            r.status == 502 && r.code == "upstream_error"@ && r.message
                == "Upstream provider error or timeout"@
        }),
        ({
            let r = ErrorModel::BadRequest(message).response();
            r.status == 400 && r.code == "bad_request"@ && r.message == message
        }),
        ({
            let r = ErrorModel::Internal(message).response();
            r.status == 500 && r.code == "internal_error"@ && r.message
                == "Internal server error"@
        }),
{
    text::law_decimal_notation_reads_back(seconds as nat);
}

/// In words every error names its kind and keeps all that it says.
pub proof fn law_errors_in_words(message: Seq<char>, seconds: u64)
    ensures
        ErrorModel::Unauthorized.text() == "unauthorized"@,
        exists|digits: Seq<char>|
            #[trigger] text::decimal_value(digits) == seconds && (ErrorModel::RateLimited {
                retry_after: seconds,
            }).text() == "rate_limited (retry after "@ + digits + "s)"@,
        ErrorModel::Upstream(message).text() == "upstream: "@ + message,
        ErrorModel::BadRequest(message).text() == "bad request: "@ + message,
        ErrorModel::Internal(message).text() == "internal: "@ + message,
{
    text::law_decimal_notation_reads_back(seconds as nat);
    assert(text::decimal_value(text::decimal_text(seconds as nat)) == seconds);
}

/// An error and a response are what their models say.
pub proof fn law_errors_are_as_modelled(error: AppError, response: ErrorResponse)
    ensures
        match error {
            AppError::Unauthorized => error@ is Unauthorized,
            AppError::RateLimited { retry_after } => error@ == (ErrorModel::RateLimited {
                retry_after,
            }),
            AppError::Upstream(message) => error@ == ErrorModel::Upstream(message@),
            AppError::BadRequest(message) => error@ == ErrorModel::BadRequest(message@),
            AppError::Internal(message) => error@ == ErrorModel::Internal(message@),
        },
        response@.status == response.status,
        response@.code == response.code@,
        response@.message == response.message@,
        response@.retry_after == response.retry_after,
        response@.retry_after_header is Some <==> response.retry_after_header is Some,
        response.retry_after_header is Some ==> response@.retry_after_header->0
            == response.retry_after_header->0@,
{
}

} // verus!
