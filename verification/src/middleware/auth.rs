//! Bearer authentication.
//!
//! The key comes in the header `Authorization: Bearer <key>`. The gateway knows only the
//! digests of the keys that it accepts.
use crate::digest::{self, digest_text};
use crate::error::{AppError, ErrorModel};
use crate::state::{self, AppState, ClientIdentity};
use crate::text::{self, strip_prefix, trim};
use axum::http::header::ToStrError;
use axum::http::{HeaderMap, HeaderValue};
use vstd::prelude::*;

verus! {

/// `http::HeaderMap`, the headers of a request. `header_fields` says what it holds.
#[verifier::external_type_specification]
#[verifier::external_body]
#[verifier::reject_recursive_types(T)]
pub struct ExHeaderMap<T>(HeaderMap<T>);

/// `http::HeaderValue`, the value of a header. `header_bytes` says what it holds.
#[verifier::external_type_specification]
#[verifier::external_body]
pub struct ExHeaderValue(HeaderValue);

/// `http::header::ToStrError`, opaque.
#[verifier::external_type_specification]
#[verifier::external_body]
pub struct ExToStrError(ToStrError);

/// The bytes of a header value.
pub uninterp spec fn header_bytes(value: HeaderValue) -> Seq<u8>;

/// The first value of each header, by its name in lower case.
pub uninterp spec fn header_fields(headers: HeaderMap) -> Map<Seq<char>, Seq<u8>>;

/// Whether `name` is a short header name in lower case: letters and hyphens.
pub open spec fn plain_name(name: Seq<char>) -> bool {
    0 < name.len() <= 64 && forall|i: int|
        0 <= i < name.len() ==> 'a' <= #[trigger] name[i] <= 'z' || name[i] == '-'
}

/// `http::HeaderMap::get` with a name: the first value of that header, if there is one.
#[verifier::external_body]
fn get_header<'a>(headers: &'a HeaderMap, name: &str) -> (value: Option<&'a HeaderValue>)
    requires
        plain_name(name@),
    ensures
        match value {
            Some(found) => header_fields(*headers).contains_key(name@) && header_fields(
                *headers,
            )[name@] == header_bytes(*found),
            None => !header_fields(*headers).contains_key(name@),
        },
{
    headers.get(name)
}

/// Whether a byte is a visible ASCII character, a space or a tab.
pub open spec fn visible_byte(b: u8) -> bool {
    32 <= b <= 126 || b == 9
}

/// Whether all bytes are visible ASCII characters, spaces or tabs.
pub open spec fn visible_bytes(bytes: Seq<u8>) -> bool {
    forall|i: int| 0 <= i < bytes.len() ==> visible_byte(#[trigger] bytes[i])
}

/// The text with these bytes as characters.
pub open spec fn ascii_text(bytes: Seq<u8>) -> Seq<char> {
    bytes.map_values(|b: u8| b as char)
}

/// `http::HeaderValue::to_str`: the value as text, if all its bytes are visible ASCII
/// characters, spaces or tabs.
pub assume_specification[ HeaderValue::to_str ](value: &HeaderValue) -> (result: Result<
    &str,
    ToStrError,
>)
    ensures
        match result {
            Ok(chars) => visible_bytes(header_bytes(*value)) && chars@ == ascii_text(
                header_bytes(*value),
            ),
            Err(_) => !visible_bytes(header_bytes(*value)),
        },
;

/// The key in an `Authorization` header: what follows `Bearer `, without the white space
/// around it, if that is not empty.
pub open spec fn bearer_token(header: Seq<char>) -> Option<Seq<char>> {
    let key = text::trim_text(header.skip("Bearer "@.len() as int));
    if "Bearer "@.is_prefix_of(header) && key.len() > 0 {
        Some(key)
    } else {
        None
    }
}

/// The key in the headers of a request, if there is one.
pub open spec fn request_key(fields: Map<Seq<char>, Seq<u8>>) -> Option<Seq<char>> {
    if fields.contains_key("authorization"@) && visible_bytes(fields["authorization"@]) {
        bearer_token(ascii_text(fields["authorization"@]))
    } else {
        None
    }
}

/// The key in an `Authorization` header, if there is one.
pub fn bearer_key(header: &str) -> (key: Option<String>)
    ensures
        match key {
            Some(found) => bearer_token(header@) == Some(found@),
            None => bearer_token(header@) is None,
        },
{
    match strip_prefix(header, "Bearer ") {
        Some(rest) => {
            let key = trim(rest.as_str());
            if key.as_str().unicode_len() == 0 {
                None
            } else {
                Some(key)
            }
        },
        None => None,
    }
}

/// The key in the headers of a request. Without a well-formed one the request is not
/// authorized.
pub fn extract_api_key(headers: &HeaderMap) -> (result: Result<String, AppError>)
    ensures
        match result {
            Ok(key) => request_key(header_fields(*headers)) == Some(key@),
            Err(error) => request_key(header_fields(*headers)) is None && error@
                == ErrorModel::Unauthorized,
        },
{
    proof {
        reveal_strlit("authorization");
    }
    let value = match get_header(headers, "authorization") {
        Some(value) => value,
        None => {
            return Err(AppError::Unauthorized);
        },
    };
    let header = match value.to_str() {
        Ok(header) => header,
        Err(_) => {
            return Err(AppError::Unauthorized);
        },
    };
    match bearer_key(header) {
        Some(key) => Ok(key),
        None => Err(AppError::Unauthorized),
    }
}

/// Who a key belongs to. A key that the gateway does not know is not authorized.
pub fn identify(state: &AppState, key: &str) -> (result: Result<ClientIdentity, AppError>)
    ensures
        match result {
            Ok(identity) => state.credentials@.contains_key(digest::text_digest(key@)) && identity
                == state.credentials@[digest::text_digest(key@)],
            Err(error) => !state.credentials@.contains_key(digest::text_digest(key@)) && error@
                == ErrorModel::Unauthorized,
        },
{
    let hash = digest_text(key);
    match state.credentials.get(hash.as_str()) {
        Some(identity) => Ok(identity.clone()),
        None => Err(AppError::Unauthorized),
    }
}

/// Who a request comes from, before it reaches its handler.
pub fn auth_middleware(state: &AppState, headers: &HeaderMap) -> (result: Result<
    ClientIdentity,
    AppError,
>)
    ensures
        match (result, request_key(header_fields(*headers))) {
            (Ok(identity), Some(key)) => state.credentials@.contains_key(digest::text_digest(key))
                && identity == state.credentials@[digest::text_digest(key)],
            (Ok(_), None) => false,
            (Err(error), Some(key)) => !state.credentials@.contains_key(digest::text_digest(key))
                && error@ == ErrorModel::Unauthorized,
            (Err(error), None) => error@ == ErrorModel::Unauthorized,
        },
{
    match extract_api_key(headers) {
        Ok(key) => identify(state, key.as_str()),
        Err(error) => Err(error),
    }
}

/// Every configured key is admitted, as the client of the last credential whose key has
/// the same digest.
pub proof fn law_configured_keys_are_admitted(
    list: Seq<crate::config::ClientCredential>,
    i: int,
)
    requires
        0 <= i < list.len(),
        forall|j: int|
            i < j < list.len() ==> digest::text_digest(#[trigger] list[j].key@)
                != digest::text_digest(list[i].key@),
    ensures
        state::credential_map(list).contains_key(digest::text_digest(list[i].key@)),
        state::credential_map(list)[digest::text_digest(list[i].key@)] == state::identity_of(list[i]),
    decreases list.len(),
{
    if i < list.len() - 1 {
        assert(list.last() == list[list.len() - 1]);
        law_configured_keys_are_admitted(list.drop_last(), i);
    }
}

/// Nobody else is admitted: a digest that is known is that of a configured key.
pub proof fn law_only_configured_keys_are_admitted(
    list: Seq<crate::config::ClientCredential>,
    hash: Seq<char>,
)
    requires
        state::credential_map(list).contains_key(hash),
    ensures
        exists|i: int| 0 <= i < list.len() && digest::text_digest(#[trigger] list[i].key@) == hash,
    decreases list.len(),
{
    if list.len() > 0 {
        if digest::text_digest(list.last().key@) == hash {
            assert(digest::text_digest(list[list.len() - 1].key@) == hash);
        } else {
            law_only_configured_keys_are_admitted(list.drop_last(), hash);
            let i = choose|i: int|
                0 <= i < list.drop_last().len() && digest::text_digest(
                    #[trigger] list.drop_last()[i].key@,
                ) == hash;
            assert(list[i] == list.drop_last()[i]);
        }
    }
}

/// The key of a request is what stands behind `Bearer ` in its `Authorization` header,
/// without the white space around it.
pub proof fn law_keys_stand_behind_the_scheme(
    fields: Map<Seq<char>, Seq<u8>>,
    before: Seq<char>,
    key: Seq<char>,
    after: Seq<char>,
)
    requires
        fields.contains_key("authorization"@),
        ({
            let bytes = fields["authorization"@];
            let header = "Bearer "@ + before + key + after;
            &&& bytes.len() == header.len()
            &&& forall|i: int|
                0 <= i < bytes.len() ==> #[trigger] bytes[i] as char == header[i] && (32 <= bytes[i]
                    <= 126 || bytes[i] == 9)
        }),
        forall|i: int| 0 <= i < before.len() ==> text::is_white(#[trigger] before[i]),
        forall|i: int| 0 <= i < after.len() ==> text::is_white(#[trigger] after[i]),
        key.len() > 0,
        !text::is_white(key[0]),
        !text::is_white(key.last()),
    ensures
        request_key(fields) == Some(key),
{
    let bytes = fields["authorization"@];
    let header = "Bearer "@ + before + key + after;
    assert(ascii_text(bytes) =~= header);
    assert(header.subrange(0, "Bearer "@.len() as int) =~= "Bearer "@);
    assert(header.skip("Bearer "@.len() as int) =~= before + key + after);
    text::law_trimming_takes_off_white_space_only(before, key, after);
}

/// A request has no key if it has no `Authorization` header, if that holds anything but
/// visible ASCII characters, spaces and tabs, if it does not begin with `Bearer `, or if
/// nothing but white space follows.
pub proof fn law_other_requests_have_no_key(fields: Map<Seq<char>, Seq<u8>>, blank: Seq<char>, at: int)
    ensures
        !fields.contains_key("authorization"@) ==> request_key(fields) is None,
        fields.contains_key("authorization"@) ==> {
            let bytes = fields["authorization"@];
            &&& 0 <= at < bytes.len() && (bytes[at] > 126 || (bytes[at] < 32 && bytes[at] != 9))
                ==> request_key(fields) is None
            &&& bytes.len() < 7 ==> request_key(fields) is None
            &&& 0 <= at < 7 <= bytes.len() && bytes[at] as char != "Bearer "@[at] ==> request_key(
                fields,
            ) is None
            &&& bytes.map_values(|b: u8| b as char) == "Bearer "@ + blank && (forall|i: int|
                0 <= i < blank.len() ==> text::is_white(#[trigger] blank[i])) ==> request_key(
                fields,
            ) is None
        },
{
    reveal_strlit("Bearer ");
    if fields.contains_key("authorization"@) {
        let bytes = fields["authorization"@];
        let header = ascii_text(bytes);
        if 0 <= at < 7 <= bytes.len() && bytes[at] as char != "Bearer "@[at] {
            assert(header[at] == bytes[at] as char);
            if "Bearer "@.is_prefix_of(header) {
                assert(header.subrange(0, 7)[at] == header[at]);
            }
        }
        if header == "Bearer "@ + blank && (forall|i: int|
            0 <= i < blank.len() ==> text::is_white(#[trigger] blank[i])) {
            assert(header.skip(7) =~= blank);
            let none = Seq::<char>::empty();
            text::law_trimming_takes_off_white_space_only(blank, none, none);
            assert(blank + none + none =~= blank);
        }
        assert(header =~= bytes.map_values(|b: u8| b as char));
    }
}

} // verus!
