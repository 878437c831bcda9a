//! SHA-256 digests in lower-case hexadecimal.
use crate::text;
use sha2::{Digest, Sha256};
use vstd::prelude::*;
use vstd::utf8::encode_utf8;

verus! {

/// The SHA-256 digest of a message, as the `sha2` crate computes it.
pub uninterp spec fn sha256_digest(message: Seq<u8>) -> Seq<u8>;

/// `sha2::Sha256::digest`: hashes the whole message at once. The result is named; of its
/// bytes the contract claims that there are 32.
#[verifier::external_body]
fn sha256(message: &[u8]) -> (digest: Vec<u8>)
    ensures
        digest@ == sha256_digest(message@),
        digest@.len() == 32,
{
    Sha256::digest(message).to_vec()
}

/// The digest of a message in lower-case hexadecimal.
pub open spec fn hex_digest(message: Seq<u8>) -> Seq<char> {
    text::hex_text(sha256_digest(message))
}

/// The digest of the bytes of a text, in lower-case hexadecimal.
pub open spec fn text_digest(message: Seq<char>) -> Seq<char> {
    hex_digest(encode_utf8(message))
}

/// The digest of a message in lower-case hexadecimal: 64 characters.
pub fn digest_hex(message: &[u8]) -> (digest: String)
    ensures
        digest@ == hex_digest(message@),
        digest@.len() == 64,
{
    let bytes = sha256(message);
    text::hex(bytes.as_slice())
}

/// The digest of the bytes of a text, in lower-case hexadecimal.
pub fn digest_text(message: &str) -> (digest: String)
    ensures
        digest@ == text_digest(message@),
        digest@.len() == 64,
{
    digest_hex(message.as_bytes())
}

/// The digest of a text is that of its UTF-8 bytes by SHA-256, written with two lower-case
/// hexadecimal digits for each byte, in order.
pub proof fn law_digest_spells_out_sha256(message: Seq<char>, i: int)
    requires
        0 <= i < sha256_digest(encode_utf8(message)).len(),
    ensures
        text_digest(message).len() == 2 * sha256_digest(encode_utf8(message)).len(),
        16 * text::hex_value(text_digest(message)[2 * i]) + text::hex_value(
            text_digest(message)[2 * i + 1],
        ) == sha256_digest(encode_utf8(message))[i],
{
    text::law_hexadecimal_notation_reads_back(sha256_digest(encode_utf8(message)));
}

} // verus!
