//! The exact-match cache.
//!
//! A response is cached under the digest of the model and the canonical JSON of the
//! request, and only if the temperature is zero: other answers are not deterministic. The
//! cache is bounded in its entries and in their age, so a response may be gone at any
//! time; but what is found is what was stored.
use crate::clock;
use crate::digest;
use crate::float_bits::F32Bits;
use crate::text;
use moka::sync::Cache;
use std::time::Duration;
use vstd::prelude::*;
use vstd::slice::slice_to_vec;
use vstd::utf8::encode_utf8;

verus! {

/// `moka::sync::Cache`, a bounded concurrent cache. `stored_values` says what was stored in
/// it.
#[verifier::external_type_specification]
#[verifier::external_body]
#[verifier::reject_recursive_types(K)]
#[verifier::reject_recursive_types(V)]
#[verifier::reject_recursive_types(S)]
pub struct ExCache<K, V, S>(Cache<K, V, S>);

/// The value that was last stored under each key, whether the cache still holds it or not.
pub uninterp spec fn stored_values(cache: Cache<String, String>) -> Map<Seq<char>, Seq<char>>;

/// The number of entries that a cache was made to keep at most.
pub uninterp spec fn cache_capacity(cache: Cache<String, String>) -> u64;

/// The time for which a cache was made to keep an entry, in nanoseconds.
pub uninterp spec fn cache_ttl(cache: Cache<String, String>) -> nat;

/// The longest time for which the cache can be told to keep an entry: a thousand years of
/// 365 days, in seconds.
pub const MAX_TTL_SECONDS: u64 = 31_536_000_000;

/// `moka::sync::Cache::builder` with `max_capacity` and `time_to_live`, and `build`: an
/// empty cache with these two limits. The builder panics on a time beyond a thousand years.
/// When an entry is evicted is not claimed.
#[verifier::external_body]
fn new_cache(max_entries: u64, ttl: Duration) -> (cache: Cache<String, String>)
    requires
        clock::duration_nanos(ttl) <= MAX_TTL_SECONDS * clock::NANOS_PER_SEC,
    ensures
        (stored_values(cache) == Map::<Seq<char>, Seq<char>>::empty()),
        cache_capacity(cache) == max_entries,
        cache_ttl(cache) == clock::duration_nanos(ttl),
{
    Cache::builder().max_capacity(max_entries).time_to_live(ttl).build()
}

/// `moka::sync::Cache::get`: the value last stored under the key, or `None` if there is
/// none or it has been evicted. When it is evicted is not claimed.
#[verifier::external_body]
fn find_value(cache: &Cache<String, String>, key: &str) -> (found: Option<String>)
    ensures
        (found matches Some(value) ==> stored_values(*cache).contains_key(key@)
            && stored_values(*cache)[key@] == value@),
{
    cache.get(key)
}

/// `moka::sync::Cache::insert`: stores a value under a key in place of an earlier one. The
/// limits of the cache stay as they are. It is only reached through the reference that is
/// given here.
#[verifier::external_body]
fn store_value(cache: &mut Cache<String, String>, key: String, value: String)
    ensures
        (stored_values(*final(cache)) == stored_values(*old(cache)).insert(key@, value@)),
        cache_capacity(*final(cache)) == cache_capacity(*old(cache)),
        cache_ttl(*final(cache)) == cache_ttl(*old(cache)),
{
    cache.insert(key, value)
}

/// The exact-match cache: responses by the keys of their requests.
#[derive(Debug)]
pub struct ExactCache {
    inner: Cache<String, String>,
}

impl View for ExactCache {
    type V = Map<Seq<char>, Seq<char>>;

    /// The response that was last stored under each key.
    closed spec fn view(&self) -> Map<Seq<char>, Seq<char>> {
        stored_values(self.inner)
    }
}

/// What is hashed for a request: the model, a zero byte and the request.
pub open spec fn key_message(model: Seq<char>, prompt_payload: Seq<char>) -> Seq<u8> {
    encode_utf8(model) + seq![0u8] + encode_utf8(prompt_payload)
}

/// The key of a request that can be cached.
pub open spec fn key_text(model: Seq<char>, prompt_payload: Seq<char>) -> Seq<char> {
    "exact:"@ + digest::hex_digest(key_message(model, prompt_payload))
}

impl ExactCache {
    /// The number of responses that are kept at most.
    pub closed spec fn capacity(self) -> u64 {
        cache_capacity(self.inner)
    }

    /// The time for which a response is kept, in nanoseconds.
    pub closed spec fn ttl(self) -> nat {
        cache_ttl(self.inner)
    }

    /// An empty cache of at most `max_entries` responses, each kept for `ttl_seconds`.
    pub fn new(max_entries: u64, ttl_seconds: u64) -> (cache: ExactCache)
        requires
            ttl_seconds <= MAX_TTL_SECONDS,
        ensures
            cache@ == Map::<Seq<char>, Seq<char>>::empty(),
            cache.capacity() == max_entries,
            cache.ttl() == ttl_seconds * clock::NANOS_PER_SEC,
    {
        ExactCache { inner: new_cache(max_entries, Duration::from_secs(ttl_seconds)) }
    }

    /// The response that was last stored under a key, if the cache still holds it.
    pub fn get(&self, key: &str) -> (response: Option<String>)
        ensures
            response matches Some(found) ==> self@.contains_key(key@) && found@ == self@[key@],
    {
        find_value(&self.inner, key)
    }

    /// Stores a response under a key.
    pub fn insert(&mut self, key: String, response: String)
        ensures
            final(self)@ == old(self)@.insert(key@, response@),
            final(self).capacity() == old(self).capacity(),
            final(self).ttl() == old(self).ttl(),
    {
        store_value(&mut self.inner, key, response)
    }

    /// The key of a chat request, or `None` if it cannot be cached. It can if and only if
    /// its temperature is zero. `prompt_payload` is the canonical JSON of the request.
    pub fn compute_key(model: &str, prompt_payload: &str, temperature: F32Bits) -> (key: Option<String>)
        ensures
            key is Some <==> temperature.is_zero_value(),
            key matches Some(k) ==> k@ == key_text(model@, prompt_payload@) && k@.len() == 70,
    {
        if !temperature.is_zero() {
            return None;
        }
        let mut message: Vec<u8> = slice_to_vec(model.as_bytes());
        let mut payload: Vec<u8> = slice_to_vec(prompt_payload.as_bytes());
        message.push(0u8);
        message.append(&mut payload);
        assert(message@ =~= key_message(model@, prompt_payload@));
        proof {
            reveal_strlit("exact:");
        }
        Some(text::concat("exact:", digest::digest_hex(message.as_slice()).as_str()))
    }
}

/// Without a zero byte in it, the model is what stands before the first zero byte of the
/// hashed message.
proof fn lemma_message_determines(a: Seq<u8>, p: Seq<u8>, b: Seq<u8>, q: Seq<u8>)
    requires
        a + seq![0u8] + p == b + seq![0u8] + q,
        forall|i: int| 0 <= i < a.len() ==> a[i] != 0,
        forall|i: int| 0 <= i < b.len() ==> b[i] != 0,
    ensures
        a == b,
        p == q,
{
    let m = a + seq![0u8] + p;
    let n = b + seq![0u8] + q;
    if a.len() < b.len() {
        assert(m[a.len() as int] == 0);
        assert(n[a.len() as int] == b[a.len() as int]);
    } else if b.len() < a.len() {
        assert(n[b.len() as int] == 0);
        assert(m[b.len() as int] == a[b.len() as int]);
    }
    assert(a.len() == b.len());
    assert forall|i: int| 0 <= i < a.len() implies a[i] == b[i] by {
        assert(m[i] == a[i] && n[i] == b[i]);
    }
    assert(a =~= b);
    assert(m.len() == a.len() + 1 + p.len() && n.len() == b.len() + 1 + q.len());
    assert forall|i: int| 0 <= i < p.len() implies p[i] == q[i] by {
        assert(m[a.len() + 1 + i] == p[i] && n[b.len() + 1 + i] == q[i]);
    }
    assert(p =~= q);
}

/// Two texts with the same bytes are the same.
proof fn lemma_same_bytes(a: Seq<char>, b: Seq<char>)
    requires
        encode_utf8(a) == encode_utf8(b),
    ensures
        a == b,
{
    vstd::utf8::encode_utf8_decode_utf8(a);
    vstd::utf8::encode_utf8_decode_utf8(b);
}

/// Different models or different requests are hashed from different messages, so they
/// share a key only if the digests of these two messages collide. A model is taken to
/// hold no zero byte.
pub proof fn law_keys_separate_requests(
    model: Seq<char>,
    payload: Seq<char>,
    other_model: Seq<char>,
    other_payload: Seq<char>,
)
    requires
        forall|i: int| 0 <= i < encode_utf8(model).len() ==> encode_utf8(model)[i] != 0,
        forall|i: int| 0 <= i < encode_utf8(other_model).len() ==> encode_utf8(other_model)[i] != 0,
        model != other_model || payload != other_payload,
    ensures
        key_message(model, payload) != key_message(other_model, other_payload),
        key_text(model, payload) == key_text(other_model, other_payload)
            ==> digest::sha256_digest(key_message(model, payload)) == digest::sha256_digest(
            key_message(other_model, other_payload),
        ),
{
    let hex = digest::hex_digest(key_message(model, payload));
    let other_hex = digest::hex_digest(key_message(other_model, other_payload));
    if key_text(model, payload) == key_text(other_model, other_payload) {
        assert(("exact:"@ + hex).skip("exact:"@.len() as int) =~= hex);
        assert(("exact:"@ + other_hex).skip("exact:"@.len() as int) =~= other_hex);
        text::lemma_hex_injective(
            digest::sha256_digest(key_message(model, payload)),
            digest::sha256_digest(key_message(other_model, other_payload)),
        );
    }
    if key_message(model, payload) == key_message(other_model, other_payload) {
        lemma_message_determines(
            encode_utf8(model),
            encode_utf8(payload),
            encode_utf8(other_model),
            encode_utf8(other_payload),
        );
        lemma_same_bytes(model, other_model);
        lemma_same_bytes(payload, other_payload);
    }
}

/// The key of a request spells out the SHA-256 digest of the model, a zero byte and the
/// request, in lower-case hexadecimal behind a fixed mark. So it depends on every byte of
/// both, and on nothing else.
pub proof fn law_keys_spell_out_the_digest(model: Seq<char>, payload: Seq<char>, i: int)
    requires
        0 <= i < digest::sha256_digest(
            encode_utf8(model).push(0u8) + encode_utf8(payload),
        ).len(),
    ensures
        ({
            let digest = digest::sha256_digest(encode_utf8(model).push(0u8) + encode_utf8(payload));
            let key = key_text(model, payload);
            &&& key.len() == 6 + 2 * digest.len()
            &&& key.take(6) == "exact:"@
            &&& 16 * text::hex_value(key[6 + 2 * i]) + text::hex_value(key[6 + 2 * i + 1])
                == digest[i]
        }),
{
    reveal_strlit("exact:");
    assert(key_message(model, payload) =~= encode_utf8(model).push(0u8) + encode_utf8(payload));
    text::law_hexadecimal_notation_reads_back(digest::sha256_digest(key_message(model, payload)));
    assert(key_text(model, payload).take(6) =~= "exact:"@);
}

/// Entries can be kept for anything up to a thousand years of 365 days.
pub proof fn law_entries_can_be_kept_for_a_thousand_years(years: nat)
    requires
        years <= 1000,
    ensures
        years * 365 * 24 * 60 * 60 <= MAX_TTL_SECONDS,
{
}

} // verus!
