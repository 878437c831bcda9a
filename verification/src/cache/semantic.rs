//! The semantic cache: responses to similar prompts.
//!
//! A response is served for a prompt only if it was made under the same compatibility
//! signature: the same model, system prompt, tools and response format. Among those that
//! are not too old, the most similar one is served, if it is similar enough. The
//! similarities are computed outside.
use crate::clock::{self, nanos_between};
use crate::float_bits::F32Bits;
use crate::text;
use std::time::Duration;
use vstd::prelude::*;

verus! {

/// The settings of the cache.
#[derive(Clone, Copy, Debug)]
pub struct SemanticCacheConfig {
    pub enabled: bool,
    /// The similarity from which on an entry is a hit.
    pub threshold: F32Bits,
    /// The most entries that are kept. The oldest make room.
    pub max_entries: usize,
    /// The age up to which an entry is served.
    pub ttl: Duration,
}

/// The bits of 0.95 in single precision.
pub const DEFAULT_THRESHOLD_BITS: u32 = 0x3f73_3333;

impl Default for SemanticCacheConfig {
    fn default() -> (config: SemanticCacheConfig)
        ensures
            !config.enabled,
            config.threshold.bits == DEFAULT_THRESHOLD_BITS,
            config.max_entries == 10_000,
            clock::duration_nanos(config.ttl) == 3600 * clock::NANOS_PER_SEC,
    {
        SemanticCacheConfig {
            enabled: false,
            threshold: F32Bits::from_bits(DEFAULT_THRESHOLD_BITS),
            max_entries: 10_000,
            ttl: Duration::from_secs(3600),
        }
    }
}

/// The partition of a prompt: responses are never shared between two of them.
#[derive(Debug)]
pub struct CompatibilitySignature {
    pub model: String,
    pub system_fingerprint: Option<String>,
    pub tools_hash: Option<String>,
    pub response_format: Option<String>,
}

/// What a signature is, for contracts.
#[verifier::ext_equal]
pub struct SignatureModel {
    pub model: Seq<char>,
    pub system_fingerprint: Option<Seq<char>>,
    pub tools_hash: Option<Seq<char>>,
    pub response_format: Option<Seq<char>>,
}

impl View for CompatibilitySignature {
    type V = SignatureModel;

    open spec fn view(&self) -> SignatureModel {
        SignatureModel {
            model: self.model@,
            system_fingerprint: text::optional(self.system_fingerprint),
            tools_hash: text::optional(self.tools_hash),
            response_format: text::optional(self.response_format),
        }
    }
}

/// Whether two optional texts are the same.
fn same_optional(a: &Option<String>, b: &Option<String>) -> (yes: bool)
    ensures
        yes == (text::optional(*a) == text::optional(*b)),
{
    match (a, b) {
        (Some(x), Some(y)) => text::same(x.as_str(), y.as_str()),
        (None, None) => true,
        _ => false,
    }
}

/// A copy of an optional text.
fn copy_optional(a: &Option<String>) -> (b: Option<String>)
    ensures
        b == *a,
{
    match a {
        Some(x) => Some(x.clone()),
        None => None,
    }
}

impl Clone for CompatibilitySignature {
    fn clone(&self) -> (copy: CompatibilitySignature)
        ensures
            copy == *self,
    {
        CompatibilitySignature {
            model: self.model.clone(),
            system_fingerprint: copy_optional(&self.system_fingerprint),
            tools_hash: copy_optional(&self.tools_hash),
            response_format: copy_optional(&self.response_format),
        }
    }
}

impl CompatibilitySignature {
    /// Whether two signatures agree in all their parts.
    pub fn matches(&self, other: &CompatibilitySignature) -> (yes: bool)
        ensures
            yes == (self@ == other@),
    {
        text::same(self.model.as_str(), other.model.as_str()) && same_optional(
            &self.system_fingerprint,
            &other.system_fingerprint,
        ) && same_optional(&self.tools_hash, &other.tools_hash) && same_optional(
            &self.response_format,
            &other.response_format,
        )
    }
}

/// An entry of the cache. `created_at` is in nanoseconds.
#[derive(Debug)]
pub struct SemanticEntry {
    pub prompt: String,
    pub signature: CompatibilitySignature,
    pub embedding: Vec<F32Bits>,
    pub response: String,
    pub created_at: u64,
}

/// The result of a lookup.
#[derive(Debug)]
pub enum SemanticLookupOutcome {
    Hit { response: String, similarity: F32Bits },
    Miss,
    Disabled,
}

/// The backend that is used when none is configured.
#[derive(Clone, Copy, Debug)]
pub struct NoopEmbeddingBackend;

impl NoopEmbeddingBackend {
    /// There is no embedding.
    pub fn embed(&self, _text: &str) -> (result: Result<Vec<F32Bits>, String>)
        ensures
            result matches Err(message) && message@ == "no embedding backend configured"@,
    {
        Err("no embedding backend configured".to_string())
    }
}

/// The cache, with its entries from the oldest to the newest.
#[derive(Debug)]
pub struct SemanticCache {
    pub config: SemanticCacheConfig,
    pub entries: Vec<SemanticEntry>,
}

impl SemanticCache {
    /// What holds of every cache: it is within its capacity.
    pub open spec fn wf(self) -> bool {
        self.entries@.len() <= self.config.max_entries
    }

    /// Whether the entry `i` may be served at `now` for `signature`, given the similarity of
    /// each entry to the prompt.
    pub open spec fn servable(
        self,
        i: int,
        signature: SignatureModel,
        similarities: Seq<F32Bits>,
        now: nat,
    ) -> bool {
        &&& 0 <= i < self.entries@.len()
        &&& self.entries@[i].signature@ == signature
        &&& clock::time_between(self.entries@[i].created_at as nat, now) <= clock::duration_nanos(
            self.config.ttl,
        )
        &&& similarities[i].at_least_value(self.config.threshold)
    }

    /// Whether the entry `i` is the one to serve: none that may be served is more similar,
    /// and none before it is as similar.
    pub open spec fn best(
        self,
        i: int,
        signature: SignatureModel,
        similarities: Seq<F32Bits>,
        now: nat,
    ) -> bool {
        &&& self.servable(i, signature, similarities, now)
        &&& forall|j: int| #[trigger]
            self.servable(j, signature, similarities, now) ==> {
                &&& similarities[i].at_least_value(similarities[j])
                &&& j < i ==> similarities[i].above_value(similarities[j])
            }
    }

    /// An empty cache.
    pub fn new(config: SemanticCacheConfig) -> (cache: SemanticCache)
        ensures
            cache.config == config,
            cache.entries@ == Seq::<SemanticEntry>::empty(),
            cache.wf(),
    {
        SemanticCache { config, entries: Vec::new() }
    }

    /// Looks a prompt up. `similarities` holds the similarity of each entry to the prompt,
    /// in the order of the entries, or is missing if the prompt could not be embedded.
    pub fn lookup(
        &self,
        signature: &CompatibilitySignature,
        similarities: Option<&Vec<F32Bits>>,
        now: u64,
    ) -> (outcome: SemanticLookupOutcome)
        requires
            self.config.enabled && similarities is Some ==> similarities->0@.len()
                == self.entries@.len(),
        ensures
            outcome is Disabled <==> !self.config.enabled,
            self.config.enabled && similarities is None ==> outcome is Miss,
            self.config.enabled && similarities is Some ==> match outcome {
                SemanticLookupOutcome::Hit { response, similarity } => exists|i: int|
                    #[trigger] self.best(i, signature@, similarities->0@, now as nat) && response@
                        == self.entries@[i].response@ && similarity == similarities->0@[i],
                SemanticLookupOutcome::Miss => forall|i: int|
                    !self.servable(i, signature@, similarities->0@, now as nat),
                SemanticLookupOutcome::Disabled => false,
            },
    {
        if !self.config.enabled {
            return SemanticLookupOutcome::Disabled;
        }
        let list = match similarities {
            Some(list) => list,
            None => {
                return SemanticLookupOutcome::Miss;
            },
        };
        let ttl: u128 = self.config.ttl.as_nanos();
        let mut found: Option<usize> = None;
        let mut i: usize = 0;
        while i < self.entries.len()
            invariant
                i <= self.entries@.len(),
                list@.len() == self.entries@.len(),
                ttl == clock::duration_nanos(self.config.ttl),
                match found {
                    Some(b) => b < i && self.servable(b as int, signature@, list@, now as nat) && (
                    forall|j: int|
                        j < i && #[trigger] self.servable(j, signature@, list@, now as nat) ==> {
                            &&& list@[b as int].at_least_value(list@[j])
                            &&& j < b ==> list@[b as int].above_value(list@[j])
                        }),
                    None => forall|j: int|
                        j < i ==> !#[trigger] self.servable(j, signature@, list@, now as nat),
                },
            decreases self.entries@.len() - i,
        {
            let entry = &self.entries[i];
            let fresh: bool = nanos_between(entry.created_at, now) as u128 <= ttl;
            if entry.signature.matches(signature) && fresh && list[i].at_least(
                self.config.threshold,
            ) {
                let better: bool = match found {
                    Some(b) => list[i].above(list[b]),
                    None => true,
                };
                if better {
                    found = Some(i);
                }
            }
            i += 1;
        }
        match found {
            Some(b) => {
                assert(self.best(b as int, signature@, list@, now as nat));
                SemanticLookupOutcome::Hit {
                    response: self.entries[b].response.clone(),
                    similarity: list[b],
                }
            },
            None => SemanticLookupOutcome::Miss,
        }
    }

    /// Stores a response, made at `now`, with the embedding of its prompt. Nothing is stored
    /// if the cache is disabled, if the prompt could not be embedded, or if the cache has no
    /// room for any entry. At capacity the oldest entry makes room.
    pub fn insert(
        &mut self,
        prompt: String,
        signature: CompatibilitySignature,
        embedding: Option<Vec<F32Bits>>,
        response: String,
        now: u64,
    )
        requires
            old(self).wf(),
        ensures
            final(self).config == old(self).config,
            final(self).entries@ == if !old(self).config.enabled || embedding is None {
                old(self).entries@
            } else {
                old(self).with_entry(
                    SemanticEntry {
                        prompt,
                        signature,
                        embedding: embedding->0,
                        response,
                        created_at: now,
                    },
                )
            },
            final(self).wf(),
    {
        if !self.config.enabled || self.config.max_entries == 0 {
            return ;
        }
        if let Some(embedding) = embedding {
            if self.entries.len() >= self.config.max_entries {
                let _oldest = self.entries.remove(0);
                assert(self.entries@ =~= old(self).entries@.drop_first());
            }
            self.entries.push(
                SemanticEntry { prompt, signature, embedding, response, created_at: now },
            );
        }
    }

    /// The entries that stay when one more is stored.
    pub open spec fn room(self) -> Seq<SemanticEntry> {
        if self.entries@.len() >= self.config.max_entries {
            self.entries@.drop_first()
        } else {
            self.entries@
        }
    }

    /// The entries after one more was stored. It is left out if there is no room for any.
    pub open spec fn with_entry(self, entry: SemanticEntry) -> Seq<SemanticEntry> {
        if self.config.max_entries == 0 {
            self.entries@
        } else {
            self.room().push(entry)
        }
    }

    /// Drops all entries.
    pub fn clear(&mut self)
        ensures
            final(self).config == old(self).config,
            final(self).entries@ == Seq::<SemanticEntry>::empty(),
            final(self).wf(),
    {
        self.entries.clear();
    }
}

/// The cache holds the newest entries, as many as it has room for: of all that it held and
/// the one that is stored, only the oldest goes, and only at capacity. A cache without room
/// stays empty.
pub proof fn law_newest_entries_are_kept(cache: SemanticCache, entry: SemanticEntry)
    requires
        cache.wf(),
    ensures
        ({
            let all = cache.entries@.push(entry);
            let kept = if all.len() <= cache.config.max_entries {
                all.len()
            } else {
                cache.config.max_entries as nat
            };
            cache.with_entry(entry) == all.skip(all.len() - kept)
        }),
{
    let all = cache.entries@.push(entry);
    if all.len() <= cache.config.max_entries {
        assert(cache.with_entry(entry) =~= all.skip(0));
    } else {
        assert(cache.with_entry(entry) =~= all.skip(1));
    }
}

/// A response is never served under another signature than its own: an entry that may be
/// served agrees with the signature of the prompt in the model, the system prompt, the
/// tools and the response format.
pub proof fn law_signatures_are_never_mixed(
    cache: SemanticCache,
    i: int,
    signature: SignatureModel,
    similarities: Seq<F32Bits>,
    now: nat,
)
    requires
        cache.best(i, signature, similarities, now),
    ensures
        cache.entries@[i].signature@.model == signature.model,
        cache.entries@[i].signature@.system_fingerprint == signature.system_fingerprint,
        cache.entries@[i].signature@.tools_hash == signature.tools_hash,
        cache.entries@[i].signature@.response_format == signature.response_format,
{
}

/// There is at most one entry to serve.
pub proof fn law_served_entry_is_unique(
    cache: SemanticCache,
    i: int,
    j: int,
    signature: SignatureModel,
    similarities: Seq<F32Bits>,
    now: nat,
)
    requires
        cache.best(i, signature, similarities, now),
        cache.best(j, signature, similarities, now),
    ensures
        i == j,
{
    assert(cache.servable(i, signature, similarities, now));
    assert(cache.servable(j, signature, similarities, now));
}

/// An entry may be served if and only if it agrees with the prompt in the model, the system
/// prompt, the tools and the response format, is not older than the cache keeps entries, and
/// is at least as similar as the threshold.
pub proof fn law_what_may_be_served(
    cache: SemanticCache,
    i: int,
    signature: CompatibilitySignature,
    similarities: Seq<F32Bits>,
    now: nat,
)
    requires
        0 <= i < cache.entries@.len(),
        cache.entries@[i].created_at <= now,
    ensures
        cache.servable(i, signature@, similarities, now) <==> {
            let entry = cache.entries@[i];
            let own = entry.signature;
            &&& own.model@ == signature.model@
            &&& same_part(own.system_fingerprint, signature.system_fingerprint)
            &&& same_part(own.tools_hash, signature.tools_hash)
            &&& same_part(own.response_format, signature.response_format)
            &&& now - entry.created_at <= clock::duration_nanos(cache.config.ttl)
            &&& similarities[i].at_least_value(cache.config.threshold)
        },
{
}

/// Whether two optional parts of a signature are the same text, or both missing.
pub open spec fn same_part(a: Option<String>, b: Option<String>) -> bool {
    match (a, b) {
        (Some(x), Some(y)) => x@ == y@,
        (None, None) => true,
        _ => false,
    }
}

/// The most similar entry is served, and the oldest of those that are equally similar.
pub proof fn law_the_most_similar_is_served(
    cache: SemanticCache,
    i: int,
    j: int,
    signature: SignatureModel,
    similarities: Seq<F32Bits>,
    now: nat,
)
    requires
        cache.best(i, signature, similarities, now),
        cache.servable(j, signature, similarities, now),
    ensures
        cache.servable(i, signature, similarities, now),
        !similarities[j].above_value(similarities[i]),
        j < i ==> !similarities[j].at_least_value(similarities[i]),
{
}

} // verus!
