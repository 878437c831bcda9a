//! The configuration of the gateway: its sections, their defaults and their validity.
use crate::float_bits::F32Bits;
use crate::text::{self, concat, decimal, starts_with};
use vstd::prelude::*;

verus! {

/// The whole configuration.
#[derive(Debug)]
pub struct AppConfig {
    pub server: ServerConfig,
    pub auth: AuthConfig,
    pub rate_limit: RateLimitConfig,
    pub cache: CacheConfig,
    pub circuit_breaker: CircuitBreakerConfig,
    /// The upstream providers. A lower `priority` is tried first.
    pub providers: Vec<ProviderConfig>,
}

#[derive(Debug)]
pub struct ServerConfig {
    pub host: String,
    pub port: u16,
    /// The largest request body, in bytes.
    pub max_body_bytes: usize,
}

#[derive(Debug)]
pub struct AuthConfig {
    /// The credentials that the gateway accepts.
    pub credentials: Vec<ClientCredential>,
}

#[derive(Debug)]
pub struct ClientCredential {
    pub key: String,
    pub client_id: String,
    pub tier: String,
}

#[derive(Clone, Copy, Debug)]
pub struct RateLimitConfig {
    /// Requests per minute and client, which is also the burst capacity.
    pub default_rpm: u32,
    /// Model tokens per minute and client.
    pub default_tpm: u32,
}

#[derive(Clone, Copy, Debug)]
pub struct CacheConfig {
    pub exact_max_entries: u64,
    pub exact_ttl_seconds: u64,
    pub semantic_enabled: bool,
    /// The similarity from which on an entry of the semantic cache is a hit.
    pub semantic_threshold: F32Bits,
}

#[derive(Clone, Copy, Debug)]
pub struct CircuitBreakerConfig {
    /// The consecutive failures that trip a breaker open.
    pub failure_threshold: u32,
    /// The seconds before an open breaker lets a probe through.
    pub cooldown_seconds: u64,
    /// The probes that a half-open breaker lets through.
    pub half_open_max_calls: u32,
}

#[derive(Debug)]
pub struct ProviderConfig {
    pub name: String,
    pub endpoint: String,
    /// The bearer token for the provider. It may be missing or empty.
    pub api_key: Option<String>,
    /// A lower number is tried first.
    pub priority: u32,
    /// The time limit for a connection, in seconds.
    pub connect_timeout_seconds: u64,
    /// The time limit for a request, in seconds.
    pub request_timeout_seconds: u64,
    /// The longest pause between two chunks of a stream, in seconds.
    pub stream_idle_timeout_seconds: u64,
}

impl Clone for ProviderConfig {
    fn clone(&self) -> (copy: ProviderConfig)
        ensures
            copy == *self,
    {
        ProviderConfig {
            name: self.name.clone(),
            endpoint: self.endpoint.clone(),
            api_key: match &self.api_key {
                Some(key) => Some(key.clone()),
                None => None,
            },
            priority: self.priority,
            connect_timeout_seconds: self.connect_timeout_seconds,
            request_timeout_seconds: self.request_timeout_seconds,
            stream_idle_timeout_seconds: self.stream_idle_timeout_seconds,
        }
    }
}

/// The connection time limit of a provider that names none, in seconds.
pub fn default_connect_timeout() -> (seconds: u64)
    ensures
        seconds == 5,
{
    5
}

/// The request time limit of a provider that names none, in seconds.
pub fn default_request_timeout() -> (seconds: u64)
    ensures
        seconds == 30,
{
    30
}

/// The longest pause in a stream of a provider that names none, in seconds.
pub fn default_stream_idle() -> (seconds: u64)
    ensures
        seconds == 120,
{
    120
}

/// Whether an endpoint has one of the two schemes.
pub open spec fn has_scheme(endpoint: Seq<char>) -> bool {
    "http://"@.is_prefix_of(endpoint) || "https://"@.is_prefix_of(endpoint)
}

/// What follows the scheme of an endpoint.
pub open spec fn after_scheme(endpoint: Seq<char>) -> Seq<char> {
    if "http://"@.is_prefix_of(endpoint) {
        endpoint.skip("http://"@.len() as int)
    } else {
        endpoint.skip("https://"@.len() as int)
    }
}

/// Whether an endpoint names a host after its scheme: neither its path, its query, its
/// fragment nor its port comes first.
pub open spec fn has_host(endpoint: Seq<char>) -> bool {
    let rest = after_scheme(endpoint);
    rest.len() > 0 && !"/?#:"@.contains(rest[0])
}

/// A message about the item at `index` of a list.
pub open spec fn item_message(list: &str, index: nat, rest: Seq<char>) -> Seq<char> {
    list@ + text::decimal_text(index) + rest
}

/// What is wrong with the provider at `index`, or `None`.
pub open spec fn provider_fault(p: ProviderConfig, index: nat) -> Option<Seq<char>> {
    if p.name@.len() == 0 {
        Some(item_message("providers[", index, "].name must not be empty"@))
    } else if p.endpoint@.len() == 0 {
        Some(item_message("providers[", index, "].endpoint must not be empty"@))
    } else if !has_scheme(p.endpoint@) {
        Some(
            item_message(
                "providers[",
                index,
                "].endpoint must start with http:// or https://, got: "@ + p.endpoint@,
            ),
        )
    } else if !has_host(p.endpoint@) {
        Some(
            item_message("providers[", index, "].endpoint must name a host, got: "@ + p.endpoint@),
        )
    } else if p.request_timeout_seconds == 0 {
        Some(item_message("providers[", index, "].request_timeout_seconds must be > 0"@))
    } else {
        None
    }
}

/// The first thing wrong with the providers from `index` on, or `None`.
pub open spec fn providers_fault(list: Seq<ProviderConfig>, index: nat) -> Option<Seq<char>>
    decreases list.len() - index,
{
    if index >= list.len() {
        None
    } else if provider_fault(list[index as int], index) is Some {
        provider_fault(list[index as int], index)
    } else {
        providers_fault(list, index + 1)
    }
}

/// What is wrong with the credential at `index`, or `None`.
pub open spec fn credential_fault(c: ClientCredential, index: nat) -> Option<Seq<char>> {
    if c.key@.len() == 0 {
        Some(item_message("auth.credentials[", index, "].key must not be empty"@))
    } else if c.client_id@.len() == 0 {
        Some(item_message("auth.credentials[", index, "].client_id must not be empty"@))
    } else {
        None
    }
}

/// The first thing wrong with the credentials from `index` on, or `None`.
pub open spec fn credentials_fault(list: Seq<ClientCredential>, index: nat) -> Option<Seq<char>>
    decreases list.len() - index,
{
    if index >= list.len() {
        None
    } else if credential_fault(list[index as int], index) is Some {
        credential_fault(list[index as int], index)
    } else {
        credentials_fault(list, index + 1)
    }
}

/// Whether `sorted` is `list` in ascending order of priority, with providers of equal
/// priority in the order of `list`: `place` says where in `list` each one stood.
pub open spec fn sorted_by(list: Seq<ProviderConfig>, sorted: Seq<ProviderConfig>, place: Seq<int>) -> bool {
    &&& place.len() == list.len() == sorted.len()
    &&& place.no_duplicates()
    &&& forall|i: int| 0 <= i < place.len() ==> 0 <= #[trigger] place[i] < list.len()
    &&& forall|i: int| 0 <= i < place.len() ==> #[trigger] sorted[i] == list[place[i]]
    &&& forall|i: int, j: int|
        0 <= i < j < place.len() ==> #[trigger] sorted[i].priority < #[trigger] sorted[j].priority
            || (sorted[i].priority == sorted[j].priority && place[i] < place[j])
}

impl AppConfig {
    /// The first thing wrong with the configuration, or `None`.
    pub open spec fn fault(self) -> Option<Seq<char>> {
        if self.providers@.len() == 0 {
            Some("at least one provider must be configured"@)
        } else if providers_fault(self.providers@, 0) is Some {
            providers_fault(self.providers@, 0)
        } else if credentials_fault(self.auth.credentials@, 0) is Some {
            credentials_fault(self.auth.credentials@, 0)
        } else if self.rate_limit.default_rpm == 0 {
            Some("rate_limit.default_rpm must be > 0"@)
        } else if self.rate_limit.default_tpm == 0 {
            Some("rate_limit.default_tpm must be > 0"@)
        } else {
            None
        }
    }

    /// Checks the configuration. The error says what is wrong, the first thing first.
    pub fn validate(&self) -> (result: Result<(), String>)
        ensures
            match result {
                Ok(_) => self.fault() is None,
                Err(message) => self.fault() == Some(message@),
            },
    {
        if self.providers.len() == 0 {
            return Err("at least one provider must be configured".to_string());
        }
        let mut i: usize = 0;
        while i < self.providers.len()
            invariant
                i <= self.providers@.len(),
                self.providers@.len() > 0,
                providers_fault(self.providers@, 0) == providers_fault(self.providers@, i as nat),
            decreases self.providers@.len() - i,
        {
            if let Some(message) = check_provider(&self.providers[i], i) {
                return Err(message);
            }
            i += 1;
        }
        let mut i: usize = 0;
        while i < self.auth.credentials.len()
            invariant
                i <= self.auth.credentials@.len(),
                self.providers@.len() > 0,
                providers_fault(self.providers@, 0) is None,
                credentials_fault(self.auth.credentials@, 0) == credentials_fault(
                    self.auth.credentials@,
                    i as nat,
                ),
            decreases self.auth.credentials@.len() - i,
        {
            if let Some(message) = check_credential(&self.auth.credentials[i], i) {
                return Err(message);
            }
            i += 1;
        }
        if self.rate_limit.default_rpm == 0 {
            return Err("rate_limit.default_rpm must be > 0".to_string());
        }
        if self.rate_limit.default_tpm == 0 {
            return Err("rate_limit.default_tpm must be > 0".to_string());
        }
        Ok(())
    }

    /// The providers in ascending order of priority. The order of the configuration
    /// decides between equal priorities.
    pub fn providers_sorted(&self) -> (sorted: Vec<ProviderConfig>)
        ensures
            exists|place: Seq<int>| #[trigger] sorted_by(self.providers@, sorted@, place),
    {
        let mut sorted: Vec<ProviderConfig> = Vec::new();
        let ghost mut place: Seq<int> = Seq::empty();
        let mut next: usize = 0;
        assert(self.providers@.take(0) =~= Seq::empty());
        while next < self.providers.len()
            invariant
                next <= self.providers@.len(),
                sorted_by(self.providers@.take(next as int), sorted@, place),
            decreases self.providers@.len() - next,
        {
            let provider = self.providers[next].clone();
            let mut at: usize = sorted.len();
            while at > 0 && sorted[at - 1].priority > provider.priority
                invariant
                    at <= sorted@.len(),
                    forall|i: int|
                        at <= i < sorted@.len() ==> #[trigger] sorted@[i].priority
                            > provider.priority,
                decreases at,
            {
                at -= 1;
            }
            proof {
                lemma_insert_sorted(
                    self.providers@,
                    next as int,
                    sorted@,
                    place,
                    at as int,
                    provider,
                );
                place = place.insert(at as int, next as int);
            }
            sorted.insert(at, provider);
            next += 1;
        }
        assert(self.providers@.take(next as int) =~= self.providers@);
        sorted
    }
}

/// A provider put in behind all those of its priority keeps the list sorted.
proof fn lemma_insert_sorted(
    list: Seq<ProviderConfig>,
    next: int,
    sorted: Seq<ProviderConfig>,
    place: Seq<int>,
    at: int,
    provider: ProviderConfig,
)
    requires
        0 <= next < list.len(),
        sorted_by(list.take(next), sorted, place),
        provider == list[next],
        0 <= at <= sorted.len(),
        at > 0 ==> sorted[at - 1].priority <= provider.priority,
        forall|i: int|
            at <= i < sorted.len() ==> #[trigger] sorted[i].priority > provider.priority,
    ensures
        sorted_by(list.take(next + 1), sorted.insert(at, provider), place.insert(at, next)),
{
    let s = sorted.insert(at, provider);
    let p = place.insert(at, next);
    assert forall|i: int| 0 <= i < p.len() implies 0 <= #[trigger] p[i] < list.take(next + 1).len()
        && s[i] == list.take(next + 1)[p[i]] by {
        if i < at {
            assert(p[i] == place[i] && s[i] == sorted[i]);
        } else if i > at {
            assert(p[i] == place[i - 1] && s[i] == sorted[i - 1]);
        }
    }
    assert forall|i: int, j: int| 0 <= i < p.len() && 0 <= j < p.len() && i != j implies p[i]
        != p[j] by {
        let a = if i < at { i } else { i - 1 };
        let b = if j < at { j } else { j - 1 };
        if i == at {
            assert(p[j] == place[b]);
        } else if j == at {
            assert(p[i] == place[a]);
        } else {
            assert(p[i] == place[a] && p[j] == place[b]);
        }
    }
    assert forall|i: int, j: int| 0 <= i < j < p.len() implies #[trigger] s[i].priority
        < #[trigger] s[j].priority || (s[i].priority == s[j].priority && p[i] < p[j]) by {
        let a = if i < at { i } else { i - 1 };
        let b = if j < at { j } else { j - 1 };
        if i == at {
            assert(s[j] == sorted[b]);
        } else if j == at {
            assert(s[i] == sorted[i] && p[i] == place[i]);
            if i < at - 1 {
                assert(sorted[i].priority < sorted[at - 1].priority || sorted[i].priority
                    == sorted[at - 1].priority);
            }
        } else {
            assert(s[i] == sorted[a] && s[j] == sorted[b] && p[i] == place[a] && p[j] == place[b]);
        }
    }
}

/// A list of distinct numbers below its length holds every number below its length.
proof fn lemma_places_cover(place: Seq<int>, x: int)
    requires
        place.no_duplicates(),
        forall|i: int| 0 <= i < place.len() ==> 0 <= #[trigger] place[i] < place.len(),
        0 <= x < place.len(),
    ensures
        place.contains(x),
{
    let all = vstd::set_lib::set_int_range(0, place.len() as int);
    vstd::set_lib::lemma_int_range(0, place.len() as int);
    place.unique_seq_to_set();
    assert forall|y: int| place.to_set().contains(y) implies all.contains(y) by {
        assert(place.contains(y));
    }
    vstd::set_lib::lemma_subset_equality(place.to_set(), all);
    assert(place.to_set().contains(x));
}

/// There is one order of the providers only: the priorities, and the configuration where
/// they are equal, decide it.
pub proof fn law_order_of_providers_is_unique(
    list: Seq<ProviderConfig>,
    a: Seq<ProviderConfig>,
    b: Seq<ProviderConfig>,
    place_a: Seq<int>,
    place_b: Seq<int>,
)
    requires
        sorted_by(list, a, place_a),
        sorted_by(list, b, place_b),
    ensures
        a == b,
{
    lemma_places_agree(list, a, b, place_a, place_b, list.len() as int);
    assert forall|i: int| 0 <= i < list.len() implies a[i] == b[i] by {
        assert(place_a[i] == place_b[i]);
    }
    assert(a =~= b);
}

proof fn lemma_places_agree(
    list: Seq<ProviderConfig>,
    a: Seq<ProviderConfig>,
    b: Seq<ProviderConfig>,
    place_a: Seq<int>,
    place_b: Seq<int>,
    n: int,
)
    requires
        sorted_by(list, a, place_a),
        sorted_by(list, b, place_b),
        0 <= n <= list.len(),
    ensures
        forall|i: int| 0 <= i < n ==> place_a[i] == place_b[i],
    decreases n,
{
    if n > 0 {
        let k = n - 1;
        lemma_places_agree(list, a, b, place_a, place_b, k);
        if place_a[k] != place_b[k] {
            lemma_places_cover(place_b, place_a[k]);
            lemma_places_cover(place_a, place_b[k]);
            let j = place_b.index_of(place_a[k]);
            let i = place_a.index_of(place_b[k]);
            assert(place_b[j] == place_a[k] && place_a[i] == place_b[k]);
            assert(j > k);
            assert(i > k);
            assert(b[k] == list[place_b[k]] && b[j] == list[place_a[k]]);
            assert(a[k] == list[place_a[k]] && a[i] == list[place_b[k]]);
            assert(b[k].priority < b[j].priority || (b[k].priority == b[j].priority && place_b[k]
                < place_b[j]));
            assert(a[k].priority < a[i].priority || (a[k].priority == a[i].priority && place_a[k]
                < place_a[i]));
        }
    }
}

/// In a list without a fault every provider is without one.
proof fn lemma_providers_sound(list: Seq<ProviderConfig>, from: nat, i: nat)
    requires
        providers_fault(list, from) is None,
        from <= i < list.len(),
    ensures
        provider_fault(list[i as int], i) is None,
    decreases i - from,
{
    if from < i {
        lemma_providers_sound(list, from + 1, i);
    }
}

/// In a list without a fault every credential is without one.
proof fn lemma_credentials_sound(list: Seq<ClientCredential>, from: nat, i: nat)
    requires
        credentials_fault(list, from) is None,
        from <= i < list.len(),
    ensures
        credential_fault(list[i as int], i) is None,
    decreases i - from,
{
    if from < i {
        lemma_credentials_sound(list, from + 1, i);
    }
}

/// A configuration that passes the check has a provider; every provider has a name, an
/// endpoint with a scheme and a host, and a time limit; every credential has a key and a
/// client; and neither limit is zero.
pub proof fn law_checked_configuration(config: AppConfig)
    requires
        config.fault() is None,
    ensures
        config.providers@.len() > 0,
        forall|i: int|
            0 <= i < config.providers@.len() ==> {
                let p = #[trigger] config.providers@[i];
                p.name@.len() > 0 && has_scheme(p.endpoint@) && has_host(p.endpoint@)
                    && p.request_timeout_seconds > 0
            },
        forall|i: int|
            0 <= i < config.auth.credentials@.len() ==> {
                let c = #[trigger] config.auth.credentials@[i];
                c.key@.len() > 0 && c.client_id@.len() > 0
            },
        config.rate_limit.default_rpm > 0,
        config.rate_limit.default_tpm > 0,
{
    assert forall|i: int| 0 <= i < config.providers@.len() implies {
        let p = #[trigger] config.providers@[i];
        p.name@.len() > 0 && has_scheme(p.endpoint@) && has_host(p.endpoint@)
            && p.request_timeout_seconds > 0
    } by {
        lemma_providers_sound(config.providers@, 0, i as nat);
    }
    assert forall|i: int| 0 <= i < config.auth.credentials@.len() implies {
        let c = #[trigger] config.auth.credentials@[i];
        c.key@.len() > 0 && c.client_id@.len() > 0
    } by {
        lemma_credentials_sound(config.auth.credentials@, 0, i as nat);
    }
}

/// A message about the item at `index` of a list.
fn describe_item(list: &str, index: usize, rest: &str) -> (message: String)
    ensures
        message@ == item_message(list, index as nat, rest@),
{
    let mut message = list.to_string();
    message.append(decimal(index as u64).as_str());
    message.append(rest);
    message
}

/// Whether an endpoint names a host after its scheme.
fn names_host(endpoint: &str) -> (yes: bool)
    requires
        has_scheme(endpoint@),
    ensures
        yes == has_host(endpoint@),
{
    proof {
        reveal_strlit("http://");
        reveal_strlit("https://");
        reveal_strlit("/?#:");
    }
    let list = text::chars_of(endpoint);
    let from: usize = if starts_with(endpoint, "http://") {
        7
    } else {
        8
    };
    let ghost marks = "/?#:"@;
    if from >= list.len() {
        return false;
    }
    let first: char = list[from];
    assert(after_scheme(endpoint@)[0] == first);
    assert(marks[0] == '/' && marks[1] == '?' && marks[2] == '#' && marks[3] == ':');
    first != '/' && first != '?' && first != '#' && first != ':'
}

/// What is wrong with the provider at `index`, or `None`.
fn check_provider(p: &ProviderConfig, index: usize) -> (fault: Option<String>)
    ensures
        match fault {
            Some(message) => provider_fault(*p, index as nat) == Some(message@),
            None => provider_fault(*p, index as nat) is None,
        },
{
    if p.name.as_str().unicode_len() == 0 {
        Some(describe_item("providers[", index, "].name must not be empty"))
    } else if p.endpoint.as_str().unicode_len() == 0 {
        Some(describe_item("providers[", index, "].endpoint must not be empty"))
    } else if !starts_with(p.endpoint.as_str(), "http://") && !starts_with(
        p.endpoint.as_str(),
        "https://",
    ) {
        let rest = concat(
            "].endpoint must start with http:// or https://, got: ",
            p.endpoint.as_str(),
        );
        Some(describe_item("providers[", index, rest.as_str()))
    } else if !names_host(p.endpoint.as_str()) {
        let rest = concat("].endpoint must name a host, got: ", p.endpoint.as_str());
        Some(describe_item("providers[", index, rest.as_str()))
    } else if p.request_timeout_seconds == 0 {
        Some(describe_item("providers[", index, "].request_timeout_seconds must be > 0"))
    } else {
        None
    }
}

/// What is wrong with the credential at `index`, or `None`.
fn check_credential(c: &ClientCredential, index: usize) -> (fault: Option<String>)
    ensures
        match fault {
            Some(message) => credential_fault(*c, index as nat) == Some(message@),
            None => credential_fault(*c, index as nat) is None,
        },
{
    if c.key.as_str().unicode_len() == 0 {
        Some(describe_item("auth.credentials[", index, "].key must not be empty"))
    } else if c.client_id.as_str().unicode_len() == 0 {
        Some(describe_item("auth.credentials[", index, "].client_id must not be empty"))
    } else {
        None
    }
}

/// Whether an endpoint is a scheme followed by a host.
pub open spec fn names_scheme_and_host(endpoint: Seq<char>) -> bool {
    exists|host: Seq<char>|
        #![trigger host.len()]
        {
            &&& host.len() > 0
            &&& host[0] != '/' && host[0] != '?' && host[0] != '#' && host[0] != ':'
            &&& endpoint == "http://"@ + host || endpoint == "https://"@ + host
        }
}

/// Whether a provider can be used: it has a name, an endpoint and a time limit.
pub open spec fn usable_provider(p: ProviderConfig) -> bool {
    p.name@.len() > 0 && names_scheme_and_host(p.endpoint@) && p.request_timeout_seconds > 0
}

/// What the check of an endpoint comes to.
proof fn lemma_endpoint(endpoint: Seq<char>)
    ensures
        has_scheme(endpoint) && has_host(endpoint) <==> names_scheme_and_host(endpoint),
        has_scheme(endpoint) <==> exists|rest: Seq<char>|
            #![trigger rest.len()]
            endpoint == "http://"@ + rest || endpoint == "https://"@ + rest,
{
    reveal_strlit("http://");
    reveal_strlit("https://");
    reveal_strlit("/?#:");
    let marks = "/?#:"@;
    assert(marks[0] == '/' && marks[1] == '?' && marks[2] == '#' && marks[3] == ':');
    if has_scheme(endpoint) {
        let rest = after_scheme(endpoint);
        if "http://"@.is_prefix_of(endpoint) {
            assert(endpoint =~= "http://"@ + rest);
        } else {
            assert(endpoint =~= "https://"@ + rest);
        }
        assert(rest.len() >= 0);
        if has_host(endpoint) {
            assert forall|k: int| 0 <= k < marks.len() implies marks[k] != rest[0] by {
                assert(marks.contains(marks[k]));
            }
            assert(names_scheme_and_host(endpoint));
        }
    }
    assert forall|rest: Seq<char>|
        #![trigger rest.len()]
        endpoint == "http://"@ + rest || endpoint == "https://"@ + rest implies has_scheme(endpoint)
        && after_scheme(endpoint) == rest by {
        if endpoint == "http://"@ + rest {
            assert(endpoint.subrange(0, 7) =~= "http://"@);
            assert(endpoint.skip(7) =~= rest);
        } else {
            assert(endpoint.subrange(0, 8) =~= "https://"@);
            assert(endpoint.skip(8) =~= rest);
            if "http://"@.is_prefix_of(endpoint) {
                assert(endpoint.subrange(0, 7)[4] == endpoint[4]);
                assert(endpoint[4] == 's');
                assert("http://"@[4] == ':');
            }
        }
    }
    if names_scheme_and_host(endpoint) {
        let host = choose|host: Seq<char>|
            #![trigger host.len()]
            {
                &&& host.len() > 0
                &&& host[0] != '/' && host[0] != '?' && host[0] != '#' && host[0] != ':'
                &&& endpoint == "http://"@ + host || endpoint == "https://"@ + host
            };
        assert(host.len() > 0);
        assert(after_scheme(endpoint) == host);
        if marks.contains(host[0]) {
            let k = choose|k: int| 0 <= k < marks.len() && marks[k] == host[0];
            assert(k == 0 || k == 1 || k == 2 || k == 3);
        }
    }
}

proof fn lemma_provider_usable(p: ProviderConfig, index: nat)
    ensures
        provider_fault(p, index) is None <==> usable_provider(p),
{
    lemma_endpoint(p.endpoint@);
    reveal_strlit("http://");
    reveal_strlit("https://");
}

proof fn lemma_providers_fault_at(list: Seq<ProviderConfig>, from: nat, at: nat)
    requires
        from <= at <= list.len(),
        forall|i: int| from <= i < at ==> usable_provider(#[trigger] list[i]),
    ensures
        providers_fault(list, from) == providers_fault(list, at),
    decreases at - from,
{
    if from < at {
        lemma_provider_usable(list[from as int], from);
        lemma_providers_fault_at(list, from + 1, at);
    }
}

proof fn lemma_credentials_fault_at(list: Seq<ClientCredential>, from: nat, at: nat)
    requires
        from <= at <= list.len(),
        forall|i: int|
            from <= i < at ==> (#[trigger] list[i]).key@.len() > 0 && list[i].client_id@.len() > 0,
    ensures
        credentials_fault(list, from) == credentials_fault(list, at),
    decreases at - from,
{
    if from < at {
        lemma_credentials_fault_at(list, from + 1, at);
    }
}

/// A configuration passes the check if and only if it has a provider, all its providers can
/// be used, all its credentials have a key and a client, and both limits allow something.
pub proof fn law_usable_configurations_pass(config: AppConfig)
    ensures
        config.fault() is None <==> {
            &&& config.providers@.len() > 0
            &&& forall|i: int|
                0 <= i < config.providers@.len() ==> usable_provider(
                    #[trigger] config.providers@[i],
                )
            &&& forall|i: int|
                0 <= i < config.auth.credentials@.len() ==> (
                #[trigger] config.auth.credentials@[i]).key@.len() > 0
                    && config.auth.credentials@[i].client_id@.len() > 0
            &&& config.rate_limit.default_rpm > 0
            &&& config.rate_limit.default_tpm > 0
        },
{
    let providers = config.providers@;
    let credentials = config.auth.credentials@;
    if config.fault() is None {
        assert forall|i: int| 0 <= i < providers.len() implies usable_provider(
            #[trigger] providers[i],
        ) by {
            lemma_providers_sound(providers, 0, i as nat);
            lemma_provider_usable(providers[i], i as nat);
        }
        law_checked_configuration(config);
    } else if forall|i: int| 0 <= i < providers.len() ==> usable_provider(#[trigger] providers[i]) {
        lemma_providers_fault_at(providers, 0, providers.len());
        if forall|i: int|
            0 <= i < credentials.len() ==> (#[trigger] credentials[i]).key@.len() > 0
                && credentials[i].client_id@.len() > 0 {
            lemma_credentials_fault_at(credentials, 0, credentials.len());
        }
    }
}

/// The check names the first provider that cannot be used, by its place, and what is wrong
/// with it.
pub proof fn law_first_bad_provider_is_named(config: AppConfig, i: int)
    requires
        0 <= i < config.providers@.len(),
        forall|j: int| 0 <= j < i ==> usable_provider(#[trigger] config.providers@[j]),
    ensures
        ({
            let p = config.providers@[i];
            let place = "providers["@ + text::decimal_text(i as nat);
            let endpoint = p.endpoint@;
            let scheme = exists|rest: Seq<char>|
                #![trigger rest.len()]
                endpoint == "http://"@ + rest || endpoint == "https://"@ + rest;
            &&& p.name@.len() == 0 ==> config.fault() == Some(
                place + "].name must not be empty"@,
            )
            &&& p.name@.len() > 0 && endpoint.len() == 0 ==> config.fault() == Some(
                place + "].endpoint must not be empty"@,
            )
            &&& p.name@.len() > 0 && endpoint.len() > 0 && !scheme ==> config.fault() == Some(
                place + ("].endpoint must start with http:// or https://, got: "@ + endpoint),
            )
            &&& p.name@.len() > 0 && scheme && !names_scheme_and_host(endpoint) ==> config.fault()
                == Some(place + ("].endpoint must name a host, got: "@ + endpoint))
            &&& p.name@.len() > 0 && names_scheme_and_host(endpoint) && p.request_timeout_seconds
                == 0 ==> config.fault() == Some(place + "].request_timeout_seconds must be > 0"@)
        }),
{
    lemma_providers_fault_at(config.providers@, 0, i as nat);
    lemma_endpoint(config.providers@[i].endpoint@);
    reveal_strlit("http://");
    reveal_strlit("https://");
}

/// Where all providers can be used, the check names the first credential without a key or a
/// client, by its place, and then a limit that allows nothing.
pub proof fn law_first_bad_credential_is_named(config: AppConfig, i: int)
    requires
        config.providers@.len() > 0,
        forall|j: int|
            0 <= j < config.providers@.len() ==> usable_provider(#[trigger] config.providers@[j]),
        0 <= i <= config.auth.credentials@.len(),
        forall|j: int|
            0 <= j < i ==> (#[trigger] config.auth.credentials@[j]).key@.len() > 0
                && config.auth.credentials@[j].client_id@.len() > 0,
    ensures
        i < config.auth.credentials@.len() ==> {
            let c = config.auth.credentials@[i];
            let place = "auth.credentials["@ + text::decimal_text(i as nat);
            &&& c.key@.len() == 0 ==> config.fault() == Some(place + "].key must not be empty"@)
            &&& c.key@.len() > 0 && c.client_id@.len() == 0 ==> config.fault() == Some(
                place + "].client_id must not be empty"@,
            )
        },
        i == config.auth.credentials@.len() ==> {
            &&& config.rate_limit.default_rpm == 0 ==> config.fault() == Some(
                "rate_limit.default_rpm must be > 0"@,
            )
            &&& config.rate_limit.default_rpm > 0 && config.rate_limit.default_tpm == 0
                ==> config.fault() == Some("rate_limit.default_tpm must be > 0"@)
        },
{
    lemma_providers_fault_at(config.providers@, 0, config.providers@.len());
    lemma_credentials_fault_at(config.auth.credentials@, 0, i as nat);
}

/// Without any provider the check says so.
pub proof fn law_a_provider_is_needed(config: AppConfig)
    requires
        config.providers@.len() == 0,
    ensures
        config.fault() == Some("at least one provider must be configured"@),
{
}

/// The order in which providers are tried holds every configured provider once, and a lower
/// priority number never comes later; those of equal priority keep their order.
pub proof fn law_order_holds_every_provider_once(
    list: Seq<ProviderConfig>,
    sorted: Seq<ProviderConfig>,
    place: Seq<int>,
    i: int,
    j: int,
)
    requires
        sorted_by(list, sorted, place),
        0 <= i < j < list.len(),
    ensures
        sorted.len() == list.len(),
        exists|k: int| 0 <= k < place.len() && #[trigger] place[k] == i && sorted[k] == list[i],
        place[i] != place[j],
        sorted[i].priority <= sorted[j].priority,
        sorted[i].priority == sorted[j].priority ==> place[i] < place[j],
{
    lemma_places_cover(place, i);
    let k = place.index_of(i);
    assert(place[k] == i);
    assert(sorted[i].priority < sorted[j].priority || (sorted[i].priority == sorted[j].priority
        && place[i] < place[j]));
}

} // verus!
