//! The state that all requests share: the configuration, the credentials, and for each
//! provider a circuit breaker and for each client its buckets.
use crate::cache::exact::{self, ExactCache};
use crate::cache::semantic::{SemanticCache, SemanticCacheConfig};
use crate::clock::{self, Clock};
use crate::config::{self, AppConfig, ClientCredential, ProviderConfig};
use crate::digest::{self, digest_text};
use crate::middleware::rate_limit::{
    self, BucketsModel, RateLimitBuckets, ReservationHandle, TokenAmount,
};
use crate::registry::Registry;
use crate::router::circuit_breaker::{BreakerModel, CircuitBreaker};
use crate::text;
use std::time::Duration;
use vstd::hash_map::StringHashMap;
use vstd::prelude::*;

verus! {

/// Who a request comes from.
#[derive(Debug)]
pub struct ClientIdentity {
    pub client_id: String,
    pub tier: String,
}

impl Clone for ClientIdentity {
    fn clone(&self) -> (copy: ClientIdentity)
        ensures
            copy == *self,
    {
        ClientIdentity { client_id: self.client_id.clone(), tier: self.tier.clone() }
    }
}

/// The identity that a credential gives.
pub open spec fn identity_of(credential: ClientCredential) -> ClientIdentity {
    ClientIdentity { client_id: credential.client_id, tier: credential.tier }
}

/// The identities by the digest of their key. A later credential replaces an earlier one
/// with the same digest.
pub open spec fn credential_map(list: Seq<ClientCredential>) -> Map<Seq<char>, ClientIdentity>
    decreases list.len(),
{
    if list.len() == 0 {
        Map::empty()
    } else {
        credential_map(list.drop_last()).insert(
            digest::text_digest(list.last().key@),
            identity_of(list.last()),
        )
    }
}

/// What the shared state is, for contracts: the breakers by provider, the buckets by
/// client, the responses that were stored in the exact cache by key, and the settings of
/// the breakers and buckets that are still to be made.
#[verifier::ext_equal]
pub struct GatewayModel {
    pub breakers: Map<Seq<char>, BreakerModel>,
    pub buckets: Map<Seq<char>, BucketsModel>,
    pub stored: Map<Seq<char>, Seq<char>>,
    pub failure_threshold: nat,
    pub cooldown: nat,
    pub half_open_max_calls: nat,
    pub rpm: nat,
    pub tpm: nat,
}

impl GatewayModel {
    /// What holds of every state: its breakers and its buckets are valid.
    pub open spec fn valid(self) -> bool {
        &&& forall|name: Seq<char>| #[trigger]
            self.breakers.contains_key(name) ==> self.breakers[name].valid()
        &&& forall|client: Seq<char>| #[trigger]
            self.buckets.contains_key(client) ==> self.buckets[client].valid()
    }

    /// The breaker of a provider. One that was not asked for before is fresh.
    pub open spec fn breaker(self, name: Seq<char>) -> BreakerModel {
        if self.breakers.contains_key(name) {
            self.breakers[name]
        } else {
            BreakerModel::fresh(self.failure_threshold, self.cooldown, self.half_open_max_calls)
        }
    }

    /// The state with another breaker for a provider.
    pub open spec fn with_breaker(self, name: Seq<char>, breaker: BreakerModel) -> Self {
        GatewayModel { breakers: self.breakers.insert(name, breaker), ..self }
    }

    /// The buckets of a client. Those that were not asked for before are full at `now`.
    pub open spec fn client(self, client: Seq<char>, now: nat) -> BucketsModel {
        if self.buckets.contains_key(client) {
            self.buckets[client]
        } else {
            BucketsModel::fresh(self.rpm, self.tpm, now)
        }
    }

    /// The state with other buckets for a client.
    pub open spec fn with_client(self, client: Seq<char>, buckets: BucketsModel) -> Self {
        GatewayModel { buckets: self.buckets.insert(client, buckets), ..self }
    }

    /// The state after a request to a provider was asked for.
    pub open spec fn after_allow(self, name: Seq<char>, now: nat) -> Self {
        self.with_breaker(name, self.breaker(name).after_allow(now))
    }

    /// The state after a success of a provider.
    pub open spec fn after_success(self, name: Seq<char>) -> Self {
        self.with_breaker(name, self.breaker(name).after_success())
    }

    /// The state after a failure of a provider.
    pub open spec fn after_failure(self, name: Seq<char>, now: nat) -> Self {
        self.with_breaker(name, self.breaker(name).after_failure(now))
    }

    /// The state after a client asked to send one request.
    pub open spec fn after_request(self, client: Seq<char>, cost: nat, now: nat) -> Self {
        let b = self.client(client, now);
        self.with_client(client, BucketsModel { rpm: b.rpm.after_consume(cost, now), ..b })
    }

    /// The state after a client asked to reserve `cost` tokens.
    pub open spec fn after_reserve(self, client: Seq<char>, cost: nat, now: nat) -> Self {
        let b = self.client(client, now);
        self.with_client(client, BucketsModel { tpm: b.tpm.after_consume(cost, now), ..b })
    }

    /// The state after a reservation of a client turned out to cost `actual`.
    pub open spec fn after_reconcile(
        self,
        client: Seq<char>,
        reserved: nat,
        actual: nat,
        now: nat,
    ) -> Self {
        let b = self.client(client, now);
        self.with_client(
            client,
            BucketsModel { tpm: b.tpm.after_reconcile(reserved, actual, now), ..b },
        )
    }

    /// The state after a reservation of a client was released.
    pub open spec fn after_release(self, client: Seq<char>, reserved: nat, now: nat) -> Self {
        let b = self.client(client, now);
        self.with_client(client, BucketsModel { tpm: b.tpm.after_refund(reserved, now), ..b })
    }

    /// The state after a response was stored in the exact cache.
    pub open spec fn storing(self, key: Seq<char>, response: Seq<char>) -> Self {
        GatewayModel { stored: self.stored.insert(key, response), ..self }
    }

    /// Whether the exact cache may answer a lookup of `key` with `reply`: with the response
    /// that was stored last, or with none, since what is stored may be evicted.
    pub open spec fn may_find(self, key: Seq<char>, reply: Option<Seq<char>>) -> bool {
        reply matches Some(found) ==> self.stored.contains_key(key) && self.stored[key] == found
    }

    /// The state after the breakers of all `providers` were asked for.
    pub open spec fn tracking(self, providers: Seq<ProviderConfig>) -> Self
        decreases providers.len(),
    {
        if providers.len() == 0 {
            self
        } else {
            let before = self.tracking(providers.drop_last());
            before.with_breaker(providers.last().name@, before.breaker(providers.last().name@))
        }
    }
}

/// The shared state.
pub struct AppState {
    pub config: AppConfig,
    /// The providers in the order in which they are tried.
    pub sorted_providers: Vec<ProviderConfig>,
    /// The buckets by client.
    pub rate_limiter: Registry<RateLimitBuckets>,
    pub exact_cache: ExactCache,
    pub semantic_cache: SemanticCache,
    /// The breakers by provider.
    pub circuit_breakers: Registry<CircuitBreaker>,
    /// The identities by the digest of their key.
    pub credentials: StringHashMap<ClientIdentity>,
    /// The clock of all breakers and buckets.
    pub clock: Clock,
}

impl View for AppState {
    type V = GatewayModel;

    open spec fn view(&self) -> GatewayModel {
        GatewayModel {
            breakers: self.circuit_breakers@.map_values(|b: CircuitBreaker| b@),
            buckets: self.rate_limiter@.map_values(|b: RateLimitBuckets| b@),
            stored: self.exact_cache@,
            failure_threshold: self.config.circuit_breaker.failure_threshold as nat,
            cooldown: self.config.circuit_breaker.cooldown_seconds as nat
                * clock::NANOS_PER_SEC as nat,
            half_open_max_calls: self.config.circuit_breaker.half_open_max_calls as nat,
            rpm: self.config.rate_limit.default_rpm as nat,
            tpm: self.config.rate_limit.default_tpm as nat,
        }
    }
}

impl AppState {
    /// What holds of every state: its registries are sound, what they hold is valid, and all
    /// breakers and buckets go by the clock of the state.
    pub open spec fn wf(self) -> bool {
        &&& self.rate_limiter.wf()
        &&& self.circuit_breakers.wf()
        &&& self@.valid()
        &&& forall|name: Seq<char>| #[trigger]
            self.circuit_breakers@.contains_key(name) ==> self.circuit_breakers@[name].clock()
                == self.clock
        &&& forall|client: Seq<char>| #[trigger]
            self.rate_limiter@.contains_key(client) ==> self.rate_limiter@[client].clocked(
                self.clock,
            )
    }

    /// Whether two states agree in what no request changes.
    pub open spec fn same_setup(self, other: AppState) -> bool {
        &&& self.config == other.config
        &&& self.sorted_providers == other.sorted_providers
        &&& self.exact_cache.capacity() == other.exact_cache.capacity()
        &&& self.exact_cache.ttl() == other.exact_cache.ttl()
        &&& self.semantic_cache == other.semantic_cache
        &&& self.credentials == other.credentials
        &&& self.clock == other.clock
    }

    /// The state of a gateway that has just been configured: no breaker and no bucket has
    /// been asked for.
    pub fn new(config: AppConfig) -> (state: AppState)
        requires
            config.cache.exact_ttl_seconds <= exact::MAX_TTL_SECONDS,
        ensures
            state.config == config,
            exists|place: Seq<int>| #[trigger]
                config::sorted_by(config.providers@, state.sorted_providers@, place),
            state.credentials@ == credential_map(config.auth.credentials@),
            state.circuit_breakers@ == Map::<Seq<char>, CircuitBreaker>::empty(),
            state.rate_limiter@ == Map::<Seq<char>, RateLimitBuckets>::empty(),
            state.exact_cache@ == Map::<Seq<char>, Seq<char>>::empty(),
            state.exact_cache.capacity() == config.cache.exact_max_entries,
            state.exact_cache.ttl() == config.cache.exact_ttl_seconds * clock::NANOS_PER_SEC,
            state.semantic_cache.config.enabled == config.cache.semantic_enabled,
            state.semantic_cache.config.threshold == config.cache.semantic_threshold,
            state.semantic_cache.config.max_entries == config.cache.exact_max_entries as usize,
            clock::duration_nanos(state.semantic_cache.config.ttl) == config.cache.exact_ttl_seconds
                * clock::NANOS_PER_SEC,
            state.semantic_cache.entries@.len() == 0,
            state.wf(),
    {
        let exact_cache = ExactCache::new(
            config.cache.exact_max_entries,
            config.cache.exact_ttl_seconds,
        );
        let semantic_cache = SemanticCache::new(
            SemanticCacheConfig {
                enabled: config.cache.semantic_enabled,
                threshold: config.cache.semantic_threshold,
                #[verifier::truncate]
                max_entries: config.cache.exact_max_entries as usize,
                ttl: Duration::from_secs(config.cache.exact_ttl_seconds),
            },
        );
        let mut credentials: StringHashMap<ClientIdentity> = StringHashMap::new();
        let mut i: usize = 0;
        assert(config.auth.credentials@.take(0) =~= Seq::empty());
        while i < config.auth.credentials.len()
            invariant
                i <= config.auth.credentials@.len(),
                credentials@ == credential_map(config.auth.credentials@.take(i as int)),
            decreases config.auth.credentials@.len() - i,
        {
            let credential = &config.auth.credentials[i];
            credentials.insert(
                digest_text(credential.key.as_str()),
                ClientIdentity {
                    client_id: credential.client_id.clone(),
                    tier: credential.tier.clone(),
                },
            );
            i += 1;
            assert(config.auth.credentials@.take(i as int).drop_last()
                =~= config.auth.credentials@.take(i - 1));
        }
        assert(config.auth.credentials@.take(i as int) =~= config.auth.credentials@);
        let sorted_providers = config.providers_sorted();
        let ghost place = choose|place: Seq<int>| #[trigger]
            config::sorted_by(config.providers@, sorted_providers@, place);
        assert(config::sorted_by(config.providers@, sorted_providers@, place));
        let state = AppState {
            config,
            sorted_providers,
            rate_limiter: Registry::new(),
            exact_cache,
            semantic_cache,
            circuit_breakers: Registry::new(),
            credentials,
            clock: Clock::start(),
        };
        assert(config::sorted_by(state.config.providers@, state.sorted_providers@, place));
        state
    }

    /// The breaker of a provider, made if it is the first time that it is asked for.
    pub fn breaker_for(&mut self, provider_name: &str) -> (breaker: &mut CircuitBreaker)
        requires
            old(self).wf(),
        ensures
            breaker@ == old(self)@.breaker(provider_name@),
            breaker@.valid(),
            breaker.clock() == old(self).clock,
            final(self)@ == old(self)@.with_breaker(provider_name@, final(breaker)@),
            final(self).same_setup(*old(self)),
            final(breaker)@.valid() && final(breaker).clock() == old(self).clock
                ==> final(self).wf(),
    {
        let settings = self.config.circuit_breaker;
        let fresh = CircuitBreaker::with_clock(
            self.clock,
            settings.failure_threshold,
            settings.cooldown_seconds as u128 * clock::NANOS_PER_SEC as u128,
            settings.half_open_max_calls,
        );
        let ghost before = *self;
        assert(before@.breakers.contains_key(provider_name@)
            ==> before@.breakers[provider_name@].valid());
        assert forall|s: AppState, b: CircuitBreaker|
            #![trigger s@, b@]
            s.circuit_breakers@ == before.circuit_breakers@.insert(provider_name@, b)
                && s.rate_limiter == before.rate_limiter && s.config == before.config && s.exact_cache
                == before.exact_cache implies s@
            == before@.with_breaker(provider_name@, b@) && (b@.valid() ==> s@.valid()) by {
            assert(s@.breakers =~= before@.breakers.insert(provider_name@, b@));
            assert(s@.buckets =~= before@.buckets);
            assert(s@ =~= before@.with_breaker(provider_name@, b@));
            if b@.valid() {
                assert forall|name: Seq<char>| #[trigger]
                    s@.breakers.contains_key(name) implies s@.breakers[name].valid() by {
                    assert(name != provider_name@ ==> before@.breakers.contains_key(name));
                }
            }
        }
        self.circuit_breakers.entry_or(provider_name, fresh)
    }

    /// The buckets of a client, made full at `now` if it is the first time that they are
    /// asked for.
    pub fn buckets_for(&mut self, client_id: &str, now: u64) -> (buckets: &mut RateLimitBuckets)
        requires
            old(self).wf(),
        ensures
            buckets@ == old(self)@.client(client_id@, now as nat),
            buckets@.valid(),
            buckets.clocked(old(self).clock),
            final(self)@ == old(self)@.with_client(client_id@, final(buckets)@),
            final(self).same_setup(*old(self)),
            final(buckets)@.valid() && final(buckets).clocked(old(self).clock)
                ==> final(self).wf(),
    {
        let limits = self.config.rate_limit;
        let fresh = RateLimitBuckets::from_config_at(
            self.clock,
            limits.default_rpm,
            limits.default_tpm,
            now,
        );
        let ghost before = *self;
        assert(before@.buckets.contains_key(client_id@) ==> before@.buckets[client_id@].valid());
        assert forall|s: AppState, b: RateLimitBuckets|
            #![trigger s@, b@]
            s.rate_limiter@ == before.rate_limiter@.insert(client_id@, b) && s.circuit_breakers
                == before.circuit_breakers && s.config == before.config && s.exact_cache
                == before.exact_cache implies s@
            == before@.with_client(client_id@, b@) && (b@.valid() ==> s@.valid()) by {
            assert(s@.buckets =~= before@.buckets.insert(client_id@, b@));
            assert(s@.breakers =~= before@.breakers);
            assert(s@ =~= before@.with_client(client_id@, b@));
            if b@.valid() {
                assert forall|client: Seq<char>| #[trigger]
                    s@.buckets.contains_key(client) implies s@.buckets[client].valid() by {
                    assert(client != client_id@ ==> before@.buckets.contains_key(client));
                }
            }
        }
        self.rate_limiter.entry_or(client_id, fresh)
    }

    /// Charges one request to a client's limit at `now`. The answer to a client that is out
    /// of requests is the number of seconds to wait.
    pub fn charge_request_at(&mut self, client_id: &str, now: u64) -> (result: Result<(), u64>)
        requires
            old(self).wf(),
        ensures
            rate_limit::refusal(result) == old(self)@.client(client_id@, now as nat).rpm.answer(
                rate_limit::GRAINS_PER_TOKEN as nat,
                now as nat,
            ),
            final(self)@ == old(self)@.after_request(
                client_id@,
                rate_limit::GRAINS_PER_TOKEN as nat,
                now as nat,
            ),
            final(self).same_setup(*old(self)),
            final(self).wf(),
    {
        self.buckets_for(client_id, now).rpm.try_consume_at(TokenAmount::whole(1), now)
    }

    /// Reserves `cost` tokens of a client's limit at `now`. The answer to a client that is out
    /// of tokens is the number of seconds to wait.
    pub fn reserve_at(&mut self, client_id: &str, cost: TokenAmount, now: u64) -> (result: Result<
        ReservationHandle,
        u64,
    >)
        requires
            old(self).wf(),
        ensures
            match (
                result,
                old(self)@.client(client_id@, now as nat).tpm.answer(cost.grains as nat, now as nat),
            ) {
                (Ok(handle), Ok(_)) => handle.reserved == cost,
                (Err(seconds), Err(wait)) => seconds == wait,
                _ => false,
            },
            final(self)@ == old(self)@.after_reserve(client_id@, cost.grains as nat, now as nat),
            final(self).same_setup(*old(self)),
            final(self).wf(),
    {
        self.buckets_for(client_id, now).try_reserve_tpm_at(cost, now)
    }

    /// The response that was last stored under a key, if the exact cache still holds it.
    pub fn look_up(&self, key: &str) -> (reply: Option<String>)
        ensures
            self@.may_find(key@, text::optional(reply)),
    {
        self.exact_cache.get(key)
    }

    /// Stores a response in the exact cache.
    pub fn store(&mut self, key: String, response: String)
        requires
            old(self).wf(),
        ensures
            final(self)@ == old(self)@.storing(key@, response@),
            final(self).same_setup(*old(self)),
            final(self).wf(),
    {
        self.exact_cache.insert(key, response);
        assert(self@ =~= old(self)@.storing(key@, response@));
    }

    /// Ends a reservation of a client at `now` with what the request really cost.
    pub fn reconcile_at(
        &mut self,
        client_id: &str,
        reservation: ReservationHandle,
        actual_cost: TokenAmount,
        now: u64,
    )
        requires
            old(self).wf(),
        ensures
            final(self)@ == old(self)@.after_reconcile(
                client_id@,
                reservation.reserved.grains as nat,
                actual_cost.grains as nat,
                now as nat,
            ),
            final(self).same_setup(*old(self)),
            final(self).wf(),
    {
        let buckets = self.buckets_for(client_id, now);
        reservation.reconcile_at(&mut buckets.tpm, actual_cost, now);
    }

    /// Ends a reservation of a client at `now` and gives all of it back.
    pub fn release_at(&mut self, client_id: &str, reservation: ReservationHandle, now: u64)
        requires
            old(self).wf(),
        ensures
            final(self)@ == old(self)@.after_release(
                client_id@,
                reservation.reserved.grains as nat,
                now as nat,
            ),
            final(self).same_setup(*old(self)),
            final(self).wf(),
    {
        let buckets = self.buckets_for(client_id, now);
        reservation.release_at(&mut buckets.tpm, now);
    }
}

/// Providers and clients do not affect one another: what happens to the breaker of one
/// provider or the buckets of one client leaves all others as they were.
pub proof fn law_failures_stay_isolated(
    state: GatewayModel,
    name: Seq<char>,
    breaker: BreakerModel,
    client: Seq<char>,
    buckets: BucketsModel,
    other: Seq<char>,
    now: nat,
)
    ensures
        other != name ==> state.with_breaker(name, breaker).breaker(other) == state.breaker(other),
        other != client ==> state.with_client(client, buckets).client(other, now) == state.client(
            other,
            now,
        ),
        state.with_breaker(name, breaker).client(other, now) == state.client(other, now),
        state.with_client(client, buckets).breaker(other) == state.breaker(other),
{
}

/// The two limits of a client do not affect one another: charging a request takes no tokens,
/// and reserving tokens charges no request.
pub proof fn law_limits_are_separate(state: GatewayModel, client: Seq<char>, cost: nat, now: nat)
    ensures
        state.after_request(client, cost, now).client(client, now).tpm == state.client(
            client,
            now,
        ).tpm,
        state.after_reserve(client, cost, now).client(client, now).rpm == state.client(
            client,
            now,
        ).rpm,
{
}

/// A breaker or a bucket that is asked for the first time is made as the configuration says:
/// its threshold, its cooldown in seconds and its probes, its limits of requests and tokens
/// per minute. One that was asked for before is the one that is kept.
pub proof fn law_new_breakers_and_buckets_follow_the_configuration(
    state: AppState,
    name: Seq<char>,
    client: Seq<char>,
    now: nat,
)
    ensures
        !state.circuit_breakers@.contains_key(name) ==> {
            let fresh = state@.breaker(name);
            let settings = state.config.circuit_breaker;
            &&& fresh.state is Closed
            &&& fresh.failure_count == 0
            &&& fresh.failure_threshold == settings.failure_threshold
            &&& fresh.cooldown == settings.cooldown_seconds * 1_000_000_000
            &&& settings.half_open_max_calls > 0 ==> fresh.half_open_max_calls
                == settings.half_open_max_calls
            &&& settings.half_open_max_calls == 0 ==> fresh.half_open_max_calls == 1
        },
        state.circuit_breakers@.contains_key(name) ==> state@.breaker(name)
            == state.circuit_breakers@[name]@,
        !state.rate_limiter@.contains_key(client) ==> {
            let fresh = state@.client(client, now);
            &&& fresh.rpm.refill == state.config.rate_limit.default_rpm
            &&& fresh.rpm.capacity == state.config.rate_limit.default_rpm * 60_000_000_000
            &&& fresh.rpm.tokens == fresh.rpm.capacity
            &&& fresh.rpm.last_refill == now
            &&& fresh.tpm.last_refill == now
            &&& fresh.tpm.refill == state.config.rate_limit.default_tpm
            &&& fresh.tpm.capacity == state.config.rate_limit.default_tpm * 60_000_000_000
            &&& fresh.tpm.tokens == fresh.tpm.capacity
        },
        state.rate_limiter@.contains_key(client) ==> state@.client(client, now)
            == state.rate_limiter@[client]@,
        state@.stored == state.exact_cache@,
{
}

/// What happens to a provider reaches its breaker and nothing else; what is reserved,
/// settled or given back reaches the tokens of its client and nothing else.
pub proof fn law_changes_reach_their_target_only(
    state: GatewayModel,
    name: Seq<char>,
    client: Seq<char>,
    amount: nat,
    actual: nat,
    now: nat,
)
    ensures
        state.after_allow(name, now).breaker(name) == state.breaker(name).after_allow(now),
        state.after_success(name).breaker(name) == state.breaker(name).after_success(),
        state.after_failure(name, now).breaker(name) == state.breaker(name).after_failure(now),
        forall|after: GatewayModel|
            after == state.after_allow(name, now) || after == state.after_success(name) || after
                == state.after_failure(name, now) ==> #[trigger] after.buckets == state.buckets
                && after.stored == state.stored,
        state.after_reserve(client, amount, now).client(client, now).tpm == state.client(
            client,
            now,
        ).tpm.after_consume(amount, now),
        state.after_request(client, amount, now).client(client, now).rpm == state.client(
            client,
            now,
        ).rpm.after_consume(amount, now),
        state.after_release(client, amount, now).client(client, now).tpm == state.client(
            client,
            now,
        ).tpm.after_refund(amount, now),
        state.after_reconcile(client, amount, actual, now).client(client, now).tpm
            == state.client(client, now).tpm.after_reconcile(amount, actual, now),
        forall|after: GatewayModel|
            after == state.after_reserve(client, amount, now) || after == state.after_release(
                client,
                amount,
                now,
            ) || after == state.after_reconcile(client, amount, actual, now)
                ==> #[trigger] after.breakers == state.breakers && after.stored == state.stored
                && after.client(client, now).rpm == state.client(client, now).rpm,
{
}

/// A configured key gives the client and the tier that stand beside it.
pub proof fn law_keys_give_their_client(list: Seq<ClientCredential>, i: int)
    requires
        0 <= i < list.len(),
        forall|j: int|
            i < j < list.len() ==> digest::text_digest(#[trigger] list[j].key@)
                != digest::text_digest(list[i].key@),
    ensures
        ({
            let known = credential_map(list);
            let digest = digest::text_digest(list[i].key@);
            &&& known.contains_key(digest)
            &&& known[digest].client_id == list[i].client_id
            &&& known[digest].tier == list[i].tier
        }),
    decreases list.len(),
{
    if i < list.len() - 1 {
        assert(list.last() == list[list.len() - 1]);
        law_keys_give_their_client(list.drop_last(), i);
    }
}

/// The exact cache answers with nothing but what was stored last under the very key, and
/// storing a response makes it the one under its key.
pub proof fn law_the_cache_answers_with_what_was_stored(
    state: GatewayModel,
    key: Seq<char>,
    response: Seq<char>,
    other: Seq<char>,
    found: Seq<char>,
)
    ensures
        state.may_find(key, Some(found)) ==> state.stored.contains_key(key) && state.stored[key]
            == found,
        state.may_find(key, None),
        state.storing(key, response).stored.contains_key(key),
        state.storing(key, response).stored[key] == response,
        other != key ==> (state.storing(key, response).stored.contains_key(other)
            <==> state.stored.contains_key(other)) && (state.stored.contains_key(other)
            ==> state.storing(key, response).stored[other] == state.stored[other]),
        state.storing(key, response).breakers == state.breakers,
        state.storing(key, response).buckets == state.buckets,
{
}

} // verus!
