//! The providers to try for a request.
use crate::config::ProviderConfig;
use crate::state::{AppState, GatewayModel};
use vstd::prelude::*;

verus! {

/// A provider that may be tried. Its breaker is found in the shared state by its name.
#[derive(Debug)]
pub struct SelectedProvider {
    pub config: ProviderConfig,
}

/// Selects the providers to try, by the breakers of a shared state.
pub struct ProviderSelector<'a> {
    pub state: &'a mut AppState,
}

/// The providers whose breaker lets a request pass at `now`, in their order.
pub open spec fn eligible_providers(
    state: GatewayModel,
    providers: Seq<ProviderConfig>,
    now: nat,
) -> Seq<ProviderConfig>
    decreases providers.len(),
{
    if providers.len() == 0 {
        Seq::empty()
    } else {
        let before = eligible_providers(state, providers.drop_last(), now);
        if state.breaker(providers.last().name@).eligible(now) {
            before.push(providers.last())
        } else {
            before
        }
    }
}

/// The configurations of selected providers.
pub open spec fn configs(selected: Seq<SelectedProvider>) -> Seq<ProviderConfig> {
    selected.map_values(|s: SelectedProvider| s.config)
}

/// Asking for breakers changes none of them.
pub proof fn lemma_tracking_keeps_breakers(state: GatewayModel, providers: Seq<ProviderConfig>)
    ensures
        forall|name: Seq<char>| #[trigger]
            state.tracking(providers).breaker(name) == state.breaker(name),
        state.tracking(providers) == (GatewayModel {
            breakers: state.tracking(providers).breakers,
            ..state
        }),
    decreases providers.len(),
{
    if providers.len() > 0 {
        lemma_tracking_keeps_breakers(state, providers.drop_last());
        let before = state.tracking(providers.drop_last());
        assert forall|name: Seq<char>| #[trigger]
            state.tracking(providers).breaker(name) == state.breaker(name) by {
            assert(before.breaker(name) == state.breaker(name));
        }
    }
}

/// The providers of a shared state to try at `now`.
fn select(state: &mut AppState, now: u64) -> (selected: Vec<SelectedProvider>)
    requires
        old(state).wf(),
    ensures
        configs(selected@) == eligible_providers(
            old(state)@,
            old(state).sorted_providers@,
            now as nat,
        ),
        final(state)@ == old(state)@.tracking(old(state).sorted_providers@),
        final(state).same_setup(*old(state)),
        final(state).wf(),
{
    let ghost before = state@;
    let ghost providers = state.sorted_providers@;
    let mut selected: Vec<SelectedProvider> = Vec::new();
    let mut i: usize = 0;
    assert(providers.take(0) =~= Seq::empty());
    assert(configs(selected@) =~= Seq::empty());
    while i < state.sorted_providers.len()
        invariant
            before == old(state)@,
            providers == old(state).sorted_providers@,
            state.same_setup(*old(state)),
            state.wf(),
            i <= providers.len(),
            state@ == before.tracking(providers.take(i as int)),
            configs(selected@) == eligible_providers(before, providers.take(i as int), now as nat),
        decreases providers.len() - i,
    {
        proof {
            lemma_tracking_keeps_breakers(before, providers.take(i as int));
            assert(providers.take(i + 1).drop_last() =~= providers.take(i as int));
        }
        let ghost chosen = selected@;
        let provider = state.sorted_providers[i].clone();
        if state.breaker_for(provider.name.as_str()).is_eligible_at(now) {
            selected.push(SelectedProvider { config: provider });
            assert(configs(selected@) =~= configs(chosen).push(provider));
        }
        i += 1;
    }
    assert(providers.take(i as int) =~= providers);
    selected
}

impl<'a> ProviderSelector<'a> {
    /// A selector over a shared state, which it changes in place.
    pub fn new(state: &'a mut AppState) -> (selector: ProviderSelector<'a>)
        ensures
            *selector.state == *old(state),
            *final(selector.state) == *final(state),
    {
        ProviderSelector { state }
    }

    /// The providers to try at `now`, the lowest priority number first, without those whose
    /// breaker lets no request pass. Selecting consumes no probe slot.
    pub fn select_ordered_at(&mut self, now: u64) -> (selected: Vec<SelectedProvider>)
        requires
            old(self).state.wf(),
        ensures
            configs(selected@) == eligible_providers(
                old(self).state@,
                old(self).state.sorted_providers@,
                now as nat,
            ),
            final(self).state@ == old(self).state@.tracking(old(self).state.sorted_providers@),
            final(self).state.same_setup(*old(self).state),
            final(self).state.wf(),
            *final(final(self).state) == *final(old(self).state),
    {
        select(self.state, now)
    }

    /// The providers to try now.
    pub fn select_ordered(&mut self) -> (selected: Vec<SelectedProvider>)
        requires
            old(self).state.wf(),
        ensures
            exists|now: u64|
                configs(selected@) == #[trigger] eligible_providers(
                    old(self).state@,
                    old(self).state.sorted_providers@,
                    now as nat,
                ),
            final(self).state@ == old(self).state@.tracking(old(self).state.sorted_providers@),
            final(self).state.same_setup(*old(self).state),
            final(self).state.wf(),
            *final(final(self).state) == *final(old(self).state),
    {
        let now: u64 = self.state.clock.now();
        select(self.state, now)
    }
}

/// Selecting reads only: every breaker and every bucket is afterwards as it was before,
/// so no probe slot is consumed.
pub proof fn law_selection_changes_nothing(
    state: GatewayModel,
    providers: Seq<ProviderConfig>,
    name: Seq<char>,
    now: nat,
)
    ensures
        state.tracking(providers).breaker(name) == state.breaker(name),
        state.tracking(providers).client(name, now) == state.client(name, now),
{
    lemma_tracking_keeps_breakers(state, providers);
}

/// Exactly the providers whose breaker lets a request pass are selected.
pub proof fn law_selected_iff_eligible(
    state: GatewayModel,
    providers: Seq<ProviderConfig>,
    provider: ProviderConfig,
    now: nat,
)
    ensures
        eligible_providers(state, providers, now).contains(provider) <==> providers.contains(
            provider,
        ) && state.breaker(provider.name@).eligible(now),
    decreases providers.len(),
{
    if providers.len() > 0 {
        let before = eligible_providers(state, providers.drop_last(), now);
        law_selected_iff_eligible(state, providers.drop_last(), provider, now);
        assert(providers =~= providers.drop_last().push(providers.last()));
        assert(providers.contains(provider) <==> providers.drop_last().contains(provider)
            || provider == providers.last()) by {
            if providers.contains(provider) {
                let i = providers.index_of(provider);
                assert(i < providers.len() - 1 ==> providers.drop_last()[i] == provider);
            }
            if providers.drop_last().contains(provider) {
                let i = providers.drop_last().index_of(provider);
                assert(providers[i] == provider);
            }
            assert(providers[providers.len() - 1] == providers.last());
        }
        if state.breaker(providers.last().name@).eligible(now) {
            let after = before.push(providers.last());
            assert(after[before.len() as int] == providers.last());
            if before.contains(provider) {
                let i = before.index_of(provider);
                assert(after[i] == provider);
            }
            if after.contains(provider) {
                let i = after.index_of(provider);
                assert(i < before.len() ==> before[i] == provider);
            }
        }
    }
}

/// The selected providers keep the order of the list: each list of selected providers
/// extends that of a shorter list.
pub proof fn law_selection_keeps_order(
    state: GatewayModel,
    providers: Seq<ProviderConfig>,
    more: Seq<ProviderConfig>,
    now: nat,
)
    ensures
        eligible_providers(state, providers + more, now) == eligible_providers(state, providers, now)
            + eligible_providers(state, more, now),
    decreases more.len(),
{
    if more.len() == 0 {
        assert(providers + more =~= providers);
        assert(eligible_providers(state, providers, now) + eligible_providers(state, more, now)
            =~= eligible_providers(state, providers, now));
    } else {
        assert((providers + more).drop_last() =~= providers + more.drop_last());
        law_selection_keeps_order(state, providers, more.drop_last(), now);
        assert(eligible_providers(state, providers, now) + eligible_providers(
            state,
            more.drop_last(),
            now,
        ).push(more.last()) =~= (eligible_providers(state, providers, now) + eligible_providers(
            state,
            more.drop_last(),
            now,
        )).push(more.last()));
    }
}

/// One provider is selected once if its breaker lets a request pass, and not at all if it
/// does not. Together with the order this says what is selected of any list.
pub proof fn law_each_provider_is_selected_once(
    state: GatewayModel,
    provider: ProviderConfig,
    now: nat,
)
    ensures
        state.breaker(provider.name@).eligible(now) ==> eligible_providers(
            state,
            seq![provider],
            now,
        ) == seq![provider],
        !state.breaker(provider.name@).eligible(now) ==> eligible_providers(
            state,
            seq![provider],
            now,
        ).len() == 0,
        eligible_providers(state, Seq::<ProviderConfig>::empty(), now).len() == 0,
{
    assert(seq![provider].drop_last() =~= Seq::<ProviderConfig>::empty());
    assert(eligible_providers(state, Seq::<ProviderConfig>::empty(), now).len() == 0);
    if state.breaker(provider.name@).eligible(now) {
        assert(eligible_providers(state, seq![provider], now) =~= seq![provider]);
    }
}

/// The configurations of selected providers are theirs, in order.
pub proof fn law_selected_configurations(selected: Seq<SelectedProvider>, i: int)
    ensures
        configs(selected).len() == selected.len(),
        0 <= i < selected.len() ==> configs(selected)[i] == selected[i].config,
{
}

/// Selecting keeps a breaker for every provider of the list, whether it is selected or not,
/// and for no other.
pub proof fn law_selection_tracks_every_provider(
    state: GatewayModel,
    providers: Seq<ProviderConfig>,
    name: Seq<char>,
)
    ensures
        state.tracking(providers).breakers.contains_key(name) <==> state.breakers.contains_key(name)
            || exists|i: int| 0 <= i < providers.len() && (#[trigger] providers[i]).name@ == name,
    decreases providers.len(),
{
    if providers.len() > 0 {
        let before = providers.drop_last();
        law_selection_tracks_every_provider(state, before, name);
        assert(providers[providers.len() - 1] == providers.last());
        if exists|i: int| 0 <= i < before.len() && (#[trigger] before[i]).name@ == name {
            let i = choose|i: int| 0 <= i < before.len() && (#[trigger] before[i]).name@ == name;
            assert(providers[i].name@ == name);
        }
        if exists|i: int| 0 <= i < providers.len() && (#[trigger] providers[i]).name@ == name {
            let i = choose|i: int|
                0 <= i < providers.len() && (#[trigger] providers[i]).name@ == name;
            if i < before.len() {
                assert(before[i].name@ == name);
            }
        }
    }
}

} // verus!
