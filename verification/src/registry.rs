//! A registry of items by name, grown on demand.
//!
//! A concurrent map gives each name a slot; the items stand in the slots. A name keeps
//! its slot for as long as the registry lives.
use dashmap::DashMap;
use vstd::prelude::*;

verus! {

/// `dashmap::DashMap`, a concurrent hash map. `slot_map` says what it holds.
#[verifier::external_type_specification]
#[verifier::external_body]
#[verifier::reject_recursive_types(K)]
#[verifier::reject_recursive_types(V)]
#[verifier::reject_recursive_types(S)]
pub struct ExDashMap<K, V, S>(DashMap<K, V, S>);

/// The slots that a map from names to slots holds.
pub uninterp spec fn slot_map(index: DashMap<String, usize>) -> Map<Seq<char>, usize>;

/// `dashmap::DashMap::new`: an empty map.
#[verifier::external_body]
fn new_index() -> (index: DashMap<String, usize>)
    ensures
        (slot_map(index) == Map::<Seq<char>, usize>::empty()),
{
    DashMap::new()
}

/// `dashmap::DashMap::entry` and `or_insert`: the slot of `name`. A name without one gets
/// `fresh`. No other entry changes.
#[verifier::external_body]
fn slot_or_insert(index: &mut DashMap<String, usize>, name: String, fresh: usize) -> (slot: usize)
    ensures
        (slot == if slot_map(*old(index)).contains_key(name@) {
            slot_map(*old(index))[name@]
        } else {
            fresh
        }),
        (slot_map(*final(index)) == slot_map(*old(index)).insert(name@, slot)),
{
    *index.entry(name).or_insert(fresh)
}

/// A registry of items by name.
pub struct Registry<T> {
    index: DashMap<String, usize>,
    slots: Vec<T>,
    names: Ghost<Seq<Seq<char>>>,
}

impl<T> View for Registry<T> {
    type V = Map<Seq<char>, T>;

    closed spec fn view(&self) -> Map<Seq<char>, T> {
        Map::new(
            |name: Seq<char>| slot_map(self.index).contains_key(name),
            |name: Seq<char>| self.slots@[slot_map(self.index)[name] as int],
        )
    }
}

impl<T> Registry<T> {
    /// Every name has a slot of its own, and every slot a name.
    pub closed spec fn wf(self) -> bool {
        &&& self.names@.len() == self.slots@.len()
        &&& forall|name: Seq<char>| #[trigger]
            slot_map(self.index).contains_key(name) ==> slot_map(self.index)[name]
                < self.slots@.len() && self.names@[slot_map(self.index)[name] as int] == name
        &&& forall|slot: int|
            0 <= slot < self.names@.len() ==> slot_map(self.index).contains_key(
                #[trigger] self.names@[slot],
            ) && slot_map(self.index)[self.names@[slot]] == slot
    }

    /// An empty registry.
    pub fn new() -> (registry: Registry<T>)
        ensures
            registry@ == Map::<Seq<char>, T>::empty(),
            registry.wf(),
    {
        let registry = Registry { index: new_index(), slots: Vec::new(), names: Ghost(Seq::empty()) };
        assert(registry@ =~= Map::<Seq<char>, T>::empty());
        registry
    }

    /// The number of items.
    pub fn len(&self) -> (n: usize)
        requires
            self.wf(),
        ensures
            self@.dom().finite(),
            n == self@.dom().len(),
    {
        proof {
            self.lemma_len();
        }
        self.slots.len()
    }

    /// There are as many names as slots.
    proof fn lemma_len(&self)
        requires
            self.wf(),
        ensures
            self@.dom().finite(),
            self@.dom().len() == self.slots@.len(),
    {
        let names = self.names@;
        assert forall|i: int, j: int| 0 <= i < names.len() && 0 <= j < names.len() && i != j implies names[i]
            != names[j] by {
            assert(slot_map(self.index)[names[i]] == i);
            assert(slot_map(self.index)[names[j]] == j);
        }
        names.unique_seq_to_set();
        assert forall|name: Seq<char>| self@.dom().contains(name) == names.to_set().contains(name) by {
            if slot_map(self.index).contains_key(name) {
                assert(names[slot_map(self.index)[name] as int] == name);
            }
        }
        assert(self@.dom() =~= names.to_set());
    }

    /// The item of `name`. A name without one gets `fresh`.
    pub fn entry_or(&mut self, name: &str, fresh: T) -> (item: &mut T)
        requires
            old(self).wf(),
        ensures
            *item == if old(self)@.contains_key(name@) {
                old(self)@[name@]
            } else {
                fresh
            },
            final(self)@ == old(self)@.insert(name@, *final(item)),
            final(self).wf(),
    {
        let next: usize = self.slots.len();
        let ghost before = *self;
        let slot: usize = slot_or_insert(&mut self.index, name.to_string(), next);
        if slot == next {
            proof {
                if slot_map(before.index).contains_key(name@) {
                    assert(slot_map(before.index)[name@] < before.slots@.len());
                }
                self.names = Ghost(before.names@.push(name@));
            }
            self.slots.push(fresh);
        } else {
            assert(slot_map(self.index) =~= slot_map(before.index));
        }
        assert(self.wf());
        assert(self@ =~= before@.insert(name@, self.slots@[slot as int]));
        let ghost middle = *self;
        assert forall|value: T| #[trigger]
            before@.insert(name@, value) =~= middle@.insert(name@, value) by {}
        &mut self.slots[slot]
    }
}

} // verus!
