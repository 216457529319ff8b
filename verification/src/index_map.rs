//! An insertion-ordered map from subgraph indices to items.

use apollo_compiler::collections::IndexMap;
use vstd::prelude::*;

verus! {

/// The insertion-ordered hash map of the `indexmap` crate.
#[verifier::external_type_specification]
#[verifier::external_body]
#[verifier::reject_recursive_types(K)]
#[verifier::reject_recursive_types(V)]
#[verifier::reject_recursive_types(S)]
pub struct ExIndexMap<K, V, S>(indexmap::IndexMap<K, V, S>);

/// The hasher that `apollo_compiler` configures the map with.
#[verifier::external_type_specification]
#[verifier::external_body]
pub struct ExRandomState(ahash::RandomState);

/// The entries of a slot map, in the order in which their keys were first inserted.
pub uninterp spec fn slot_entries(map: IndexMap<usize, usize>) -> Seq<(usize, usize)>;

/// Whether an entry has the key.
pub open spec fn has_key<T>(entries: Seq<(usize, T)>, key: usize) -> bool {
    exists|i: int| 0 <= i < entries.len() && (#[trigger] entries[i]).0 == key
}

/// Where the entry with the key stands, if there is one.
pub open spec fn key_position<T>(entries: Seq<(usize, T)>, key: usize) -> int {
    choose|i: int| 0 <= i < entries.len() && (#[trigger] entries[i]).0 == key
}

/// The item under the key, if there is one.
pub open spec fn item_of<T>(entries: Seq<(usize, T)>, key: usize) -> Option<T> {
    if has_key(entries, key) {
        Some(entries[key_position(entries, key)].1)
    } else {
        None
    }
}

/// The entries after the item is put under the key: in place where the key is there,
/// at the end where it is not.
pub open spec fn put<T>(entries: Seq<(usize, T)>, key: usize, item: T) -> Seq<(usize, T)> {
    if has_key(entries, key) {
        entries.update(key_position(entries, key), (key, item))
    } else {
        entries.push((key, item))
    }
}

/// Whether no two entries have the same key.
pub open spec fn distinct_keys<T>(entries: Seq<(usize, T)>) -> bool {
    forall|i: int, j: int|
        0 <= i < entries.len() && 0 <= j < entries.len() && i != j ==> (#[trigger] entries[i]).0
            != (#[trigger] entries[j]).0
}

/// What is put under a key is found under it, and what other keys hold stays as it is.
pub proof fn lemma_put<T>(entries: Seq<(usize, T)>, key: usize, item: T, other: usize)
    requires
        distinct_keys(entries),
    ensures
        item_of(put(entries, key, item), key) == Some(item),
        other != key ==> item_of(put(entries, key, item), other) == item_of(entries, other),
        has_key(put(entries, key, item), other) == (other == key || has_key(entries, other)),
        distinct_keys(put(entries, key, item)),
{
    let after = put(entries, key, item);
    if has_key(entries, key) {
        let at = key_position(entries, key);
        assert(entries[at].0 == key);
        assert(after[at].0 == key);
        assert forall|i: int| 0 <= i < after.len() implies (#[trigger] after[i]).0
            == entries[i].0 by {}
        assert(has_key(after, key));
        if other != key {
            if has_key(entries, other) {
                let there = key_position(entries, other);
                assert(after[there].0 == other);
                assert(after[key_position(after, other)].0 == other);
                assert(entries[key_position(after, other)].0 == other);
            }
            if has_key(after, other) {
                assert(entries[key_position(after, other)].0 == other);
            }
        }
    } else {
        let last = entries.len() as int;
        assert(after[last].0 == key);
        assert forall|i: int| 0 <= i < last implies (#[trigger] after[i]) == entries[i] by {}
        assert(has_key(after, key));
        assert(key_position(after, key) == last) by {
            let at = key_position(after, key);
            assert(after[at].0 == key);
            if at != last {
                assert(entries[at].0 == key);
            }
        }
        if other != key {
            if has_key(entries, other) {
                let there = key_position(entries, other);
                assert(after[there].0 == other);
                let at = key_position(after, other);
                assert(after[at].0 == other);
                assert(entries[at].0 == other);
            }
            if has_key(after, other) {
                let at = key_position(after, other);
                assert(after[at].0 == other);
                assert(entries[at].0 == other);
            }
        }
    }
}

/// Calls `IndexMap::default`: the new map has no entry.
#[verifier::external_body]
fn new_slots() -> (map: IndexMap<usize, usize>)
    ensures
        slot_entries(map) == Seq::<(usize, usize)>::empty(),
{
    IndexMap::default()
}

/// Calls `IndexMap::get`: the value of the entry with the key, if there is one.
#[verifier::external_body]
fn slot_of(map: &IndexMap<usize, usize>, key: usize) -> (slot: Option<usize>)
    ensures
        slot == item_of(slot_entries(*map), key),
{
    map.get(&key).copied()
}

/// Calls `IndexMap::insert`: the value replaces that of the entry with the key, which keeps
/// its place; where there is none, a new entry comes last.
#[verifier::external_body]
fn insert_slot(map: &mut IndexMap<usize, usize>, key: usize, slot: usize)
    ensures
        slot_entries(*final(map)) == put(slot_entries(*old(map)), key, slot),
{
    map.insert(key, slot);
}

/// Calls `IndexMap::get_index`: the key and the value of the entry at a place in the order.
#[verifier::external_body]
fn slot_at(map: &IndexMap<usize, usize>, position: usize) -> (entry: Option<(usize, usize)>)
    ensures
        entry == (if position < slot_entries(*map).len() {
            Some(slot_entries(*map)[position as int])
        } else {
            None
        }),
{
    map.get_index(position).map(|(key, slot)| (*key, *slot))
}

/// A map from indices to items that remembers the order of insertion.
///
/// The index is an `IndexMap` from keys to slots; the items stand in the slots.
pub struct IndexedMap<T> {
    slots: IndexMap<usize, usize>,
    items: Vec<T>,
}

/// What each subgraph provides for an element: `None` where the subgraph does not have it.
pub type Sources<T> = IndexedMap<Option<T>>;

impl<T> View for IndexedMap<T> {
    type V = Seq<(usize, T)>;

    closed spec fn view(&self) -> Seq<(usize, T)> {
        Seq::new(self.items@.len(), |i: int| (slot_entries(self.slots)[i].0, self.items@[i]))
    }
}

impl<T> IndexedMap<T> {
    /// Whether the slots and the items agree and no key occurs twice.
    pub closed spec fn well_formed(&self) -> bool {
        &&& slot_entries(self.slots).len() == self.items@.len()
        &&& forall|i: int|
            0 <= i < self.items@.len() ==> (#[trigger] slot_entries(self.slots)[i]).1 == i
        &&& distinct_keys(slot_entries(self.slots))
    }

    /// No two entries of a map have the same key.
    pub proof fn lemma_keys_are_distinct(&self)
        requires
            self.well_formed(),
        ensures
            distinct_keys(self@),
    {
    }

    /// A map without entries.
    pub fn new() -> (map: Self)
        ensures
            map.well_formed(),
            map@ == Seq::<(usize, T)>::empty(),
    {
        let map = IndexedMap { slots: new_slots(), items: Vec::new() };
        assert(map@ =~= Seq::<(usize, T)>::empty());
        map
    }

    /// The number of entries.
    pub fn len(&self) -> (count: usize)
        ensures
            count == self@.len(),
    {
        self.items.len()
    }

    /// Whether there is no entry.
    pub fn is_empty(&self) -> (empty: bool)
        ensures
            empty == (self@.len() == 0),
    {
        self.items.len() == 0
    }

    /// Where the entry with the key stands.
    fn position_of(&self, key: usize) -> (position: Option<usize>)
        requires
            self.well_formed(),
        ensures
            match position {
                Some(p) => has_key(self@, key) && p == key_position(self@, key) && p
                    < self@.len() && p < self.items@.len(),
                None => !has_key(self@, key),
            },
    {
        let ghost entries = slot_entries(self.slots);
        let slot = slot_of(&self.slots, key);
        proof {
            match slot {
                Some(p) => {
                    let at = key_position(entries, key);
                    assert(entries[at].0 == key);
                    assert(self@[at].0 == key);
                    let here = key_position(self@, key);
                    assert(self@[here].0 == key);
                    assert(entries[here].0 == key);
                },
                None => {
                    assert forall|i: int| 0 <= i < self@.len() implies (#[trigger] self@[i]).0
                        != key by {
                        assert(entries[i].0 != key);
                    }
                },
            }
        }
        slot
    }

    /// The item under the key.
    pub fn get(&self, key: usize) -> (item: Option<&T>)
        requires
            self.well_formed(),
        ensures
            match item {
                Some(found) => item_of(self@, key) == Some(*found),
                None => item_of(self@, key) is None,
            },
    {
        match self.position_of(key) {
            Some(position) => Some(&self.items[position]),
            None => None,
        }
    }

    /// The key at a place in the order.
    pub fn key_at(&self, position: usize) -> (key: usize)
        requires
            self.well_formed(),
            position < self@.len(),
        ensures
            key == self@[position as int].0,
    {
        match slot_at(&self.slots, position) {
            Some(entry) => entry.0,
            None => 0,
        }
    }

    /// The item at a place in the order.
    pub fn item_at(&self, position: usize) -> (item: &T)
        requires
            position < self@.len(),
        ensures
            *item == self@[position as int].1,
    {
        &self.items[position]
    }

    /// Puts an item under a key: in place of the item that is there, else as the last entry.
    pub fn insert(&mut self, key: usize, item: T)
        requires
            old(self).well_formed(),
        ensures
            final(self).well_formed(),
            final(self)@ == put(old(self)@, key, item),
    {
        let ghost before = self@;
        let ghost entries = slot_entries(self.slots);
        match self.position_of(key) {
            Some(position) => {
                self.items[position] = item;
                assert(self@ =~= put(before, key, item));
            },
            None => {
                let slot = self.items.len();
                proof {
                    assert forall|i: int| 0 <= i < entries.len() implies (#[trigger] entries[i]).0
                        != key by {
                        assert(before[i].0 == entries[i].0);
                    }
                    assert(!has_key(entries, key));
                }
                insert_slot(&mut self.slots, key, slot);
                self.items.push(item);
                assert(self@ =~= put(before, key, item));
            },
        }
    }

    /// Access to the item under a key, which is put there first where the key is missing.
    pub fn entry_or_insert(&mut self, key: usize, default: T) -> (item: &mut T)
        requires
            old(self).well_formed(),
        ensures
            *item == (match item_of(old(self)@, key) {
                Some(found) => found,
                None => default,
            }),
            final(self).well_formed(),
            final(self)@ == put(old(self)@, key, *final(item)),
    {
        let ghost before = self@;
        let position = match self.position_of(key) {
            Some(position) => position,
            None => {
                let position = self.items.len();
                self.insert(key, default);
                position
            },
        };
        proof {
            assert(self@.len() == self.items@.len());
            assert(self@[position as int] == (key, self.items@[position as int]));
            if has_key(before, key) {
                assert(self@ == before);
            } else {
                assert(self@ == before.push((key, default)));
            }
            let now = *self;
            assert forall|later: Self, item: T|
                later.slots == now.slots && later.items@ == now.items@.update(
                    position as int,
                    item,
                ) implies #[trigger] later@ == #[trigger] put(before, key, item) by {
                assert(later@ =~= now@.update(position as int, (key, item)));
                assert(later@ =~= put(before, key, item));
            }
        }
        &mut self.items[position]
    }
}

} // verus!
