//! A small map from keys to values kept as a list of distinct keys, with
//! the semantics of a hash map: inserting a present key replaces its value.
use crate::primitives::{Address, TokenAddress, B256};
use crate::{pancakeswap_v3, uniswap_v2, uniswap_v3, uniswap_v4};
use vstd::prelude::*;

verus! {

/// Keys whose equality can be tested.
pub trait LookupKey: Sized + Copy {
    fn same_key(&self, other: &Self) -> (r: bool)
        ensures
            r == (*self == *other),
    ;
}

impl LookupKey for Address {
    fn same_key(&self, other: &Self) -> (r: bool) {
        *self == *other
    }
}

impl LookupKey for B256 {
    fn same_key(&self, other: &Self) -> (r: bool) {
        *self == *other
    }
}

impl LookupKey for TokenAddress {
    fn same_key(&self, other: &Self) -> (r: bool) {
        *self == *other
    }
}

impl LookupKey for uniswap_v2::PoolAddress {
    fn same_key(&self, other: &Self) -> (r: bool) {
        *self == *other
    }
}

impl LookupKey for uniswap_v3::PoolAddress {
    fn same_key(&self, other: &Self) -> (r: bool) {
        *self == *other
    }
}

impl LookupKey for uniswap_v4::PoolId {
    fn same_key(&self, other: &Self) -> (r: bool) {
        *self == *other
    }
}

impl LookupKey for pancakeswap_v3::PoolAddress {
    fn same_key(&self, other: &Self) -> (r: bool) {
        *self == *other
    }
}

/// A map kept as a list of entries with distinct keys, in insertion order.
#[verifier::reject_recursive_types(K)]
pub struct KeyedList<K, V> {
    entries: Vec<(K, V)>,
    map: Ghost<Map<K, V>>,
}

impl<K: LookupKey, V: Copy> View for KeyedList<K, V> {
    type V = Map<K, V>;

    closed spec fn view(&self) -> Map<K, V> {
        self.map@
    }
}

impl<K: LookupKey, V: Copy> KeyedList<K, V> {
    /// Well-formedness: the keys are distinct and the entries are exactly
    /// the map.
    pub closed spec fn wf(&self) -> bool {
        &&& forall|i: int, j: int|
            0 <= i < j < self.entries().len() ==> self.entries()[i].0 != self.entries()[j].0
        &&& forall|i: int|
            0 <= i < self.entries().len() ==> #[trigger] self@.contains_key(self.entries()[i].0)
                && self@[self.entries()[i].0] == self.entries()[i].1
        &&& forall|k: K|
            #[trigger] self@.contains_key(k) ==> exists|i: int|
                0 <= i < self.entries().len() && self.entries()[i].0 == k
    }

    /// The entries in insertion order.
    pub closed spec fn entries(&self) -> Seq<(K, V)> {
        self.entries@
    }

    /// The empty map.
    pub fn new() -> (r: Self)
        ensures
            r.wf(),
            r@ == Map::<K, V>::empty(),
            r.entries() == Seq::<(K, V)>::empty(),
    {
        KeyedList { entries: Vec::new(), map: Ghost(Map::empty()) }
    }

    /// The number of entries.
    pub fn len(&self) -> (r: usize)
        ensures
            r == self.entries().len(),
    {
        self.entries.len()
    }

    /// The entry at position `i`.
    pub fn entry(&self, i: usize) -> (r: (K, V))
        requires
            self.wf(),
            i < self.entries().len(),
        ensures
            r == self.entries()[i as int],
            self@.contains_key(r.0),
            self@[r.0] == r.1,
    {
        self.entries[i]
    }

    /// Every entry is in the map, and every key of the map has an entry.
    pub proof fn lemma_entries_are_map(&self)
        requires
            self.wf(),
        ensures
            forall|i: int|
                0 <= i < self.entries().len() ==> #[trigger] self@.contains_key(self.entries()[i].0)
                    && self@[self.entries()[i].0] == self.entries()[i].1,
            forall|k: K|
                #[trigger] self@.contains_key(k) ==> exists|i: int|
                    0 <= i < self.entries().len() && self.entries()[i].0 == k,
            forall|i: int, j: int|
                0 <= i < j < self.entries().len() ==> self.entries()[i].0 != self.entries()[j].0,
    {
    }

    /// The value of a key, if it has one.
    pub fn get(&self, key: &K) -> (r: Option<V>)
        requires
            self.wf(),
        ensures
            self@.contains_key(*key) ==> r == Some(self@[*key]),
            !self@.contains_key(*key) ==> r is None,
    {
        let mut i: usize = 0;
        while i < self.entries.len()
            invariant
                i <= self.entries@.len(),
                self.wf(),
                forall|j: int| 0 <= j < i ==> self.entries@[j].0 != *key,
            decreases self.entries@.len() - i,
        {
            if self.entries[i].0.same_key(key) {
                assert(self@.contains_key(self.entries()[i as int].0));
                return Some(self.entries[i].1);
            }
            i = i + 1;
        }
        None
    }

    /// Sets the value of a key, replacing the value it had.
    pub fn insert(&mut self, key: K, value: V)
        requires
            old(self).wf(),
        ensures
            final(self).wf(),
            final(self)@ == old(self)@.insert(key, value),
    {
        let ghost old_entries = self.entries@;
        let ghost old_map = self.map@;
        let mut i: usize = 0;
        while i < self.entries.len()
            invariant
                i <= self.entries@.len(),
                self.entries@ == old_entries,
                self.map@ == old_map,
                old_map == old(self)@,
                old_entries == old(self).entries(),
                old(self).wf(),
                self.wf(),
                forall|j: int| 0 <= j < i ==> self.entries@[j].0 != key,
            decreases self.entries@.len() - i,
        {
            if self.entries[i].0.same_key(&key) {
                self.entries.set(i, (key, value));
                self.map = Ghost(old_map.insert(key, value));
                proof {
                    let old_self = *old(self);
                    assert forall|j: int| 0 <= j < self.entries().len() implies #[trigger] self@.contains_key(
                        self.entries()[j].0,
                    ) && self@[self.entries()[j].0] == self.entries()[j].1 by {
                        if j != i {
                            assert(old_self@.contains_key(old_self.entries()[j].0));
                            assert(old_self.entries()[j].0 != key);
                        }
                    }
                    assert forall|k: K| #[trigger] self@.contains_key(k) implies exists|n: int|
                        0 <= n < self.entries().len() && self.entries()[n].0 == k by {
                        if k != key {
                            assert(old_self@.contains_key(k));
                            let n = choose|n: int|
                                0 <= n < old_self.entries().len() && old_self.entries()[n].0 == k;
                            assert(self.entries()[n].0 == k);
                        } else {
                            assert(self.entries()[i as int].0 == k);
                        }
                    }
                }
                return ;
            }
            i = i + 1;
        }
        let ghost n = self.entries@.len();
        self.entries.push((key, value));
        self.map = Ghost(old_map.insert(key, value));
        proof {
            let old_self = *old(self);
            assert forall|j: int| 0 <= j < self.entries().len() implies #[trigger] self@.contains_key(
                self.entries()[j].0,
            ) && self@[self.entries()[j].0] == self.entries()[j].1 by {
                if j != n {
                    assert(old_self@.contains_key(old_self.entries()[j].0));
                    assert(old_self.entries()[j].0 != key);
                }
            }
            assert forall|k: K| #[trigger] self@.contains_key(k) implies exists|m: int|
                0 <= m < self.entries().len() && self.entries()[m].0 == k by {
                if k != key {
                    assert(old_self@.contains_key(k));
                    let m = choose|m: int|
                        0 <= m < old_self.entries().len() && old_self.entries()[m].0 == k;
                    assert(self.entries()[m].0 == k);
                } else {
                    assert(self.entries()[n as int].0 == k);
                }
            }
        }
    }
}

} // verus!
