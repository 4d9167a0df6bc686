//! A map from small integer keys to values that is walked by ascending key,
//! so that it is always walked in the same order.

use std::collections::BTreeMap;
use vstd::prelude::*;
use vstd::std_specs::btree::increasing_seq;
use vstd::std_specs::iter::IteratorSpec;

use crate::index_set::{lemma_ascending_unique, precedes, strictly_increasing};

verus! {

/// A finite map with `u32` keys.
#[derive(Debug)]
pub struct SortedMap<V> {
    map: BTreeMap<u32, V>,
}

impl<V> View for SortedMap<V> {
    type V = Map<u32, V>;

    closed spec fn view(&self) -> Map<u32, V> {
        self.map@
    }
}

impl<V> SortedMap<V> {
    /// The map holds finitely many keys.
    pub closed spec fn wf(&self) -> bool {
        self.map@.dom().finite()
    }

    /// The keys in ascending order.
    pub closed spec fn ascending_keys(&self) -> Seq<u32> {
        choose|keys: Seq<u32>| strictly_increasing(keys) && keys.to_set() == self@.dom()
    }

    /// The values in the order of their keys.
    pub open spec fn ascending_values(&self) -> Seq<V> {
        Seq::new(self.ascending_keys().len(), |i: int| self@[self.ascending_keys()[i]])
    }

    /// `ascending_keys` lists the domain, smallest key first, and
    /// `ascending_values` lists the values in step with it.
    pub proof fn lemma_ascending(&self)
        requires
            self.wf(),
        ensures
            strictly_increasing(self.ascending_keys()),
            self.ascending_keys().to_set() == self@.dom(),
            self.ascending_keys().len() == self.ascending_values().len(),
            self@.dom().finite(),
            self@.dom().len() == self.ascending_keys().len(),
            forall|i: int|
                0 <= i < self.ascending_keys().len() ==> self@[#[trigger] self.ascending_keys()[i]]
                    == self.ascending_values()[i],
    {
        let keys = self.map.keys().remaining();
        assert(increasing_seq(keys));
        assert forall|i: int, j: int| 0 <= i < j < keys.len() implies keys.unref()[i]
            < keys.unref()[j] by {
            assert(precedes::<&u32>(keys[i], keys[j]));
        }
        assert(strictly_increasing(keys.unref()) && keys.unref().to_set() == self@.dom());
        self.ascending_keys().unique_seq_to_set();
    }

    /// The empty map.
    pub fn new() -> (r: SortedMap<V>)
        ensures
            r.wf(),
            r@ == Map::<u32, V>::empty(),
    {
        SortedMap { map: BTreeMap::new() }
    }

    /// The number of entries.
    pub fn len(&self) -> (n: usize)
        requires
            self.wf(),
        ensures
            n == self@.dom().len(),
            n == self.ascending_keys().len(),
    {
        proof {
            self.lemma_ascending();
        }
        self.map.len()
    }

    /// The keys in ascending order.
    pub fn keys(&self) -> (r: Vec<u32>)
        requires
            self.wf(),
        ensures
            r@ == self.ascending_keys(),
    {
        let mut out: Vec<u32> = Vec::new();
        let ghost keys = self.map.keys().remaining();
        for key in iter: self.map.keys()
            invariant
                iter.seq() == keys,
                out@.len() == iter.index(),
                forall|i: int| 0 <= i < out.len() ==> out@[i] == *keys[i],
        {
            out.push(*key);
        }
        proof {
            assert(out@ =~= keys.unref());
            assert(increasing_seq(keys));
            assert forall|i: int, j: int| 0 <= i < j < out@.len() implies out@[i] < out@[j] by {
                assert(precedes::<&u32>(keys[i], keys[j]));
            }
            lemma_ascending_unique(out@, self.ascending_keys());
        }
        out
    }

    /// The value under `k`, if there is one.
    pub fn get(&self, k: u32) -> (r: Option<&V>)
        requires
            self.wf(),
        ensures
            match r {
                Some(v) => self@.contains_key(k) && *v == self@[k],
                None => !self@.contains_key(k),
            },
    {
        self.map.get(&k)
    }

    /// The value under `k`, which the map holds.
    pub fn value(&self, k: u32) -> (v: &V)
        requires
            self.wf(),
            self@.contains_key(k),
        ensures
            *v == self@[k],
    {
        match self.map.get(&k) {
            Some(v) => v,
            None => vstd::pervasive::unreached(),
        }
    }

    /// Puts `v` under `k`, in place of what was there.
    pub fn insert(&mut self, k: u32, v: V)
        requires
            old(self).wf(),
        ensures
            final(self).wf(),
            final(self)@ == old(self)@.insert(k, v),
    {
        self.map.insert(k, v);
    }

    /// Takes the entry under `k` out of the map.
    pub fn remove(&mut self, k: u32) -> (r: Option<V>)
        requires
            old(self).wf(),
        ensures
            final(self).wf(),
            final(self)@ == old(self)@.remove(k),
            match r {
                Some(v) => old(self)@.contains_key(k) && v == old(self)@[k],
                None => !old(self)@.contains_key(k),
            },
    {
        self.map.remove(&k)
    }
}

} // verus!
