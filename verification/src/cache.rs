//! Maps from keys to remembered results. A key is found by a word of its own; a later key
//! with the same word takes an earlier one's place.
use std::collections::HashMap;
use vstd::prelude::*;

verus! {

broadcast use vstd::std_specs::hash::group_hash_axioms;

/// An empty map from words, which are hashed by the default hasher of maps.
pub fn new_unique_hash_map<V>() -> (r: HashMap<u64, V>)
    ensures
        r@ == Map::<u64, V>::empty(),
{
    HashMap::new()
}

/// An empty map from words, which are hashed by the default hasher of maps.
pub fn new_fx_hash_map<V>() -> (r: HashMap<u64, V>)
    ensures
        r@ == Map::<u64, V>::empty(),
{
    HashMap::new()
}

/// An empty map from sizes.
pub fn new_fx_hash_map_by_size<V>() -> (r: HashMap<usize, V>)
    ensures
        r@ == Map::<usize, V>::empty(),
{
    HashMap::new()
}

/// Remembered results.
pub struct Cache<K, V> {
    map: HashMap<u64, (K, V)>,
}

impl<K: Copy, V: Copy> Cache<K, V> {
    /// The key and the result that are remembered under a word.
    pub closed spec fn at(self, word: u64) -> Option<(K, V)> {
        if self.map@.contains_key(word) {
            Some(self.map@[word])
        } else {
            None
        }
    }

    /// The result `v` is remembered for the key `k`.
    pub open spec fn holds(self, k: K, v: V) -> bool {
        exists|word: u64| #[trigger] self.at(word) == Some((k, v))
    }

    /// Nothing is remembered.
    pub fn new() -> (r: Self)
        ensures
            forall|word: u64| #[trigger] r.at(word) is None,
            forall|k: K, v: V| !#[trigger] r.holds(k, v),
    {
        Cache { map: new_unique_hash_map() }
    }

    /// What is remembered under a word.
    pub fn get(&self, word: u64) -> (r: Option<(K, V)>)
        ensures
            r == self.at(word),
            r matches Some(kv) ==> self.holds(kv.0, kv.1),
    {
        match self.map.get(&word) {
            Some(kv) => {
                assert(self.at(word) == Some((kv.0, kv.1)));
                Some(*kv)
            },
            None => None,
        }
    }

    /// Remembers a result.
    pub fn put(&mut self, word: u64, k: K, v: V)
        ensures
            forall|w: u64| #[trigger]
                final(self).at(w) == (if w == word {
                    Some((k, v))
                } else {
                    old(self).at(w)
                }),
            forall|k1: K, v1: V| #[trigger]
                final(self).holds(k1, v1) ==> old(self).holds(k1, v1) || (k1 == k && v1 == v),
            final(self).holds(k, v),
    {
        self.map.insert(word, (k, v));
        proof {
            assert(self.at(word) == Some((k, v)));
            assert forall|k1: K, v1: V| #[trigger] self.holds(k1, v1) implies old(self).holds(k1, v1)
                || (k1 == k && v1 == v) by {
                let w = choose|w: u64| #[trigger] self.at(w) == Some((k1, v1));
                if w != word {
                    assert(old(self).at(w) == Some((k1, v1)));
                }
            }
        }
    }

    /// Nothing is remembered.
    pub open spec fn blank(self) -> bool {
        &&& forall|word: u64| #[trigger] self.at(word) is None
        &&& forall|k: K, v: V| !#[trigger] self.holds(k, v)
    }

    /// Forgets everything.
    pub fn clear(&mut self)
        ensures
            final(self).blank(),
    {
        self.map.clear();
    }
}

} // verus!
