//! The counting multimap.
use crate::bag::{
    bag_at, count_of, counts, insert_pair, lemma_insert_pair_positive, lemma_occurrences_grow,
    lemma_of_pairs_counts_occurrences, lemma_remove_pair_positive, of_pairs, positive,
    remove_pair,
};
use crate::btree::get_mut;
use crate::order::{ascending, keys_in_order, lists};
use std::collections::BTreeMap;
use vstd::laws_cmp::obeys_cmp;
use vstd::prelude::*;
use vstd::std_specs::iter::IteratorSpec;

verus! {

/// An ordered multimap that counts how often each value was inserted under
/// each key.
#[derive(Debug, PartialEq, Eq, Hash)]
pub struct BTreeMultiMap<Key, Value> {
    map: BTreeMap<Key, BTreeMap<Value, usize>>,
}

impl<Key, Value> View for BTreeMultiMap<Key, Value> {
    type V = Map<Key, Map<Value, nat>>;

    /// For each key the bag of its values, each value with its count.
    closed spec fn view(&self) -> Map<Key, Map<Value, nat>> {
        self.map@.map_values(|bag: BTreeMap<Value, usize>| counts(bag@))
    }
}

impl<Key, Value> BTreeMultiMap<Key, Value> {
    /// The representation invariant: a value that is present under a key has
    /// been counted at least once.
    pub open spec fn wf(&self) -> bool {
        positive(self@)
    }

    /// An empty multimap.
    pub fn new() -> (result: Self) where Key: Default, Value: Default
        ensures
            result@ == Map::<Key, Map<Value, nat>>::empty(),
            result.wf(),
    {
        Default::default()
    }

    /// Forgets every key and value.
    pub fn clear(&mut self)
        ensures
            final(self)@ == Map::<Key, Map<Value, nat>>::empty(),
            final(self).wf(),
    {
        self.map.clear()
    }

    /// Records one more occurrence of `value` under `key`.
    ///
    /// Counts are kept in a `usize`, so the count of the pair must have room
    /// to grow by one.
    pub fn insert(&mut self, key: Key, value: Value) where Key: Ord, Value: Ord
        requires
            obeys_cmp::<Key>(),
            obeys_cmp::<Value>(),
            old(self).wf(),
            count_of(old(self)@, key, value) < usize::MAX,
        ensures
            final(self)@ == insert_pair(old(self)@, key, value),
            final(self).wf(),
    {
        if let Some(map) = get_mut(&mut self.map, &key) {
            if let Some(count) = get_mut(map, &value) {
                *count += 1;
            } else {
                map.insert(value, 1);
            }
        } else {
            let mut map = BTreeMap::new();
            map.insert(value, 1);
            self.map.insert(key, map);
        }
        proof {
            assert(self@ =~~= insert_pair(old(self)@, key, value));
            lemma_insert_pair_positive(old(self)@, key, value);
        }
    }

    /// The bag recorded under `key`, if the key is present.
    pub fn get(&self, key: &Key) -> (result: Option<&BTreeMap<Value, usize>>) where Key: Ord
        requires
            obeys_cmp::<Key>(),
        ensures
            match result {
                Some(bag) => {
                    &&& self@.contains_key(*key)
                    &&& counts(bag@) == self@[*key]
                    &&& bag@.dom() == self@[*key].dom()
                },
                None => !self@.contains_key(*key),
            },
    {
        self.map.get(key)
    }

    /// How many times `value` is recorded under `key`.
    pub fn get_value_count(&self, key: &Key, value: &Value) -> (count: usize) where
        Key: Ord,
        Value: Ord,

        requires
            obeys_cmp::<Key>(),
            obeys_cmp::<Value>(),
        ensures
            count == count_of(self@, *key, *value),
    {
        if let Some(map) = self.map.get(key) {
            match map.get(value) {
                Some(count) => *count,
                None => 0,
            }
        } else {
            0
        }
    }

    /// Deletes `key` with its whole bag, and hands the bag back.
    pub fn remove(&mut self, key: &Key) -> (result: Option<BTreeMap<Value, usize>>) where Key: Ord
        requires
            obeys_cmp::<Key>(),
            old(self).wf(),
        ensures
            final(self)@ == old(self)@.remove(*key),
            match result {
                Some(bag) => {
                    &&& old(self)@.contains_key(*key)
                    &&& counts(bag@) == old(self)@[*key]
                    &&& bag@.dom() == old(self)@[*key].dom()
                },
                None => !old(self)@.contains_key(*key) && final(self)@ == old(self)@,
            },
            final(self).wf(),
    {
        let result = self.map.remove(key);
        proof {
            assert(self@ =~~= old(self)@.remove(*key));
            if result is None {
                assert(self@ =~~= old(self)@);
            }
        }
        result
    }

    /// Takes one occurrence of `value` away from `key`, and says whether
    /// there was one to take.
    ///
    /// The key stays present when its last value goes: `get` then hands out
    /// an empty bag, until `remove` deletes the key.
    pub fn remove_key_value(&mut self, key: &Key, value: &Value) -> (removed: bool) where
        Key: Ord,
        Value: Ord,

        requires
            obeys_cmp::<Key>(),
            obeys_cmp::<Value>(),
            old(self).wf(),
        ensures
            removed == (count_of(old(self)@, *key, *value) > 0),
            final(self)@ == remove_pair(old(self)@, *key, *value),
            final(self).wf(),
    {
        let removed = if let Some(map) = get_mut(&mut self.map, key) {
            if let Some(count) = get_mut(map, value) {
                assert(*count >= 1) by {
                    assert(old(self)@[*key].contains_key(*value));
                }
                *count -= 1;
                if *count == 0 {
                    map.remove(value);
                }
                true
            } else {
                false
            }
        } else {
            false
        };
        proof {
            assert(self@ =~~= remove_pair(old(self)@, *key, *value));
            lemma_remove_pair_positive(old(self)@, *key, *value);
        }
        removed
    }

    /// The multimap that results from inserting the pairs of `iter`, one
    /// after the other, into an empty multimap.
    ///
    /// No pair may come more often than a `usize` can count.
    pub fn from_iter<I: Iterator<Item = (Key, Value)>>(iter: I) -> (result: Self) where
        Key: Ord,
        Value: Ord,

        requires
            obeys_cmp::<Key>(),
            obeys_cmp::<Value>(),
            iter.obeys_prophetic_iter_laws(),
            iter.decrease() is Some,
            forall|key: Key, value: Value| #[trigger]
                iter.remaining().to_multiset().count((key, value)) <= usize::MAX,
        ensures
            result@ == of_pairs(iter.remaining()),
            result.wf(),
    {
        let mut result = Self::default();
        let mut rest = iter;
        let ghost pairs = rest.remaining();
        let ghost mut done: int = 0;
        loop
            invariant
                obeys_cmp::<Key>(),
                obeys_cmp::<Value>(),
                rest.obeys_prophetic_iter_laws(),
                rest.decrease() is Some,
                0 <= done <= pairs.len(),
                rest.remaining() == pairs.skip(done),
                result@ == of_pairs(pairs.take(done)),
                result.wf(),
                forall|key: Key, value: Value| #[trigger]
                    pairs.to_multiset().count((key, value)) <= usize::MAX,
            ensures
                done == pairs.len(),
            decreases rest.decrease()->0,
        {
            match rest.next() {
                Some((key, value)) => {
                    proof {
                        let next = pairs.take(done + 1);
                        assert(next.drop_last() == pairs.take(done));
                        assert(next.last() == (key, value));
                        assert(of_pairs(next) == insert_pair(result@, key, value));
                        assert(count_of(result@, key, value) < usize::MAX) by {
                            lemma_of_pairs_counts_occurrences(next, key, value);
                            lemma_occurrences_grow(pairs, done + 1, key, value);
                            assert(pairs.to_multiset().count((key, value)) <= usize::MAX);
                        }
                        done = done + 1;
                    }
                    result.insert(key, value);
                },
                None => {
                    break ;
                },
            }
        }
        proof {
            assert(pairs.take(done) == pairs);
        }
        result
    }

    /// The keys, smallest first.
    pub fn keys(&self) -> (keys: Vec<&Key>) where Key: Ord
        requires
            obeys_cmp::<Key>(),
        ensures
            ascending(keys@),
            lists(keys@, self@.dom()),
    {
        let keys = keys_in_order(&self.map);
        proof {
            assert(self@.dom() =~= self.map@.dom());
        }
        keys
    }

    /// The distinct values recorded under `key`, smallest first; none when
    /// the key is absent.
    pub fn values(&self, key: &Key) -> (values: Vec<&Value>) where Key: Ord, Value: Ord
        requires
            obeys_cmp::<Key>(),
            obeys_cmp::<Value>(),
        ensures
            ascending(values@),
            lists(values@, bag_at(self@, *key).dom()),
    {
        match self.map.get(key) {
            Some(bag) => {
                let values = keys_in_order(bag);
                proof {
                    assert(bag_at(self@, *key).dom() =~= bag@.dom());
                }
                values
            },
            None => Vec::new(),
        }
    }
}

impl<Key, Value> Default for BTreeMultiMap<Key, Value> {
    /// An empty multimap.
    fn default() -> (result: Self)
        ensures
            result@ == Map::<Key, Map<Value, nat>>::empty(),
            result.wf(),
    {
        Self { map: Default::default() }
    }
}

impl<Key: Clone, Value: Clone> Clone for BTreeMultiMap<Key, Value> {
    /// A multimap with the same keys, values and counts.
    fn clone(&self) -> (result: Self)
        ensures
            result@ == self@,
    {
        Self { map: self.map.clone() }
    }
}

} // verus!
