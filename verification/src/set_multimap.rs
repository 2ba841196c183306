//! The set multimap.
use crate::btree::get_mut;
use crate::members::{has_member, insert_member, of_members, remove_member, set_at};
use crate::order::{ascending, keys_in_order, lists, members_in_order};
use std::collections::{BTreeMap, BTreeSet};
use vstd::laws_cmp::obeys_cmp;
use vstd::prelude::*;
use vstd::std_specs::iter::IteratorSpec;

verus! {

/// An ordered multimap that keeps, for each key, the set of values
/// associated with it. Associating a value twice is the same as once.
#[derive(Debug, PartialEq, Eq, Hash)]
pub struct BTreeSetMultiMap<Key, Value> {
    map: BTreeMap<Key, BTreeSet<Value>>,
}

impl<Key, Value> View for BTreeSetMultiMap<Key, Value> {
    type V = Map<Key, Set<Value>>;

    /// For each key the set of its values.
    closed spec fn view(&self) -> Map<Key, Set<Value>> {
        self.map@.map_values(|set: BTreeSet<Value>| set@)
    }
}

impl<Key, Value> BTreeSetMultiMap<Key, Value> {
    /// An empty multimap.
    pub fn new() -> (result: Self)
        ensures
            result@ == Map::<Key, Set<Value>>::empty(),
    {
        Default::default()
    }

    /// Forgets every key and value.
    pub fn clear(&mut self)
        ensures
            final(self)@ == Map::<Key, Set<Value>>::empty(),
    {
        self.map.clear()
    }

    /// Associates `value` with `key`, and says whether that was new.
    pub fn insert(&mut self, key: Key, value: Value) -> (added: bool) where Key: Ord, Value: Ord
        requires
            obeys_cmp::<Key>(),
            obeys_cmp::<Value>(),
        ensures
            added == !has_member(old(self)@, key, value),
            final(self)@ == insert_member(old(self)@, key, value),
    {
        let added = if let Some(set) = get_mut(&mut self.map, &key) {
            set.insert(value)
        } else {
            let mut set = BTreeSet::new();
            set.insert(value);
            self.map.insert(key, set);
            true
        };
        proof {
            assert(self@ =~~= insert_member(old(self)@, key, value));
        }
        added
    }

    /// The set of values associated with `key`, if the key is present.
    pub fn get(&self, key: &Key) -> (result: Option<&BTreeSet<Value>>) where Key: Ord
        requires
            obeys_cmp::<Key>(),
        ensures
            match result {
                Some(set) => self@.contains_key(*key) && set@ == self@[*key],
                None => !self@.contains_key(*key),
            },
    {
        self.map.get(key)
    }

    /// Deletes `key` with its whole set, and hands the set back.
    pub fn remove(&mut self, key: &Key) -> (result: Option<BTreeSet<Value>>) where Key: Ord
        requires
            obeys_cmp::<Key>(),
        ensures
            final(self)@ == old(self)@.remove(*key),
            match result {
                Some(set) => old(self)@.contains_key(*key) && set@ == old(self)@[*key],
                None => !old(self)@.contains_key(*key) && final(self)@ == old(self)@,
            },
    {
        let result = self.map.remove(key);
        proof {
            assert(self@ =~~= old(self)@.remove(*key));
            if result is None {
                assert(self@ =~~= old(self)@);
            }
        }
        result
    }

    /// Ends the association of `value` with `key`, and says whether there
    /// was one.
    ///
    /// The key stays present when its last value goes: `get` then hands out
    /// an empty set, until `remove` deletes the key.
    pub fn remove_key_value(&mut self, key: &Key, value: &Value) -> (removed: bool) where
        Key: Ord,
        Value: Ord,

        requires
            obeys_cmp::<Key>(),
            obeys_cmp::<Value>(),
        ensures
            removed == has_member(old(self)@, *key, *value),
            final(self)@ == remove_member(old(self)@, *key, *value),
    {
        let removed = if let Some(set) = get_mut(&mut self.map, key) {
            set.remove(value)
        } else {
            false
        };
        proof {
            assert(self@ =~~= remove_member(old(self)@, *key, *value));
        }
        removed
    }

    /// The multimap that results from inserting the pairs of `iter`, one
    /// after the other, into an empty multimap.
    pub fn from_iter<I: Iterator<Item = (Key, Value)>>(iter: I) -> (result: Self) where
        Key: Ord,
        Value: Ord,

        requires
            obeys_cmp::<Key>(),
            obeys_cmp::<Value>(),
            iter.obeys_prophetic_iter_laws(),
            iter.decrease() is Some,
        ensures
            result@ == of_members(iter.remaining()),
    {
        let mut result = Self::default();
        let mut rest = iter;
        let ghost pairs = rest.remaining();
        let ghost mut done: int = 0;
        loop
            invariant
                obeys_cmp::<Key>(),
                obeys_cmp::<Value>(),
                rest.obeys_prophetic_iter_laws(),
                rest.decrease() is Some,
                0 <= done <= pairs.len(),
                rest.remaining() == pairs.skip(done),
                result@ == of_members(pairs.take(done)),
            ensures
                done == pairs.len(),
            decreases rest.decrease()->0,
        {
            match rest.next() {
                Some((key, value)) => {
                    proof {
                        assert(pairs.take(done + 1).drop_last() == pairs.take(done));
                        done = done + 1;
                    }
                    result.insert(key, value);
                },
                None => {
                    break ;
                },
            }
        }
        proof {
            assert(pairs.take(done) == pairs);
        }
        result
    }

    /// The keys, smallest first.
    pub fn keys(&self) -> (keys: Vec<&Key>) where Key: Ord
        requires
            obeys_cmp::<Key>(),
        ensures
            ascending(keys@),
            lists(keys@, self@.dom()),
    {
        let keys = keys_in_order(&self.map);
        proof {
            assert(self@.dom() =~= self.map@.dom());
        }
        keys
    }

    /// The values associated with `key`, smallest first; none when the key
    /// is absent.
    pub fn values(&self, key: &Key) -> (values: Vec<&Value>) where Key: Ord, Value: Ord
        requires
            obeys_cmp::<Key>(),
            obeys_cmp::<Value>(),
        ensures
            ascending(values@),
            lists(values@, set_at(self@, *key)),
    {
        match self.map.get(key) {
            Some(set) => members_in_order(set),
            None => Vec::new(),
        }
    }
}

impl<Key, Value> Default for BTreeSetMultiMap<Key, Value> {
    /// An empty multimap.
    fn default() -> (result: Self)
        ensures
            result@ == Map::<Key, Set<Value>>::empty(),
    {
        Self { map: Default::default() }
    }
}

impl<Key: Clone, Value: Clone> Clone for BTreeSetMultiMap<Key, Value> {
    /// A multimap with the same keys and values.
    fn clone(&self) -> (result: Self)
        ensures
            result@ == self@,
    {
        Self { map: self.map.clone() }
    }
}

} // verus!
