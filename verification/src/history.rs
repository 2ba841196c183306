//! What a multimap holds after a whole history of changes.
//!
//! A history is a sequence of changes made to a multimap that starts out
//! empty. The same histories are read for both kinds of multimap: `replay`
//! says what a counting multimap holds at the end, `replay_sets` what a set
//! multimap holds.
use crate::bag::{
    count_of, insert_pair, lemma_insert_pair_positive, lemma_remove_pair_positive, positive,
    remove_pair,
};
use crate::members::{insert_member, remove_member};
use vstd::prelude::*;

verus! {

/// One change to a multimap, named after the method that makes it.
pub enum Change<K, V> {
    Insert(K, V),
    RemoveKeyValue(K, V),
    Remove(K),
    Clear,
}

/// The counting multimap after one change.
pub open spec fn apply<K, V>(m: Map<K, Map<V, nat>>, change: Change<K, V>) -> Map<K, Map<V, nat>> {
    match change {
        Change::Insert(key, value) => insert_pair(m, key, value),
        Change::RemoveKeyValue(key, value) => remove_pair(m, key, value),
        Change::Remove(key) => m.remove(key),
        Change::Clear => Map::empty(),
    }
}

/// The counting multimap after the changes are made, in order, to an empty
/// one.
pub open spec fn replay<K, V>(changes: Seq<Change<K, V>>) -> Map<K, Map<V, nat>>
    decreases changes.len(),
{
    if changes.len() == 0 {
        Map::empty()
    } else {
        apply(replay(changes.drop_last()), changes.last())
    }
}

/// The set multimap after one change.
pub open spec fn apply_to_sets<K, V>(m: Map<K, Set<V>>, change: Change<K, V>) -> Map<K, Set<V>> {
    match change {
        Change::Insert(key, value) => insert_member(m, key, value),
        Change::RemoveKeyValue(key, value) => remove_member(m, key, value),
        Change::Remove(key) => m.remove(key),
        Change::Clear => Map::empty(),
    }
}

/// The set multimap after the changes are made, in order, to an empty one.
pub open spec fn replay_sets<K, V>(changes: Seq<Change<K, V>>) -> Map<K, Set<V>>
    decreases changes.len(),
{
    if changes.len() == 0 {
        Map::empty()
    } else {
        apply_to_sets(replay_sets(changes.drop_last()), changes.last())
    }
}

/// How many of the changes insert the pair `(key, value)`.
pub open spec fn inserted<K, V>(changes: Seq<Change<K, V>>, key: K, value: V) -> nat
    decreases changes.len(),
{
    if changes.len() == 0 {
        0
    } else {
        let before = inserted(changes.drop_last(), key, value);
        if changes.last() == Change::Insert(key, value) {
            before + 1
        } else {
            before
        }
    }
}

/// How many of the changes take the pair `(key, value)` away from a counting
/// multimap and find it there, so that `remove_key_value` answers `true`.
pub open spec fn taken<K, V>(changes: Seq<Change<K, V>>, key: K, value: V) -> nat
    decreases changes.len(),
{
    if changes.len() == 0 {
        0
    } else {
        let earlier = changes.drop_last();
        let before = taken(earlier, key, value);
        if changes.last() == Change::RemoveKeyValue(key, value) && count_of(
            replay(earlier),
            key,
            value,
        ) > 0 {
            before + 1
        } else {
            before
        }
    }
}

/// The change inserts or takes away a single pair.
pub open spec fn touches_one_pair<K, V>(change: Change<K, V>) -> bool {
    change is Insert || change is RemoveKeyValue
}

/// The history holds no change but insertions and removals of single pairs.
pub open spec fn pairs_only<K, V>(changes: Seq<Change<K, V>>) -> bool {
    forall|i: int| 0 <= i < changes.len() ==> touches_one_pair(#[trigger] changes[i])
}

/// The change inserts a value under `key`.
pub open spec fn inserts_under<K, V>(change: Change<K, V>, key: K) -> bool {
    change matches Change::Insert(k, _) && k == key
}

/// The history never inserts anything under `key`.
pub open spec fn never_inserts<K, V>(changes: Seq<Change<K, V>>, key: K) -> bool {
    forall|i: int| 0 <= i < changes.len() ==> !inserts_under(#[trigger] changes[i], key)
}

/// Whatever the history, no bag ever records a value with a count of zero.
pub proof fn lemma_replay_positive<K, V>(changes: Seq<Change<K, V>>)
    ensures
        positive(replay(changes)),
    decreases changes.len(),
{
    if changes.len() > 0 {
        let before = replay(changes.drop_last());
        lemma_replay_positive(changes.drop_last());
        match changes.last() {
            Change::Insert(key, value) => lemma_insert_pair_positive(before, key, value),
            Change::RemoveKeyValue(key, value) => lemma_remove_pair_positive(before, key, value),
            Change::Remove(key) => {},
            Change::Clear => {},
        }
    }
}

/// After a history of insertions and removals of single pairs, the count of
/// a pair is the number of times it was inserted less the number of times
/// it was taken away with success. In particular no more is taken than was
/// inserted.
pub proof fn lemma_count_is_inserted_less_taken<K, V>(
    changes: Seq<Change<K, V>>,
    key: K,
    value: V,
)
    requires
        pairs_only(changes),
    ensures
        taken(changes, key, value) <= inserted(changes, key, value),
        count_of(replay(changes), key, value) == inserted(changes, key, value) - taken(
            changes,
            key,
            value,
        ),
    decreases changes.len(),
{
    if changes.len() > 0 {
        let earlier = changes.drop_last();
        assert(pairs_only(earlier)) by {
            assert forall|i: int| 0 <= i < earlier.len() implies touches_one_pair(
                #[trigger] earlier[i],
            ) by {
                assert(earlier[i] == changes[i]);
            }
        }
        lemma_count_is_inserted_less_taken(earlier, key, value);
        assert(touches_one_pair(changes[changes.len() - 1]));
    }
}

/// A key under which the history never inserts is absent from the counting
/// multimap at its end, and every value counts zero under it.
pub proof fn lemma_never_inserted_is_absent<K, V>(changes: Seq<Change<K, V>>, key: K)
    requires
        never_inserts(changes, key),
    ensures
        !replay(changes).contains_key(key),
        forall|value: V| count_of(replay(changes), key, value) == 0,
    decreases changes.len(),
{
    if changes.len() > 0 {
        let earlier = changes.drop_last();
        assert(never_inserts(earlier, key)) by {
            assert forall|i: int| 0 <= i < earlier.len() implies !inserts_under(
                #[trigger] earlier[i],
                key,
            ) by {
                assert(earlier[i] == changes[i]);
            }
        }
        lemma_never_inserted_is_absent(earlier, key);
        assert(!inserts_under(changes[changes.len() - 1], key));
    }
}

/// A key under which the history never inserts is absent from the set
/// multimap at its end.
pub proof fn lemma_never_inserted_has_no_set<K, V>(changes: Seq<Change<K, V>>, key: K)
    requires
        never_inserts(changes, key),
    ensures
        !replay_sets(changes).contains_key(key),
    decreases changes.len(),
{
    if changes.len() > 0 {
        let earlier = changes.drop_last();
        assert(never_inserts(earlier, key)) by {
            assert forall|i: int| 0 <= i < earlier.len() implies !inserts_under(
                #[trigger] earlier[i],
                key,
            ) by {
                assert(earlier[i] == changes[i]);
            }
        }
        lemma_never_inserted_has_no_set(earlier, key);
        assert(!inserts_under(changes[changes.len() - 1], key));
    }
}

} // verus!
