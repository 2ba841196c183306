//! The mathematical model of a set multimap: a map from keys to sets of
//! values. The functions here say what each operation of
//! [`crate::BTreeSetMultiMap`] does to that model.
use vstd::prelude::*;

verus! {

/// The set stored under `key`; the empty set when the key is absent.
pub open spec fn set_at<K, V>(m: Map<K, Set<V>>, key: K) -> Set<V> {
    if m.contains_key(key) {
        m[key]
    } else {
        Set::empty()
    }
}

/// Whether `value` is associated with `key`.
pub open spec fn has_member<K, V>(m: Map<K, Set<V>>, key: K, value: V) -> bool {
    m.contains_key(key) && m[key].contains(value)
}

/// The multimap after `value` is associated with `key`.
pub open spec fn insert_member<K, V>(m: Map<K, Set<V>>, key: K, value: V) -> Map<K, Set<V>> {
    m.insert(key, set_at(m, key).insert(value))
}

/// The multimap after `value` is no longer associated with `key`.
///
/// An absent key leaves the multimap as it is. A present key stays, even
/// when its set is empty afterwards.
pub open spec fn remove_member<K, V>(m: Map<K, Set<V>>, key: K, value: V) -> Map<K, Set<V>> {
    if m.contains_key(key) {
        m.insert(key, m[key].remove(value))
    } else {
        m
    }
}

/// The multimap built by associating the pairs of a sequence in order.
pub open spec fn of_members<K, V>(pairs: Seq<(K, V)>) -> Map<K, Set<V>>
    decreases pairs.len(),
{
    if pairs.len() == 0 {
        Map::empty()
    } else {
        insert_member(of_members(pairs.drop_last()), pairs.last().0, pairs.last().1)
    }
}

/// What a sequence of pairs builds associates a value with a key exactly
/// when the pair occurs in the sequence, however often.
pub proof fn lemma_of_members_holds_pairs<K, V>(pairs: Seq<(K, V)>, key: K, value: V)
    ensures
        has_member(of_members(pairs), key, value) <==> pairs.contains((key, value)),
    decreases pairs.len(),
{
    if pairs.len() > 0 {
        let earlier = pairs.drop_last();
        lemma_of_members_holds_pairs(earlier, key, value);
        if pairs.contains((key, value)) {
            let i = choose|i: int| 0 <= i < pairs.len() && pairs[i] == (key, value);
            if i < earlier.len() {
                assert(earlier[i] == (key, value));
            }
        }
        if earlier.contains((key, value)) {
            let i = choose|i: int| 0 <= i < earlier.len() && earlier[i] == (key, value);
            assert(pairs[i] == (key, value));
        }
        if pairs.last() == (key, value) {
            assert(pairs[pairs.len() - 1] == (key, value));
        }
    }
}

/// Associating a pair a second time changes nothing: the value is a member
/// after the first time, and the multimap is the same after the second.
pub proof fn lemma_insert_member_twice<K, V>(m: Map<K, Set<V>>, key: K, value: V)
    ensures
        has_member(insert_member(m, key, value), key, value),
        insert_member(insert_member(m, key, value), key, value) == insert_member(m, key, value),
{
    let once = insert_member(m, key, value);
    assert(set_at(once, key).insert(value) =~= set_at(once, key));
    assert(insert_member(once, key, value) =~= once);
}

/// Ending an association makes the value no member, touches no other
/// value, and never makes a key absent.
pub proof fn lemma_remove_member_only<K, V>(m: Map<K, Set<V>>, key: K, value: V)
    ensures
        !has_member(remove_member(m, key, value), key, value),
        remove_member(m, key, value).dom() == m.dom(),
        forall|other_key: K, other_value: V|
            other_key != key || other_value != value ==> (has_member(
                remove_member(m, key, value),
                other_key,
                other_value,
            ) <==> has_member(m, other_key, other_value)),
{
    assert(remove_member(m, key, value).dom() =~= m.dom());
}

} // verus!
