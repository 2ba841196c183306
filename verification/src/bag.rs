//! The mathematical model of a counting multimap.
//!
//! A multimap is modelled as a map from keys to bags, and a bag as a map from
//! values to the number of times the value occurs. The functions here say
//! what each operation of [`crate::BTreeMultiMap`] does to that model.
use vstd::prelude::*;

verus! {

/// The bag held by a `BTreeMap<V, usize>`, with its counts as natural numbers.
pub open spec fn counts<V>(bag: Map<V, usize>) -> Map<V, nat> {
    bag.map_values(|n: usize| n as nat)
}

/// The bag stored under `key`; the empty bag when the key is absent.
pub open spec fn bag_at<K, V>(m: Map<K, Map<V, nat>>, key: K) -> Map<V, nat> {
    if m.contains_key(key) {
        m[key]
    } else {
        Map::empty()
    }
}

/// How many times `value` is recorded under `key`; zero when either is absent.
pub open spec fn count_of<K, V>(m: Map<K, Map<V, nat>>, key: K, value: V) -> nat {
    if m.contains_key(key) && m[key].contains_key(value) {
        m[key][value]
    } else {
        0
    }
}

/// No bag records a value with a count of zero.
pub open spec fn positive<K, V>(m: Map<K, Map<V, nat>>) -> bool {
    forall|key: K, value: V|
        m.contains_key(key) && #[trigger] m[key].contains_key(value) ==> m[key][value] >= 1
}

/// The multimap after one more occurrence of `value` is recorded under `key`.
pub open spec fn insert_pair<K, V>(m: Map<K, Map<V, nat>>, key: K, value: V) -> Map<
    K,
    Map<V, nat>,
> {
    m.insert(key, bag_at(m, key).insert(value, count_of(m, key, value) + 1))
}

/// The multimap after one occurrence of `value` is taken away from `key`.
///
/// A pair that is not recorded leaves the multimap as it is. Taking away the
/// last occurrence deletes the value from the bag, but the key stays, even
/// when its bag is empty afterwards.
pub open spec fn remove_pair<K, V>(m: Map<K, Map<V, nat>>, key: K, value: V) -> Map<
    K,
    Map<V, nat>,
> {
    if !m.contains_key(key) || !m[key].contains_key(value) {
        m
    } else if m[key][value] <= 1 {
        m.insert(key, m[key].remove(value))
    } else {
        m.insert(key, m[key].insert(value, (m[key][value] - 1) as nat))
    }
}

/// The multimap built by recording the pairs of a sequence in order.
pub open spec fn of_pairs<K, V>(pairs: Seq<(K, V)>) -> Map<K, Map<V, nat>>
    decreases pairs.len(),
{
    if pairs.len() == 0 {
        Map::empty()
    } else {
        insert_pair(of_pairs(pairs.drop_last()), pairs.last().0, pairs.last().1)
    }
}

/// Recording a pair keeps every count positive.
pub proof fn lemma_insert_pair_positive<K, V>(m: Map<K, Map<V, nat>>, key: K, value: V)
    requires
        positive(m),
    ensures
        positive(insert_pair(m, key, value)),
{
}

/// Taking a pair away keeps every count positive.
pub proof fn lemma_remove_pair_positive<K, V>(m: Map<K, Map<V, nat>>, key: K, value: V)
    requires
        positive(m),
    ensures
        positive(remove_pair(m, key, value)),
{
}

/// Recording a pair raises the count of that pair by one and leaves every
/// other count as it was.
pub proof fn lemma_insert_pair_counts<K, V>(
    m: Map<K, Map<V, nat>>,
    key: K,
    value: V,
    other_key: K,
    other_value: V,
)
    ensures
        count_of(insert_pair(m, key, value), key, value) == count_of(m, key, value) + 1,
        other_key != key || other_value != value ==> count_of(
            insert_pair(m, key, value),
            other_key,
            other_value,
        ) == count_of(m, other_key, other_value),
{
}

/// Taking a pair away lowers the count of that pair by one when it is
/// positive, and leaves every other count as it was.
pub proof fn lemma_remove_pair_counts<K, V>(
    m: Map<K, Map<V, nat>>,
    key: K,
    value: V,
    other_key: K,
    other_value: V,
)
    ensures
        count_of(m, key, value) > 0 ==> count_of(remove_pair(m, key, value), key, value)
            == count_of(m, key, value) - 1,
        count_of(m, key, value) == 0 ==> count_of(remove_pair(m, key, value), key, value) == 0,
        other_key != key || other_value != value ==> count_of(
            remove_pair(m, key, value),
            other_key,
            other_value,
        ) == count_of(m, other_key, other_value),
{
}

/// Recording a pair makes its key present; taking a pair away never makes
/// a key absent, not even when nothing is left under it.
pub proof fn lemma_pair_changes_keep_keys<K, V>(m: Map<K, Map<V, nat>>, key: K, value: V)
    ensures
        insert_pair(m, key, value).dom() == m.dom().insert(key),
        remove_pair(m, key, value).dom() == m.dom(),
{
    assert(insert_pair(m, key, value).dom() =~= m.dom().insert(key));
    assert(remove_pair(m, key, value).dom() =~= m.dom());
}

/// What a sequence of pairs builds counts each pair as often as the pair
/// occurs in the sequence.
pub proof fn lemma_of_pairs_counts_occurrences<K, V>(pairs: Seq<(K, V)>, key: K, value: V)
    ensures
        count_of(of_pairs(pairs), key, value) == pairs.to_multiset().count((key, value)),
    decreases pairs.len(),
{
    broadcast use vstd::seq_lib::group_to_multiset_ensures;

    if pairs.len() == 0 {
        assert(pairs.to_multiset().len() == 0);
    } else {
        let earlier = pairs.drop_last();
        lemma_of_pairs_counts_occurrences(earlier, key, value);
        assert(pairs == earlier.push(pairs.last()));
        assert(pairs.to_multiset() == earlier.to_multiset().insert(pairs.last()));
    }
}

/// A pair occurs in a prefix of a sequence at most as often as in the whole
/// sequence.
pub proof fn lemma_occurrences_grow<K, V>(pairs: Seq<(K, V)>, n: int, key: K, value: V)
    requires
        0 <= n <= pairs.len(),
    ensures
        pairs.take(n).to_multiset().count((key, value)) <= pairs.to_multiset().count(
            (key, value),
        ),
    decreases pairs.len() - n,
{
    broadcast use vstd::seq_lib::group_to_multiset_ensures;

    if n == pairs.len() {
        assert(pairs.take(n) == pairs);
    } else {
        assert(pairs.take(n + 1) == pairs.take(n).push(pairs[n]));
        lemma_occurrences_grow(pairs, n + 1, key, value);
    }
}

/// In a sequence that is no longer than a `usize` can count, no pair occurs
/// more often than a `usize` can count.
pub proof fn lemma_occurrences_fit<K, V>(pairs: Seq<(K, V)>)
    requires
        pairs.len() <= usize::MAX,
    ensures
        forall|key: K, value: V| #[trigger]
            pairs.to_multiset().count((key, value)) <= usize::MAX,
{
    broadcast use vstd::seq_lib::group_to_multiset_ensures;

    assert(pairs.to_multiset().len() == pairs.len());
}

} // verus!
