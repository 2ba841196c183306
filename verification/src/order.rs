//! Walking the standard ordered collections in order.
use std::collections::{BTreeMap, BTreeSet};
use vstd::laws_cmp::obeys_cmp;
use vstd::prelude::*;
use vstd::std_specs::btree::increasing_seq;
use vstd::std_specs::cmp::OrdSpec;
use vstd::std_specs::iter::IteratorSpec;

verus! {

/// Each item of the sequence compares as less than every item after it.
pub open spec fn ascending<T: Ord>(items: Seq<&T>) -> bool {
    forall|i: int, j: int|
        0 <= i < j < items.len() ==> (#[trigger] items[i]).cmp_spec(#[trigger] items[j]) is Less
}

/// The sequence holds exactly the members of the set.
pub open spec fn lists<T>(items: Seq<&T>, members: Set<T>) -> bool {
    forall|item: T| members.contains(item) <==> items.contains(&item)
}

/// What an iterator over a B-tree hands out, in the order in which it does
/// so, is ascending and lists the collection's keys.
proof fn lemma_walk_ascending<T: Ord>(walk: Seq<&T>, members: Set<T>)
    requires
        obeys_cmp::<T>(),
        increasing_seq(walk),
        walk.unref().to_set() == members,
    ensures
        ascending(walk),
        lists(walk, members),
{
    assert(obeys_cmp::<&T>());
    assert forall|i: int, j: int| 0 <= i < j < walk.len() implies (#[trigger] walk[i]).cmp_spec(
        #[trigger] walk[j],
    ) is Less by {
        assert((&walk[i]).cmp_spec(&walk[j]) is Less);
    }
    assert forall|item: T| members.contains(item) <==> walk.contains(&item) by {
        if members.contains(item) {
            assert(walk.unref().contains(item));
            let i = choose|i: int| 0 <= i < walk.unref().len() && walk.unref()[i] == item;
            assert(walk[i] == &item);
        }
        if walk.contains(&item) {
            let i = choose|i: int| 0 <= i < walk.len() && walk[i] == &item;
            assert(walk.unref()[i] == item);
            assert(walk.unref().contains(item));
        }
    }
}

/// The keys of a map, smallest first.
pub(crate) fn keys_in_order<K: Ord, V>(map: &BTreeMap<K, V>) -> (keys: Vec<&K>)
    requires
        obeys_cmp::<K>(),
    ensures
        ascending(keys@),
        lists(keys@, map@.dom()),
{
    let mut keys: Vec<&K> = Vec::new();
    for key in walk: map.keys()
        invariant
            keys@ == walk.seq().take(walk.index()),
    {
        keys.push(key);
    }
    proof {
        assert(keys@ == map.keys().remaining());
        lemma_walk_ascending(keys@, map@.dom());
    }
    keys
}

/// The members of a set, smallest first.
pub(crate) fn members_in_order<T: Ord>(set: &BTreeSet<T>) -> (members: Vec<&T>)
    requires
        obeys_cmp::<T>(),
    ensures
        ascending(members@),
        lists(members@, set@),
{
    let mut members: Vec<&T> = Vec::new();
    for member in walk: set.iter()
        invariant
            members@ == walk.seq().take(walk.index()),
    {
        members.push(member);
    }
    proof {
        assert(members@ == set.iter().remaining());
        lemma_walk_ascending(members@, set@);
    }
    members
}

} // verus!
