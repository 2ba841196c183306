//! Access to `BTreeMap` operations for which vstd carries no specification.
use std::collections::BTreeMap;
use vstd::laws_cmp::obeys_cmp;
use vstd::prelude::*;

verus! {

/// `BTreeMap::get_mut`, taken on trust.
///
/// For a key type whose comparison is a lawful total order, the call yields
/// a mutable reference to the value stored under `key` when the map has that
/// key, and `None` when it has not. Nothing but that one value can change
/// through the reference: once the borrow ends the map holds the same keys,
/// with whatever was last written through the reference stored under `key`.
#[verifier::external_body]
pub(crate) fn get_mut<'a, K: Ord, V>(map: &'a mut BTreeMap<K, V>, key: &K) -> (slot: Option<
    &'a mut V,
>)
    requires
        obeys_cmp::<K>(),
    ensures
        match slot {
            Some(value) => {
                &&& old(map)@.contains_key(*key)
                &&& *value == old(map)@[*key]
                &&& final(map)@ == old(map)@.insert(*key, *final(value))
            },
            None => !old(map)@.contains_key(*key) && final(map)@ == old(map)@,
        },
{
    map.get_mut(key)
}

} // verus!
