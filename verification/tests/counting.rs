use btreemultimap::BTreeMultiMap;
use std::collections::BTreeMap;

#[test]
fn new_multimap_is_empty() {
    let map: BTreeMultiMap<u32, u32> = BTreeMultiMap::new();
    assert!(map.get(&1).is_none());
    assert_eq!(map.get_value_count(&1, &1), 0);
    assert!(map.keys().is_empty());
}

#[test]
fn default_multimap_is_empty() {
    let map: BTreeMultiMap<String, u8> = BTreeMultiMap::default();
    assert!(map.get(&String::from("a")).is_none());
    assert_eq!(map, BTreeMultiMap::new());
}

#[test]
fn first_insert_counts_one() {
    let mut map: BTreeMultiMap<&str, u32> = BTreeMultiMap::new();
    map.insert("k", 7);
    assert_eq!(map.get_value_count(&"k", &7), 1);
    let bag: &BTreeMap<u32, usize> = map.get(&"k").unwrap();
    assert_eq!(bag.len(), 1);
    assert_eq!(bag.get(&7), Some(&1));
}

#[test]
fn repeated_insert_raises_the_count() {
    let mut map: BTreeMultiMap<&str, u32> = BTreeMultiMap::new();
    map.insert("k", 7);
    map.insert("k", 7);
    assert_eq!(map.get_value_count(&"k", &7), 2);
    map.insert("k", 7);
    assert_eq!(map.get_value_count(&"k", &7), 3);
    assert_eq!(map.get(&"k").unwrap().get(&7), Some(&3));
    assert_eq!(map.get(&"k").unwrap().len(), 1);
}

#[test]
fn new_value_under_a_present_key_counts_one() {
    let mut map: BTreeMultiMap<&str, u32> = BTreeMultiMap::new();
    map.insert("k", 7);
    map.insert("k", 7);
    map.insert("k", 9);
    assert_eq!(map.get_value_count(&"k", &7), 2);
    assert_eq!(map.get_value_count(&"k", &9), 1);
    assert_eq!(map.get(&"k").unwrap().len(), 2);
}

#[test]
fn insert_leaves_other_pairs_alone() {
    let mut map: BTreeMultiMap<u8, u8> = BTreeMultiMap::new();
    map.insert(1, 1);
    map.insert(2, 1);
    map.insert(1, 2);
    map.insert(1, 1);
    assert_eq!(map.get_value_count(&1, &1), 2);
    assert_eq!(map.get_value_count(&1, &2), 1);
    assert_eq!(map.get_value_count(&2, &1), 1);
    assert_eq!(map.get_value_count(&2, &2), 0);
}

#[test]
fn count_is_inserts_less_successful_removals() {
    let mut map: BTreeMultiMap<u8, char> = BTreeMultiMap::new();
    let mut inserted: usize = 0;
    let mut taken: usize = 0;
    assert!(!map.remove_key_value(&4, &'x'));
    for round in 0..5 {
        map.insert(4, 'x');
        inserted += 1;
        map.insert(4, 'y');
        if round % 2 == 0 {
            if map.remove_key_value(&4, &'x') {
                taken += 1;
            }
            if map.remove_key_value(&4, &'x') {
                taken += 1;
            }
        }
        assert_eq!(map.get_value_count(&4, &'x'), inserted - taken);
    }
    assert_eq!(inserted, 5);
    assert_eq!(taken, 5);
    assert_eq!(map.get_value_count(&4, &'x'), 0);
    assert_eq!(map.get_value_count(&4, &'y'), 5);
}

#[test]
fn key_never_inserted_is_absent() {
    let mut map: BTreeMultiMap<u32, u32> = BTreeMultiMap::new();
    map.insert(1, 10);
    map.insert(3, 30);
    map.remove_key_value(&1, &10);
    assert!(map.get(&2).is_none());
    assert_eq!(map.get_value_count(&2, &10), 0);
    assert_eq!(map.get_value_count(&2, &30), 0);
    assert_eq!(map.get_value_count(&1, &30), 0);
}

#[test]
fn last_removal_leaves_the_key_with_an_empty_bag() {
    let mut map: BTreeMultiMap<&str, u32> = BTreeMultiMap::new();
    map.insert("k", 5);
    map.insert("k", 5);
    map.insert("k", 5);
    assert!(map.remove_key_value(&"k", &5));
    assert!(map.remove_key_value(&"k", &5));
    assert_eq!(map.get_value_count(&"k", &5), 1);
    assert!(map.remove_key_value(&"k", &5));
    assert_eq!(map.get_value_count(&"k", &5), 0);
    let bag: &BTreeMap<u32, usize> = map.get(&"k").unwrap();
    assert!(!bag.contains_key(&5));
    assert!(bag.is_empty());
    assert_eq!(map.keys(), vec![&"k"]);
    assert!(!map.remove_key_value(&"k", &5));
    assert!(map.get(&"k").is_some());
}

#[test]
fn removal_of_one_value_keeps_the_others() {
    let mut map: BTreeMultiMap<u8, u8> = BTreeMultiMap::new();
    map.insert(1, 1);
    map.insert(1, 2);
    assert!(map.remove_key_value(&1, &1));
    assert_eq!(map.get_value_count(&1, &1), 0);
    assert_eq!(map.get_value_count(&1, &2), 1);
    assert_eq!(map.values(&1), vec![&2]);
}

#[test]
fn removal_of_an_absent_pair_changes_nothing() {
    let mut map: BTreeMultiMap<u8, u8> = BTreeMultiMap::new();
    map.insert(1, 1);
    let before: BTreeMultiMap<u8, u8> = map.clone();
    assert!(!map.remove_key_value(&2, &1));
    assert!(!map.remove_key_value(&1, &2));
    assert_eq!(map, before);
    assert!(map.get(&2).is_none());
}

#[test]
fn remove_hands_back_the_whole_bag() {
    let mut map: BTreeMultiMap<&str, u32> = BTreeMultiMap::new();
    map.insert("a", 1);
    map.insert("a", 1);
    map.insert("a", 2);
    map.insert("b", 3);
    let bag: BTreeMap<u32, usize> = map.remove(&"a").unwrap();
    assert_eq!(bag, BTreeMap::from([(1, 2), (2, 1)]));
    assert!(map.get(&"a").is_none());
    assert_eq!(map.get_value_count(&"a", &1), 0);
    assert_eq!(map.get_value_count(&"b", &3), 1);
}

#[test]
fn remove_of_an_absent_key_changes_nothing() {
    let mut map: BTreeMultiMap<&str, u32> = BTreeMultiMap::new();
    map.insert("a", 1);
    let before: BTreeMultiMap<&str, u32> = map.clone();
    assert!(map.remove(&"z").is_none());
    assert_eq!(map, before);
}

#[test]
fn remove_clears_a_stale_key() {
    let mut map: BTreeMultiMap<u8, u8> = BTreeMultiMap::new();
    map.insert(1, 1);
    assert!(map.remove_key_value(&1, &1));
    let bag: BTreeMap<u8, usize> = map.remove(&1).unwrap();
    assert!(bag.is_empty());
    assert!(map.get(&1).is_none());
}

#[test]
fn clear_forgets_every_key() {
    let mut map: BTreeMultiMap<u8, u8> = BTreeMultiMap::new();
    map.insert(1, 1);
    map.insert(1, 1);
    map.insert(2, 5);
    map.clear();
    assert!(map.get(&1).is_none());
    assert!(map.get(&2).is_none());
    assert_eq!(map.get_value_count(&1, &1), 0);
    assert_eq!(map, BTreeMultiMap::new());
    map.insert(1, 1);
    assert_eq!(map.get_value_count(&1, &1), 1);
}

#[test]
fn from_iter_accumulates_counts() {
    let pairs: Vec<(&str, u32)> = vec![("a", 1), ("a", 1), ("a", 2), ("b", 3)];
    let map: BTreeMultiMap<&str, u32> = BTreeMultiMap::from_iter(pairs.into_iter());
    assert_eq!(map.get_value_count(&"a", &1), 2);
    assert_eq!(map.get_value_count(&"a", &2), 1);
    assert_eq!(map.get_value_count(&"b", &3), 1);
    assert_eq!(map.get_value_count(&"b", &1), 0);
    assert_eq!(map.keys(), vec![&"a", &"b"]);
}

#[test]
fn from_iter_is_repeated_insert() {
    let pairs: Vec<(u8, u8)> = vec![(3, 1), (1, 1), (3, 1), (2, 9), (3, 0)];
    let built: BTreeMultiMap<u8, u8> = BTreeMultiMap::from_iter(pairs.clone().into_iter());
    let mut by_hand: BTreeMultiMap<u8, u8> = BTreeMultiMap::new();
    for (key, value) in pairs {
        by_hand.insert(key, value);
    }
    assert_eq!(built, by_hand);
}

#[test]
fn from_iter_of_nothing_is_empty() {
    let pairs: Vec<(u8, u8)> = Vec::new();
    let map: BTreeMultiMap<u8, u8> = BTreeMultiMap::from_iter(pairs.into_iter());
    assert_eq!(map, BTreeMultiMap::new());
    assert!(map.keys().is_empty());
}

#[test]
fn equality_ignores_insertion_order() {
    let mut one: BTreeMultiMap<u8, u8> = BTreeMultiMap::new();
    one.insert(1, 1);
    one.insert(2, 2);
    one.insert(1, 1);
    let mut other: BTreeMultiMap<u8, u8> = BTreeMultiMap::new();
    other.insert(1, 1);
    other.insert(1, 1);
    other.insert(2, 2);
    assert_eq!(one, other);
    other.insert(2, 2);
    assert_ne!(one, other);
}

#[test]
fn clone_holds_the_same_counts() {
    let mut map: BTreeMultiMap<String, u8> = BTreeMultiMap::new();
    map.insert(String::from("a"), 1);
    map.insert(String::from("a"), 1);
    let mut copy: BTreeMultiMap<String, u8> = map.clone();
    assert_eq!(copy, map);
    assert_eq!(copy.get_value_count(&String::from("a"), &1), 2);
    copy.insert(String::from("a"), 1);
    assert_eq!(copy.get_value_count(&String::from("a"), &1), 3);
    assert_eq!(map.get_value_count(&String::from("a"), &1), 2);
}

#[test]
fn keys_come_out_ascending() {
    let mut map: BTreeMultiMap<i32, u8> = BTreeMultiMap::new();
    map.insert(5, 0);
    map.insert(-3, 0);
    map.insert(9, 0);
    map.insert(0, 0);
    map.insert(5, 1);
    assert_eq!(map.keys(), vec![&-3, &0, &5, &9]);
}

#[test]
fn values_come_out_ascending_and_once_each() {
    let mut map: BTreeMultiMap<u8, &str> = BTreeMultiMap::new();
    map.insert(1, "pear");
    map.insert(1, "apple");
    map.insert(1, "pear");
    map.insert(1, "fig");
    map.insert(2, "zest");
    assert_eq!(map.values(&1), vec![&"apple", &"fig", &"pear"]);
    assert_eq!(map.values(&2), vec![&"zest"]);
    assert!(map.values(&3).is_empty());
    let bag: &BTreeMap<&str, usize> = map.get(&1).unwrap();
    let walked: Vec<(&str, usize)> = bag.iter().map(|(value, count)| (*value, *count)).collect();
    assert_eq!(walked, vec![("apple", 1), ("fig", 1), ("pear", 2)]);
}

#[test]
fn debug_output_is_in_key_order() {
    let mut map: BTreeMultiMap<u8, u8> = BTreeMultiMap::new();
    map.insert(2, 1);
    map.insert(1, 7);
    map.insert(1, 7);
    assert_eq!(format!("{:?}", map), "BTreeMultiMap { map: {1: {7: 2}, 2: {1: 1}} }");
}
