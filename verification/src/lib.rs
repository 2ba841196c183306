//! Ordered multimaps over the standard B-tree collections.
//!
//! [`BTreeMultiMap`] keeps, for every key, a bag of values: each value is
//! stored together with the number of times it has been inserted under that
//! key. [`BTreeSetMultiMap`] keeps a plain set of values per key instead.
//! Keys and values are held in their natural order.
pub mod bag;
pub mod btree;
pub mod history;
pub mod members;
pub mod multimap;
pub mod order;
pub mod set_multimap;

pub use multimap::BTreeMultiMap;
pub use set_multimap::BTreeSetMultiMap;
