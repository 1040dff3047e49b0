//! The hash maps of the object cache.
//!
//! The cache keeps its tables in [`fxhash::FxHashMap`], the standard hash map
//! with the `fxhash` hasher. What the map's methods do is taken on trust from
//! their documentation and stated here over the map's view, for integer keys
//! only: their `Hash` and `Eq` are the standard library's own.

use fxhash::FxHashMap;
use std::hash::Hash;
use vstd::prelude::*;

verus! {

/// The hasher of `fxhash`. Nothing is said of what it computes.
#[verifier::external_type_specification]
#[verifier::external_body]
pub struct ExFxHasher(fxhash::FxHasher);

/// The standard library's builder of default hashers, of which
/// `FxHashMap` is made.
#[verifier::external_type_specification]
#[verifier::external_body]
#[verifier::reject_recursive_types(H)]
pub struct ExBuildHasherDefault<H>(core::hash::BuildHasherDefault<H>);

/// `HashMap::insert`: afterwards the key maps to the value and every other
/// entry is as before; the value that the key had before is handed back.
#[verifier::external_body]
pub(crate) fn fx_insert<K: Integer + Hash + Eq, V>(
    m: &mut FxHashMap<K, V>,
    key: K,
    value: V,
) -> (previous: Option<V>)
    ensures
        final(m)@ == old(m)@.insert(key, value),
        previous == (if old(m)@.contains_key(key) { Some(old(m)@[key]) } else { None::<V> }),
{
    m.insert(key, value)
}

/// `HashMap::get`: the entry of the key, if the map has one.
#[verifier::external_body]
pub(crate) fn fx_get<'a, K: Integer + Hash + Eq, V>(m: &'a FxHashMap<K, V>, key: K) -> (found:
    Option<&'a V>)
    ensures
        found == (if m@.contains_key(key) { Some(&m@[key]) } else { None::<&V> }),
{
    m.get(&key)
}

/// `HashMap::remove`: afterwards the key has no entry and every other entry
/// is as before; the value that the key had is handed back.
#[verifier::external_body]
pub(crate) fn fx_remove<K: Integer + Hash + Eq, V>(m: &mut FxHashMap<K, V>, key: K) -> (removed:
    Option<V>)
    ensures
        final(m)@ == old(m)@.remove(key),
        removed == (if old(m)@.contains_key(key) { Some(old(m)@[key]) } else { None::<V> }),
{
    m.remove(&key)
}

/// `HashMap::keys`: every key of the map once, in an order that the map
/// chooses.
#[verifier::external_body]
pub(crate) fn fx_keys<V>(m: &FxHashMap<u64, V>) -> (keys: Vec<u64>)
    ensures
        keys@.no_duplicates(),
        keys@.to_set() == m@.dom(),
{
    m.keys().copied().collect()
}

} // verus!
