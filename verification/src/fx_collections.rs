//! The hash maps and hash sets of `rustc_hash`, as the allocator uses them.
//!
//! `FxHashMap` and `FxHashSet` are the standard collections with the `Fx`
//! hasher. Nothing is proved about the hasher; each function below makes
//! one call on such a collection and states, over its view, what the
//! standard library documents for that call. The maps are keyed by integers
//! and the sets hold pairs of integers, whose equality and hashing the
//! standard library defines.
use rustc_hash::FxHashMap;
use rustc_hash::FxHashSet;
use rustc_hash::FxHasher;
use std::hash::BuildHasherDefault;
use std::hash::Hash;
use vstd::prelude::*;
use vstd::std_specs::hash::obeys_key_model;

verus! {

/// `rustc_hash::FxHasher`, the hasher of the collections below. Nothing is
/// said about what it computes.
#[verifier::external_type_specification]
#[verifier::external_body]
pub struct ExFxHasher(FxHasher);

/// `std::hash::BuildHasherDefault`, through which `FxHashMap` and
/// `FxHashSet` name their hasher.
#[verifier::external_type_specification]
#[verifier::external_body]
#[verifier::reject_recursive_types(H)]
pub struct ExBuildHasherDefault<H>(BuildHasherDefault<H>);

/// `FxHashMap::default`: a map that holds nothing.
#[verifier::external_body]
pub(crate) fn map_new<K, V>() -> (m: FxHashMap<K, V>)
    ensures
        (m@ == Map::<K, V>::empty()),
{
    FxHashMap::default()
}

/// `HashMap::len` on an `FxHashMap`: the number of keys.
#[verifier::external_body]
pub(crate) fn map_len<K, V>(m: &FxHashMap<K, V>) -> (n: usize)
    requires
        obeys_key_model::<K>(),
    ensures
        n == m@.len(),
{
    m.len()
}

/// `HashMap::insert` on an `FxHashMap`: `k` now maps to `v`, the other keys
/// are untouched, and the value that `k` had before comes back.
#[verifier::external_body]
pub(crate) fn map_insert<K: Eq + Hash, V>(m: &mut FxHashMap<K, V>, k: K, v: V) -> (r: Option<V>)
    requires
        obeys_key_model::<K>(),
    ensures
        final(m)@ == old(m)@.insert(k, v),
        r == old(m)@.get(k),
{
    m.insert(k, v)
}

/// `HashMap::get` on an `FxHashMap`: the value under `k`, if there is one.
#[verifier::external_body]
pub(crate) fn map_get<'a, K: Eq + Hash, V>(m: &'a FxHashMap<K, V>, k: &K) -> (r: Option<&'a V>)
    requires
        obeys_key_model::<K>(),
    ensures
        match r {
            Some(v) => m@.contains_key(*k) && *v == m@[*k],
            None => !m@.contains_key(*k),
        },
{
    m.get(k)
}

/// `HashMap::get_mut` on an `FxHashMap`: a reference to the value under `k`,
/// if there is one. What is written through it is what the map holds under
/// `k` afterwards; nothing else changes.
#[verifier::external_body]
pub(crate) fn map_get_mut<'a, K: Eq + Hash, V>(
    m: &'a mut FxHashMap<K, V>,
    k: &K,
) -> (r: Option<&'a mut V>)
    requires
        obeys_key_model::<K>(),
    ensures
        match r {
            Some(v) => {
                &&& old(m)@.contains_key(*k)
                &&& *v == old(m)@[*k]
                &&& final(m)@ == old(m)@.insert(*k, *final(v))
            },
            None => !old(m)@.contains_key(*k) && final(m)@ == old(m)@,
        },
{
    m.get_mut(k)
}

/// `HashMap::remove` on an `FxHashMap`: `k` is no longer a key, the other
/// keys are untouched, and the value that `k` had comes back.
#[verifier::external_body]
pub(crate) fn map_remove<K: Eq + Hash, V>(m: &mut FxHashMap<K, V>, k: &K) -> (r: Option<V>)
    requires
        obeys_key_model::<K>(),
    ensures
        final(m)@ == old(m)@.remove(*k),
        r == old(m)@.get(*k),
{
    m.remove(k)
}

/// `FxHashSet::default`: a set that holds nothing.
#[verifier::external_body]
pub(crate) fn set_new() -> (s: FxHashSet<(u64, usize)>)
    ensures
        s@.is_empty(),
{
    FxHashSet::default()
}

/// `HashSet::insert` on an `FxHashSet` of integer pairs: the pair is now a
/// member; the result says whether it was not one before.
#[verifier::external_body]
pub(crate) fn set_insert(s: &mut FxHashSet<(u64, usize)>, item: (u64, usize)) -> (fresh: bool)
    ensures
        final(s)@ == old(s)@.insert(item),
        fresh == !old(s)@.contains(item),
{
    s.insert(item)
}

/// `HashSet::remove` on an `FxHashSet` of integer pairs: the pair is no
/// longer a member; the result says whether it was one before.
#[verifier::external_body]
pub(crate) fn set_remove(s: &mut FxHashSet<(u64, usize)>, item: &(u64, usize)) -> (present: bool)
    ensures
        final(s)@ == old(s)@.remove(*item),
        present == old(s)@.contains(*item),
{
    s.remove(item)
}

/// `HashSet::contains` on an `FxHashSet` of integer pairs.
#[verifier::external_body]
pub(crate) fn set_contains(s: &FxHashSet<(u64, usize)>, item: &(u64, usize)) -> (present: bool)
    ensures
        present == s@.contains(*item),
{
    s.contains(item)
}

/// `HashSet::is_empty` on an `FxHashSet` of integer pairs.
#[verifier::external_body]
pub(crate) fn set_is_empty(s: &FxHashSet<(u64, usize)>) -> (empty: bool)
    ensures
        empty == s@.is_empty(),
{
    s.is_empty()
}

/// `HashSet::len` on an `FxHashSet` of integer pairs: the number of members.
#[verifier::external_body]
pub(crate) fn set_len(s: &FxHashSet<(u64, usize)>) -> (n: usize)
    ensures
        n == s@.len(),
{
    s.len()
}

/// `HashSet::iter` on an `FxHashSet` of integer pairs, each member copied
/// out once. The order in which a hash set is walked is left open.
#[verifier::external_body]
pub(crate) fn set_items(s: &FxHashSet<(u64, usize)>) -> (items: Vec<(u64, usize)>)
    ensures
        items@.to_set() == s@,
        items@.no_duplicates(),
{
    s.iter().copied().collect()
}

} // verus!
