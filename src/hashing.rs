//! The hash maps that hold a graph: `std`'s `HashMap` with fnv's hasher.
use fnv::{FnvHashMap, FnvHasher};
use std::hash::{BuildHasherDefault, Hash};
use vstd::prelude::*;
use vstd::std_specs::hash::obeys_key_model;

verus! {

/// fnv's `FnvHasher`, carried opaquely as part of the maps' hasher type.
#[verifier::external_type_specification]
#[verifier::external_body]
pub struct ExFnvHasher(FnvHasher);

/// std's `BuildHasherDefault`, which builds a fresh `FnvHasher` per hash.
#[verifier::external_type_specification]
#[verifier::external_body]
#[verifier::reject_recursive_types(H)]
pub struct ExBuildHasherDefault<H>(BuildHasherDefault<H>);

/// An empty map (std's `Default` for `HashMap`, as vstd specifies it).
pub fn map_new<K, V>() -> (m: FnvHashMap<K, V>)
    ensures
        m@ == Map::<K, V>::empty(),
{
    FnvHashMap::default()
}

/// Relies on `HashMap::insert` under fnv's hasher. `FnvHasher` hashes
/// deterministically, so for a key type with a lawful `Hash` and `Eq` the map
/// afterwards sends `k` to `v` and every other key where it did before.
#[verifier::external_body]
pub fn map_insert<K: Eq + Hash, V>(m: &mut FnvHashMap<K, V>, k: K, v: V)
    ensures
        obeys_key_model::<K>() ==> final(m)@ == old(m)@.insert(k, v),
{
    m.insert(k, v);
}

/// Relies on `HashMap::remove` under fnv's hasher: it takes out the entry of
/// `k` and hands back its value, if there was one.
#[verifier::external_body]
pub fn map_remove<K: Eq + Hash, V>(m: &mut FnvHashMap<K, V>, k: &K) -> (r: Option<V>)
    ensures
        obeys_key_model::<K>() ==> final(m)@ == old(m)@.remove(*k),
        obeys_key_model::<K>() ==> match r {
            Some(v) => old(m)@.contains_key(*k) && v == old(m)@[*k],
            None => !old(m)@.contains_key(*k),
        },
{
    m.remove(k)
}

/// Relies on `HashMap::get` under fnv's hasher: the value of `k`, if any.
#[verifier::external_body]
pub fn map_get<'a, K: Eq + Hash, V>(m: &'a FnvHashMap<K, V>, k: &K) -> (r: Option<&'a V>)
    ensures
        obeys_key_model::<K>() ==> match r {
            Some(v) => m@.contains_key(*k) && *v == m@[*k],
            None => !m@.contains_key(*k),
        },
{
    m.get(k)
}

/// Relies on `HashMap::len`: the number of keys in the map.
#[verifier::external_body]
pub fn map_len<K, V>(m: &FnvHashMap<K, V>) -> (r: usize)
    ensures
        obeys_key_model::<K>() ==> r == m@.len(),
{
    m.len()
}

/// The keys of a list of entries.
pub open spec fn entry_keys<K, V>(entries: Seq<(&K, &V)>) -> Seq<K> {
    entries.map_values(|e: (&K, &V)| *e.0)
}

/// Relies on `HashMap::iter`: it visits each entry of the map once, in an
/// order that the map's layout decides.
#[verifier::external_body]
pub fn map_entries<'a, K, V>(m: &'a FnvHashMap<K, V>) -> (r: Vec<(&'a K, &'a V)>)
    ensures
        obeys_key_model::<K>() ==> {
            &&& entry_keys(r@).no_duplicates()
            &&& forall|i: int|
                0 <= i < r@.len() ==> m@.contains_key(*r@[i].0) && m@[*r@[i].0] == *r@[i].1
            &&& forall|k: K| m@.contains_key(k) ==> exists|i: int| 0 <= i < r@.len() && *r@[i].0 == k
        },
{
    m.iter().collect()
}

} // verus!
