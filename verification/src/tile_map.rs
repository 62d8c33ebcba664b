//! Maps keyed by tile identifiers, held in `ahash::AHashMap`.
use vstd::prelude::*;

use ahash::AHashMap;

verus! {

#[verifier::external_type_specification]
#[verifier::external_body]
pub struct ExRandomState(ahash::RandomState);

#[verifier::external_type_specification]
#[verifier::external_body]
#[verifier::reject_recursive_types(K)]
#[verifier::reject_recursive_types(V)]
#[verifier::reject_recursive_types(S)]
pub struct ExAHashMap<K, V, S>(ahash::AHashMap<K, V, S>);

/// The entries of a map from tile identifiers to counters.
pub uninterp spec fn tile_map_entries(m: AHashMap<u8, i32>) -> Map<u8, i32>;

/// `AHashMap::new`: a map with no entries.
#[verifier::external_body]
pub(crate) fn tile_map_new() -> (res: AHashMap<u8, i32>)
    ensures
        tile_map_entries(res).is_empty(),
{
    AHashMap::new()
}

/// `AHashMap::get`: the value stored under `k`, if any.
#[verifier::external_body]
pub(crate) fn tile_map_get(m: &AHashMap<u8, i32>, k: u8) -> (res: Option<i32>)
    ensures
        match res {
            Some(v) => tile_map_entries(*m).dom().contains(k) && tile_map_entries(*m)[k] == v,
            None => !tile_map_entries(*m).dom().contains(k),
        },
{
    m.get(&k).copied()
}

/// `AHashMap::insert`: stores `v` under `k`, replacing any previous value.
#[verifier::external_body]
pub(crate) fn tile_map_insert(m: &mut AHashMap<u8, i32>, k: u8, v: i32)
    ensures
        tile_map_entries(*final(m)) == tile_map_entries(*old(m)).insert(k, v),
{
    m.insert(k, v);
}

/// `AHashMap::remove`: drops the entry under `k`, if any.
#[verifier::external_body]
pub(crate) fn tile_map_remove(m: &mut AHashMap<u8, i32>, k: u8)
    ensures
        tile_map_entries(*final(m)) == tile_map_entries(*old(m)).remove(k),
{
    m.remove(&k);
}

/// `HashMap::is_empty`, through `AHashMap`'s `Deref`: whether the map has no entries.
#[verifier::external_body]
pub(crate) fn tile_map_is_empty(m: &AHashMap<u8, i32>) -> (res: bool)
    ensures
        res == tile_map_entries(*m).is_empty(),
{
    m.is_empty()
}

} // verus!
