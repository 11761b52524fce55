use rustc_hash::{FxBuildHasher, FxHashMap, FxHashSet};
use vstd::prelude::*;

verus! {

/// `rustc_hash`'s hash builder, the hasher of `FxHashMap` and `FxHashSet`.
#[verifier::external_type_specification]
#[verifier::external_body]
pub struct ExFxBuildHasher(FxBuildHasher);

/// The map with no entries.
pub open spec fn empty_key_map<V>() -> Map<u128, V> {
    Map::empty()
}

/// An empty `FxHashMap`, made with `Default::default` (an empty `HashMap` with
/// `FxBuildHasher`). The contract claims that the map holds nothing.
#[verifier::external_body]
pub(crate) fn fx_map_new<V>() -> (res: FxHashMap<u128, V>)
    ensures
        res@ == empty_key_map::<V>(),
{
    FxHashMap::default()
}

/// `HashMap::get` on an `FxHashMap` keyed by `u128`. The contract claims that the value
/// stored under `k` is returned, and `None` where there is none: `u128`'s `Eq` and
/// `Hash` agree and `FxBuildHasher` hashes deterministically.
#[verifier::external_body]
pub(crate) fn fx_map_get<V>(m: &FxHashMap<u128, V>, k: u128) -> (res: Option<&V>)
    ensures
        match res {
            Some(v) => m@.contains_key(k) && *v == m@[k],
            None => !m@.contains_key(k),
        },
{
    m.get(&k)
}

/// `HashMap::contains_key` on an `FxHashMap` keyed by `u128`. The contract claims that
/// the result tells whether a value is stored under `k`.
#[verifier::external_body]
pub(crate) fn fx_map_contains_key<V>(m: &FxHashMap<u128, V>, k: u128) -> (res: bool)
    ensures
        res == m@.contains_key(k),
{
    m.contains_key(&k)
}

/// `HashMap::insert` on an `FxHashMap` keyed by `u128`. The contract claims that `v` is
/// stored under `k`, nothing else changes, and the value it replaces is returned.
#[verifier::external_body]
pub(crate) fn fx_map_insert<V>(m: &mut FxHashMap<u128, V>, k: u128, v: V) -> (res: Option<V>)
    ensures
        final(m)@ == old(m)@.insert(k, v),
        match res {
            Some(prev) => old(m)@.contains_key(k) && prev == old(m)@[k],
            None => !old(m)@.contains_key(k),
        },
{
    m.insert(k, v)
}

/// `HashMap::remove` on an `FxHashMap` keyed by `u128`. The contract claims that the
/// entry under `k` is taken out and returned, and nothing else changes.
#[verifier::external_body]
pub(crate) fn fx_map_remove<V>(m: &mut FxHashMap<u128, V>, k: u128) -> (res: Option<V>)
    ensures
        final(m)@ == old(m)@.remove(k),
        match res {
            Some(prev) => old(m)@.contains_key(k) && prev == old(m)@[k],
            None => !old(m)@.contains_key(k),
        },
{
    m.remove(&k)
}

/// An empty `FxHashSet`, made with `Default::default`. The contract claims that the set
/// holds nothing.
#[verifier::external_body]
pub(crate) fn fx_set_new() -> (res: FxHashSet<u128>)
    ensures
        res@ == Set::<u128>::empty(),
{
    FxHashSet::default()
}

/// `HashSet::contains` on an `FxHashSet` of `u128`. The contract claims that the result
/// tells whether `k` is in the set.
#[verifier::external_body]
pub(crate) fn fx_set_contains(s: &FxHashSet<u128>, k: u128) -> (res: bool)
    ensures
        res == s@.contains(k),
{
    s.contains(&k)
}

/// `HashSet::insert` on an `FxHashSet` of `u128`. The contract claims that `k` is added,
/// nothing else changes, and the result tells whether it was absent.
#[verifier::external_body]
pub(crate) fn fx_set_insert(s: &mut FxHashSet<u128>, k: u128) -> (res: bool)
    ensures
        final(s)@ == old(s)@.insert(k),
        res == !old(s)@.contains(k),
{
    s.insert(k)
}

/// `HashSet::remove` on an `FxHashSet` of `u128`. The contract claims that `k` is taken
/// out, nothing else changes, and the result tells whether it was present.
#[verifier::external_body]
pub(crate) fn fx_set_remove(s: &mut FxHashSet<u128>, k: u128) -> (res: bool)
    ensures
        final(s)@ == old(s)@.remove(k),
        res == old(s)@.contains(k),
{
    s.remove(&k)
}

} // verus!
