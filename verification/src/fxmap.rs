//! The element-keyed hash maps of the engine. They are `rustc_hash`'s
//! `FxHashMap`: std's `HashMap` with the Fx hasher. The few map operations
//! the engine uses are declared here with the behavior std documents for
//! `HashMap`, which does not depend on the hasher.
use vstd::prelude::*;
use rustc_hash::{FxBuildHasher, FxHashMap};

verus! {

/// `rustc_hash::FxBuildHasher`, the hasher builder of `FxHashMap`.
#[verifier::external_type_specification]
#[verifier::external_body]
pub struct ExFxBuildHasher(FxBuildHasher);

/// `FxHashMap::default()` (std's `HashMap::default`): a new map that holds no entry.
#[verifier::external_body]
pub(crate) fn map_new<V>() -> (m: FxHashMap<u32, V>)
    ensures
        m@.is_empty(),
{
    FxHashMap::default()
}

/// std's `HashMap::get`: the value stored under `k`, if any.
#[verifier::external_body]
pub(crate) fn map_get<V>(m: &FxHashMap<u32, V>, k: u32) -> (r: Option<&V>)
    ensures
        match r {
            Some(v) => m@.contains_key(k) && *v == m@[k],
            None => !m@.contains_key(k),
        },
{
    m.get(&k)
}

/// std's `HashMap::contains_key`: whether an entry is stored under `k`.
#[verifier::external_body]
pub(crate) fn map_contains<V>(m: &FxHashMap<u32, V>, k: u32) -> (r: bool)
    ensures
        r == m@.contains_key(k),
{
    m.contains_key(&k)
}

/// std's `HashMap::insert`: stores `v` under `k`, replacing any earlier value,
/// which it returns.
#[verifier::external_body]
pub(crate) fn map_insert<V>(m: &mut FxHashMap<u32, V>, k: u32, v: V) -> (r: Option<V>)
    ensures
        final(m)@ == old(m)@.insert(k, v),
        match r {
            Some(prev) => old(m)@.contains_key(k) && prev == old(m)@[k],
            None => !old(m)@.contains_key(k),
        },
{
    m.insert(k, v)
}

/// std's `HashMap::remove`: takes the value stored under `k` out of the map.
#[verifier::external_body]
pub(crate) fn map_remove<V>(m: &mut FxHashMap<u32, V>, k: u32) -> (r: Option<V>)
    ensures
        final(m)@ == old(m)@.remove(k),
        match r {
            Some(prev) => old(m)@.contains_key(k) && prev == old(m)@[k],
            None => !old(m)@.contains_key(k),
        },
{
    m.remove(&k)
}

/// std's `HashMap::clear`: removes every entry.
#[verifier::external_body]
pub(crate) fn map_clear<V>(m: &mut FxHashMap<u32, V>)
    ensures
        final(m)@.is_empty(),
{
    m.clear()
}

} // verus!
