//! The fast hash map and hash set of `rustc_hash`, keyed by integers.
//!
//! `FxHashMap` and `FxHashSet` are std's `HashMap` and `HashSet` built with
//! `FxBuildHasher`, whose `build_hasher` always returns the same fresh
//! `FxHasher`: equal keys always hash alike. The items below state what std's
//! documentation promises of each call on such a collection.
use vstd::prelude::*;
use rustc_hash::{FxHashMap, FxHashSet};

verus! {

#[verifier::external_type_specification]
#[verifier::external_body]
pub struct ExFxBuildHasher(rustc_hash::FxBuildHasher);

/// `HashMap::remove` on an `FxHashMap`: the key leaves the map, and its value,
/// if it had one, comes back.
#[verifier::external_body]
pub(crate) fn fx_map_remove<V>(m: &mut FxHashMap<u64, V>, k: u64) -> (r: Option<V>)
    ensures
        final(m)@ == old(m)@.remove(k),
        r is Some <==> old(m)@.contains_key(k),
        r matches Some(v) ==> v == old(m)@[k],
{
    m.remove(&k)
}

/// `HashMap::insert` on an `FxHashMap`: the key now maps to `v`; the value it
/// had before, if any, comes back.
#[verifier::external_body]
pub(crate) fn fx_map_insert<V>(m: &mut FxHashMap<u64, V>, k: u64, v: V) -> (r: Option<V>)
    ensures
        final(m)@ == old(m)@.insert(k, v),
        r is Some <==> old(m)@.contains_key(k),
        r matches Some(w) ==> w == old(m)@[k],
{
    m.insert(k, v)
}

/// `HashMap::get` on an `FxHashMap`: the value of the key, if it has one.
#[verifier::external_body]
pub(crate) fn fx_map_get<'a, V>(m: &'a FxHashMap<u64, V>, k: u64) -> (r: Option<&'a V>)
    ensures
        r is Some <==> m@.contains_key(k),
        r matches Some(v) ==> *v == m@[k],
{
    m.get(&k)
}

/// `HashSet::insert` on an `FxHashSet`: the key is in the set afterwards; the
/// result says whether it was new.
#[verifier::external_body]
pub(crate) fn fx_set_insert(s: &mut FxHashSet<u64>, k: u64) -> (r: bool)
    ensures
        final(s)@ == old(s)@.insert(k),
        r == !old(s)@.contains(k),
{
    s.insert(k)
}

/// `HashSet::contains` on an `FxHashSet`.
#[verifier::external_body]
pub(crate) fn fx_set_contains(s: &FxHashSet<u64>, k: u64) -> (r: bool)
    ensures
        r == s@.contains(k),
{
    s.contains(&k)
}

} // verus!
