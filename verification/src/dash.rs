use dashmap::DashMap;
use vstd::prelude::*;

verus! {

#[verifier::external_type_specification]
#[verifier::external_body]
#[verifier::reject_recursive_types(K)]
#[verifier::reject_recursive_types(V)]
#[verifier::reject_recursive_types(S)]
pub struct ExDashMap<K, V, S>(DashMap<K, V, S>);

/// What a map from actor ids to counters holds.
pub uninterp spec fn pending_counts(m: DashMap<u64, usize>) -> Map<u64, usize>;

/// The keys that a map of unit values holds.
pub uninterp spec fn key_set(m: DashMap<u64, ()>) -> Set<u64>;

/// `DashMap::new`: an empty map.
#[verifier::external_body]
pub(crate) fn counts_new() -> (m: DashMap<u64, usize>)
    ensures
        pending_counts(m).dom() == Set::<u64>::empty(),
{
    DashMap::new()
}

/// `DashMap::insert`: maps `k` to `v`, and returns the value `k` had before.
#[verifier::external_body]
pub(crate) fn counts_insert(m: &mut DashMap<u64, usize>, k: u64, v: usize) -> (r: Option<usize>)
    ensures
        pending_counts(*final(m)) == pending_counts(*old(m)).insert(k, v),
        r == (if pending_counts(*old(m)).contains_key(k) {
            Some(pending_counts(*old(m))[k])
        } else {
            None
        }),
{
    m.insert(k, v)
}

/// `DashMap::get`: a copy of the value `k` maps to, if any.
#[verifier::external_body]
pub(crate) fn counts_get(m: &DashMap<u64, usize>, k: &u64) -> (r: Option<usize>)
    ensures
        r == (if pending_counts(*m).contains_key(*k) {
            Some(pending_counts(*m)[*k])
        } else {
            None
        }),
{
    match m.get(k) {
        Some(entry) => Some(*entry),
        None => None,
    }
}

/// `DashMap::remove`: removes the entry of `k`, and returns its value, if any.
#[verifier::external_body]
pub(crate) fn counts_remove(m: &mut DashMap<u64, usize>, k: &u64) -> (r: Option<usize>)
    ensures
        pending_counts(*final(m)) == pending_counts(*old(m)).remove(*k),
        r == (if pending_counts(*old(m)).contains_key(*k) {
            Some(pending_counts(*old(m))[*k])
        } else {
            None
        }),
{
    match m.remove(k) {
        Some((_, v)) => Some(v),
        None => None,
    }
}

/// `DashMap::is_empty`: whether the map holds no entry.
#[verifier::external_body]
pub(crate) fn counts_is_empty(m: &DashMap<u64, usize>) -> (r: bool)
    ensures
        r == (pending_counts(*m).dom() == Set::<u64>::empty()),
{
    m.is_empty()
}

/// `DashMap::clear`: removes every entry.
#[verifier::external_body]
pub(crate) fn counts_clear(m: &mut DashMap<u64, usize>)
    ensures
        pending_counts(*final(m)).dom() == Set::<u64>::empty(),
{
    m.clear()
}

/// `DashMap::new`: an empty map.
#[verifier::external_body]
pub(crate) fn set_new() -> (m: DashMap<u64, ()>)
    ensures
        key_set(m) == Set::<u64>::empty(),
{
    DashMap::new()
}

/// `DashMap::insert`: adds `k`.
#[verifier::external_body]
pub(crate) fn set_insert(m: &mut DashMap<u64, ()>, k: u64)
    ensures
        key_set(*final(m)) == key_set(*old(m)).insert(k),
{
    m.insert(k, ());
}

/// `DashMap::remove`: removes `k`, and says whether it was there.
#[verifier::external_body]
pub(crate) fn set_remove(m: &mut DashMap<u64, ()>, k: &u64) -> (r: bool)
    ensures
        key_set(*final(m)) == key_set(*old(m)).remove(*k),
        r == key_set(*old(m)).contains(*k),
{
    m.remove(k).is_some()
}

/// `DashMap::len`: the number of entries.
#[verifier::external_body]
pub(crate) fn set_len(m: &DashMap<u64, ()>) -> (r: usize)
    ensures
        r == key_set(*m).len(),
{
    m.len()
}

/// `DashMap::is_empty`: whether the map holds no entry.
#[verifier::external_body]
pub(crate) fn set_is_empty(m: &DashMap<u64, ()>) -> (r: bool)
    ensures
        r == (key_set(*m) == Set::<u64>::empty()),
{
    m.is_empty()
}

/// `DashMap::clear`: removes every entry.
#[verifier::external_body]
pub(crate) fn set_clear(m: &mut DashMap<u64, ()>)
    ensures
        key_set(*final(m)) == Set::<u64>::empty(),
{
    m.clear()
}

/// `DashMap::contains_key`: whether `k` is there.
#[verifier::external_body]
pub(crate) fn set_contains(m: &DashMap<u64, ()>, k: &u64) -> (r: bool)
    ensures
        r == key_set(*m).contains(*k),
{
    m.contains_key(k)
}

} // verus!
