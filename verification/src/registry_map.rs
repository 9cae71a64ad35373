//! Trusted boundary to the concurrent id-to-handle map.
//!
//! The registry keeps its directory in a `dashmap::DashMap`, so that
//! simultaneous lookups and insertions from arbitrary worker threads do not
//! block each other except on the key being mutated. Verus does not read
//! that crate; everything it believes about the map is stated here, against
//! `registry_contents`, the name for what the map currently holds.

use vstd::prelude::*;

use crate::process::ProcessHandle;
use dashmap::DashMap;

verus! {

#[verifier::external_type_specification]
#[verifier::external_body]
#[verifier::reject_recursive_types(K)]
#[verifier::reject_recursive_types(V)]
#[verifier::reject_recursive_types(S)]
pub struct ExDashMap<K, V, S>(DashMap<K, V, S>);

/// The concurrent directory the registry keeps: process id to handle.
pub type RegistryMap = DashMap<u64, ProcessHandle>;

/// What the map currently holds, as a mathematical map from process id to
/// handle. Given meaning only through the contracts of the wrappers below.
pub uninterp spec fn registry_contents(m: RegistryMap) -> Map<u64, ProcessHandle>;

/// Relies on dashmap::DashMap::new: a freshly created map holds no entries.
#[verifier::external_body]
pub(crate) fn registry_new() -> (r: RegistryMap)
    ensures
        registry_contents(r) =~= Map::empty(),
{
    DashMap::new()
}

/// Relies on dashmap::DashMap::insert: stores `value` under `key` and
/// returns the value previously stored there, if any.
#[verifier::external_body]
pub(crate) fn registry_insert(m: &mut RegistryMap, key: u64, value: ProcessHandle) -> (prev:
    Option<ProcessHandle>)
    ensures
        registry_contents(*final(m)) == registry_contents(*old(m)).insert(key, value),
        prev == if registry_contents(*old(m)).dom().contains(key) {
            Some(registry_contents(*old(m))[key])
        } else {
            None::<ProcessHandle>
        },
{
    m.insert(key, value)
}

/// Relies on dashmap::DashMap::get: returns the value stored under `key`,
/// if any, without changing the map.
#[verifier::external_body]
pub(crate) fn registry_get(m: &RegistryMap, key: u64) -> (r: Option<ProcessHandle>)
    ensures
        r == if registry_contents(*m).dom().contains(key) {
            Some(registry_contents(*m)[key])
        } else {
            None::<ProcessHandle>
        },
{
    m.get(&key).map(|entry| *entry)
}

/// Relies on dashmap::DashMap::remove: takes the entry for `key` out of the
/// map and returns its value, if one was there.
#[verifier::external_body]
pub(crate) fn registry_remove(m: &mut RegistryMap, key: u64) -> (r: Option<ProcessHandle>)
    ensures
        registry_contents(*final(m)) == registry_contents(*old(m)).remove(key),
        r == if registry_contents(*old(m)).dom().contains(key) {
            Some(registry_contents(*old(m))[key])
        } else {
            None::<ProcessHandle>
        },
{
    m.remove(&key).map(|kv| kv.1)
}

} // verus!
