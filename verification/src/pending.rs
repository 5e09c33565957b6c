//! The table of those who wait for an answer, shared by all who send requests.

use dashmap::DashMap;
use vstd::prelude::*;

verus! {

/// The concurrent map of the crate `dashmap`.
#[verifier::external_type_specification]
#[verifier::external_body]
#[verifier::reject_recursive_types(K)]
#[verifier::reject_recursive_types(V)]
#[verifier::reject_recursive_types(S)]
pub struct ExDashMap<K, V, S>(dashmap::DashMap<K, V, S>);

/// The entries of a concurrent map.
pub uninterp spec fn dash_entries(table: DashMap<u32, u64>) -> Map<u32, u64>;

/// Calls `DashMap::new`, which gives an empty map.
#[verifier::external_body]
pub(crate) fn dash_new() -> (made: DashMap<u32, u64>)
    ensures
        (dash_entries(made) == Map::<u32, u64>::empty()),
{
    DashMap::new()
}

/// Calls `DashMap::insert`, which gives the key its new value and returns the value that it had.
#[verifier::external_body]
pub(crate) fn dash_insert(
    table: &mut DashMap<u32, u64>,
    key: u32,
    value: u64,
) -> (replaced: Option<u64>)
    ensures
        dash_entries(*final(table)) == dash_entries(*old(table)).insert(key, value),
        replaced == (if dash_entries(*old(table)).contains_key(key) {
            Some(dash_entries(*old(table))[key])
        } else {
            None
        }),
{
    table.insert(key, value)
}

/// Calls `DashMap::remove`, which takes the key out of the map and returns the value that it had.
#[verifier::external_body]
pub(crate) fn dash_remove(table: &mut DashMap<u32, u64>, key: u32) -> (removed: Option<u64>)
    ensures
        dash_entries(*final(table)) == dash_entries(*old(table)).remove(key),
        removed == (if dash_entries(*old(table)).contains_key(key) {
            Some(dash_entries(*old(table))[key])
        } else {
            None
        }),
{
    table.remove(&key).map(|entry| entry.1)
}

} // verus!
