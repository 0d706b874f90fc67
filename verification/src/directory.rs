//! The concurrent map that backs the registry, and what is taken on trust
//! about it.
//!
//! Every function in this file calls into `dashmap`; its contract is believed,
//! not proved. The map is only ever changed through an exclusive reference, so
//! that what it holds is a function of the calls made on it.

use dashmap::DashMap;
use vstd::prelude::*;

verus! {

#[verifier::external_type_specification]
#[verifier::external_body]
#[verifier::reject_recursive_types(K)]
#[verifier::reject_recursive_types(V)]
#[verifier::reject_recursive_types(S)]
pub struct ExDashMap<K, V, S>(DashMap<K, V, S>);

/// The entries that a map of names to channels holds: each name with the
/// channel stored under it.
pub uninterp spec fn directory_entries(directory: DashMap<String, u64>) -> Map<Seq<char>, u64>;

/// The names of a list of entries, in the order of the list.
pub open spec fn entry_names(entries: Seq<(String, u64)>) -> Seq<Seq<char>> {
    entries.map_values(|entry: (String, u64)| entry.0@)
}

/// Whether `count` is the number of entries of a map that holds finitely many.
pub open spec fn counts(entries: Map<Seq<char>, u64>, count: usize) -> bool {
    entries.dom().finite() && count == entries.dom().len()
}

/// `DashMap::new`: a map without entries.
#[verifier::external_body]
pub(crate) fn directory_new() -> (fresh: DashMap<String, u64>)
    ensures
        forall|name: Seq<char>| !directory_entries(fresh).contains_key(name),
{
    DashMap::new()
}

/// `DashMap::contains_key`: whether an entry is stored under the name.
#[verifier::external_body]
pub(crate) fn directory_contains(directory: &DashMap<String, u64>, name: &str) -> (found: bool)
    ensures
        found == directory_entries(*directory).contains_key(name@),
{
    directory.contains_key(name)
}

/// `DashMap::insert`: stores the channel under the name, in place of the one
/// that was stored there, and hands back the one it replaced.
#[verifier::external_body]
pub(crate) fn directory_insert(
    directory: &mut DashMap<String, u64>,
    name: String,
    channel: u64,
) -> (replaced: Option<u64>)
    ensures
        directory_entries(*final(directory)) == directory_entries(*old(directory)).insert(
            name@,
            channel,
        ),
        replaced == if directory_entries(*old(directory)).contains_key(name@) {
            Some(directory_entries(*old(directory))[name@])
        } else {
            None
        },
{
    directory.insert(name, channel)
}

/// `DashMap::remove`: takes the entry under the name out, if there is one, and
/// hands back the channel it held.
#[verifier::external_body]
pub(crate) fn directory_remove(directory: &mut DashMap<String, u64>, name: &str) -> (removed:
    Option<u64>)
    ensures
        directory_entries(*final(directory)) == directory_entries(*old(directory)).remove(name@),
        removed == if directory_entries(*old(directory)).contains_key(name@) {
            Some(directory_entries(*old(directory))[name@])
        } else {
            None
        },
{
    directory.remove(name).map(|entry| entry.1)
}

/// `DashMap::len`: the number of entries, of which there are finitely many.
#[verifier::external_body]
pub(crate) fn directory_len(directory: &DashMap<String, u64>) -> (count: usize)
    ensures
        counts(directory_entries(*directory), count),
{
    directory.len()
}

/// `DashMap::iter`: walks the map and yields every entry once. The order of
/// the walk is not stated: it follows the map's hashing.
#[verifier::external_body]
pub(crate) fn directory_list(directory: &DashMap<String, u64>) -> (entries: Vec<(String, u64)>)
    ensures
        entry_names(entries@).no_duplicates(),
        entry_names(entries@).to_set() == directory_entries(*directory).dom(),
        forall|i: int|
            0 <= i < entries@.len() ==> directory_entries(*directory)[#[trigger] entries@[i].0@]
                == entries@[i].1,
{
    directory.iter().map(|entry| (entry.key().clone(), *entry.value())).collect()
}

} // verus!
