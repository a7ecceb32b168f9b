//! The concurrent hash maps of the `concurrent_hashmap` crate that back the cache.
//!
//! The cache keeps two maps: the files it holds, and the access count of every file it has seen.
//! What a map holds is named by a multiset of (key, value) entries: the crate's map may, after
//! removals, hold two entries with one key, and its iterator yields every entry it holds.
use crate::in_memory_file::{FileStats, InMemoryFile};
use concurrent_hashmap::{ConcHashMap, Options};
use std::collections::hash_map::RandomState;
use vstd::multiset::Multiset;
use vstd::prelude::*;

verus! {

use crate::entries::{has_key, unique_keys};

#[verifier::external_type_specification]
#[verifier::external_body]
#[verifier::reject_recursive_types(K)]
#[verifier::reject_recursive_types(V)]
#[verifier::reject_recursive_types(H)]
pub struct ExConcHashMap<K: Send + Sync, V: Send + Sync, H>(ConcHashMap<K, V, H>);

/// The map type that holds the cached files, keyed by path.
pub type FileMap = ConcHashMap<String, InMemoryFile, RandomState>;

/// The map type that holds access counts, keyed by path.
pub type CountMap = ConcHashMap<String, usize, RandomState>;

/// The (path, file) entries that a file map holds.
pub uninterp spec fn file_map_entries(m: ConcHashMap<String, InMemoryFile, RandomState>) -> Multiset<(Seq<char>, (Seq<u8>, FileStats))>;

/// The concurrency setting that a file map was created with.
pub uninterp spec fn file_map_concurrency(m: ConcHashMap<String, InMemoryFile, RandomState>) -> u16;

/// The (path, access count) entries that a count map holds.
pub uninterp spec fn count_map_entries(m: ConcHashMap<String, usize, RandomState>) -> Multiset<(Seq<char>, usize)>;

/// The concurrency setting that a count map was created with.
pub uninterp spec fn count_map_concurrency(m: ConcHashMap<String, usize, RandomState>) -> u16;

/// Calls `ConcHashMap::new`: an empty map, with the default concurrency setting of 16.
#[verifier::external_body]
pub(crate) fn new_file_map() -> (m: FileMap)
    ensures
        file_map_entries(m) == Multiset::<(Seq<char>, (Seq<u8>, FileStats))>::empty(),
        file_map_concurrency(m) == 16,
{
    ConcHashMap::<String, InMemoryFile, RandomState>::new()
}

/// Calls `ConcHashMap::with_options` with the default options but for the concurrency setting:
/// an empty map, created with that concurrency setting.
#[verifier::external_body]
pub(crate) fn file_map_with_concurrency(concurrency: u16) -> (m: FileMap)
    ensures
        file_map_entries(m) == Multiset::<(Seq<char>, (Seq<u8>, FileStats))>::empty(),
        file_map_concurrency(m) == concurrency,
{
    let mut options: Options<RandomState> = Options::default();
    options.concurrency = concurrency;
    ConcHashMap::with_options(options)
}

/// Calls `ConcHashMap::find` and copies the file out of the accessor (the bytes are shared):
/// `None` when no entry has the key, else the file of an entry with the key.
#[verifier::external_body]
pub(crate) fn file_map_find(m: &FileMap, key: &str) -> (r: Option<InMemoryFile>)
    ensures
        r is None <==> !has_key(file_map_entries(*m), key@),
        r matches Some(f) ==> file_map_entries(*m).count((key@, f@)) > 0,
{
    match m.find(key) {
        Some(accessor) => Some(accessor.get().clone()),
        None => None,
    }
}

/// Calls `ConcHashMap::insert` on a map that holds no key twice. For a key that no entry has,
/// the entry is added (a table that grows re-inserts its entries, which keeps them all while their
/// keys differ). For a key that some entry has, the new entry is either added beside the old one
/// (after removals the crate may place it in an earlier free slot) or replaces it.
#[verifier::external_body]
pub(crate) fn file_map_insert(m: &mut FileMap, key: String, value: InMemoryFile)
    requires
        unique_keys(file_map_entries(*old(m))),
    ensures
        !has_key(file_map_entries(*old(m)), key@) ==> file_map_entries(*final(m))
            == file_map_entries(*old(m)).insert((key@, value@)),
        has_key(file_map_entries(*old(m)), key@) ==> (file_map_entries(*final(m))
            == file_map_entries(*old(m)).insert((key@, value@)) || exists|w: (Seq<u8>, FileStats)|
            file_map_entries(*old(m)).count((key@, w)) > 0 && file_map_entries(*final(m))
                == file_map_entries(*old(m)).remove((key@, w)).insert((key@, value@))),
        file_map_concurrency(*final(m)) == file_map_concurrency(*old(m)),
{
    m.insert(key, value);
}

/// Calls `ConcHashMap::remove`: `None`, with the map unchanged, when no entry has the key; else
/// one entry with the key is taken out and its file returned.
#[verifier::external_body]
pub(crate) fn file_map_remove(m: &mut FileMap, key: &str) -> (r: Option<InMemoryFile>)
    ensures
        r is None <==> !has_key(file_map_entries(*old(m)), key@),
        r is None ==> file_map_entries(*final(m)) == file_map_entries(*old(m)),
        r matches Some(f) ==> file_map_entries(*old(m)).count((key@, f@)) > 0 && file_map_entries(
            *final(m),
        ) == file_map_entries(*old(m)).remove((key@, f@)),
        file_map_concurrency(*final(m)) == file_map_concurrency(*old(m)),
{
    m.remove(key)
}

/// Calls `ConcHashMap::iter` and collects the entries (keys copied, bytes shared): every entry
/// the map holds, once, in an order that the hashing decides.
#[verifier::external_body]
pub(crate) fn file_map_iter(m: &FileMap) -> (r: Vec<(String, InMemoryFile)>)
    ensures
        r@.map_values(|e: (String, InMemoryFile)| (e.0@, e.1@)).to_multiset() == file_map_entries(*m),
{
    m.iter().map(|(k, v)| (k.clone(), v.clone())).collect()
}

/// Calls `ConcHashMap::new`: an empty map, with the default concurrency setting of 16.
#[verifier::external_body]
pub(crate) fn new_count_map() -> (m: CountMap)
    ensures
        count_map_entries(m) == Multiset::<(Seq<char>, usize)>::empty(),
        count_map_concurrency(m) == 16,
{
    ConcHashMap::<String, usize, RandomState>::new()
}

/// Calls `ConcHashMap::with_options` with the default options but for the concurrency setting:
/// an empty map, created with that concurrency setting.
#[verifier::external_body]
pub(crate) fn count_map_with_concurrency(concurrency: u16) -> (m: CountMap)
    ensures
        count_map_entries(m) == Multiset::<(Seq<char>, usize)>::empty(),
        count_map_concurrency(m) == concurrency,
{
    let mut options: Options<RandomState> = Options::default();
    options.concurrency = concurrency;
    ConcHashMap::with_options(options)
}

/// Calls `ConcHashMap::find` and copies the count out of the accessor: `None` when no entry has
/// the key, else the count of an entry with the key.
#[verifier::external_body]
pub(crate) fn count_map_find(m: &CountMap, key: &str) -> (r: Option<usize>)
    ensures
        r is None <==> !has_key(count_map_entries(*m), key@),
        r matches Some(c) ==> count_map_entries(*m).count((key@, c)) > 0,
{
    match m.find(key) {
        Some(accessor) => Some(*accessor.get()),
        None => None,
    }
}

/// Calls `ConcHashMap::insert` on a map that holds no key twice. For a key that no entry has,
/// the entry is added. For a key that some entry has, the new entry is either added beside the
/// old one or replaces it.
#[verifier::external_body]
pub(crate) fn count_map_insert(m: &mut CountMap, key: String, value: usize)
    requires
        unique_keys(count_map_entries(*old(m))),
    ensures
        !has_key(count_map_entries(*old(m)), key@) ==> count_map_entries(*final(m))
            == count_map_entries(*old(m)).insert((key@, value)),
        has_key(count_map_entries(*old(m)), key@) ==> (count_map_entries(*final(m))
            == count_map_entries(*old(m)).insert((key@, value)) || exists|w: usize|
            count_map_entries(*old(m)).count((key@, w)) > 0 && count_map_entries(*final(m))
                == count_map_entries(*old(m)).remove((key@, w)).insert((key@, value))),
        count_map_concurrency(*final(m)) == count_map_concurrency(*old(m)),
{
    m.insert(key, value);
}

/// Calls `ConcHashMap::remove`: `None`, with the map unchanged, when no entry has the key; else
/// one entry with the key is taken out and its count returned.
#[verifier::external_body]
pub(crate) fn count_map_remove(m: &mut CountMap, key: &str) -> (r: Option<usize>)
    ensures
        r is None <==> !has_key(count_map_entries(*old(m)), key@),
        r is None ==> count_map_entries(*final(m)) == count_map_entries(*old(m)),
        r matches Some(c) ==> count_map_entries(*old(m)).count((key@, c)) > 0 && count_map_entries(
            *final(m),
        ) == count_map_entries(*old(m)).remove((key@, c)),
        count_map_concurrency(*final(m)) == count_map_concurrency(*old(m)),
{
    m.remove(key)
}

/// Calls `ConcHashMap::iter` and collects the entries (keys copied): every entry the map holds,
/// once, in an order that the hashing decides.
#[verifier::external_body]
pub(crate) fn count_map_iter(m: &CountMap) -> (r: Vec<(String, usize)>)
    ensures
        r@.map_values(|e: (String, usize)| (e.0@, e.1)).to_multiset() == count_map_entries(*m),
{
    m.iter().map(|(k, v)| (k.clone(), *v)).collect()
}

} // verus!
