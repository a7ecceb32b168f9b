//! The cache: which files it holds, how it counts accesses, and how it decides what to keep.
use crate::cached_file::{CachedFile, NamedInMemoryFile};
use crate::conc_map::{
    count_map_concurrency, count_map_entries, count_map_find, count_map_insert, count_map_iter,
    count_map_remove, count_map_with_concurrency, file_map_concurrency, file_map_entries,
    file_map_find, file_map_insert, file_map_iter, file_map_remove, file_map_with_concurrency,
    new_count_map, new_file_map, CountMap, FileMap,
};
use crate::in_memory_file::{FileStats, InMemoryFile};
use crate::eviction::{
    is_priority_order, lemma_listing_permutation, lemma_listing_total, lemma_prefix_total, paths_view,
    room_plan, make_room_from, seq_total_size, sort_by_priority, stats_of, stats_view, total_size,
};
use crate::priority_function::{DefaultPriority, PriorityFunction};
use vstd::prelude::*;

verus! {

use crate::entries::{
    entries_map, lemma_empty, lemma_entry_in_map, lemma_insert_absent, lemma_remove_present,
    lemma_seq_lists_entries, lists_map, unique_keys,
};

/// Errors met when the cache tries to make room for a new file.
#[derive(Debug, PartialEq, Eq, Structural, Clone, Copy)]
pub enum CacheError {
    NoMoreFilesToRemove,
    NewPriorityIsNotHighEnough,
    InvalidMetadata,
    InvalidPath,
}

/// A rule that changes an access count.
pub trait CountFunction: Send + Sync {
    /// The count this rule gives for `count`.
    spec fn spec_apply(&self, count: usize) -> usize;

    /// Computes the new count.
    fn apply(&self, count: usize) -> (r: usize)
        ensures
            r == self.spec_apply(count),
    ;
}

/// Leaves an access count as it is: the age out rule of a cache that does not age out.
pub struct KeepCount;

impl CountFunction for KeepCount {
    open spec fn spec_apply(&self, count: usize) -> usize {
        count
    }

    fn apply(&self, count: usize) -> (r: usize) {
        count
    }
}

/// Holds related information used for "ageing out" files in the cache.
pub struct AgeOut<A: CountFunction> {
    /// If the cachewide access count modulo this value is 0, then the age out function will execute.
    /// A limit of 0 never ages out.
    pub accesses_limit: usize,
    /// Counts the number of accesses the whole cache has (wrapping around at `usize::MAX`).
    pub access_count: usize,
    /// The function that runs on every per-file access count, allowing newer items to gain relative precedence faster.
    pub age_out_function: A,
}

/// The cache holds a number of files whose bytes fit into its size_limit.
/// The cache acts as a proxy to the filesystem, returning cached files if they are in the cache,
/// or directing the caller to read a file directly from the filesystem if the file is not in the cache.
///
/// When the cache is full, each file in the cache will have priority score determined by a provided
/// priority function.
/// When a file is requested, an access counter for the file in question is incremented,
/// usually (depending on the supplied priority function) increasing the priority score of the file.
/// When a new file is attempted to be stored, it will calculate the priority of the new score and
/// compare that against the score of the file with the lowest priority in the cache.
/// If the new file's priority is higher, then the file in the cache will be removed and replaced
/// with the new file.
/// If removing the first file doesn't free up enough space for the new file, then the file with the
/// next lowest priority will have its priority added to the other removed file's and the aggregate
/// cached file's priority will be tested against the new file's.
///
/// This will repeat until either enough space can be freed for the new file, and the new file is
/// inserted, or until the priority of the cached files is greater than that of the new file,
/// in which case, the new file isn't inserted.
pub struct Cache<P: PriorityFunction = DefaultPriority, A: CountFunction = KeepCount> {
    /// The number of bytes the file_map should be able hold at once.
    pub size_limit: usize,
    /// The minimum number of bytes a file must have in order to be accepted into the Cache.
    pub min_file_size: usize,
    /// The maximum number of bytes a file can have in order to be accepted into the Cache.
    pub max_file_size: usize,
    /// The function that is used to calculate the priority score that is used to determine which files should be in the cache.
    pub priority_function: P,
    /// Related data used for "aging out" files in the cache.
    pub age_out: Option<AgeOut<A>>,
    /// If a given file's access count modulo this value equals 0, then that file will be refreshed from the FileSystem instead of from the Cache.
    pub accesses_per_refresh: Option<usize>,
    /// The files the cache holds and the access counts it keeps; only the cache's methods reach
    /// into them.
    pub maps: CacheMaps,
}

/// The two concurrent maps behind a cache. Their fields are private, so that only the cache's
/// methods change what they hold.
pub struct CacheMaps {
    /// Holds the files that the cache is caching.
    file_map: FileMap,
    /// Every file that is accessed has the number of times it was accessed logged in this map.
    access_count_map: CountMap,
}

impl CacheMaps {
    /// The files held, by path: their bytes and stats.
    pub closed spec fn files(&self) -> Map<Seq<char>, (Seq<u8>, FileStats)> {
        entries_map(file_map_entries(self.file_map))
    }

    /// The access count of every path counted.
    pub closed spec fn counts(&self) -> Map<Seq<char>, usize> {
        entries_map(count_map_entries(self.access_count_map))
    }

    /// The concurrency settings the two maps were created with.
    pub closed spec fn concurrency(&self) -> (u16, u16) {
        (file_map_concurrency(self.file_map), count_map_concurrency(self.access_count_map))
    }

    /// Neither map holds a key twice.
    pub closed spec fn wf(&self) -> bool {
        &&& unique_keys(file_map_entries(self.file_map))
        &&& unique_keys(count_map_entries(self.access_count_map))
    }
}

/// What the caller of `Cache::get` does next.
#[derive(Debug)]
pub enum GetAction {
    /// Hand this out; the request is complete.
    Serve(CachedFile),
    /// Read the file anew and call `Cache::refresh` with it.
    Refresh,
    /// Open the file on the file system and call `Cache::get_file_from_fs` with the outcome.
    OpenFromFileSystem { count_access: bool },
    /// Read the file into memory and call `Cache::get_file_from_fs_and_add_to_cache` with the bytes,
    /// these victims and this flag.
    ReadIntoCache { victims: Vec<String>, count_access: bool },
}

/// `c + 1`, kept at `usize::MAX` once there.
pub open spec fn saturating_inc(c: usize) -> usize {
    if c < usize::MAX {
        (c + 1) as usize
    } else {
        usize::MAX
    }
}

/// `c + 1`, wrapping around to 0 after `usize::MAX`.
pub open spec fn wrapping_inc(c: usize) -> usize {
    if c == usize::MAX {
        0
    } else {
        (c + 1) as usize
    }
}

/// The access counts after one access of `path`, ageing out included.
pub open spec fn counts_after_access<A: CountFunction>(
    counts: Map<Seq<char>, usize>,
    path: Seq<char>,
    age_out: Option<AgeOut<A>>,
) -> Map<Seq<char>, usize> {
    let bumped = counts.insert(
        path,
        if counts.contains_key(path) {
            saturating_inc(counts[path])
        } else {
            1
        },
    );
    match age_out {
        Some(a) => if a.accesses_limit > 0 && wrapping_inc(a.access_count) % a.accesses_limit == 0 {
            bumped.map_values(|c: usize| a.age_out_function.spec_apply(c))
        } else {
            bumped
        },
        None => bumped,
    }
}

/// The age out record after one access.
pub open spec fn age_out_after_access<A: CountFunction>(age_out: Option<AgeOut<A>>) -> Option<AgeOut<A>> {
    match age_out {
        Some(a) => Some(
            AgeOut {
                accesses_limit: a.accesses_limit,
                access_count: wrapping_inc(a.access_count),
                age_out_function: a.age_out_function,
            },
        ),
        None => None,
    }
}

/// The entry of a held file `path` once its stats are brought up to date with its access count in
/// `counts` (1 when it has none). A file of size 0 takes the size that the file system reports
/// (`metadata_size`), or keeps 0. The bytes stay.
pub open spec fn updated_entry<P: PriorityFunction>(
    files: Map<Seq<char>, (Seq<u8>, FileStats)>,
    counts: Map<Seq<char>, usize>,
    priority_function: P,
    path: Seq<char>,
    metadata_size: Option<usize>,
) -> (Seq<u8>, FileStats)
    recommends
        files.contains_key(path),
{
    let access_count = if counts.contains_key(path) {
        counts[path]
    } else {
        1
    };
    let old_stats = files[path].1;
    let size = if old_stats.size == 0 {
        match metadata_size {
            Some(s) => s,
            None => 0,
        }
    } else {
        old_stats.size
    };
    (files[path].0, FileStats { size, access_count, priority: priority_function.spec_priority(access_count, size) })
}

/// The files after the stats of `path` are brought up to date (see `updated_entry`); a path that
/// the cache does not hold leaves the files as they are.
pub open spec fn files_after_stats_update<P: PriorityFunction>(
    files: Map<Seq<char>, (Seq<u8>, FileStats)>,
    counts: Map<Seq<char>, usize>,
    priority_function: P,
    path: Seq<char>,
    metadata_size: Option<usize>,
) -> Map<Seq<char>, (Seq<u8>, FileStats)> {
    if files.contains_key(path) {
        files.insert(path, updated_entry(files, counts, priority_function, path, metadata_size))
    } else {
        files
    }
}

/// The size given for `path` by the first pair of `sizes` that names it.
pub open spec fn size_lookup(sizes: Seq<(Seq<char>, usize)>, path: Seq<char>) -> Option<usize>
    decreases sizes.len(),
{
    if sizes.len() == 0 {
        None
    } else if sizes[0].0 == path {
        Some(sizes[0].1)
    } else {
        size_lookup(sizes.drop_first(), path)
    }
}

/// The (path, size) pairs of a vector, as plain values.
pub open spec fn sizes_view(s: Seq<(String, usize)>) -> Seq<(Seq<char>, usize)> {
    s.map_values(|e: (String, usize)| (e.0@, e.1))
}

/// The files after the stats of every held, counted file are brought up to date with the access
/// counts `counts`, each taking its size on the file system from `sizes`. The same paths are held.
pub open spec fn files_after_altering<P: PriorityFunction>(
    files: Map<Seq<char>, (Seq<u8>, FileStats)>,
    counts: Map<Seq<char>, usize>,
    priority_function: P,
    sizes: Seq<(Seq<char>, usize)>,
) -> Map<Seq<char>, (Seq<u8>, FileStats)> {
    Map::new(
        |k: Seq<char>| files.contains_key(k),
        |k: Seq<char>|
            if counts.contains_key(k) {
                updated_entry(files, counts, priority_function, k, size_lookup(sizes, k))
            } else {
                files[k]
            },
    )
}

/// The files after a file read from the file system is added: the victims are taken out, the
/// new file is put in with its bytes, its size as the number of bytes and zero counts, and its
/// stats are brought up to date with `counts`.
pub open spec fn files_after_adding<P: PriorityFunction>(
    files: Map<Seq<char>, (Seq<u8>, FileStats)>,
    counts: Map<Seq<char>, usize>,
    priority_function: P,
    path: Seq<char>,
    bytes: Seq<u8>,
    victims: Seq<Seq<char>>,
    metadata_size: Option<usize>,
) -> Map<Seq<char>, (Seq<u8>, FileStats)> {
    files_after_stats_update(
        files.remove_keys(victims.to_set()).insert(
            path,
            (bytes, FileStats { size: bytes.len() as usize, access_count: 0, priority: 0 }),
        ),
        counts,
        priority_function,
        path,
        metadata_size,
    )
}

/// A cache that refreshes files every `accesses_per_refresh` accesses refreshes at this count.
pub open spec fn refresh_due(accesses_per_refresh: Option<usize>, access_count: usize) -> bool {
    match accesses_per_refresh {
        Some(n) => access_count % n == 0,
        None => false,
    }
}

/// Finds the size that `sizes` gives for `path`.
fn find_size(sizes: &Vec<(String, usize)>, path: &String) -> (r: Option<usize>)
    ensures
        r == size_lookup(sizes_view(sizes@), path@),
{
    let ghost all = sizes_view(sizes@);
    let mut i: usize = 0;
    proof {
        assert(all.skip(0) =~= all);
    }
    while i < sizes.len()
        invariant
            0 <= i <= sizes.len(),
            all == sizes_view(sizes@),
            size_lookup(all, path@) == size_lookup(all.skip(i as int), path@),
        decreases sizes.len() - i,
    {
        proof {
            assert(all.skip(i as int)[0] == (sizes@[i as int].0@, sizes@[i as int].1));
            assert(all.skip(i + 1) =~= all.skip(i as int).drop_first());
        }
        if sizes[i].0 == *path {
            return Some(sizes[i].1);
        }
        i = i + 1;
    }
    None
}

/// The room, in bytes, that the cache must free to take a file of `size` bytes when it holds
/// `used` bytes; negative when it has room to spare.
pub open spec fn required_space(used: int, size: usize, size_limit: usize) -> int {
    used + size - size_limit
}

/// `put_file`: the file map afterwards holds `value` for `key` and is otherwise unchanged.
fn put_file(map: &mut FileMap, key: String, value: InMemoryFile)
    requires
        unique_keys(file_map_entries(*old(map))),
    ensures
        unique_keys(file_map_entries(*final(map))),
        entries_map(file_map_entries(*final(map))) == entries_map(file_map_entries(*old(map))).insert(key@, value@),
        file_map_concurrency(*final(map)) == file_map_concurrency(*old(map)),
{
    let removed = file_map_remove(map, key.as_str());
    proof {
        match removed {
            Some(f) => {
                lemma_remove_present(file_map_entries(*old(map)), key@, f@);
            },
            None => {},
        }
    }
    let ghost mid = file_map_entries(*map);
    file_map_insert(map, key, value);
    proof {
        lemma_insert_absent(mid, key@, value@);
        assert(entries_map(mid).insert(key@, value@) =~= entries_map(file_map_entries(*old(map))).insert(key@, value@));
    }
}

/// `put_count`: the count map afterwards holds `value` for `key` and is otherwise unchanged.
fn put_count(map: &mut CountMap, key: String, value: usize)
    requires
        unique_keys(count_map_entries(*old(map))),
    ensures
        unique_keys(count_map_entries(*final(map))),
        entries_map(count_map_entries(*final(map))) == entries_map(count_map_entries(*old(map))).insert(key@, value),
        count_map_concurrency(*final(map)) == count_map_concurrency(*old(map)),
{
    let removed = count_map_remove(map, key.as_str());
    proof {
        match removed {
            Some(c) => {
                lemma_remove_present(count_map_entries(*old(map)), key@, c);
            },
            None => {},
        }
    }
    let ghost mid = count_map_entries(*map);
    count_map_insert(map, key, value);
    proof {
        lemma_insert_absent(mid, key@, value);
        assert(entries_map(mid).insert(key@, value) =~= entries_map(count_map_entries(*old(map))).insert(key@, value));
    }
}


/// Applies `f` to every count that the count map holds.
fn apply_to_counts<F: CountFunction>(map: &mut CountMap, f: &F)
    requires
        unique_keys(count_map_entries(*old(map))),
    ensures
        unique_keys(count_map_entries(*final(map))),
        entries_map(count_map_entries(*final(map))) == entries_map(count_map_entries(*old(map))).map_values(
            |c: usize| f.spec_apply(c),
        ),
        count_map_concurrency(*final(map)) == count_map_concurrency(*old(map)),
{
    let entries = count_map_iter(map);
    let ghost m0 = entries_map(count_map_entries(*map));
    let ghost s = entries@.map_values(|e: (String, usize)| (e.0@, e.1));
    proof {
        lemma_seq_lists_entries(s, count_map_entries(*map));
    }
    let mut i: usize = 0;
    while i < entries.len()
        invariant
            0 <= i <= entries.len(),
            s == entries@.map_values(|e: (String, usize)| (e.0@, e.1)),
            lists_map(s, m0),
            unique_keys(count_map_entries(*map)),
            count_map_concurrency(*map) == count_map_concurrency(*old(map)),
            m0 == entries_map(count_map_entries(*old(map))),
            entries_map(count_map_entries(*map)).dom() == m0.dom(),
            forall|j: int|
                0 <= j < i ==> #[trigger] entries_map(count_map_entries(*map))[s[j].0] == f.spec_apply(s[j].1),
            forall|k: Seq<char>|
                m0.contains_key(k) && (forall|j: int| 0 <= j < i ==> s[j].0 != k) ==> #[trigger] entries_map(
                    count_map_entries(*map),
                )[k] == m0[k],
        decreases entries.len() - i,
    {
        let key = entries[i].0.clone();
        let count = entries[i].1;
        let new_count = f.apply(count);
        let ghost before = entries_map(count_map_entries(*map));
        proof {
            assert(s[i as int] == (entries@[i as int].0@, entries@[i as int].1));
        }
        put_count(map, key, new_count);
        proof {
            let after = entries_map(count_map_entries(*map));
            assert(after == before.insert(s[i as int].0, f.spec_apply(s[i as int].1)));
            assert forall|j: int| 0 <= j < i + 1 implies #[trigger] after[s[j].0] == f.spec_apply(s[j].1) by {
                if j < i {
                    assert(s[j].0 != s[i as int].0);
                }
            }
            assert forall|k: Seq<char>|
                m0.contains_key(k) && (forall|j: int| 0 <= j < i + 1 ==> s[j].0 != k) implies #[trigger] after[k]
                == m0[k] by {
                assert(s[i as int].0 != k);
            }
            assert(after.dom() =~= m0.dom());
        }
        i = i + 1;
    }
    proof {
        let fin = entries_map(count_map_entries(*map));
        assert forall|k: Seq<char>| #[trigger] m0.contains_key(k) implies fin[k] == f.spec_apply(m0[k]) by {
            let j = choose|j: int| 0 <= j < s.len() && s[j].0 == k;
            assert(fin[s[j].0] == f.spec_apply(s[j].1));
        }
        assert(fin =~= m0.map_values(|c: usize| f.spec_apply(c)));
    }
}

impl<P: PriorityFunction, A: CountFunction> Cache<P, A> {
    /// The files the cache holds, by path: their bytes and stats.
    pub open spec fn files(&self) -> Map<Seq<char>, (Seq<u8>, FileStats)> {
        self.maps.files()
    }

    /// The access count of every path the cache has counted.
    pub open spec fn counts(&self) -> Map<Seq<char>, usize> {
        self.maps.counts()
    }

    /// The concurrency settings the two backing maps were created with.
    pub open spec fn concurrency(&self) -> (u16, u16) {
        self.maps.concurrency()
    }

    /// The cache is well formed: its maps hold no key twice, it holds and counts finitely many
    /// paths, and its settings are valid.
    pub open spec fn wf(&self) -> bool {
        &&& self.maps.wf()
        &&& self.files().dom().finite()
        &&& self.counts().dom().finite()
        &&& self.valid_settings()
    }

    /// Refreshing counts modulo a nonzero number of accesses.
    pub open spec fn valid_settings(&self) -> bool {
        self.accesses_per_refresh != Some(0usize)
    }

    /// Builds a cache with these settings and empty maps.
    pub(crate) fn from_parts(
        size_limit: usize,
        min_file_size: usize,
        max_file_size: usize,
        priority_function: P,
        age_out: Option<AgeOut<A>>,
        accesses_per_refresh: Option<usize>,
        concurrency: Option<u16>,
    ) -> (r: Cache<P, A>)
        requires
            accesses_per_refresh != Some(0usize),
        ensures
            r.wf(),
            r.size_limit == size_limit,
            r.min_file_size == min_file_size,
            r.max_file_size == max_file_size,
            r.priority_function == priority_function,
            r.age_out == age_out,
            r.accesses_per_refresh == accesses_per_refresh,
            r.files() == Map::<Seq<char>, (Seq<u8>, FileStats)>::empty(),
            r.counts() == Map::<Seq<char>, usize>::empty(),
            r.concurrency() == (match concurrency {
                Some(c) => (c, c),
                None => (16u16, 16u16),
            }),
    {
        let (file_map, access_count_map) = match concurrency {
            Some(c) => (file_map_with_concurrency(c), count_map_with_concurrency(c)),
            None => (new_file_map(), new_count_map()),
        };
        proof {
            lemma_empty::<(Seq<u8>, FileStats)>();
            lemma_empty::<usize>();
        }
        Cache {
            size_limit,
            min_file_size,
            max_file_size,
            priority_function,
            age_out,
            accesses_per_refresh,
            maps: CacheMaps { file_map, access_count_map },
        }
    }


    /// Helper function for incrementing the access count for a given file name.
    /// A count already at `usize::MAX` stays there.
    /// When the cache ages out, every access count is altered once the cachewide access count
    /// reaches the limit.
    fn increment_access_count(&mut self, path: &str)
        requires
            old(self).wf(),
        ensures
            final(self).wf(),
            final(self).files() == old(self).files(),
            final(self).counts() == counts_after_access(old(self).counts(), path@, old(self).age_out),
            final(self).age_out == age_out_after_access(old(self).age_out),
            final(self).size_limit == old(self).size_limit,
            final(self).min_file_size == old(self).min_file_size,
            final(self).max_file_size == old(self).max_file_size,
            final(self).priority_function == old(self).priority_function,
            final(self).accesses_per_refresh == old(self).accesses_per_refresh,
            final(self).concurrency() == old(self).concurrency(),
    {
        let current = count_map_find(&self.maps.access_count_map, path);
        proof {
            match current {
                Some(c) => lemma_entry_in_map(count_map_entries(self.maps.access_count_map), path@, c),
                None => {},
            }
        }
        let next: usize = match current {
            Some(c) => match c.checked_add(1) {
                Some(v) => v,
                None => usize::MAX,
            },
            None => 1,
        };
        put_count(&mut self.maps.access_count_map, path.to_owned(), next);
        let fire: bool = match &mut self.age_out {
            Some(a) => {
                a.access_count = if a.access_count == usize::MAX {
                    0
                } else {
                    a.access_count + 1
                };
                a.accesses_limit > 0 && a.access_count % a.accesses_limit == 0
            },
            None => false,
        };
        if fire {
            match &self.age_out {
                Some(a) => apply_to_counts(&mut self.maps.access_count_map, &a.age_out_function),
                None => {},
            }
        }
        proof {
            let bumped = old(self).counts().insert(path@, next);
            assert(bumped.dom() =~= old(self).counts().dom().insert(path@));
            match old(self).age_out {
                Some(a) => {
                    assert(bumped.map_values(|c: usize| a.age_out_function.spec_apply(c)).dom() =~= bumped.dom());
                },
                None => {},
            }
        }
    }

    /// Update the stats associated with this file: its access count, its size if that is 0
    /// (from `metadata_size`, what the file system reports), and its priority.
    /// A path that the cache does not hold is left out: the files stay as they are.
    fn update_stats(&mut self, path: &str, metadata_size: Option<usize>)
        requires
            old(self).wf(),
        ensures
            final(self).wf(),
            final(self).files() == files_after_stats_update(
                old(self).files(),
                old(self).counts(),
                old(self).priority_function,
                path@,
                metadata_size,
            ),
            final(self).counts() == old(self).counts(),
            final(self).age_out == old(self).age_out,
            final(self).size_limit == old(self).size_limit,
            final(self).min_file_size == old(self).min_file_size,
            final(self).max_file_size == old(self).max_file_size,
            final(self).priority_function == old(self).priority_function,
            final(self).accesses_per_refresh == old(self).accesses_per_refresh,
            final(self).concurrency() == old(self).concurrency(),
    {
        let found = count_map_find(&self.maps.access_count_map, path);
        proof {
            match found {
                Some(c) => lemma_entry_in_map(count_map_entries(self.maps.access_count_map), path@, c),
                None => {},
            }
        }
        let access_count: usize = match found {
            Some(c) => c,
            None => 1,
        };
        let ghost before = file_map_entries(self.maps.file_map);
        match file_map_remove(&mut self.maps.file_map, path) {
            Some(file) => {
                proof {
                    lemma_remove_present(before, path@, file@);
                }
                let size: usize = if file.stats.size == 0 {
                    match metadata_size {
                        Some(s) => s,
                        None => 0,
                    }
                } else {
                    file.stats.size
                };
                let priority = self.priority_function.priority(access_count, size);
                let updated = InMemoryFile {
                    bytes: file.bytes,
                    stats: FileStats { size, access_count, priority },
                };
                let ghost mid = file_map_entries(self.maps.file_map);
                file_map_insert(&mut self.maps.file_map, path.to_owned(), updated);
                proof {
                    lemma_insert_absent(mid, path@, updated@);
                    assert(entries_map(mid).insert(path@, updated@) =~= entries_map(before).insert(path@, updated@));
                }
            },
            None => {},
        }
    }


    /// Gets the sum of the sizes of the files that are stored in the cache.
    pub fn used_bytes(&self) -> (r: usize)
        requires
            self.wf(),
            total_size(self.files()) <= usize::MAX,
        ensures
            r == total_size(self.files()),
    {
        match self.checked_used_bytes() {
            Some(total) => total,
            None => 0,
        }
    }

    /// The sum of the sizes of the files in the cache, or `None` when it does not fit in a `usize`.
    fn checked_used_bytes(&self) -> (r: Option<usize>)
        requires
            self.wf(),
        ensures
            match r {
                Some(t) => t == total_size(self.files()),
                None => total_size(self.files()) > usize::MAX,
            },
    {
        let entries = file_map_iter(&self.maps.file_map);
        let ghost s = entries@.map_values(|e: (String, InMemoryFile)| (e.0@, e.1@));
        proof {
            lemma_seq_lists_entries(s, file_map_entries(self.maps.file_map));
            lemma_listing_total(s, self.files());
        }
        let mut total: usize = 0;
        let mut i: usize = 0;
        while i < entries.len()
            invariant
                0 <= i <= entries.len(),
                s == entries@.map_values(|e: (String, InMemoryFile)| (e.0@, e.1@)),
                total == seq_total_size(s.take(i as int)),
                seq_total_size(s) == total_size(self.files()),
            decreases entries.len() - i,
        {
            proof {
                lemma_prefix_total(s, i + 1);
                assert(s.take(i + 1).drop_last() =~= s.take(i as int));
                assert(s[i as int].1.1.size == entries@[i as int].1.stats.size);
            }
            match total.checked_add(entries[i].1.stats.size) {
                Some(t) => {
                    total = t;
                },
                None => {
                    return None;
                },
            }
            i = i + 1;
        }
        proof {
            assert(s.take(entries.len() as int) =~= s);
        }
        Some(total)
    }

    /// Tells whether the size of a new file of `size` bytes can be weighed against this cache:
    /// the sizes of the files it holds and the new file's add up within a `usize`.
    pub fn can_weigh_file(&self, size: usize) -> (r: bool)
        requires
            self.wf(),
        ensures
            r == self.can_weigh(size),
    {
        match self.checked_used_bytes() {
            Some(used) => used.checked_add(size).is_some(),
            None => false,
        }
    }

    /// The paths of the files the cache holds with a size of 0: the files whose size the file
    /// system is asked for when their stats are brought up to date.
    pub fn paths_without_size(&self) -> (r: Vec<String>)
        requires
            self.wf(),
        ensures
            forall|i: int|
                0 <= i < r@.len() ==> #[trigger] self.files().contains_key(r@[i]@) && self.files()[r@[i]@].1.size
                    == 0,
            forall|k: Seq<char>|
                #[trigger] self.files().contains_key(k) && self.files()[k].1.size == 0 ==> exists|i: int|
                    0 <= i < r@.len() && r@[i]@ == k,
    {
        let entries = file_map_iter(&self.maps.file_map);
        let ghost s = entries@.map_values(|e: (String, InMemoryFile)| (e.0@, e.1@));
        proof {
            lemma_seq_lists_entries(s, file_map_entries(self.maps.file_map));
        }
        let mut paths: Vec<String> = Vec::new();
        let mut i: usize = 0;
        while i < entries.len()
            invariant
                0 <= i <= entries.len(),
                s == entries@.map_values(|e: (String, InMemoryFile)| (e.0@, e.1@)),
                lists_map(s, self.files()),
                forall|j: int|
                    0 <= j < paths@.len() ==> #[trigger] self.files().contains_key(paths@[j]@)
                        && self.files()[paths@[j]@].1.size == 0,
                forall|j: int|
                    0 <= j < i && (#[trigger] s[j]).1.1.size == 0 ==> exists|q: int|
                        0 <= q < paths@.len() && paths@[q]@ == s[j].0,
            decreases entries.len() - i,
        {
            proof {
                assert(s[i as int] == (entries@[i as int].0@, entries@[i as int].1@));
            }
            if entries[i].1.stats.size == 0 {
                let ghost before = paths@;
                paths.push(entries[i].0.clone());
                proof {
                    assert(paths@[before.len() as int]@ == s[i as int].0);
                    assert forall|j: int|
                        0 <= j < i + 1 && (#[trigger] s[j]).1.1.size == 0 implies exists|q: int|
                        0 <= q < paths@.len() && paths@[q]@ == s[j].0 by {
                        if j < i {
                            let q = choose|q: int| 0 <= q < before.len() && before[q]@ == s[j].0;
                            assert(paths@[q] == before[q]);
                        } else {
                            assert(paths@[before.len() as int]@ == s[j].0);
                        }
                    }
                }
            }
            i = i + 1;
        }
        proof {
            assert forall|k: Seq<char>|
                #[trigger] self.files().contains_key(k) && self.files()[k].1.size == 0 implies exists|q: int|
                0 <= q < paths@.len() && paths@[q]@ == k by {
                let j = choose|j: int| 0 <= j < s.len() && s[j].0 == k;
                assert(s[j].1.1.size == 0);
            }
        }
        paths
    }

    /// Gets the path and stats of every file in the cache, sorted from highest to lowest
    /// priority, so that the last one popped from the vector has the lowest priority, and
    /// is therefore the most eligible candidate for elimination from the cache.
    fn sorted_priorities(&self) -> (r: Vec<(String, FileStats)>)
        requires
            self.wf(),
        ensures
            is_priority_order(stats_view(r@), self.files()),
    {
        let entries = file_map_iter(&self.maps.file_map);
        let ghost s = entries@.map_values(|e: (String, InMemoryFile)| (e.0@, e.1@));
        proof {
            lemma_seq_lists_entries(s, file_map_entries(self.maps.file_map));
        }
        let mut pairs: Vec<(String, FileStats)> = Vec::new();
        let mut i: usize = 0;
        while i < entries.len()
            invariant
                0 <= i <= entries.len(),
                s == entries@.map_values(|e: (String, InMemoryFile)| (e.0@, e.1@)),
                pairs@.len() == i,
                forall|j: int| 0 <= j < i ==> #[trigger] stats_view(pairs@)[j] == (s[j].0, s[j].1.1),
            decreases entries.len() - i,
        {
            let key = entries[i].0.clone();
            let st = entries[i].1.stats;
            let ghost pairs_before = pairs@;
            pairs.push((key, st));
            proof {
                assert(s[i as int] == (entries@[i as int].0@, entries@[i as int].1@));
                assert forall|j: int| 0 <= j < i + 1 implies #[trigger] stats_view(pairs@)[j] == (s[j].0, s[j].1.1) by {
                    if j < i {
                        assert(pairs@[j] == pairs_before[j]);
                        assert(stats_view(pairs_before)[j] == (s[j].0, s[j].1.1));
                    } else {
                        assert(pairs@[j] == (key, st));
                    }
                }
            }
            i = i + 1;
        }
        let ghost t = stats_view(pairs@);
        proof {
            let m = stats_of(self.files());
            assert forall|j: int| 0 <= j < t.len() implies #[trigger] m.contains_key(t[j].0) && m[t[j].0]
                == t[j].1 by {
                assert(t[j] == (s[j].0, s[j].1.1));
            }
            assert forall|a: int, b: int| 0 <= a < b < t.len() implies #[trigger] t[a].0 != #[trigger] t[b].0 by {
                assert(t[a].0 == s[a].0);
                assert(t[b].0 == s[b].0);
            }
            assert forall|k: Seq<char>| #[trigger] m.contains_key(k) implies exists|j: int| 0 <= j < t.len() && t[j].0 == k by {
                let j = choose|j: int| 0 <= j < s.len() && s[j].0 == k;
                assert(t[j].0 == k);
            }
        }
        let sorted = sort_by_priority(pairs);
        proof {
            lemma_listing_permutation(t, stats_view(sorted@), stats_of(self.files()));
        }
        sorted
    }


    /// The settings that only the caller changes are the same in both.
    pub open spec fn same_settings(&self, other: &Self) -> bool {
        &&& self.size_limit == other.size_limit
        &&& self.min_file_size == other.min_file_size
        &&& self.max_file_size == other.max_file_size
        &&& self.priority_function == other.priority_function
        &&& self.accesses_per_refresh == other.accesses_per_refresh
        &&& self.concurrency() == other.concurrency()
    }

    /// Both hold the same files and access counts, and count accesses alike.
    pub open spec fn same_contents(&self, other: &Self) -> bool {
        &&& self.files() == other.files()
        &&& self.counts() == other.counts()
        &&& self.age_out == other.age_out
    }

    /// The bytes of the files the cache holds and of a new file of `size` bytes add up within a
    /// `usize`.
    pub open spec fn can_weigh(&self, size: usize) -> bool {
        total_size(self.files()) + size <= usize::MAX
    }

    /// `post` is `pre` after one access of `path` was counted, ageing out included.
    pub open spec fn counted_access(pre: Self, post: Self, path: Seq<char>) -> bool {
        &&& post.files() == pre.files()
        &&& post.counts() == counts_after_access(pre.counts(), path, pre.age_out)
        &&& post.age_out == age_out_after_access(pre.age_out)
    }

    /// What `try_insert` does and answers for a path the cache does not hold, whose size on the
    /// file system is `metadata_size` (`None` when it cannot be read).
    ///
    /// A file outside the size bounds is to be read from the file system, and its access counted
    /// once it is opened. A file that fits in the room left (the bytes held and its own staying
    /// under the size limit) is to be read into the cache, its
    /// access counted then. Otherwise the access is counted now, and the file is to be read into
    /// the cache in place of the files that `room_plan` picks, lowest priority first, from the
    /// files ordered by priority (the order among equal priorities is the hash map's); if no
    /// room can be made, it is to be read from the file system.
    pub open spec fn insert_outcome(
        pre: Self,
        post: Self,
        path: Seq<char>,
        metadata_size: Option<usize>,
        r: GetAction,
    ) -> bool {
        match metadata_size {
            None => r == GetAction::Serve(CachedFile::NotFound) && post.same_contents(&pre),
            Some(size) => {
                let required = required_space(total_size(pre.files()), size, pre.size_limit);
                if size > pre.max_file_size || size < pre.min_file_size {
                    &&& r == GetAction::OpenFromFileSystem { count_access: true }
                    &&& post.same_contents(&pre)
                } else if required < 0 {
                    &&& r matches GetAction::ReadIntoCache { victims, count_access }
                    &&& victims@.len() == 0
                    &&& count_access
                    &&& post.same_contents(&pre)
                } else {
                    &&& Self::counted_access(pre, post, path)
                    &&& exists|order: Seq<(Seq<char>, FileStats)>|
                        #![trigger is_priority_order(order, pre.files())]
                        is_priority_order(order, pre.files()) && match room_plan(
                            order,
                            required,
                            pre.priority_function.spec_priority(post.counts()[path], size) as int,
                        ) {
                            Ok(paths) => r matches GetAction::ReadIntoCache { victims, count_access }
                                && paths_view(victims@) == paths && !count_access,
                            Err(_) => r == GetAction::OpenFromFileSystem { count_access: false },
                        }
                }
            },
        }
    }

    /// Attempt to store a given file in the cache, or decide where it is to be read from.
    /// Storing will fail if the current files have, together, more priority than the file being added.
    /// If the provided file has more priority than the files that must make room for it,
    /// a file will have to be removed from the cache to make room for the new file.
    ///
    /// The size of the file to be inserted (`metadata_size`, from the file system) is used to
    /// check if the file could be inserted, before the file is read into memory.
    /// If it can't be added, it is to be read from the file system directly, so that the whole
    /// file is not read into memory before being read through again to set the response body.
    fn try_insert(&mut self, path: &str, metadata_size: Option<usize>) -> (r: GetAction)
        requires
            old(self).wf(),
            metadata_size matches Some(size) ==> old(self).can_weigh(size),
        ensures
            final(self).wf(),
            final(self).same_settings(&*old(self)),
            Self::insert_outcome(*old(self), *final(self), path@, metadata_size, r),
    {
        let size: usize = match metadata_size {
            Some(s) => s,
            None => {
                return GetAction::Serve(CachedFile::NotFound);
            },
        };
        let used = self.used_bytes();
        if size > self.max_file_size || size < self.min_file_size {
            return GetAction::OpenFromFileSystem { count_access: true };
        }
        // The cache has room when the bytes it holds and the new file's stay under the limit.
        let total: usize = used + size;
        if total < self.size_limit {
            return GetAction::ReadIntoCache { victims: Vec::new(), count_access: true };
        }
        // The number of bytes that must be freed to make room for the new file.
        let required_space_for_new_file: usize = total - self.size_limit;
        // Because the size was gotten from the file's metadata, the file exists,
        // so its fine to count the access.
        self.increment_access_count(path);
        let found = count_map_find(&self.maps.access_count_map, path);
        proof {
            match found {
                Some(c) => lemma_entry_in_map(count_map_entries(self.maps.access_count_map), path@, c),
                None => {},
            }
            assert(self.counts().contains_key(path@));
        }
        let access_count: usize = match found {
            Some(c) => c,
            None => 1,
        };
        let new_file_priority = self.priority_function.priority(access_count, size);
        let stats = self.sorted_priorities();
        let ghost order = stats_view(stats@);
        let plan = Cache::make_room_for_new_file(stats, required_space_for_new_file, new_file_priority);
        let r = match plan {
            Ok(victims) => GetAction::ReadIntoCache { victims, count_access: false },
            Err(_) => GetAction::OpenFromFileSystem { count_access: false },
        };
        proof {
            assert(is_priority_order(order, old(self).files()));
        }
        r
    }


    /// What `get` does and answers for a path the cache holds: the access is counted, the stats
    /// brought up to date, and the file handed out, or to be refreshed when a refresh is due.
    pub open spec fn hit_outcome(
        pre: Self,
        post: Self,
        path: Seq<char>,
        metadata_size: Option<usize>,
        r: GetAction,
    ) -> bool {
        let counts = counts_after_access(pre.counts(), path, pre.age_out);
        &&& post.counts() == counts
        &&& post.age_out == age_out_after_access(pre.age_out)
        &&& post.files() == files_after_stats_update(pre.files(), counts, pre.priority_function, path, metadata_size)
        &&& if refresh_due(pre.accesses_per_refresh, counts[path]) {
            r == GetAction::Refresh
        } else {
            r matches GetAction::Serve(CachedFile::InMemory(n)) && n.path@ == path && n.file@ == post.files()[path]
        }
    }

    /// Either gets the file from the cache if it exists there, or decides how the file is to be
    /// read from the file system and whether it is to be cached.
    ///
    /// # Arguments
    ///
    /// * `path` - The path of the file in the filesystem, which is also its key in the cache.
    /// * `metadata_size` - The size of the file as the file system reports it, `None` when it
    /// cannot be read.
    pub fn get(&mut self, path: &str, metadata_size: Option<usize>) -> (r: GetAction)
        requires
            old(self).wf(),
            !old(self).files().contains_key(path@) ==> (metadata_size matches Some(size) ==> old(self).can_weigh(size)),
        ensures
            final(self).wf(),
            final(self).same_settings(&*old(self)),
            old(self).files().contains_key(path@) ==> Self::hit_outcome(*old(self), *final(self), path@, metadata_size, r),
            !old(self).files().contains_key(path@) ==> Self::insert_outcome(*old(self), *final(self), path@, metadata_size, r),
    {
        if self.contains_key(path) {
            // File is in the cache, increment the count, update the stats attached to the cache entry.
            self.increment_access_count(path);
            self.update_stats(path, metadata_size);
            // See if the file should be refreshed.
            match self.accesses_per_refresh {
                Some(accesses_per_refresh) => {
                    let found = count_map_find(&self.maps.access_count_map, path);
                    proof {
                        match found {
                            Some(c) => lemma_entry_in_map(count_map_entries(self.maps.access_count_map), path@, c),
                            None => {},
                        }
                    }
                    match found {
                        Some(access_count) => {
                            // If the access count is a multiple of the refresh parameter, then refresh the file.
                            if access_count % accesses_per_refresh == 0 {
                                return GetAction::Refresh;
                            }
                        },
                        None => {},
                    }
                },
                None => {},
            }
            GetAction::Serve(self.get_from_cache(path))
        } else {
            self.try_insert(path, metadata_size)
        }
    }

    /// If a file has changed on disk, the cache will not automatically know that a change has occurred.
    /// Given the file read anew (`None` when it is no longer a readable file), this replaces the
    /// old file and updates the priority score to reflect the new size of the file.
    ///
    /// # Return
    ///
    /// The CachedFile will indicate NotFound if the file isn't already in the cache or if it can't
    /// be found in the filesystem.
    /// It will otherwise return a CachedFile::InMemory variant.
    pub fn refresh(&mut self, path: &str, new_file: Option<Vec<u8>>, metadata_size: Option<usize>) -> (r: CachedFile)
        requires
            old(self).wf(),
        ensures
            final(self).wf(),
            final(self).same_settings(&*old(self)),
            final(self).counts() == old(self).counts(),
            final(self).age_out == old(self).age_out,
            match new_file {
                Some(bytes) => if old(self).files().contains_key(path@) {
                    &&& final(self).files() == files_after_adding(
                        old(self).files(),
                        old(self).counts(),
                        old(self).priority_function,
                        path@,
                        bytes@,
                        Seq::empty(),
                        metadata_size,
                    )
                    &&& r matches CachedFile::InMemory(n) && n.path@ == path@ && n.file@ == final(self).files()[path@]
                } else {
                    r is NotFound && final(self).files() == old(self).files()
                },
                None => r is NotFound && final(self).files() == old(self).files(),
            },
    {
        if !self.contains_key(path) {
            return CachedFile::NotFound;
        }
        let bytes = match new_file {
            Some(b) => b,
            None => {
                return CachedFile::NotFound;
            },
        };
        let ghost new_bytes = bytes@;
        let file = InMemoryFile::from_bytes(bytes);
        put_file(&mut self.maps.file_map, path.to_owned(), file);
        self.update_stats(path, metadata_size);
        proof {
            assert(old(self).files().remove_keys(Seq::<Seq<char>>::empty().to_set()) =~= old(self).files());
        }
        self.get_from_cache(path)
    }

    /// Completes a request for a file that is to be read from the file system: `opened` tells
    /// whether the file could be opened. Once opened, its access is counted if `count_access`.
    pub fn get_file_from_fs(&mut self, path: &str, opened: bool, count_access: bool) -> (r: CachedFile)
        requires
            old(self).wf(),
        ensures
            final(self).wf(),
            final(self).same_settings(&*old(self)),
            opened && count_access ==> Self::counted_access(*old(self), *final(self), path@),
            !(opened && count_access) ==> final(self).same_contents(&*old(self)),
            opened ==> (r matches CachedFile::FileSystem(p) && p@ == path@),
            !opened ==> r is NotFound,
    {
        if !opened {
            return CachedFile::NotFound;
        }
        if count_access {
            self.increment_access_count(path);
        }
        CachedFile::FileSystem(path.to_owned())
    }

    /// Stores a file read from the file system into memory in the cache, in place of the
    /// victims, and hands it out. Its access is counted if `count_access`.
    pub fn get_file_from_fs_and_add_to_cache(
        &mut self,
        path: &str,
        bytes: Vec<u8>,
        victims: &Vec<String>,
        count_access: bool,
        metadata_size: Option<usize>,
    ) -> (r: CachedFile)
        requires
            old(self).wf(),
        ensures
            final(self).wf(),
            final(self).same_settings(&*old(self)),
            final(self).counts() == if count_access {
                counts_after_access(old(self).counts(), path@, old(self).age_out)
            } else {
                old(self).counts()
            },
            final(self).age_out == if count_access {
                age_out_after_access(old(self).age_out)
            } else {
                old(self).age_out
            },
            final(self).files() == files_after_adding(
                old(self).files(),
                final(self).counts(),
                old(self).priority_function,
                path@,
                bytes@,
                paths_view(victims@),
                metadata_size,
            ),
            r matches CachedFile::InMemory(n) && n.path@ == path@ && n.file@ == final(self).files()[path@],
    {
        let mut i: usize = 0;
        while i < victims.len()
            invariant
                0 <= i <= victims.len(),
                self.wf(),
                self.same_settings(&*old(self)),
                self.counts() == old(self).counts(),
                self.age_out == old(self).age_out,
                self.files() == old(self).files().remove_keys(paths_view(victims@).take(i as int).to_set()),
            decreases victims.len() - i,
        {
            let ghost before = file_map_entries(self.maps.file_map);
            let removed = file_map_remove(&mut self.maps.file_map, victims[i].as_str());
            proof {
                match removed {
                    Some(ref f) => lemma_remove_present(before, victims@[i as int]@, f@),
                    None => {},
                }
                let prior = paths_view(victims@).take(i as int);
                let next = paths_view(victims@).take(i + 1);
                assert(next =~= prior.push(victims@[i as int]@));
                prior.lemma_push_to_set_commute(victims@[i as int]@);
                assert(next.to_set() =~= prior.to_set().insert(victims@[i as int]@));
                assert(self.files() =~= old(self).files().remove_keys(next.to_set()));
            }
            i = i + 1;
        }
        proof {
            assert(paths_view(victims@).take(victims.len() as int) =~= paths_view(victims@));
        }
        let ghost new_bytes = bytes@;
        let file = InMemoryFile::from_bytes(bytes);
        put_file(&mut self.maps.file_map, path.to_owned(), file);
        if count_access {
            self.increment_access_count(path);
        }
        self.update_stats(path, metadata_size);
        self.get_from_cache(path)
    }

    /// Alters the access count value of one file in the access_count_map.
    /// Returns false, changing nothing, for a path whose accesses were never counted.
    /// The stats of the file are brought up to date if the cache holds it; altering a count never
    /// puts a file into the cache.
    /// # Arguments
    ///
    /// * `path` - The key to look up the file.
    /// * `alter_count_function` - A function that determines how to alter the access_count for the file.
    /// * `metadata_size` - The size of the file as the file system reports it, used when the cache
    /// holds it with size 0.
    pub fn alter_access_count<F: CountFunction>(
        &mut self,
        path: &str,
        alter_count_function: &F,
        metadata_size: Option<usize>,
    ) -> (r: bool)
        requires
            old(self).wf(),
        ensures
            final(self).wf(),
            final(self).same_settings(&*old(self)),
            final(self).age_out == old(self).age_out,
            r == old(self).counts().contains_key(path@),
            final(self).files().dom() == old(self).files().dom(),
            r ==> final(self).counts() == old(self).counts().insert(
                path@,
                alter_count_function.spec_apply(old(self).counts()[path@]),
            ),
            r ==> final(self).files() == files_after_stats_update(
                old(self).files(),
                final(self).counts(),
                old(self).priority_function,
                path@,
                metadata_size,
            ),
            !r ==> final(self).same_contents(&*old(self)),
    {
        let found = count_map_find(&self.maps.access_count_map, path);
        proof {
            match found {
                Some(c) => lemma_entry_in_map(count_map_entries(self.maps.access_count_map), path@, c),
                None => {},
            }
        }
        let new_count: usize = match found {
            Some(count) => alter_count_function.apply(count),
            None => {
                return false;
            },
        };
        put_count(&mut self.maps.access_count_map, path.to_owned(), new_count);
        proof {
            assert(self.counts().dom() =~= old(self).counts().dom().insert(path@));
        }
        self.update_stats(path, metadata_size);
        true
    }


    /// Alters the access count value of every file in the access_count_map, and brings the stats
    /// of each file the cache holds up to date. The cache holds the same files afterwards.
    /// This is useful for manually aging-out entries in the cache.
    ///
    /// # Arguments
    ///
    /// * `alter_count_function` - A function that determines how to alter the access_count for the file.
    /// * `metadata_sizes` - The sizes of files as the file system reports them, used for files
    /// that the cache holds with size 0.
    pub fn alter_all_access_counts<F: CountFunction>(
        &mut self,
        alter_count_function: &F,
        metadata_sizes: &Vec<(String, usize)>,
    )
        requires
            old(self).wf(),
        ensures
            final(self).wf(),
            final(self).same_settings(&*old(self)),
            final(self).age_out == old(self).age_out,
            final(self).counts() == old(self).counts().map_values(|c: usize| alter_count_function.spec_apply(c)),
            final(self).files().dom() == old(self).files().dom(),
            final(self).files() == files_after_altering(
                old(self).files(),
                final(self).counts(),
                old(self).priority_function,
                sizes_view(metadata_sizes@),
            ),
    {
        let entries = count_map_iter(&self.maps.access_count_map);
        let ghost s = entries@.map_values(|e: (String, usize)| (e.0@, e.1));
        let ghost counts0 = self.counts();
        let ghost files0 = self.files();
        let ghost counts1 = counts0.map_values(|c: usize| alter_count_function.spec_apply(c));
        let ghost sizes = sizes_view(metadata_sizes@);
        proof {
            lemma_seq_lists_entries(s, count_map_entries(self.maps.access_count_map));
        }
        let mut i: usize = 0;
        while i < entries.len()
            invariant
                0 <= i <= entries.len(),
                s == entries@.map_values(|e: (String, usize)| (e.0@, e.1)),
                lists_map(s, counts0),
                counts0 == old(self).counts(),
                files0 == old(self).files(),
                counts1 == counts0.map_values(|c: usize| alter_count_function.spec_apply(c)),
                sizes == sizes_view(metadata_sizes@),
                self.wf(),
                self.same_settings(&*old(self)),
                self.age_out == old(self).age_out,
                self.counts().dom() == counts0.dom(),
                forall|j: int| 0 <= j < i ==> #[trigger] self.counts()[s[j].0] == counts1[s[j].0],
                forall|k: Seq<char>|
                    counts0.contains_key(k) && (forall|j: int| 0 <= j < i ==> s[j].0 != k) ==> #[trigger] self.counts()[k]
                        == counts0[k],
                self.files().dom() == files0.dom(),
                forall|j: int|
                    0 <= j < i && files0.contains_key(s[j].0) ==> #[trigger] self.files()[s[j].0] == updated_entry(
                        files0,
                        counts1,
                        self.priority_function,
                        s[j].0,
                        size_lookup(sizes, s[j].0),
                    ),
                forall|k: Seq<char>|
                    files0.contains_key(k) && (forall|j: int| 0 <= j < i ==> s[j].0 != k) ==> #[trigger] self.files()[k]
                        == files0[k],
            decreases entries.len() - i,
        {
            let key = entries[i].0.clone();
            let size = find_size(metadata_sizes, &key);
            let ghost k = s[i as int].0;
            let ghost counts_before = self.counts();
            let ghost files_before = self.files();
            proof {
                assert(s[i as int] == (entries@[i as int].0@, entries@[i as int].1));
                assert(counts0.contains_key(k));
                assert forall|j: int| 0 <= j < i implies s[j].0 != k by {
                    assert(s[j].0 != s[i as int].0);
                }
                assert(counts_before[k] == counts0[k]);
                assert(files_before.contains_key(k) == files0.contains_key(k));
                if files0.contains_key(k) {
                    assert(files_before[k] == files0[k]);
                }
            }
            let altered = self.alter_access_count(key.as_str(), alter_count_function, size);
            proof {
                assert(altered);
                assert(self.counts()[k] == counts1[k]);
                if files0.contains_key(k) {
                    assert(updated_entry(files_before, self.counts(), self.priority_function, k, size)
                        == updated_entry(files0, counts1, self.priority_function, k, size));
                }
                assert forall|j: int| 0 <= j < i + 1 implies #[trigger] self.counts()[s[j].0] == counts1[s[j].0] by {
                    if j < i {
                        assert(s[j].0 != k);
                    }
                }
                assert forall|kk: Seq<char>|
                    counts0.contains_key(kk) && (forall|j: int| 0 <= j < i + 1 ==> s[j].0 != kk) implies #[trigger] self.counts()[kk]
                    == counts0[kk] by {
                    assert(s[i as int].0 != kk);
                }
                assert(self.files().dom() =~= files0.dom());
                assert forall|j: int|
                    0 <= j < i + 1 && files0.contains_key(s[j].0) implies #[trigger] self.files()[s[j].0] == updated_entry(
                        files0,
                        counts1,
                        self.priority_function,
                        s[j].0,
                        size_lookup(sizes, s[j].0),
                    ) by {
                    if j < i {
                        assert(s[j].0 != k);
                    }
                }
                assert forall|kk: Seq<char>|
                    files0.contains_key(kk) && (forall|j: int| 0 <= j < i + 1 ==> s[j].0 != kk) implies #[trigger] self.files()[kk]
                    == files0[kk] by {
                    assert(s[i as int].0 != kk);
                }
                assert(self.counts().dom() =~= counts0.dom());
            }
            i = i + 1;
        }
        proof {
            assert forall|k: Seq<char>| #[trigger] counts0.contains_key(k) implies exists|j: int|
                0 <= j < s.len() && s[j].0 == k by {
            }
            assert(self.counts() =~= counts1);
            let target = files_after_altering(files0, counts1, self.priority_function, sizes);
            assert forall|k: Seq<char>| #[trigger] target.contains_key(k) implies self.files().contains_key(k)
                && self.files()[k] == target[k] by {
                if counts0.contains_key(k) {
                    let j = choose|j: int| 0 <= j < s.len() && s[j].0 == k;
                    assert(self.files()[s[j].0] == target[k]);
                } else {
                    assert forall|j: int| 0 <= j < s.len() implies s[j].0 != k by {
                        assert(counts0.contains_key(s[j].0));
                    }
                }
            }
            assert(self.files() =~= target);
        }
    }

    /// Returns a boolean indicating if the cache has an entry corresponding to the given key.
    ///
    /// # Arguments
    ///
    /// * `path` - A path that is used as a key to look up the file.
    pub fn contains_key(&self, path: &str) -> (r: bool)
        requires
            self.wf(),
        ensures
            r == self.files().contains_key(path@),
    {
        let found = file_map_find(&self.maps.file_map, path);
        proof {
            match found {
                Some(ref f) => lemma_entry_in_map(file_map_entries(self.maps.file_map), path@, f@),
                None => {},
            }
        }
        found.is_some()
    }

    /// Removes the file from the cache.
    /// This will not reset the access count, so the next time the file is accessed, it will be added to the cache again.
    /// The access count will have to be reset separately using `alter_access_count()`.
    ///
    /// # Arguments
    ///
    /// * `path` - A path that acts as a key to look up the file that should be removed from the cache.
    pub fn remove(&mut self, path: &str) -> (r: bool)
        requires
            old(self).wf(),
        ensures
            final(self).wf(),
            r == old(self).files().contains_key(path@),
            final(self).files() == old(self).files().remove(path@),
            final(self).counts() == old(self).counts(),
            final(self).size_limit == old(self).size_limit,
            final(self).min_file_size == old(self).min_file_size,
            final(self).max_file_size == old(self).max_file_size,
            final(self).priority_function == old(self).priority_function,
            final(self).accesses_per_refresh == old(self).accesses_per_refresh,
            final(self).concurrency() == old(self).concurrency(),
            final(self).age_out == old(self).age_out,
    {
        let removed = file_map_remove(&mut self.maps.file_map, path);
        proof {
            match removed {
                Some(ref f) => lemma_remove_present(file_map_entries(old(self).maps.file_map), path@, f@),
                None => {
                    assert(old(self).files().remove(path@) =~= old(self).files());
                },
            }
        }
        removed.is_some()
    }

    /// Helper function that gets the file from the cache if it exists there.
    fn get_from_cache(&self, path: &str) -> (r: CachedFile)
        requires
            self.wf(),
        ensures
            self.files().contains_key(path@) ==> (r matches CachedFile::InMemory(n) && n.path@ == path@
                && n.file@ == self.files()[path@]),
            !self.files().contains_key(path@) ==> r is NotFound,
    {
        match file_map_find(&self.maps.file_map, path) {
            Some(file) => {
                proof {
                    lemma_entry_in_map(file_map_entries(self.maps.file_map), path@, file@);
                }
                CachedFile::InMemory(NamedInMemoryFile { path: path.to_owned(), file })
            },
            None => CachedFile::NotFound,
        }
    }
}

impl Cache {

    /// Choose the n lowest priority files to make room for a file with a size: required_space.
    ///
    /// `stats` holds the path and stats of the files in the cache, highest priority first.
    /// This returns the paths of the files to remove, lowest priority first; it removes nothing.
    /// The files go once the new file has been read into memory
    /// (`get_file_from_fs_and_add_to_cache`), so that a file that cannot be read costs the cache
    /// nothing.
    /// It returns an Err if not enough space could be freed, or if the priority of
    /// the files that would need to be freed to make room for the new file is greater than the
    /// new file's priority.
    ///
    /// # Arguments
    ///
    /// * `required_space` - The number of bytes that must be freed to make room for a new file.
    /// * `new_file_priority` - The priority of the new file to be added. If the priority of the files possibly being removed
    /// is greater than this value, then the files won't be chosen.
    pub fn make_room_for_new_file(
        stats: Vec<(String, FileStats)>,
        required_space: usize,
        new_file_priority: usize,
    ) -> (r: Result<Vec<String>, CacheError>)
        ensures
            match room_plan(stats_view(stats@), required_space as int, new_file_priority as int) {
                Ok(paths) => r matches Ok(v) && paths_view(v@) == paths,
                Err(e) => r == Err::<Vec<String>, CacheError>(e),
            },
    {
        let ghost initial = stats_view(stats@);
        let mut remaining = stats;
        let mut possibly_freed_space: usize = 0;
        let mut priority_score_to_free: usize = 0;
        let mut file_paths_to_remove: Vec<String> = Vec::new();
        let ghost mut freed: int = 0;
        proof {
            assert(paths_view(file_paths_to_remove@) =~= Seq::<Seq<char>>::empty());
        }
        while possibly_freed_space < required_space
            invariant
                initial == stats_view(stats@),
                freed >= 0,
                possibly_freed_space == (if freed > usize::MAX { usize::MAX as int } else { freed }),
                priority_score_to_free <= new_file_priority,
                make_room_from(
                    stats_view(remaining@),
                    required_space as int,
                    new_file_priority as int,
                    freed,
                    priority_score_to_free as int,
                    paths_view(file_paths_to_remove@),
                ) == room_plan(initial, required_space as int, new_file_priority as int),
            decreases remaining.len(),
        {
            let ghost before = remaining@;
            let ghost freed0 = freed;
            let ghost chosen0 = paths_view(file_paths_to_remove@);
            let ghost score0 = priority_score_to_free as int;
            match remaining.pop() {
                Some(lowest) => {
                    let (lowest_key, lowest_stats) = lowest;
                    proof {
                        assert(stats_view(remaining@) =~= stats_view(before).drop_last());
                        assert(stats_view(before).last() == (lowest_key@, lowest_stats));
                        freed = freed + lowest_stats.size;
                    }
                    possibly_freed_space = possibly_freed_space.saturating_add(lowest_stats.size);
                    let ghost chosen_before = paths_view(file_paths_to_remove@);
                    file_paths_to_remove.push(lowest_key);
                    proof {
                        assert(paths_view(file_paths_to_remove@) =~= chosen_before.push(lowest_key@));
                        assert(make_room_from(
                            stats_view(before),
                            required_space as int,
                            new_file_priority as int,
                            freed0,
                            score0,
                            chosen0,
                        ) == (if score0 + lowest_stats.priority > new_file_priority {
                            Err(CacheError::NewPriorityIsNotHighEnough)
                        } else {
                            make_room_from(
                                stats_view(remaining@),
                                required_space as int,
                                new_file_priority as int,
                                freed,
                                score0 + lowest_stats.priority,
                                paths_view(file_paths_to_remove@),
                            )
                        }));
                    }
                    // Check if total priority to free is greater than the new file's priority.
                    // If it is, then don't free the files, as they, in aggregate, are more
                    // important than the new file.
                    match priority_score_to_free.checked_add(lowest_stats.priority) {
                        Some(score) => {
                            if score > new_file_priority {
                                return Err(CacheError::NewPriorityIsNotHighEnough);
                            }
                            priority_score_to_free = score;
                        },
                        None => {
                            return Err(CacheError::NewPriorityIsNotHighEnough);
                        },
                    }
                },
                None => {
                    return Err(CacheError::NoMoreFilesToRemove);
                },
            }
        }
        Ok(file_paths_to_remove)
    }
    /// Creates a new Cache with the given size limit, no limits on individual file size, and the default priority function.
    /// These settings can be set by using the CacheBuilder instead.
    ///
    /// # Arguments
    ///
    /// * `size_limit` - The number of bytes that the Cache is allowed to hold at a given time.
    pub fn new(size_limit: usize) -> (r: Cache)
        ensures
            r.wf(),
            r.size_limit == size_limit,
            r.min_file_size == 0,
            r.max_file_size == usize::MAX,
            r.priority_function == DefaultPriority,
            r.age_out is None,
            r.accesses_per_refresh is None,
            r.files() == Map::<Seq<char>, (Seq<u8>, FileStats)>::empty(),
            r.counts() == Map::<Seq<char>, usize>::empty(),
            r.concurrency() == (16u16, 16u16),
    {
        Cache::from_parts(size_limit, 0, usize::MAX, DefaultPriority, None, None, None)
    }

}

} // verus!
