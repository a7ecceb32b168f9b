//! What holds of the cache across its operations.
use crate::cache::{
    files_after_adding, files_after_altering, files_after_stats_update, counts_after_access, refresh_due,
    saturating_inc, updated_entry, required_space, AgeOut, Cache, CountFunction, GetAction,
};
use crate::cache::CacheError;
use crate::cached_file::CachedFile;
use crate::eviction::{
    fewest_to_free, is_priority_order, lemma_make_room_ok, lemma_make_room_runs_out,
    lemma_make_room_takes_fewest, stats_size_sum, lemma_paths_last_first_set, lemma_total_size_insert,
    lemma_total_size_nonneg, lemma_total_size_remove, lemma_total_size_remove_listed, lowest, paths_last_first, paths_view, room_plan, stats_of,
    stats_priority_sum, total_size,
};
use crate::in_memory_file::FileStats;
use crate::priority_function::PriorityFunction;
use vstd::prelude::*;

verus! {

/// Total size after the new file goes in: the victims out, the file in with `size` bytes.
proof fn lemma_total_after_adding<P: PriorityFunction>(
    files: Map<Seq<char>, (Seq<u8>, FileStats)>,
    removed: Map<Seq<char>, (Seq<u8>, FileStats)>,
    counts: Map<Seq<char>, usize>,
    priority_function: P,
    path: Seq<char>,
    bytes: Seq<u8>,
    victims: Seq<Seq<char>>,
    size: usize,
)
    requires
        removed == files.remove_keys(victims.to_set()),
        removed.dom().finite(),
        !files.contains_key(path),
        bytes.len() == size,
    ensures
        total_size(files_after_adding(files, counts, priority_function, path, bytes, victims, Some(size)))
            == size + total_size(removed),
{
    let stats = FileStats { size: bytes.len() as usize, access_count: 0, priority: 0 };
    let with_new = removed.insert(path, (bytes, stats));
    let entry = updated_entry(with_new, counts, priority_function, path, Some(size));
    assert(entry.1.size == size);
    lemma_total_size_insert(with_new, path, entry);
    assert(with_new.remove(path) =~= removed);
}

/// A file that `get` decided to read into the cache, once added with the size that the file
/// system reported, leaves the cache holding no more bytes than its size limit.
pub proof fn law_added_file_fits<P: PriorityFunction, A: CountFunction>(
    pre: Cache<P, A>,
    mid: Cache<P, A>,
    post: Cache<P, A>,
    path: Seq<char>,
    size: usize,
    r: GetAction,
    bytes: Seq<u8>,
)
    requires
        pre.wf(),
        !pre.files().contains_key(path),
        Cache::insert_outcome(pre, mid, path, Some(size), r),
        r is ReadIntoCache,
        bytes.len() == size,
        post.files() == files_after_adding(
            mid.files(),
            post.counts(),
            mid.priority_function,
            path,
            bytes,
            paths_view(r->victims@),
            Some(size),
        ),
    ensures
        total_size(post.files()) <= pre.size_limit,
{
    let files = pre.files();
    lemma_total_size_nonneg(files);
    let victims = paths_view(r->victims@);
    let required = required_space(total_size(files), size, pre.size_limit);
    assert(mid.files() == files);
    if required < 0 {
        assert(victims =~= Seq::<Seq<char>>::empty());
        assert(files.remove_keys(victims.to_set()) =~= files);
        lemma_total_after_adding(files, files, post.counts(), mid.priority_function, path, bytes, victims, size);
    } else {
        let order = choose|order: Seq<(Seq<char>, FileStats)>|
            #![trigger is_priority_order(order, pre.files())]
            is_priority_order(order, pre.files()) && match room_plan(
                order,
                required,
                pre.priority_function.spec_priority(mid.counts()[path], size) as int,
            ) {
                Ok(paths) => r matches GetAction::ReadIntoCache { victims, count_access }
                    && paths_view(victims@) == paths && !count_access,
                Err(_) => r == GetAction::OpenFromFileSystem { count_access: false },
            };
        let np = pre.priority_function.spec_priority(mid.counts()[path], size) as int;
        let n = lemma_make_room_ok(order, required, np, 0, 0, Seq::empty());
        let low = lowest(order, n);
        assert(victims =~= paths_last_first(low));
        lemma_paths_last_first_set(low);
        assert forall|i: int| 0 <= i < low.len() implies #[trigger] files.contains_key(low[i].0) && files[low[i].0].1
            == low[i].1 by {
            assert(low[i] == order[order.len() - n + i]);
            assert(stats_of(files).contains_key(order[order.len() - n + i].0));
        }
        assert forall|i: int, j: int| 0 <= i < j < low.len() implies #[trigger] low[i].0 != #[trigger] low[j].0 by {
            assert(low[i] == order[order.len() - n + i]);
            assert(low[j] == order[order.len() - n + j]);
        }
        lemma_total_size_remove_listed(files, low);
        lemma_total_after_adding(
            files,
            files.remove_keys(victims.to_set()),
            post.counts(),
            mid.priority_function,
            path,
            bytes,
            victims,
            size,
        );
    }
}

/// A file that `get` decided to read into the cache is within the cache's file size bounds.
pub proof fn law_cached_file_within_bounds<P: PriorityFunction, A: CountFunction>(
    pre: Cache<P, A>,
    post: Cache<P, A>,
    path: Seq<char>,
    size: usize,
    r: GetAction,
)
    requires
        Cache::insert_outcome(pre, post, path, Some(size), r),
        r is ReadIntoCache,
    ensures
        pre.min_file_size <= size <= pre.max_file_size,
{
}

/// The files taken out to make room for a new file have, each, a priority no higher than any
/// file that stays, and, together, a priority no higher than the new file's.
pub proof fn law_lowest_priorities_make_room(
    files: Map<Seq<char>, (Seq<u8>, FileStats)>,
    order: Seq<(Seq<char>, FileStats)>,
    required: int,
    new_priority: int,
    victims: Seq<Seq<char>>,
)
    requires
        is_priority_order(order, files),
        room_plan(order, required, new_priority) == Ok::<Seq<Seq<char>>, crate::cache::CacheError>(victims),
        new_priority >= 0,
    ensures
        forall|v: Seq<char>, k: Seq<char>|
            #![trigger victims.contains(v), files.contains_key(k)]
            victims.contains(v) && files.contains_key(k) && !victims.contains(k) ==> files[v].1.priority
                <= files[k].1.priority,
        exists|n: int|
            0 <= n <= order.len() && victims == paths_last_first(lowest(order, n)) && stats_priority_sum(
                lowest(order, n),
            ) <= new_priority,
{
    let n = lemma_make_room_ok(order, required, new_priority, 0, 0, Seq::empty());
    let low = lowest(order, n);
    assert(victims =~= paths_last_first(low));
    assert forall|v: Seq<char>, k: Seq<char>|
        #![trigger victims.contains(v), files.contains_key(k)]
        victims.contains(v) && files.contains_key(k) && !victims.contains(k) implies files[v].1.priority
            <= files[k].1.priority by {
        let a = choose|a: int| 0 <= a < victims.len() && victims[a] == v;
        let ia = order.len() - 1 - a;
        assert(low[n - 1 - a] == order[ia]);
        assert(order[ia].0 == v);
        assert(stats_of(files).contains_key(k));
        let ib = choose|ib: int| 0 <= ib < order.len() && order[ib].0 == k;
        if ib >= order.len() - n {
            assert(low[ib - (order.len() - n)] == order[ib]);
            assert(victims[order.len() - 1 - ib] == k);
            assert(victims.contains(k));
        }
        assert(ib < ia);
        assert(stats_of(files).contains_key(order[ia].0));
        assert(stats_of(files).contains_key(order[ib].0));
    }
}


/// What was stored for a path, by adding the file read from the file system or by refreshing it,
/// is what the next `get` of that path hands out, unless a refresh is due: the same bytes, and a
/// size of that many bytes when there are some.
pub proof fn law_stored_file_is_served<P: PriorityFunction, A: CountFunction>(
    pre: Cache<P, A>,
    post: Cache<P, A>,
    files: Map<Seq<char>, (Seq<u8>, FileStats)>,
    counts: Map<Seq<char>, usize>,
    path: Seq<char>,
    bytes: Seq<u8>,
    victims: Seq<Seq<char>>,
    stored_metadata_size: Option<usize>,
    metadata_size: Option<usize>,
    r: GetAction,
)
    requires
        pre.files() == files_after_adding(
            files,
            counts,
            pre.priority_function,
            path,
            bytes,
            victims,
            stored_metadata_size,
        ),
        Cache::hit_outcome(pre, post, path, metadata_size, r),
        !refresh_due(pre.accesses_per_refresh, post.counts()[path]),
        bytes.len() <= usize::MAX,
    ensures
        r matches GetAction::Serve(CachedFile::InMemory(n)) && n.file@.0 == bytes && (bytes.len() > 0
            ==> n.file@.1.size == bytes.len()),
{
    let stats = FileStats { size: bytes.len() as usize, access_count: 0, priority: 0 };
    let with_new = files.remove_keys(victims.to_set()).insert(path, (bytes, stats));
    assert(with_new.contains_key(path));
    assert(with_new[path] == (bytes, stats));
    assert(pre.files().contains_key(path));
    assert(pre.files()[path].0 == bytes);
    assert(bytes.len() > 0 ==> pre.files()[path].1.size == bytes.len());
    assert(post.files()[path].0 == bytes);
}

/// A file removed from the cache is not handed out from memory by the next `get` of its path: the
/// request is answered as for a file the cache does not hold.
pub proof fn law_removed_file_is_not_served_from_memory<P: PriorityFunction, A: CountFunction>(
    pre: Cache<P, A>,
    mid: Cache<P, A>,
    post: Cache<P, A>,
    path: Seq<char>,
    metadata_size: Option<usize>,
    r: GetAction,
)
    requires
        mid.files() == pre.files().remove(path),
        !mid.files().contains_key(path) ==> Cache::insert_outcome(mid, post, path, metadata_size, r),
    ensures
        !(r matches GetAction::Serve(CachedFile::InMemory(_))),
{
    assert(!mid.files().contains_key(path));
}

/// A request for a file the cache does not hold leaves a cache that was within its size limit
/// within it: the file is read into the cache only where it fits once the files chosen to make
/// room are gone, and otherwise the files stay as they are. (The file must still have the size the
/// file system reported when its bytes are read.)
pub proof fn law_request_keeps_size_limit<P: PriorityFunction, A: CountFunction>(
    pre: Cache<P, A>,
    mid: Cache<P, A>,
    post: Cache<P, A>,
    path: Seq<char>,
    size: usize,
    r: GetAction,
    bytes: Seq<u8>,
)
    requires
        pre.wf(),
        !pre.files().contains_key(path),
        total_size(pre.files()) <= pre.size_limit,
        Cache::insert_outcome(pre, mid, path, Some(size), r),
        r is ReadIntoCache ==> bytes.len() == size && post.files() == files_after_adding(
            mid.files(),
            post.counts(),
            mid.priority_function,
            path,
            bytes,
            paths_view(r->victims@),
            Some(size),
        ),
        !(r is ReadIntoCache) ==> post.files() == mid.files(),
    ensures
        total_size(post.files()) <= pre.size_limit,
{
    if r is ReadIntoCache {
        law_added_file_fits(pre, mid, post, path, size, r, bytes);
    }
}

/// Serving a held file whose size is known (not 0) leaves the number of bytes the cache holds as
/// it was.
pub proof fn law_hit_keeps_total<P: PriorityFunction, A: CountFunction>(
    pre: Cache<P, A>,
    post: Cache<P, A>,
    path: Seq<char>,
    metadata_size: Option<usize>,
    r: GetAction,
)
    requires
        pre.wf(),
        pre.files().contains_key(path),
        pre.files()[path].1.size != 0,
        Cache::hit_outcome(pre, post, path, metadata_size, r),
    ensures
        total_size(post.files()) == total_size(pre.files()),
{
    let files = pre.files();
    let counts = counts_after_access(pre.counts(), path, pre.age_out);
    let e = updated_entry(files, counts, pre.priority_function, path, metadata_size);
    assert(post.files() == files.insert(path, e));
    lemma_total_size_insert(files, path, e);
    lemma_total_size_remove(files, path);
}

/// Making room for a new file takes the fewest lowest-priority files whose sizes reach the room
/// needed, lowest priority first, and does so exactly when their priorities, added up, are no
/// higher than the new file's; otherwise it fails for priority. Where all the files together
/// cannot free the room, it fails: for want of files when all their priorities together stay
/// within the new file's, for priority otherwise.
pub proof fn law_room_plan_takes_fewest(
    order: Seq<(Seq<char>, FileStats)>,
    required: int,
    new_priority: int,
)
    requires
        new_priority >= 0,
    ensures
        forall|n: int|
            #[trigger] fewest_to_free(order, required, n) ==> room_plan(order, required, new_priority) == if stats_priority_sum(
                lowest(order, n),
            ) <= new_priority {
                Ok::<Seq<Seq<char>>, CacheError>(paths_last_first(lowest(order, n)))
            } else {
                Err::<Seq<Seq<char>>, CacheError>(CacheError::NewPriorityIsNotHighEnough)
            },
        stats_size_sum(order) < required ==> room_plan(order, required, new_priority) == if stats_priority_sum(order)
            <= new_priority {
            Err::<Seq<Seq<char>>, CacheError>(CacheError::NoMoreFilesToRemove)
        } else {
            Err::<Seq<Seq<char>>, CacheError>(CacheError::NewPriorityIsNotHighEnough)
        },
{
    assert forall|n: int| #[trigger] fewest_to_free(order, required, n) implies room_plan(order, required, new_priority)
        == if stats_priority_sum(lowest(order, n)) <= new_priority {
        Ok::<Seq<Seq<char>>, CacheError>(paths_last_first(lowest(order, n)))
    } else {
        Err::<Seq<Seq<char>>, CacheError>(CacheError::NewPriorityIsNotHighEnough)
    } by {
        assert forall|m: int| 0 <= m < n implies 0 + #[trigger] stats_size_sum(lowest(order, m)) < required by {
            assert(stats_size_sum(lowest(order, m)) < required);
        }
        lemma_make_room_takes_fewest(order, required, new_priority, 0, 0, Seq::empty(), n);
        assert(Seq::<Seq<char>>::empty() + paths_last_first(lowest(order, n)) =~= paths_last_first(lowest(order, n)));
    }
    if stats_size_sum(order) < required {
        lemma_make_room_runs_out(order, required, new_priority, 0, 0, Seq::empty());
    }
}

/// How one access changes the access counts, stated on the counts themselves.
proof fn lemma_one_access<A: CountFunction>(
    pre_counts: Map<Seq<char>, usize>,
    post_counts: Map<Seq<char>, usize>,
    path: Seq<char>,
    age_out: Option<AgeOut<A>>,
)
    requires
        post_counts == counts_after_access(pre_counts, path, age_out),
    ensures
        post_counts.dom() == pre_counts.dom().insert(path),
        ({
            let inc: int = if pre_counts.contains_key(path) {
                if pre_counts[path] < usize::MAX {
                    pre_counts[path] + 1
                } else {
                    usize::MAX as int
                }
            } else {
                1
            };
            let fires: bool = match age_out {
                Some(a) => a.accesses_limit > 0 && (if a.access_count == usize::MAX {
                    0int
                } else {
                    a.access_count + 1
                }) % (a.accesses_limit as int) == 0,
                None => false,
            };
            &&& !fires ==> post_counts[path] == inc
            &&& !fires ==> forall|k: Seq<char>|
                #[trigger] pre_counts.contains_key(k) && k != path ==> post_counts[k] == pre_counts[k]
            &&& fires ==> (age_out matches Some(a) && post_counts[path] == a.age_out_function.spec_apply(inc as usize)
                && forall|k: Seq<char>|
                #[trigger] pre_counts.contains_key(k) && k != path ==> post_counts[k]
                    == a.age_out_function.spec_apply(pre_counts[k]))
        }),
{
    let bumped = pre_counts.insert(
        path,
        if pre_counts.contains_key(path) {
            saturating_inc(pre_counts[path])
        } else {
            1
        },
    );
    assert(bumped.dom() =~= pre_counts.dom().insert(path));
    match age_out {
        Some(a) => {
            assert(bumped.map_values(|c: usize| a.age_out_function.spec_apply(c)).dom() =~= bumped.dom());
        },
        None => {},
    }
}

/// One access of a file, counted when it is read from the file system or before room is made for
/// it: its access count goes up by one (staying at `usize::MAX` once there; 1 for a first access),
/// the count of accesses to the whole cache goes up by one (wrapping around), and when that count
/// becomes a multiple of the age out limit (not 0), the age out function is applied to every
/// access count, the new one included. No other count changes, and the files stay.
pub proof fn law_one_access_counted<P: PriorityFunction, A: CountFunction>(
    pre: Cache<P, A>,
    post: Cache<P, A>,
    path: Seq<char>,
)
    requires
        Cache::counted_access(pre, post, path),
    ensures
        post.files() == pre.files(),
        post.counts().dom() == pre.counts().dom().insert(path),
        pre.age_out is None ==> post.age_out is None,
        pre.age_out matches Some(a) ==> post.age_out matches Some(b) && b.accesses_limit == a.accesses_limit
            && b.age_out_function == a.age_out_function && b.access_count == (if a.access_count == usize::MAX {
            0int
        } else {
            a.access_count + 1
        }),
        ({
            let inc: int = if pre.counts().contains_key(path) {
                if pre.counts()[path] < usize::MAX {
                    pre.counts()[path] + 1
                } else {
                    usize::MAX as int
                }
            } else {
                1
            };
            let fires: bool = match pre.age_out {
                Some(a) => a.accesses_limit > 0 && (if a.access_count == usize::MAX {
                    0int
                } else {
                    a.access_count + 1
                }) % (a.accesses_limit as int) == 0,
                None => false,
            };
            &&& !fires ==> post.counts()[path] == inc
            &&& !fires ==> forall|k: Seq<char>|
                #[trigger] pre.counts().contains_key(k) && k != path ==> post.counts()[k] == pre.counts()[k]
            &&& fires ==> (pre.age_out matches Some(a) && post.counts()[path] == a.age_out_function.spec_apply(
                inc as usize,
            ) && forall|k: Seq<char>|
                #[trigger] pre.counts().contains_key(k) && k != path ==> post.counts()[k]
                    == a.age_out_function.spec_apply(pre.counts()[k]))
        }),
{
    lemma_one_access(pre.counts(), post.counts(), path, pre.age_out);
}

/// A request for a file the cache holds counts one access of it, as `law_one_access_counted`
/// says, and asks for a refresh exactly when the file's access count after this access is a
/// multiple of `accesses_per_refresh`; otherwise, and always when the cache does not refresh, the
/// file is served from memory.
pub proof fn law_refresh_every_n_accesses<P: PriorityFunction, A: CountFunction>(
    pre: Cache<P, A>,
    post: Cache<P, A>,
    path: Seq<char>,
    metadata_size: Option<usize>,
    r: GetAction,
)
    requires
        Cache::hit_outcome(pre, post, path, metadata_size, r),
    ensures
        post.counts().dom() == pre.counts().dom().insert(path),
        ({
            let inc: int = if pre.counts().contains_key(path) {
                if pre.counts()[path] < usize::MAX {
                    pre.counts()[path] + 1
                } else {
                    usize::MAX as int
                }
            } else {
                1
            };
            let fires: bool = match pre.age_out {
                Some(a) => a.accesses_limit > 0 && (if a.access_count == usize::MAX {
                    0int
                } else {
                    a.access_count + 1
                }) % (a.accesses_limit as int) == 0,
                None => false,
            };
            &&& !fires ==> post.counts()[path] == inc
            &&& !fires ==> forall|k: Seq<char>|
                #[trigger] pre.counts().contains_key(k) && k != path ==> post.counts()[k] == pre.counts()[k]
            &&& fires ==> (pre.age_out matches Some(a) && post.counts()[path] == a.age_out_function.spec_apply(
                inc as usize,
            ) && forall|k: Seq<char>|
                #[trigger] pre.counts().contains_key(k) && k != path ==> post.counts()[k]
                    == a.age_out_function.spec_apply(pre.counts()[k]))
        }),
        match pre.accesses_per_refresh {
            Some(n) => n > 0 ==> ((r == GetAction::Refresh) <==> (post.counts()[path] as int) % (n as int) == 0),
            None => r != GetAction::Refresh,
        },
        r != GetAction::Refresh ==> r matches GetAction::Serve(CachedFile::InMemory(_)),
{
    lemma_one_access(pre.counts(), post.counts(), path, pre.age_out);
}

/// Altering every access count re-scores every held file that is counted: its access count is
/// the new count and its priority the priority function applied to the new count and its size;
/// its bytes stay, and so does its size unless it was 0. Held files that are not counted, and the
/// set of held files, stay as they were.
pub proof fn law_altering_all_rescores<P: PriorityFunction, A: CountFunction, F: CountFunction>(
    pre: Cache<P, A>,
    post: Cache<P, A>,
    f: F,
    sizes: Seq<(Seq<char>, usize)>,
)
    requires
        post.counts() == pre.counts().map_values(|c: usize| f.spec_apply(c)),
        post.files() == files_after_altering(pre.files(), post.counts(), pre.priority_function, sizes),
    ensures
        post.files().dom() == pre.files().dom(),
        forall|k: Seq<char>|
            #[trigger] pre.files().contains_key(k) && pre.counts().contains_key(k) ==> {
                &&& post.counts()[k] == f.spec_apply(pre.counts()[k])
                &&& post.files()[k].0 == pre.files()[k].0
                &&& post.files()[k].1.access_count == post.counts()[k]
                &&& post.files()[k].1.priority == pre.priority_function.spec_priority(
                    post.counts()[k],
                    post.files()[k].1.size,
                )
                &&& pre.files()[k].1.size != 0 ==> post.files()[k].1.size == pre.files()[k].1.size
            },
        forall|k: Seq<char>|
            #[trigger] pre.files().contains_key(k) && !pre.counts().contains_key(k) ==> post.files()[k]
                == pre.files()[k],
{
    assert(post.files().dom() =~= pre.files().dom());
}

/// Altering one access count re-scores the file when the cache holds it: its access count is the
/// new count and its priority the priority function applied to the new count and its size; its
/// bytes stay, and so does its size unless it was 0. No other file changes.
pub proof fn law_altering_one_rescores<P: PriorityFunction, A: CountFunction, F: CountFunction>(
    pre: Cache<P, A>,
    post: Cache<P, A>,
    path: Seq<char>,
    f: F,
    metadata_size: Option<usize>,
)
    requires
        pre.counts().contains_key(path),
        post.counts() == pre.counts().insert(path, f.spec_apply(pre.counts()[path])),
        post.files() == files_after_stats_update(
            pre.files(),
            post.counts(),
            pre.priority_function,
            path,
            metadata_size,
        ),
    ensures
        post.files().dom() == pre.files().dom(),
        post.counts()[path] == f.spec_apply(pre.counts()[path]),
        pre.files().contains_key(path) ==> {
            &&& post.files()[path].0 == pre.files()[path].0
            &&& post.files()[path].1.access_count == post.counts()[path]
            &&& post.files()[path].1.priority == pre.priority_function.spec_priority(
                post.counts()[path],
                post.files()[path].1.size,
            )
            &&& pre.files()[path].1.size != 0 ==> post.files()[path].1.size == pre.files()[path].1.size
        },
        forall|k: Seq<char>| #[trigger] pre.files().contains_key(k) && k != path ==> post.files()[k] == pre.files()[k],
{
    assert(post.files().dom() =~= pre.files().dom());
}

} // verus!
