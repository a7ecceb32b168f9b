//! The arithmetic of the cache's decisions: how many bytes its files take, the order of its
//! files by priority, and which files make room for a new one.
use crate::cache::CacheError;
use crate::in_memory_file::FileStats;
use vstd::prelude::*;

verus! {

use crate::entries::{lists_map, lemma_lists_map_dom};

broadcast use vstd::seq_lib::group_to_multiset_ensures, vstd::multiset::group_multiset_axioms;

/// The number of bytes that the files take together.
pub open spec fn total_size(files: Map<Seq<char>, (Seq<u8>, FileStats)>) -> int
    decreases files.dom().len(),
    when files.dom().finite()
{
    if files.dom().len() == 0 {
        0
    } else {
        let k = files.dom().choose();
        files[k].1.size + total_size(files.remove(k))
    }
}

/// The number of bytes that the listed files take together.
pub open spec fn seq_total_size(s: Seq<(Seq<char>, (Seq<u8>, FileStats))>) -> int
    decreases s.len(),
{
    if s.len() == 0 {
        0
    } else {
        seq_total_size(s.drop_last()) + s.last().1.1.size
    }
}

/// Taking one file out of the total, whichever it is.
pub proof fn lemma_total_size_remove(files: Map<Seq<char>, (Seq<u8>, FileStats)>, k: Seq<char>)
    requires
        files.dom().finite(),
        files.contains_key(k),
    ensures
        total_size(files) == files[k].1.size + total_size(files.remove(k)),
    decreases files.dom().len(),
{
    let c = files.dom().choose();
    assert(files.dom().contains(c));
    if c != k {
        let fc = files.remove(c);
        let fk = files.remove(k);
        lemma_total_size_remove(fc, k);
        lemma_total_size_remove(fk, c);
        assert(fc.remove(k) =~= fk.remove(c));
    }
}

pub proof fn lemma_total_size_insert(files: Map<Seq<char>, (Seq<u8>, FileStats)>, k: Seq<char>, v: (Seq<u8>, FileStats))
    requires
        files.dom().finite(),
    ensures
        files.insert(k, v).dom().finite(),
        total_size(files.insert(k, v)) == v.1.size + total_size(files.remove(k)),
{
    lemma_total_size_remove(files.insert(k, v), k);
    assert(files.insert(k, v).remove(k) =~= files.remove(k));
}

/// Any listing of the files adds up to their total size.
pub proof fn lemma_listing_total(s: Seq<(Seq<char>, (Seq<u8>, FileStats))>, files: Map<Seq<char>, (Seq<u8>, FileStats)>)
    requires
        lists_map(s, files),
    ensures
        files.dom().finite(),
        seq_total_size(s) == total_size(files),
    decreases s.len(),
{
    lemma_lists_map_dom(s, files);
    if s.len() > 0 {
        let last = s.last();
        let rest = s.drop_last();
        let smaller = files.remove(last.0);
        assert(files.contains_key(s[s.len() - 1].0));
        assert forall|i: int| 0 <= i < rest.len() implies #[trigger] smaller.contains_key(rest[i].0)
            && smaller[rest[i].0] == rest[i].1 by {
            assert(s[i] == rest[i]);
            assert(s[i].0 != s[s.len() - 1].0);
        }
        assert forall|i: int, j: int| 0 <= i < j < rest.len() implies #[trigger] rest[i].0 != #[trigger] rest[j].0 by {
            assert(s[i].0 != s[j].0);
        }
        assert forall|k: Seq<char>| #[trigger] smaller.contains_key(k) implies exists|i: int|
            0 <= i < rest.len() && rest[i].0 == k by {
            let i = choose|i: int| 0 <= i < s.len() && s[i].0 == k;
            assert(i != s.len() - 1);
            assert(rest[i].0 == k);
        }
        lemma_listing_total(rest, smaller);
        lemma_total_size_remove(files, last.0);
    }
}

/// A prefix of a listing adds up to no more than the whole listing.
pub proof fn lemma_prefix_total(s: Seq<(Seq<char>, (Seq<u8>, FileStats))>, i: int)
    requires
        0 <= i <= s.len(),
    ensures
        0 <= seq_total_size(s.take(i)) <= seq_total_size(s),
    decreases s.len() - i,
{
    if i < s.len() {
        lemma_prefix_total(s, i + 1);
        assert(s.take(i + 1).drop_last() =~= s.take(i));
        lemma_nonneg_total(s.take(i));
    } else {
        assert(s.take(i) =~= s);
        lemma_nonneg_total(s);
    }
}

proof fn lemma_nonneg_total(s: Seq<(Seq<char>, (Seq<u8>, FileStats))>)
    ensures
        seq_total_size(s) >= 0,
    decreases s.len(),
{
    if s.len() > 0 {
        lemma_nonneg_total(s.drop_last());
    }
}


/// The (path, stats) pairs of a vector, as plain values.
pub open spec fn stats_view(s: Seq<(String, FileStats)>) -> Seq<(Seq<char>, FileStats)> {
    s.map_values(|e: (String, FileStats)| (e.0@, e.1))
}

/// The paths of a vector, as plain values.
pub open spec fn paths_view(s: Seq<String>) -> Seq<Seq<char>> {
    s.map_values(|p: String| p@)
}

/// The stats of the files, by path.
pub open spec fn stats_of(files: Map<Seq<char>, (Seq<u8>, FileStats)>) -> Map<Seq<char>, FileStats> {
    files.map_values(|f: (Seq<u8>, FileStats)| f.1)
}

/// No entry of `order` has a lower priority than a later one.
pub open spec fn sorted_by_priority(order: Seq<(Seq<char>, FileStats)>) -> bool {
    forall|i: int, j: int| 0 <= i < j < order.len() ==> #[trigger] order[i].1.priority >= #[trigger] order[j].1.priority
}

/// `order` lists the stats of every file once, highest priority first.
pub open spec fn is_priority_order(order: Seq<(Seq<char>, FileStats)>, files: Map<Seq<char>, (Seq<u8>, FileStats)>) -> bool {
    &&& lists_map(order, stats_of(files))
    &&& sorted_by_priority(order)
}

/// Taking files from the end of `stats` (the lowest priority first) until `freed` bytes reach
/// `required`: the paths taken, or why no room can be made. The files taken so far free `freed`
/// bytes and have priorities adding up to `score`; once `score` exceeds `new_priority`, the files
/// are, together, more important than the new one.
pub open spec fn make_room_from(
    stats: Seq<(Seq<char>, FileStats)>,
    required: int,
    new_priority: int,
    freed: int,
    score: int,
    chosen: Seq<Seq<char>>,
) -> Result<Seq<Seq<char>>, CacheError>
    decreases stats.len(),
{
    if freed >= required {
        Ok(chosen)
    } else if stats.len() == 0 {
        Err(CacheError::NoMoreFilesToRemove)
    } else {
        let lowest = stats.last();
        if score + lowest.1.priority > new_priority {
            Err(CacheError::NewPriorityIsNotHighEnough)
        } else {
            make_room_from(
                stats.drop_last(),
                required,
                new_priority,
                freed + lowest.1.size,
                score + lowest.1.priority,
                chosen.push(lowest.0),
            )
        }
    }
}

/// Which files, taken lowest priority first from `stats`, make `required` bytes of room for a
/// file of priority `new_priority`.
pub open spec fn room_plan(stats: Seq<(Seq<char>, FileStats)>, required: int, new_priority: int) -> Result<
    Seq<Seq<char>>,
    CacheError,
> {
    make_room_from(stats, required, new_priority, 0, 0, Seq::empty())
}

/// Sorts the (path, stats) pairs from highest to lowest priority.
pub(crate) fn sort_by_priority(v: Vec<(String, FileStats)>) -> (r: Vec<(String, FileStats)>)
    ensures
        stats_view(r@).to_multiset() == stats_view(v@).to_multiset(),
        sorted_by_priority(stats_view(r@)),
{
    let mut out: Vec<(String, FileStats)> = Vec::new();
    let mut i: usize = 0;
    while i < v.len()
        invariant
            0 <= i <= v.len(),
            stats_view(out@).to_multiset() == stats_view(v@).take(i as int).to_multiset(),
            sorted_by_priority(stats_view(out@)),
        decreases v.len() - i,
    {
        let key = v[i].0.clone();
        let st = v[i].1;
        let mut pos: usize = 0;
        while pos < out.len() && out[pos].1.priority >= st.priority
            invariant
                0 <= pos <= out.len(),
                forall|k: int| 0 <= k < pos ==> #[trigger] out@[k].1.priority >= st.priority,
            decreases out.len() - pos,
        {
            pos = pos + 1;
        }
        let ghost before = out@;
        proof {
            if pos < out.len() {
                assert forall|k: int| pos <= k < out.len() implies #[trigger] out@[k].1.priority < st.priority by {
                    if k > pos {
                        assert(stats_view(before)[pos as int].1.priority >= stats_view(before)[k].1.priority);
                    }
                }
            }
        }
        out.insert(pos, (key, st));
        proof {
            assert(stats_view(out@) =~= stats_view(before).insert(pos as int, (key@, st)));
            vstd::seq_lib::to_multiset_insert(stats_view(before), pos as int, (key@, st));
            assert(stats_view(v@).take(i + 1) =~= stats_view(v@).take(i as int).push(stats_view(v@)[i as int]));
            assert(stats_view(v@)[i as int] == (key@, st));
            assert forall|a: int, b: int| 0 <= a < b < out@.len() implies #[trigger] stats_view(out@)[a].1.priority
                >= #[trigger] stats_view(out@)[b].1.priority by {
                if a < pos && b > pos {
                    assert(stats_view(before)[a].1.priority >= st.priority);
                    assert(stats_view(before)[b - 1].1.priority < st.priority);
                } else if a < pos && b == pos {
                } else if a == pos {
                    assert(stats_view(before)[b - 1].1.priority < st.priority);
                } else if b < pos {
                    assert(stats_view(before)[a].1.priority >= stats_view(before)[b].1.priority);
                } else {
                    assert(stats_view(before)[a - 1].1.priority >= stats_view(before)[b - 1].1.priority);
                }
            }
        }
        i = i + 1;
    }
    proof {
        assert(stats_view(v@).take(v.len() as int) =~= stats_view(v@));
    }
    out
}

/// Reordering a listing keeps it a listing.
pub proof fn lemma_listing_permutation<V>(t: Seq<(Seq<char>, V)>, r: Seq<(Seq<char>, V)>, m: Map<Seq<char>, V>)
    requires
        lists_map(t, m),
        r.to_multiset() == t.to_multiset(),
    ensures
        lists_map(r, m),
{
    assert(t.no_duplicates()) by {
        assert forall|i: int, j: int| 0 <= i < t.len() && 0 <= j < t.len() && i != j implies t[i] != t[j] by {
            if i < j {
                assert(t[i].0 != t[j].0);
            } else {
                assert(t[j].0 != t[i].0);
            }
        }
    }
    t.lemma_multiset_has_no_duplicates();
    r.lemma_multiset_has_no_duplicates_conv();
    assert forall|i: int| 0 <= i < r.len() implies #[trigger] m.contains_key(r[i].0) && m[r[i].0] == r[i].1 by {
        assert(r.contains(r[i]));
        assert(r.to_multiset().count(r[i]) > 0);
        assert(t.to_multiset().count(r[i]) > 0);
        assert(t.contains(r[i]));
        let a = choose|a: int| 0 <= a < t.len() && t[a] == r[i];
        assert(m.contains_key(t[a].0));
    }
    assert forall|i: int, j: int| 0 <= i < j < r.len() implies #[trigger] r[i].0 != #[trigger] r[j].0 by {
        if r[i].0 == r[j].0 {
            assert(r.contains(r[i]));
            assert(r.contains(r[j]));
            assert(r.to_multiset().count(r[i]) > 0);
            assert(r.to_multiset().count(r[j]) > 0);
            assert(t.to_multiset().count(r[i]) > 0);
            assert(t.to_multiset().count(r[j]) > 0);
            assert(t.contains(r[i]));
            assert(t.contains(r[j]));
            let a = choose|a: int| 0 <= a < t.len() && t[a] == r[i];
            let b = choose|b: int| 0 <= b < t.len() && t[b] == r[j];
            if a != b {
                if a < b {
                    assert(t[a].0 != t[b].0);
                } else {
                    assert(t[b].0 != t[a].0);
                }
            }
            assert(r[i] == r[j]);
        }
    }
    assert forall|k: Seq<char>| #[trigger] m.contains_key(k) implies exists|i: int| 0 <= i < r.len() && r[i].0 == k by {
        let a = choose|a: int| 0 <= a < t.len() && t[a].0 == k;
        assert(t.contains(t[a]));
        assert(t.to_multiset().count(t[a]) > 0);
        assert(r.to_multiset().count(t[a]) > 0);
        assert(r.contains(t[a]));
        let i = choose|i: int| 0 <= i < r.len() && r[i] == t[a];
        assert(r[i].0 == k);
    }
}


/// The last `n` entries of `order`: the `n` lowest priorities when `order` is sorted.
pub open spec fn lowest(order: Seq<(Seq<char>, FileStats)>, n: int) -> Seq<(Seq<char>, FileStats)> {
    order.subrange(order.len() - n, order.len() as int)
}

/// The bytes that the listed files take together.
pub open spec fn stats_size_sum(s: Seq<(Seq<char>, FileStats)>) -> int
    decreases s.len(),
{
    if s.len() == 0 {
        0
    } else {
        stats_size_sum(s.drop_last()) + s.last().1.size
    }
}

/// The priorities of the listed files added up.
pub open spec fn stats_priority_sum(s: Seq<(Seq<char>, FileStats)>) -> int
    decreases s.len(),
{
    if s.len() == 0 {
        0
    } else {
        stats_priority_sum(s.drop_last()) + s.last().1.priority
    }
}

/// The paths of the listed files, last one first.
pub open spec fn paths_last_first(s: Seq<(Seq<char>, FileStats)>) -> Seq<Seq<char>> {
    Seq::new(s.len(), |i: int| s[s.len() - 1 - i].0)
}

/// The paths of the listed files.
pub open spec fn paths_of(s: Seq<(Seq<char>, FileStats)>) -> Seq<Seq<char>> {
    s.map_values(|e: (Seq<char>, FileStats)| e.0)
}

/// When room can be made, the files taken are the `n` last of `stats`, last one first, for an `n`
/// whose files free enough bytes and whose priorities, added up, stay within the new file's.
pub proof fn lemma_make_room_ok(
    stats: Seq<(Seq<char>, FileStats)>,
    required: int,
    new_priority: int,
    freed: int,
    score: int,
    chosen: Seq<Seq<char>>,
) -> (n: int)
    requires
        make_room_from(stats, required, new_priority, freed, score, chosen) is Ok,
        score <= new_priority,
    ensures
        0 <= n <= stats.len(),
        make_room_from(stats, required, new_priority, freed, score, chosen) == Ok::<Seq<Seq<char>>, CacheError>(
            chosen + paths_last_first(lowest(stats, n)),
        ),
        freed + stats_size_sum(lowest(stats, n)) >= required,
        score + stats_priority_sum(lowest(stats, n)) <= new_priority,
    decreases stats.len(),
{
    if freed >= required {
        assert(lowest(stats, 0) =~= Seq::<(Seq<char>, FileStats)>::empty());
        assert(chosen + paths_last_first(lowest(stats, 0)) =~= chosen);
        0
    } else {
        let last = stats.last();
        let rest = stats.drop_last();
        let m = lemma_make_room_ok(
            rest,
            required,
            new_priority,
            freed + last.1.size,
            score + last.1.priority,
            chosen.push(last.0),
        );
        let n = m + 1;
        assert(lowest(stats, n) =~= lowest(rest, m).push(last));
        assert(lowest(stats, n).drop_last() =~= lowest(rest, m));
        assert(chosen.push(last.0) + paths_last_first(lowest(rest, m)) =~= chosen + paths_last_first(
            lowest(stats, n),
        ));
        n
    }
}

/// The paths of a listing, last one first, are the paths of the listing.
pub proof fn lemma_paths_last_first_set(s: Seq<(Seq<char>, FileStats)>)
    ensures
        paths_last_first(s).to_set() =~= paths_of(s).to_set(),
{
    assert forall|k: Seq<char>| paths_last_first(s).to_set().contains(k) <==> paths_of(s).to_set().contains(k) by {
        if paths_last_first(s).to_set().contains(k) {
            let i = choose|i: int| 0 <= i < paths_last_first(s).len() && paths_last_first(s)[i] == k;
            assert(paths_of(s)[s.len() - 1 - i] == k);
        }
        if paths_of(s).to_set().contains(k) {
            let i = choose|i: int| 0 <= i < paths_of(s).len() && paths_of(s)[i] == k;
            assert(paths_last_first(s)[s.len() - 1 - i] == k);
        }
    }
}

/// Taking out of the files the distinct paths of a listing of some of their stats takes out the
/// bytes the listing adds up to.
pub proof fn lemma_total_size_remove_listed(
    files: Map<Seq<char>, (Seq<u8>, FileStats)>,
    t: Seq<(Seq<char>, FileStats)>,
)
    requires
        files.dom().finite(),
        forall|i: int| 0 <= i < t.len() ==> #[trigger] files.contains_key(t[i].0) && files[t[i].0].1 == t[i].1,
        forall|i: int, j: int| 0 <= i < j < t.len() ==> #[trigger] t[i].0 != #[trigger] t[j].0,
    ensures
        files.remove_keys(paths_of(t).to_set()).dom().finite(),
        total_size(files.remove_keys(paths_of(t).to_set())) == total_size(files) - stats_size_sum(t),
    decreases t.len(),
{
    if t.len() == 0 {
        assert(paths_of(t).to_set() =~= Set::<Seq<char>>::empty());
        assert(files.remove_keys(paths_of(t).to_set()) =~= files);
    } else {
        let rest = t.drop_last();
        let x = t.last();
        assert forall|i: int| 0 <= i < rest.len() implies #[trigger] files.contains_key(rest[i].0) && files[rest[i].0].1
            == rest[i].1 by {
            assert(rest[i] == t[i]);
        }
        assert forall|i: int, j: int| 0 <= i < j < rest.len() implies #[trigger] rest[i].0 != #[trigger] rest[j].0 by {
            assert(rest[i] == t[i]);
            assert(rest[j] == t[j]);
        }
        lemma_total_size_remove_listed(files, rest);
        let smaller = files.remove_keys(paths_of(rest).to_set());
        assert(paths_of(t) =~= paths_of(rest).push(x.0));
        paths_of(rest).lemma_push_to_set_commute(x.0);
        assert(!paths_of(rest).to_set().contains(x.0)) by {
            if paths_of(rest).to_set().contains(x.0) {
                let i = choose|i: int| 0 <= i < paths_of(rest).len() && paths_of(rest)[i] == x.0;
                assert(t[i].0 != t[t.len() - 1].0);
            }
        }
        assert(files.contains_key(t[t.len() - 1].0));
        assert(smaller.contains_key(x.0));
        assert(files.remove_keys(paths_of(t).to_set()) =~= smaller.remove(x.0));
        lemma_total_size_remove(smaller, x.0);
    }
}


/// Sizes add up to no less than 0.
pub proof fn lemma_total_size_nonneg(files: Map<Seq<char>, (Seq<u8>, FileStats)>)
    requires
        files.dom().finite(),
    ensures
        total_size(files) >= 0,
    decreases files.dom().len(),
{
    if files.dom().len() > 0 {
        let k = files.dom().choose();
        assert(files.dom().contains(k));
        lemma_total_size_nonneg(files.remove(k));
    }
}

/// The `n` lowest-priority files of `order` free at least `required` bytes, and fewer of them do
/// not: the shortest such run of lowest priorities.
pub open spec fn fewest_to_free(order: Seq<(Seq<char>, FileStats)>, required: int, n: int) -> bool {
    &&& 0 <= n <= order.len()
    &&& stats_size_sum(lowest(order, n)) >= required
    &&& forall|m: int| 0 <= m < n ==> #[trigger] stats_size_sum(lowest(order, m)) < required
}

proof fn lemma_priority_sum_nonneg(s: Seq<(Seq<char>, FileStats)>)
    ensures
        stats_priority_sum(s) >= 0,
    decreases s.len(),
{
    if s.len() > 0 {
        lemma_priority_sum_nonneg(s.drop_last());
    }
}

/// Taking `n` files from the end of `stats` is taking the last file and `n - 1` from the rest.
proof fn lemma_lowest_step(stats: Seq<(Seq<char>, FileStats)>, n: int)
    requires
        1 <= n <= stats.len(),
    ensures
        lowest(stats, n) =~= lowest(stats.drop_last(), n - 1).push(stats.last()),
        lowest(stats, n).drop_last() =~= lowest(stats.drop_last(), n - 1),
        stats_size_sum(lowest(stats, n)) == stats_size_sum(lowest(stats.drop_last(), n - 1)) + stats.last().1.size,
        stats_priority_sum(lowest(stats, n)) == stats_priority_sum(lowest(stats.drop_last(), n - 1))
            + stats.last().1.priority,
{
    assert(lowest(stats, n) =~= lowest(stats.drop_last(), n - 1).push(stats.last()));
    assert(lowest(stats, n).drop_last() =~= lowest(stats.drop_last(), n - 1));
}

/// Where the fewest lowest-priority files that free enough room are the last `n`, making room
/// takes exactly those when their priorities, added up, stay within the new file's, and is
/// refused for priority otherwise.
pub(crate) proof fn lemma_make_room_takes_fewest(
    stats: Seq<(Seq<char>, FileStats)>,
    required: int,
    new_priority: int,
    freed: int,
    score: int,
    chosen: Seq<Seq<char>>,
    n: int,
)
    requires
        0 <= n <= stats.len(),
        freed + stats_size_sum(lowest(stats, n)) >= required,
        forall|m: int| 0 <= m < n ==> freed + #[trigger] stats_size_sum(lowest(stats, m)) < required,
        score <= new_priority,
    ensures
        make_room_from(stats, required, new_priority, freed, score, chosen) == if score + stats_priority_sum(
            lowest(stats, n),
        ) <= new_priority {
            Ok::<Seq<Seq<char>>, CacheError>(chosen + paths_last_first(lowest(stats, n)))
        } else {
            Err::<Seq<Seq<char>>, CacheError>(CacheError::NewPriorityIsNotHighEnough)
        },
    decreases stats.len(),
{
    assert(lowest(stats, 0) =~= Seq::<(Seq<char>, FileStats)>::empty());
    if freed >= required {
        if n > 0 {
            assert(freed + stats_size_sum(lowest(stats, 0)) < required);
        }
        assert(chosen + paths_last_first(lowest(stats, 0)) =~= chosen);
    } else {
        if n == 0 {
            assert(false);
        }
        let last = stats.last();
        let rest = stats.drop_last();
        lemma_lowest_step(stats, n);
        lemma_priority_sum_nonneg(lowest(rest, n - 1));
        if score + last.1.priority <= new_priority {
            assert forall|m: int| 0 <= m < n - 1 implies freed + last.1.size + #[trigger] stats_size_sum(
                lowest(rest, m),
            ) < required by {
                lemma_lowest_step(stats, m + 1);
                assert(freed + stats_size_sum(lowest(stats, m + 1)) < required);
            }
            lemma_make_room_takes_fewest(
                rest,
                required,
                new_priority,
                freed + last.1.size,
                score + last.1.priority,
                chosen.push(last.0),
                n - 1,
            );
            assert(chosen.push(last.0) + paths_last_first(lowest(rest, n - 1)) =~= chosen + paths_last_first(
                lowest(stats, n),
            ));
        }
    }
}

/// Where all the files together do not free enough room, making room fails: for want of files
/// when their priorities, added up, stay within the new file's, and for priority otherwise.
pub(crate) proof fn lemma_make_room_runs_out(
    stats: Seq<(Seq<char>, FileStats)>,
    required: int,
    new_priority: int,
    freed: int,
    score: int,
    chosen: Seq<Seq<char>>,
)
    requires
        freed + stats_size_sum(stats) < required,
        score <= new_priority,
    ensures
        make_room_from(stats, required, new_priority, freed, score, chosen) == if score + stats_priority_sum(stats)
            <= new_priority {
            Err::<Seq<Seq<char>>, CacheError>(CacheError::NoMoreFilesToRemove)
        } else {
            Err::<Seq<Seq<char>>, CacheError>(CacheError::NewPriorityIsNotHighEnough)
        },
    decreases stats.len(),
{
    lemma_nonneg_sizes(stats);
    if stats.len() > 0 {
        let last = stats.last();
        let rest = stats.drop_last();
        lemma_priority_sum_nonneg(rest);
        if score + last.1.priority <= new_priority {
            lemma_make_room_runs_out(
                rest,
                required,
                new_priority,
                freed + last.1.size,
                score + last.1.priority,
                chosen.push(last.0),
            );
        }
    }
}

proof fn lemma_nonneg_sizes(s: Seq<(Seq<char>, FileStats)>)
    ensures
        stats_size_sum(s) >= 0,
    decreases s.len(),
{
    if s.len() > 0 {
        lemma_nonneg_sizes(s.drop_last());
    }
}

} // verus!
