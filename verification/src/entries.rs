//! Key-value entries held as a multiset, and the map they form when no key occurs twice.
use vstd::multiset::Multiset;
use vstd::prelude::*;

verus! {

broadcast use vstd::multiset::group_multiset_axioms;

/// Some entry of `m` has key `k`.
pub open spec fn has_key<V>(m: Multiset<(Seq<char>, V)>, k: Seq<char>) -> bool {
    exists|v: V| #[trigger] m.count((k, v)) > 0
}

/// No key occurs in more than one entry of `m`, and no entry occurs twice.
pub open spec fn unique_keys<V>(m: Multiset<(Seq<char>, V)>) -> bool {
    forall|k: Seq<char>, v1: V, v2: V|
        #![trigger m.count((k, v1)), m.count((k, v2))]
        m.count((k, v1)) > 0 && m.count((k, v2)) > 0 ==> v1 == v2 && m.count((k, v1)) == 1
}

/// The map from each key of `m` to the value of an entry with that key.
pub open spec fn entries_map<V>(m: Multiset<(Seq<char>, V)>) -> Map<Seq<char>, V> {
    Map::new(|k: Seq<char>| has_key(m, k), |k: Seq<char>| choose|v: V| m.count((k, v)) > 0)
}

pub proof fn lemma_entry_in_map<V>(m: Multiset<(Seq<char>, V)>, k: Seq<char>, v: V)
    requires
        unique_keys(m),
        m.count((k, v)) > 0,
    ensures
        entries_map(m).contains_key(k),
        entries_map(m)[k] == v,
{
    assert(has_key(m, k));
    let w = choose|w: V| m.count((k, w)) > 0;
    assert(m.count((k, w)) > 0);
}

pub proof fn lemma_map_entry<V>(m: Multiset<(Seq<char>, V)>, k: Seq<char>)
    requires
        entries_map(m).contains_key(k),
    ensures
        m.count((k, entries_map(m)[k])) > 0,
{
    assert(has_key(m, k));
}

pub proof fn lemma_empty<V>()
    ensures
        unique_keys(Multiset::<(Seq<char>, V)>::empty()),
        entries_map(Multiset::<(Seq<char>, V)>::empty()) =~= Map::empty(),
{
}

pub proof fn lemma_insert_absent<V>(m: Multiset<(Seq<char>, V)>, k: Seq<char>, v: V)
    requires
        unique_keys(m),
        !has_key(m, k),
    ensures
        unique_keys(m.insert((k, v))),
        entries_map(m.insert((k, v))) =~= entries_map(m).insert(k, v),
{
    let n = m.insert((k, v));
    assert forall|k2: Seq<char>, v1: V, v2: V|
        #![trigger n.count((k2, v1)), n.count((k2, v2))]
        n.count((k2, v1)) > 0 && n.count((k2, v2)) > 0 implies v1 == v2 && n.count((k2, v1)) == 1 by {
        if k2 == k {
            assert(m.count((k2, v1)) == 0);
            assert(m.count((k2, v2)) == 0);
        } else {
            assert(m.count((k2, v1)) > 0);
            assert(m.count((k2, v2)) > 0);
        }
    }
    assert forall|k2: Seq<char>| #[trigger] has_key(n, k2) == (has_key(m, k2) || k2 == k) by {
        if k2 == k {
            assert(n.count((k, v)) > 0);
        }
        if has_key(m, k2) {
            let w = choose|w: V| m.count((k2, w)) > 0;
            assert(n.count((k2, w)) > 0);
        }
    }
    assert forall|k2: Seq<char>| #[trigger] entries_map(n).contains_key(k2) implies entries_map(n)[k2]
        == entries_map(m).insert(k, v)[k2] by {
        lemma_map_entry(n, k2);
        if k2 == k {
            lemma_entry_in_map(n, k, v);
        } else {
            let w = entries_map(n)[k2];
            assert(m.count((k2, w)) > 0);
            lemma_entry_in_map(m, k2, w);
        }
    }
}

pub proof fn lemma_remove_present<V>(m: Multiset<(Seq<char>, V)>, k: Seq<char>, v: V)
    requires
        unique_keys(m),
        m.count((k, v)) > 0,
    ensures
        unique_keys(m.remove((k, v))),
        !has_key(m.remove((k, v)), k),
        entries_map(m.remove((k, v))) =~= entries_map(m).remove(k),
        entries_map(m).contains_key(k),
        entries_map(m)[k] == v,
{
    lemma_entry_in_map(m, k, v);
    let n = m.remove((k, v));
    assert forall|k2: Seq<char>, v1: V, v2: V|
        #![trigger n.count((k2, v1)), n.count((k2, v2))]
        n.count((k2, v1)) > 0 && n.count((k2, v2)) > 0 implies v1 == v2 && n.count((k2, v1)) == 1 by {
        assert(m.count((k2, v1)) > 0);
        assert(m.count((k2, v2)) > 0);
    }
    assert forall|w: V| n.count((k, w)) == 0 by {
        if m.count((k, w)) > 0 {
            assert(w == v);
        }
    }
    assert forall|k2: Seq<char>| #[trigger] has_key(n, k2) == (has_key(m, k2) && k2 != k) by {
        if has_key(m, k2) && k2 != k {
            let w = choose|w: V| m.count((k2, w)) > 0;
            assert(n.count((k2, w)) > 0);
        }
    }
    assert forall|k2: Seq<char>| #[trigger] entries_map(n).contains_key(k2) implies entries_map(n)[k2]
        == entries_map(m)[k2] by {
        lemma_map_entry(n, k2);
        let w = entries_map(n)[k2];
        lemma_entry_in_map(m, k2, w);
    }
}

} // verus!

verus! {

/// `s` lists the map `m`: each key of `m` once, with its value.
pub open spec fn lists_map<V>(s: Seq<(Seq<char>, V)>, m: Map<Seq<char>, V>) -> bool {
    &&& forall|i: int| 0 <= i < s.len() ==> #[trigger] m.contains_key(s[i].0) && m[s[i].0] == s[i].1
    &&& forall|i: int, j: int| 0 <= i < j < s.len() ==> #[trigger] s[i].0 != #[trigger] s[j].0
    &&& forall|k: Seq<char>| #[trigger] m.contains_key(k) ==> exists|i: int| 0 <= i < s.len() && s[i].0 == k
}

proof fn lemma_two_positions<A>(s: Seq<A>, i: int, j: int)
    requires
        0 <= i < j < s.len(),
        s[i] == s[j],
    ensures
        s.to_multiset().count(s[i]) >= 2,
{
    broadcast use vstd::seq_lib::to_multiset_remove, vstd::seq_lib::to_multiset_contains;
    let r = s.remove(i);
    assert(r[j - 1] == s[j]);
    assert(r.contains(s[i]));
    assert(r.to_multiset().count(s[i]) > 0);
}

/// A sequence whose multiset is a multiset of entries with unique keys lists the map of those entries.
pub proof fn lemma_seq_lists_entries<V>(s: Seq<(Seq<char>, V)>, m: Multiset<(Seq<char>, V)>)
    requires
        s.to_multiset() == m,
        unique_keys(m),
    ensures
        lists_map(s, entries_map(m)),
        entries_map(m).dom().finite(),
        entries_map(m).dom().len() == s.len(),
{
    broadcast use vstd::seq_lib::to_multiset_contains;
    assert forall|i: int| 0 <= i < s.len() implies #[trigger] entries_map(m).contains_key(s[i].0)
        && entries_map(m)[s[i].0] == s[i].1 by {
        assert(s.contains(s[i]));
        lemma_entry_in_map(m, s[i].0, s[i].1);
    }
    assert forall|i: int, j: int| 0 <= i < j < s.len() implies #[trigger] s[i].0 != #[trigger] s[j].0 by {
        if s[i].0 == s[j].0 {
            assert(s.contains(s[i]));
            assert(s.contains(s[j]));
            assert(m.count((s[i].0, s[i].1)) > 0);
            assert(m.count((s[i].0, s[j].1)) > 0);
            assert(s[i] == s[j]);
            lemma_two_positions(s, i, j);
        }
    }
    assert forall|k: Seq<char>| #[trigger] entries_map(m).contains_key(k) implies exists|i: int|
        0 <= i < s.len() && s[i].0 == k by {
        lemma_map_entry(m, k);
        let e = (k, entries_map(m)[k]);
        assert(s.contains(e));
        let i = choose|i: int| 0 <= i < s.len() && s[i] == e;
        assert(s[i].0 == k);
    }
    lemma_lists_map_dom(s, entries_map(m));
}

/// The keys of a listing are the domain of the listed map, which is finite and as large as the listing.
pub proof fn lemma_lists_map_dom<V>(s: Seq<(Seq<char>, V)>, m: Map<Seq<char>, V>)
    requires
        lists_map(s, m),
    ensures
        m.dom() =~= s.map_values(|e: (Seq<char>, V)| e.0).to_set(),
        m.dom().finite(),
        m.dom().len() == s.len(),
{
    let keys = s.map_values(|e: (Seq<char>, V)| e.0);
    assert forall|k: Seq<char>| m.dom().contains(k) <==> keys.to_set().contains(k) by {
        if m.dom().contains(k) {
            let i = choose|i: int| 0 <= i < s.len() && s[i].0 == k;
            assert(keys[i] == k);
        }
        if keys.to_set().contains(k) {
            let i = choose|i: int| 0 <= i < keys.len() && keys[i] == k;
            assert(m.contains_key(s[i].0));
        }
    }
    assert(keys.no_duplicates()) by {
        assert forall|i: int, j: int| 0 <= i < keys.len() && 0 <= j < keys.len() && i != j implies keys[i]
            != keys[j] by {
            if i < j {
                assert(s[i].0 != s[j].0);
            } else {
                assert(s[j].0 != s[i].0);
            }
        }
    }
    keys.unique_seq_to_set();
}

} // verus!
