pub mod amap;
pub mod cmap;

use vstd::prelude::*;

verus! {

/// No two entries share a key.
pub open spec fn unique_keys(s: Seq<(String, i64)>) -> bool {
    forall|p: int, q: int| 0 <= p < q < s.len() ==> (#[trigger] s[p]).0@ != (#[trigger] s[q]).0@
}

/// The key-to-count map that a sequence of entries denotes; later entries
/// shadow earlier ones with the same key.
pub open spec fn entries_map(s: Seq<(String, i64)>) -> Map<Seq<char>, int>
    decreases s.len(),
{
    if s.len() == 0 {
        Map::empty()
    } else {
        entries_map(s.drop_last()).insert(s.last().0@, s.last().1 as int)
    }
}

pub proof fn lemma_unique_drop_last(s: Seq<(String, i64)>)
    requires
        unique_keys(s),
        s.len() > 0,
    ensures
        unique_keys(s.drop_last()),
{
    assert forall|p: int, q: int|
        0 <= p < q < s.drop_last().len() implies (#[trigger] s.drop_last()[p]).0@ != (
    #[trigger] s.drop_last()[q]).0@ by {
        assert(s.drop_last()[p] == s[p]);
        assert(s.drop_last()[q] == s[q]);
    }
}

/// Each entry of a duplicate-free sequence is in the denoted map, with its
/// own count.
pub proof fn lemma_entries_map_index(s: Seq<(String, i64)>, p: int)
    requires
        unique_keys(s),
        0 <= p < s.len(),
    ensures
        entries_map(s).contains_key(s[p].0@),
        entries_map(s)[s[p].0@] == s[p].1 as int,
    decreases s.len(),
{
    if p < s.len() - 1 {
        lemma_unique_drop_last(s);
        lemma_entries_map_index(s.drop_last(), p);
        assert(s.drop_last()[p] == s[p]);
    }
}

/// A key carried by no entry is not in the denoted map.
pub proof fn lemma_entries_map_absent(s: Seq<(String, i64)>, k: Seq<char>)
    requires
        forall|u: int| 0 <= u < s.len() ==> (#[trigger] s[u]).0@ != k,
    ensures
        !entries_map(s).contains_key(k),
    decreases s.len(),
{
    if s.len() > 0 {
        assert forall|u: int|
            0 <= u < s.drop_last().len() implies (#[trigger] s.drop_last()[u]).0@ != k by {
            assert(s.drop_last()[u] == s[u]);
        }
        lemma_entries_map_absent(s.drop_last(), k);
    }
}

/// Replacing the count of one entry of a duplicate-free sequence updates
/// the denoted map at that entry's key only.
pub proof fn lemma_entries_map_update(s: Seq<(String, i64)>, p: int, v: i64)
    requires
        unique_keys(s),
        0 <= p < s.len(),
    ensures
        entries_map(s.update(p, (s[p].0, v))) == entries_map(s).insert(s[p].0@, v as int),
    decreases s.len(),
{
    let s2 = s.update(p, (s[p].0, v));
    if p == s.len() - 1 {
        assert(s2.drop_last() =~= s.drop_last());
        assert(s2.last() == (s[p].0, v));
        assert(entries_map(s2) =~= entries_map(s).insert(s[p].0@, v as int));
    } else {
        lemma_unique_drop_last(s);
        assert(s.drop_last()[p] == s[p]);
        assert(s2.drop_last() =~= s.drop_last().update(p, (s[p].0, v)));
        lemma_entries_map_update(s.drop_last(), p, v);
        assert(s2.last() == s.last());
        assert(s[p].0@ != s.last().0@);
        assert(entries_map(s2) =~= entries_map(s).insert(s[p].0@, v as int));
    }
}

/// Appending an entry inserts its key and count into the denoted map.
pub proof fn lemma_entries_map_push(s: Seq<(String, i64)>, key: String, v: i64)
    ensures
        entries_map(s.push((key, v))) == entries_map(s).insert(key@, v as int),
{
    assert(s.push((key, v)).drop_last() =~= s);
    assert(s.push((key, v)).last() == (key, v));
}

/// Finds the position of the entry for `key`, if one exists.
pub(crate) fn find_key(data: &Vec<(String, i64)>, key: &String) -> (r: Option<usize>)
    ensures
        match r {
            Some(p) => (p as int) < data@.len() && data@[p as int].0@ == key@,
            None => forall|u: int| 0 <= u < data@.len() ==> (#[trigger] data@[u]).0@ != key@,
        },
{
    let mut p: usize = 0;
    while p < data.len()
        invariant
            0 <= p <= data@.len(),
            forall|u: int| 0 <= u < p ==> (#[trigger] data@[u]).0@ != key@,
        decreases data@.len() - p,
    {
        if data[p].0 == *key {
            return Some(p);
        }
        p = p + 1;
    }
    None
}

} // verus!
