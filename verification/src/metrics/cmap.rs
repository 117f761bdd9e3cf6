use vstd::prelude::*;

use crate::error::MetricsError;
use crate::metrics::{
    entries_map, find_key, lemma_entries_map_absent, lemma_entries_map_index,
    lemma_entries_map_push, lemma_entries_map_update, unique_keys,
};

verus! {

/// A metrics family over a growing key set: incrementing an unknown key
/// creates its counter.
#[derive(Clone, Debug)]
pub struct CmapMetrics {
    data: Vec<(String, i64)>,
}

impl View for CmapMetrics {
    type V = Map<Seq<char>, int>;

    closed spec fn view(&self) -> Map<Seq<char>, int> {
        entries_map(self.data@)
    }
}

impl Default for CmapMetrics {
    fn default() -> (m: CmapMetrics)
        ensures
            m.wf(),
            m@ == Map::<Seq<char>, int>::empty(),
    {
        CmapMetrics::new()
    }
}

impl CmapMetrics {
    /// No two counters share a name.
    pub closed spec fn wf(&self) -> bool {
        unique_keys(self.data@)
    }

    /// An empty metrics family.
    pub fn new() -> (m: CmapMetrics)
        ensures
            m.wf(),
            m@ == Map::<Seq<char>, int>::empty(),
    {
        CmapMetrics { data: Vec::new() }
    }

    /// Increments the counter for `key` by one, creating it at one if it
    /// did not exist.
    pub fn inc(&mut self, key: &str) -> (r: Result<(), MetricsError>)
        requires
            old(self).wf(),
            old(self)@.contains_key(key@) ==> old(self)@[key@] < i64::MAX,
        ensures
            final(self).wf(),
            r is Ok,
            final(self)@ == old(self)@.insert(
                key@,
                if old(self)@.contains_key(key@) {
                    old(self)@[key@] + 1
                } else {
                    1int
                },
            ),
    {
        let owned = key.to_owned();
        match find_key(&self.data, &owned) {
            Some(p) => {
                proof {
                    lemma_entries_map_index(self.data@, p as int);
                    lemma_entries_map_update(self.data@, p as int, (self.data@[p as int].1 + 1) as i64);
                }
                let ghost old_data = self.data@;
                let kc = self.data[p].0.clone();
                let v = self.data[p].1;
                self.data.set(p, (kc, v + 1));
                proof {
                    assert(self.data@ =~= old_data.update(p as int, (old_data[p as int].0, (
                    old_data[p as int].1 + 1) as i64)));
                    assert forall|x: int, y: int|
                        0 <= x < y < self.data@.len() implies (#[trigger] self.data@[x]).0@ != (
                    #[trigger] self.data@[y]).0@ by {
                        assert(self.data@[x].0@ == old_data[x].0@);
                        assert(self.data@[y].0@ == old_data[y].0@);
                    }
                }
                Ok(())
            },
            None => {
                proof {
                    lemma_entries_map_absent(self.data@, key@);
                    lemma_entries_map_push(self.data@, owned, 1);
                }
                let ghost old_data = self.data@;
                self.data.push((owned, 1));
                proof {
                    assert forall|x: int, y: int|
                        0 <= x < y < self.data@.len() implies (#[trigger] self.data@[x]).0@ != (
                    #[trigger] self.data@[y]).0@ by {
                        if y < self.data@.len() - 1 {
                            assert(self.data@[x] == old_data[x]);
                            assert(self.data@[y] == old_data[y]);
                        } else {
                            assert(self.data@[x] == old_data[x]);
                        }
                    }
                }
                Ok(())
            },
        }
    }

    /// A copy of every counter and its current count.
    pub fn snapshot(&self) -> (r: Vec<(String, i64)>)
        requires
            self.wf(),
        ensures
            unique_keys(r@),
            entries_map(r@) == self@,
    {
        let mut out: Vec<(String, i64)> = Vec::new();
        let mut p: usize = 0;
        while p < self.data.len()
            invariant
                0 <= p <= self.data@.len(),
                out@ =~= self.data@.take(p as int),
            decreases self.data@.len() - p,
        {
            out.push((self.data[p].0.clone(), self.data[p].1));
            proof {
                assert(out@ =~= self.data@.take(p + 1));
            }
            p = p + 1;
        }
        proof {
            assert(out@ =~= self.data@);
        }
        out
    }
}

} // verus!
