use vstd::prelude::*;

use vstd::string::StringExecFns;

use crate::display::{int_chars, int_to_string};
use crate::error::MetricsError;
use crate::metrics::{
    entries_map, find_key, lemma_entries_map_absent, lemma_entries_map_index,
    lemma_entries_map_push, lemma_entries_map_update, unique_keys,
};

verus! {

/// The rendering of one counter: its name, a colon and a space, its count.
pub open spec fn render_entry(e: (String, i64)) -> Seq<char> {
    e.0@ + seq![':', ' '] + int_chars(e.1 as int)
}

/// The first `n` counters of `s`, each rendered by `render_entry`,
/// separated by a comma and a space.
pub open spec fn render_entries(s: Seq<(String, i64)>, n: int) -> Seq<char>
    decreases n,
{
    if n <= 0 {
        Seq::empty()
    } else if n == 1 {
        render_entry(s[0])
    } else {
        render_entries(s, n - 1) + seq![',', ' '] + render_entry(s[n - 1])
    }
}

/// A metrics family over a key set fixed at construction: incrementing an
/// unknown key is an error.
#[derive(Clone, Debug)]
pub struct AmapMetrics {
    data: Vec<(String, i64)>,
}

impl View for AmapMetrics {
    type V = Map<Seq<char>, int>;

    closed spec fn view(&self) -> Map<Seq<char>, int> {
        entries_map(self.data@)
    }
}

impl AmapMetrics {
    /// No two counters share a name.
    pub closed spec fn wf(&self) -> bool {
        unique_keys(self.data@)
    }

    /// The counters in insertion order.
    pub closed spec fn entries(&self) -> Seq<(String, i64)> {
        self.data@
    }

    /// Renders every counter as `name: count`, joined by a comma and a
    /// space, in insertion order.
    #[verifier::loop_isolation(false)]
    pub fn display(&self) -> (s: String)
        ensures
            s@ == render_entries(self.entries(), self.entries().len() as int),
    {
        proof {
            reveal_strlit(": ");
            reveal_strlit(", ");
        }
        let n = self.data.len();
        let mut s = String::new();
        let mut p: usize = 0;
        proof {
            assert(s@ =~= render_entries(self.entries(), 0) + Seq::<char>::empty());
        }
        while p < n
            invariant
                0 <= p <= n,
                s@ == render_entries(self.entries(), p as int) + (if 0 < p < n {
                    seq![',', ' ']
                } else {
                    Seq::<char>::empty()
                }),
            decreases n - p,
        {
            s.append(self.data[p].0.as_str());
            s.append(": ");
            let num = int_to_string(self.data[p].1);
            s.append(num.as_str());
            if p + 1 < n {
                s.append(", ");
            }
            proof {
                assert(s@ =~= render_entries(self.entries(), p + 1) + (if 0 < p + 1 < n {
                    seq![',', ' ']
                } else {
                    Seq::<char>::empty()
                }));
            }
            p = p + 1;
        }
        s
    }

    /// Builds one zeroed counter per distinct name.
    pub fn new(metrics_names: &[&str]) -> (m: AmapMetrics)
        ensures
            m.wf(),
            forall|u: int|
                0 <= u < metrics_names@.len() ==> m@.contains_key(
                    (#[trigger] metrics_names@[u])@,
                ),
            forall|k: Seq<char>|
                #[trigger] m@.contains_key(k) ==> m@[k] == 0 && exists|u: int|
                    0 <= u < metrics_names@.len() && (#[trigger] metrics_names@[u])@ == k,
    {
        let mut data: Vec<(String, i64)> = Vec::new();
        let mut p: usize = 0;
        while p < metrics_names.len()
            invariant
                unique_keys(data@),
                0 <= p <= metrics_names@.len(),
                forall|u: int|
                    0 <= u < p ==> entries_map(data@).contains_key(
                        (#[trigger] metrics_names@[u])@,
                    ),
                forall|k: Seq<char>|
                    #[trigger] entries_map(data@).contains_key(k) ==> entries_map(data@)[k] == 0
                        && exists|u: int|
                        0 <= u < p && (#[trigger] metrics_names@[u])@ == k,
            decreases metrics_names@.len() - p,
        {
            let owned = metrics_names[p].to_owned();
            match find_key(&data, &owned) {
                Some(q) => {
                    proof {
                        lemma_entries_map_index(data@, q as int);
                    }
                },
                None => {
                    proof {
                        lemma_entries_map_absent(data@, owned@);
                        lemma_entries_map_push(data@, owned, 0);
                    }
                    let ghost old_data = data@;
                    data.push((owned, 0));
                    proof {
                        assert forall|x: int, y: int|
                            0 <= x < y < data@.len() implies (#[trigger] data@[x]).0@ != (
                        #[trigger] data@[y]).0@ by {
                            if y < data@.len() - 1 {
                                assert(data@[x] == old_data[x]);
                                assert(data@[y] == old_data[y]);
                            } else {
                                assert(data@[x] == old_data[x]);
                            }
                        }
                    }
                },
            }
            p = p + 1;
        }
        AmapMetrics { data }
    }

    /// Increments the counter for `key` by one; fails with `KeyNotFound`,
    /// leaving every counter unchanged, exactly when no counter has that
    /// name.
    pub fn inc(&mut self, key: &str) -> (r: Result<(), MetricsError>)
        requires
            old(self).wf(),
            old(self)@.contains_key(key@) ==> old(self)@[key@] < i64::MAX,
        ensures
            final(self).wf(),
            match r {
                Ok(_) => old(self)@.contains_key(key@) && final(self)@ == old(self)@.insert(
                    key@,
                    old(self)@[key@] + 1,
                ),
                Err(e) => e == MetricsError::KeyNotFound && !old(self)@.contains_key(key@)
                    && final(self)@ == old(self)@,
            },
    {
        let owned = key.to_owned();
        match find_key(&self.data, &owned) {
            Some(p) => {
                proof {
                    lemma_entries_map_index(self.data@, p as int);
                    lemma_entries_map_update(self.data@, p as int, (self.data@[p as int].1 + 1) as i64);
                }
                let ghost old_data = self.data@;
                let kc = self.data[p].0.clone();
                let v = self.data[p].1;
                self.data.set(p, (kc, v + 1));
                proof {
                    assert(self.data@ =~= old_data.update(p as int, (old_data[p as int].0, (
                    old_data[p as int].1 + 1) as i64)));
                    assert forall|x: int, y: int|
                        0 <= x < y < self.data@.len() implies (#[trigger] self.data@[x]).0@ != (
                    #[trigger] self.data@[y]).0@ by {
                        assert(self.data@[x].0@ == old_data[x].0@);
                        assert(self.data@[y].0@ == old_data[y].0@);
                    }
                }
                Ok(())
            },
            None => {
                proof {
                    lemma_entries_map_absent(self.data@, key@);
                }
                Err(MetricsError::KeyNotFound)
            },
        }
    }
}

} // verus!
