//! Values kept by name, each name at most once.
use vstd::prelude::*;
use crate::text::str_eq;

verus! {

/// Values kept by name.
pub struct Cache<T> {
    entries: Vec<(String, T)>,
}

/// The position of the last entry with a name, or -1.
pub open spec fn entry_index<T>(es: Seq<(String, T)>, k: Seq<char>) -> int
    decreases es.len(),
{
    if es.len() == 0 {
        -1
    } else if es.last().0@ == k {
        es.len() - 1
    } else {
        entry_index(es.drop_last(), k)
    }
}

/// No name twice.
pub open spec fn distinct_names<T>(es: Seq<(String, T)>) -> bool {
    forall|i: int, j: int| 0 <= i < j < es.len() ==> (#[trigger] es[i]).0@ != (#[trigger] es[j]).0@
}

proof fn lemma_entry_at<T>(es: Seq<(String, T)>, k: Seq<char>, i: int)
    requires
        distinct_names(es),
        0 <= i < es.len(),
        es[i].0@ == k,
    ensures
        entry_index(es, k) == i,
    decreases es.len(),
{
    if i < es.len() - 1 {
        assert(es.last().0@ != k) by {
            assert(es[i].0@ != es[es.len() - 1].0@);
        }
        let rest = es.drop_last();
        assert(rest[i] == es[i]);
        lemma_entry_at(rest, k, i);
    }
}

proof fn lemma_entry_index_range<T>(es: Seq<(String, T)>, k: Seq<char>)
    ensures
        -1 <= entry_index(es, k) < es.len(),
    decreases es.len(),
{
    if es.len() > 0 {
        lemma_entry_index_range(es.drop_last(), k);
    }
}

proof fn lemma_entry_absent<T>(es: Seq<(String, T)>, k: Seq<char>)
    requires
        forall|j: int| 0 <= j < es.len() ==> (#[trigger] es[j]).0@ != k,
    ensures
        entry_index(es, k) == -1,
    decreases es.len(),
{
    if es.len() > 0 {
        let rest = es.drop_last();
        assert forall|j: int| 0 <= j < rest.len() implies (#[trigger] rest[j]).0@ != k by {
            assert(rest[j] == es[j]);
        }
        lemma_entry_absent(rest, k);
    }
}

impl<T: View> Cache<T> {
    /// Each name at most once.
    pub closed spec fn wf(&self) -> bool {
        distinct_names(self.entries@)
    }

    /// The value kept under a name.
    pub closed spec fn lookup(&self, k: Seq<char>) -> Option<T> {
        let i = entry_index(self.entries@, k);
        if 0 <= i {
            Some(self.entries@[i].1)
        } else {
            None
        }
    }

    /// The views of the values kept, by name.
    pub open spec fn kept(&self) -> Map<Seq<char>, T::V> {
        Map::new(|k: Seq<char>| self.lookup(k) is Some, |k: Seq<char>| self.lookup(k)->Some_0@)
    }

    pub fn new() -> (r: Self)
        ensures
            r.wf(),
            forall|k: Seq<char>| r.lookup(k) is None,
    {
        let r = Cache { entries: Vec::new() };
        proof {
            assert forall|k: Seq<char>| r.lookup(k) is None by {
                lemma_entry_absent(r.entries@, k);
            }
        }
        r
    }

    pub fn get(&self, k: &str) -> (r: Option<&T>)
        ensures
            match r {
                Some(v) => self.lookup(k@) == Some(*v),
                None => self.lookup(k@) is None,
            },
    {
        let mut i: usize = self.entries.len();
        proof {
            assert(self.entries@.take(i as int) =~= self.entries@);
        }
        while i > 0
            invariant
                i <= self.entries.len(),
                entry_index(self.entries@, k@) == entry_index(self.entries@.take(i as int), k@),
            decreases i,
        {
            proof {
                assert(self.entries@.take(i as int).drop_last() =~= self.entries@.take(i as int - 1));
            }
            if str_eq(self.entries[i - 1].0.as_str(), k) {
                return Some(&self.entries[i - 1].1);
            }
            i = i - 1;
        }
        None
    }

    pub fn contains_key(&self, k: &str) -> (r: bool)
        ensures
            r == self.lookup(k@) is Some,
    {
        self.get(k).is_some()
    }

    /// Keeps `v` under `k`, replacing what was kept there.
    pub fn insert(&mut self, k: String, v: T)
        requires
            old(self).wf(),
        ensures
            final(self).wf(),
            final(self).lookup(k@) == Some(v),
            forall|o: Seq<char>| o != k@ ==> #[trigger] final(self).lookup(o) == old(self).lookup(o),
    {
        let ghost kv = k@;
        let ghost vv = v;
        let ghost old_es = self.entries@;
        let mut i: usize = 0;
        while i < self.entries.len()
            invariant
                i <= self.entries.len(),
                self.entries@ == old_es,
                kv == k@,
                forall|j: int| 0 <= j < i ==> (#[trigger] old_es[j]).0@ != kv,
            ensures
                i <= self.entries.len(),
                self.entries@ == old_es,
                forall|j: int| 0 <= j < i ==> (#[trigger] old_es[j]).0@ != kv,
                i < self.entries.len() ==> old_es[i as int].0@ == kv,
            decreases self.entries.len() - i,
        {
            if str_eq(self.entries[i].0.as_str(), k.as_str()) {
                break;
            }
            i = i + 1;
        }
        if i < self.entries.len() {
            let _ = self.entries.remove(i);
            self.entries.insert(i, (k, v));
            proof {
                let es = self.entries@;
                assert(es =~= old_es.update(i as int, (es[i as int].0, vv)));
                assert(es[i as int].0@ == kv);
                assert(distinct_names(es)) by {
                    assert forall|a: int, b: int| 0 <= a < b < es.len() implies (#[trigger] es[a]).0@ != (
                    #[trigger] es[b]).0@ by {
                        assert(es[a].0@ == old_es[a].0@ && es[b].0@ == old_es[b].0@);
                    }
                }
                lemma_entry_at(es, kv, i as int);
                assert forall|o: Seq<char>| o != kv implies #[trigger] self.lookup(o) == old(self).lookup(o) by {
                    if exists|m: int| 0 <= m < old_es.len() && (#[trigger] old_es[m]).0@ == o {
                        let m = choose|m: int| 0 <= m < old_es.len() && (#[trigger] old_es[m]).0@ == o;
                        lemma_entry_at(old_es, o, m);
                        assert(m != i);
                        lemma_entry_at(es, o, m);
                    } else {
                        lemma_entry_absent(old_es, o);
                        assert forall|j: int| 0 <= j < es.len() implies (#[trigger] es[j]).0@ != o by {
                            if j != i {
                                assert(es[j] == old_es[j]);
                            }
                        }
                        lemma_entry_absent(es, o);
                    }
                }
            }
        } else {
            self.entries.push((k, v));
            proof {
                let es = self.entries@;
                assert(es.drop_last() == old_es);
                assert(distinct_names(es)) by {
                    assert forall|a: int, b: int| 0 <= a < b < es.len() implies (#[trigger] es[a]).0@ != (
                    #[trigger] es[b]).0@ by {
                        if b < es.len() - 1 {
                            assert(es[a] == old_es[a] && es[b] == old_es[b]);
                        } else {
                            assert(es[a] == old_es[a]);
                        }
                    }
                }
                assert(entry_index(es, kv) == es.len() - 1);
                assert forall|o: Seq<char>| o != kv implies #[trigger] self.lookup(o) == old(self).lookup(o) by {
                    assert(entry_index(es, o) == entry_index(old_es, o));
                    let idx = entry_index(old_es, o);
                    if idx >= 0 {
                        lemma_entry_index_range(old_es, o);
                        assert(es[idx] == old_es[idx]);
                    }
                }
            }
        }
    }

    /// Forgets everything.
    pub fn clear(&mut self)
        ensures
            final(self).wf(),
            forall|k: Seq<char>| final(self).lookup(k) is None,
    {
        self.entries = Vec::new();
        proof {
            assert forall|k: Seq<char>| self.lookup(k) is None by {
                lemma_entry_absent(self.entries@, k);
            }
        }
    }
}

} // verus!
