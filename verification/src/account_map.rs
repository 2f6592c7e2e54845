//! A bounded key-value store keyed by account identifier, kept as a vector
//! of entries with pairwise-distinct keys. Entries keep their position when
//! a value is overwritten, new entries go to the back, and reclaiming drains
//! from the front, so a resumption count taken at one moment keeps meaning
//! "the oldest entries" while later insertions land behind it.

use vstd::prelude::*;

use crate::assoc;

verus! {

pub struct AccountMap<V> {
    entries: Vec<(u64, V)>,
}

impl<V> View for AccountMap<V> {
    type V = Seq<(u64, V)>;

    closed spec fn view(&self) -> Seq<(u64, V)> {
        self.entries@
    }
}

impl<V> AccountMap<V> {
    /// The finite map this store denotes.
    pub open spec fn as_map(self) -> Map<u64, V> {
        assoc::map_of(self@)
    }

    pub open spec fn wf(self) -> bool {
        assoc::distinct_keys(self@)
    }

    pub fn new() -> (m: Self)
        ensures
            m@ == Seq::<(u64, V)>::empty(),
            m.wf(),
    {
        AccountMap { entries: Vec::new() }
    }

    pub fn len(&self) -> (n: usize)
        ensures
            n == self@.len(),
    {
        self.entries.len()
    }

    /// Index of the entry carrying `k`, if any.
    pub fn index_of(&self, k: u64) -> (r: Option<usize>)
        ensures
            match r {
                Some(i) => i < self@.len() && self@[i as int].0 == k,
                None => !assoc::has_key(self@, k),
            },
    {
        let n = self.entries.len();
        let mut i: usize = 0;
        while i < n
            invariant
                i <= n,
                n == self@.len(),
                forall|j: int| 0 <= j < i ==> (#[trigger] self@[j]).0 != k,
            decreases n - i,
        {
            if self.entries[i].0 == k {
                return Some(i);
            }
            i = i + 1;
        }
        None
    }

    pub fn contains_key(&self, k: u64) -> (r: bool)
        ensures
            r == assoc::has_key(self@, k),
            r == self.as_map().dom().contains(k),
    {
        proof {
            assoc::lemma_map_of_contains(self@, k);
        }
        match self.index_of(k) {
            Some(_) => true,
            None => false,
        }
    }

    pub fn get(&self, k: u64) -> (r: Option<&V>)
        requires
            self.wf(),
        ensures
            match r {
                Some(v) => self.as_map().dom().contains(k) && *v == self.as_map()[k],
                None => !self.as_map().dom().contains(k),
            },
    {
        proof {
            assoc::lemma_map_of_contains(self@, k);
        }
        match self.index_of(k) {
            Some(i) => {
                proof {
                    assoc::lemma_map_of_index(self@, i as int);
                }
                Some(&self.entries[i].1)
            },
            None => None,
        }
    }

    /// Binds `k` to `v`: overwrites in place when `k` is present, otherwise
    /// appends a new entry at the back.
    pub fn insert(&mut self, k: u64, v: V)
        requires
            old(self).wf(),
        ensures
            final(self).wf(),
            final(self).as_map() == old(self).as_map().insert(k, v),
            !assoc::has_key(old(self)@, k) ==> final(self)@ == old(self)@.push((k, v)),
            assoc::has_key(old(self)@, k) ==> {
                &&& final(self)@.len() == old(self)@.len()
                &&& forall|j: int|
                    0 <= j < final(self)@.len() ==> (#[trigger] final(self)@[j]).0
                        == old(self)@[j].0
                &&& forall|j: int|
                    0 <= j < final(self)@.len() && old(self)@[j].0 != k
                        ==> final(self)@[j] == old(self)@[j]
            },
    {
        match self.index_of(k) {
            Some(i) => {
                proof {
                    assoc::lemma_map_of_update(self@, i as int, v);
                }
                self.entries[i] = (k, v);
                assert(self@ =~= old(self)@.update(i as int, (old(self)@[i as int].0, v)));
            },
            None => {
                proof {
                    assoc::lemma_map_of_push(self@, k, v);
                    assoc::lemma_distinct_push(self@, k, v);
                }
                self.entries.push((k, v));
            },
        }
    }

    /// Removes the entry carrying `k` and hands its value out.
    pub fn take(&mut self, k: u64) -> (r: Option<V>)
        requires
            old(self).wf(),
        ensures
            final(self).wf(),
            final(self).as_map() == old(self).as_map().remove(k),
            match r {
                Some(v) => old(self).as_map().dom().contains(k) && v == old(self).as_map()[k]
                    && exists|i: int|
                    0 <= i < old(self)@.len() && (#[trigger] old(self)@[i]).0 == k
                        && final(self)@ == old(self)@.remove(i),
                None => !old(self).as_map().dom().contains(k) && *final(self) == *old(self),
            },
    {
        proof {
            assoc::lemma_map_of_contains(self@, k);
        }
        match self.index_of(k) {
            Some(i) => {
                proof {
                    assoc::lemma_map_of_index(self@, i as int);
                    assoc::lemma_map_of_remove(self@, i as int);
                }
                let e = self.entries.remove(i);
                Some(e.1)
            },
            None => {
                proof {
                    assert(self.as_map() =~= self.as_map().remove(k));
                }
                None
            },
        }
    }

    /// Removes the entry at index `i` and hands it out; the other entries
    /// keep their relative order.
    pub fn take_at(&mut self, i: usize) -> (e: (u64, V))
        requires
            old(self).wf(),
            i < old(self)@.len(),
        ensures
            final(self).wf(),
            e == old(self)@[i as int],
            final(self)@ == old(self)@.remove(i as int),
            final(self).as_map() == old(self).as_map().remove(e.0),
    {
        proof {
            assoc::lemma_map_of_remove(self@, i as int);
        }
        self.entries.remove(i)
    }

    /// Puts an entry back at index `i`. The key must be absent, as it is
    /// after `take_at` removed it.
    pub fn insert_at(&mut self, i: usize, k: u64, v: V)
        requires
            old(self).wf(),
            i <= old(self)@.len(),
            !assoc::has_key(old(self)@, k),
        ensures
            final(self).wf(),
            final(self)@ == old(self)@.insert(i as int, (k, v)),
    {
        self.entries.insert(i, (k, v));
        proof {
            let t = self@;
            let s = old(self)@;
            assert forall|x: int, y: int| 0 <= x < y < t.len() implies (#[trigger] t[x]).0 != (
            #[trigger] t[y]).0 by {
                if y < i {
                    assert(t[x] == s[x] && t[y] == s[y]);
                } else if x > i {
                    assert(t[x] == s[x - 1] && t[y] == s[y - 1]);
                } else if x < i && y > i {
                    assert(t[x] == s[x] && t[y] == s[y - 1]);
                } else if x == i {
                    assert(t[y] == s[y - 1]);
                } else if y == i {
                    assert(t[x] == s[x]);
                }
            }
        }
    }

    /// Removes the `n` oldest entries and returns them in their stored
    /// order; the remainder keeps its order.
    pub fn drain_front(&mut self, n: usize) -> (out: Vec<(u64, V)>)
        requires
            old(self).wf(),
            n <= old(self)@.len(),
        ensures
            final(self).wf(),
            out@ == old(self)@.take(n as int),
            final(self)@ == old(self)@.skip(n as int),
    {
        let mut out: Vec<(u64, V)> = Vec::new();
        let mut j: usize = 0;
        while j < n
            invariant
                j <= n,
                n <= old(self)@.len(),
                out@ =~= old(self)@.take(j as int),
                self@ =~= old(self)@.skip(j as int),
            decreases n - j,
        {
            let e = self.entries.remove(0);
            out.push(e);
            j = j + 1;
            proof {
                assert(self@ =~= old(self)@.skip(j as int));
                assert(out@ =~= old(self)@.take(j as int));
            }
        }
        proof {
            let s = old(self)@;
            let t = self@;
            assert forall|x: int, y: int| 0 <= x < y < t.len() implies (#[trigger] t[x]).0 != (
            #[trigger] t[y]).0 by {
                assert(t[x] == s[x + n] && t[y] == s[y + n]);
            }
        }
        out
    }
}

} // verus!
