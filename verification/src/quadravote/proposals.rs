//! Open proposals and their ownership. A proposal is known by a 32-byte
//! content identifier; the registry pairs each identifier with the account
//! that created it, keyed uniquely, alongside the ordered record of tallies
//! kept by the core.

use vstd::prelude::*;

use crate::assoc;
use crate::AccountId;

verus! {

broadcast use vstd::array::group_array_axioms;

/// 32-byte opaque content identifier of a proposal.
pub type ProposalId = [u8; 32];

/// One open proposal's tallies, as kept in the round's ordered record.
#[derive(Clone, Copy, Debug, PartialEq, Eq)]
pub struct VotingProposal {
    pub proposal: ProposalId,
    pub votes_for: u32,
    pub votes_against: u32,
}

/// Byte-wise identifier comparison.
fn id_eq(a: &ProposalId, b: &ProposalId) -> (r: bool)
    ensures
        r == (*a == *b),
{
    let mut i: usize = 0;
    while i < 32
        invariant
            i <= 32,
            forall|j: int| 0 <= j < i ==> a@[j] == b@[j],
        decreases 32 - i,
    {
        if a[i] != b[i] {
            return false;
        }
        i = i + 1;
    }
    proof {
        assert(*a =~= *b);
    }
    true
}

/// Index of the record carrying `id` in the ordered proposal record.
pub fn find_proposal(list: &Vec<VotingProposal>, id: &ProposalId) -> (r: Option<usize>)
    ensures
        match r {
            Some(i) => i < list@.len() && list@[i as int].proposal == *id,
            None => forall|i: int| 0 <= i < list@.len() ==> (#[trigger] list@[i]).proposal != *id,
        },
{
    let n = list.len();
    let mut i: usize = 0;
    while i < n
        invariant
            i <= n,
            n == list@.len(),
            forall|j: int| 0 <= j < i ==> (#[trigger] list@[j]).proposal != *id,
        decreases n - i,
    {
        if id_eq(&list[i].proposal, id) {
            return Some(i);
        }
        i = i + 1;
    }
    None
}

/// The id-to-creator side of the proposal registry: a bounded store of
/// entries with pairwise-distinct identifiers. Entries keep their position
/// when overwritten; reclaiming drains from the front.
pub struct OwnerMap {
    entries: Vec<(ProposalId, AccountId)>,
}

impl View for OwnerMap {
    type V = Seq<(ProposalId, AccountId)>;

    closed spec fn view(&self) -> Seq<(ProposalId, AccountId)> {
        self.entries@
    }
}

impl OwnerMap {
    /// The finite map this store denotes.
    pub open spec fn as_map(self) -> Map<ProposalId, AccountId> {
        assoc::map_of(self@)
    }

    pub open spec fn wf(self) -> bool {
        assoc::distinct_keys(self@)
    }

    pub fn new() -> (m: Self)
        ensures
            m@ == Seq::<(ProposalId, AccountId)>::empty(),
            m.wf(),
    {
        OwnerMap { entries: Vec::new() }
    }

    pub fn len(&self) -> (n: usize)
        ensures
            n == self@.len(),
    {
        self.entries.len()
    }

    /// Index of the entry carrying `k`, if any.
    fn find(&self, k: &ProposalId) -> (r: Option<usize>)
        ensures
            match r {
                Some(i) => i < self@.len() && self@[i as int].0 == *k,
                None => !assoc::has_key(self@, *k),
            },
    {
        let n = self.entries.len();
        let mut i: usize = 0;
        while i < n
            invariant
                i <= n,
                n == self@.len(),
                forall|j: int| 0 <= j < i ==> (#[trigger] self@[j]).0 != *k,
            decreases n - i,
        {
            if id_eq(&self.entries[i].0, k) {
                return Some(i);
            }
            i = i + 1;
        }
        None
    }

    pub fn contains_key(&self, k: &ProposalId) -> (r: bool)
        ensures
            r == assoc::has_key(self@, *k),
            r == self.as_map().dom().contains(*k),
    {
        proof {
            assoc::lemma_map_of_contains(self@, *k);
        }
        match self.find(k) {
            Some(_) => true,
            None => false,
        }
    }

    pub fn get(&self, k: &ProposalId) -> (r: Option<AccountId>)
        requires
            self.wf(),
        ensures
            match r {
                Some(who) => self.as_map().dom().contains(*k) && who == self.as_map()[*k],
                None => !self.as_map().dom().contains(*k),
            },
    {
        proof {
            assoc::lemma_map_of_contains(self@, *k);
        }
        match self.find(k) {
            Some(i) => {
                proof {
                    assoc::lemma_map_of_index(self@, i as int);
                }
                Some(self.entries[i].1)
            },
            None => None,
        }
    }

    /// Binds `k` to `who`: overwrites in place when `k` is present,
    /// otherwise appends a new entry at the back.
    pub fn insert(&mut self, k: ProposalId, who: AccountId)
        requires
            old(self).wf(),
        ensures
            final(self).wf(),
            final(self).as_map() == old(self).as_map().insert(k, who),
            !assoc::has_key(old(self)@, k) ==> final(self)@ == old(self)@.push((k, who)),
            assoc::has_key(old(self)@, k) ==> final(self)@.len() == old(self)@.len(),
    {
        match self.find(&k) {
            Some(i) => {
                proof {
                    assoc::lemma_map_of_update(self@, i as int, who);
                }
                self.entries[i] = (k, who);
                assert(self@ =~= old(self)@.update(i as int, (old(self)@[i as int].0, who)));
            },
            None => {
                proof {
                    assoc::lemma_map_of_push(self@, k, who);
                    assoc::lemma_distinct_push(self@, k, who);
                }
                self.entries.push((k, who));
            },
        }
    }

    /// Removes the entry carrying `k`, if any; the other entries keep
    /// their relative order.
    pub fn remove(&mut self, k: &ProposalId)
        requires
            old(self).wf(),
        ensures
            final(self).wf(),
            final(self).as_map() == old(self).as_map().remove(*k),
            !assoc::has_key(old(self)@, *k) ==> *final(self) == *old(self),
            assoc::has_key(old(self)@, *k) ==> exists|i: int|
                0 <= i < old(self)@.len() && (#[trigger] old(self)@[i]).0 == *k && final(self)@
                    == old(self)@.remove(i),
    {
        match self.find(k) {
            Some(i) => {
                proof {
                    assoc::lemma_map_of_remove(self@, i as int);
                }
                let _ = self.entries.remove(i);
            },
            None => {
                proof {
                    assoc::lemma_map_of_contains(self@, *k);
                    assert(self.as_map() =~= self.as_map().remove(*k));
                }
            },
        }
    }

    /// Removes the `n` oldest entries; the remainder keeps its order.
    pub fn drain_front(&mut self, n: usize)
        requires
            old(self).wf(),
            n <= old(self)@.len(),
        ensures
            final(self).wf(),
            final(self)@ == old(self)@.skip(n as int),
    {
        let mut j: usize = 0;
        while j < n
            invariant
                j <= n,
                n <= old(self)@.len(),
                self@ =~= old(self)@.skip(j as int),
            decreases n - j,
        {
            let _ = self.entries.remove(0);
            j = j + 1;
            proof {
                assert(self@ =~= old(self)@.skip(j as int));
            }
        }
        proof {
            let s = old(self)@;
            let t = self@;
            assert forall|x: int, y: int| 0 <= x < y < t.len() implies (#[trigger] t[x]).0 != (
            #[trigger] t[y]).0 by {
                assert(t[x] == s[x + n] && t[y] == s[y + n]);
            }
        }
    }
}

} // verus!
