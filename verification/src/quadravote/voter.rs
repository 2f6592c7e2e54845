//! Per-account voting record for one round, with its quadratic-cost
//! bookkeeping: the reserved collateral always equals the sum over proposal
//! slots of the squared cumulative vote count in that slot.

use vstd::prelude::*;

use crate::Balance;

verus! {

/// Sum of the entries of a vote-count sequence.
pub open spec fn sum_votes(s: Seq<u32>) -> int
    decreases s.len(),
{
    if s.len() == 0 {
        0
    } else {
        sum_votes(s.drop_last()) + s.last()
    }
}

/// Sum of the squared entries of a vote-count sequence.
pub open spec fn sum_squares(s: Seq<u32>) -> int
    decreases s.len(),
{
    if s.len() == 0 {
        0
    } else {
        sum_squares(s.drop_last()) + s.last() * s.last()
    }
}

pub proof fn lemma_sum_votes_nonneg(s: Seq<u32>)
    ensures
        0 <= sum_votes(s),
    decreases s.len(),
{
    if s.len() > 0 {
        lemma_sum_votes_nonneg(s.drop_last());
    }
}

pub proof fn lemma_sum_squares_nonneg(s: Seq<u32>)
    ensures
        0 <= sum_squares(s),
    decreases s.len(),
{
    if s.len() > 0 {
        lemma_sum_squares_nonneg(s.drop_last());
        let l = s.last();
        assert(l * l >= 0) by (nonlinear_arith);
    }
}

/// Each squared entry is bounded by the sum of squares.
pub proof fn lemma_sum_squares_elem(s: Seq<u32>, i: int)
    requires
        0 <= i < s.len(),
    ensures
        s[i] * s[i] <= sum_squares(s),
    decreases s.len(),
{
    if i == s.len() - 1 {
        lemma_sum_squares_nonneg(s.drop_last());
    } else {
        lemma_sum_squares_elem(s.drop_last(), i);
        assert(s.drop_last()[i] == s[i]);
        let l = s.last();
        assert(l * l >= 0) by (nonlinear_arith);
    }
}

/// Overwriting one entry changes the sums by the entry's difference.
pub proof fn lemma_sum_update(s: Seq<u32>, i: int, v: u32)
    requires
        0 <= i < s.len(),
    ensures
        sum_votes(s.update(i, v)) == sum_votes(s) - s[i] + v,
        sum_squares(s.update(i, v)) == sum_squares(s) - s[i] * s[i] + v * v,
    decreases s.len(),
{
    let t = s.update(i, v);
    if i == s.len() - 1 {
        assert(t.drop_last() =~= s.drop_last());
        assert(t.last() == v);
    } else {
        assert(t.drop_last() =~= s.drop_last().update(i, v));
        assert(s.drop_last()[i] == s[i]);
        lemma_sum_update(s.drop_last(), i, v);
        assert(t.last() == s.last());
    }
}

/// A sequence of zeroes sums to zero, squared or not.
pub proof fn lemma_sum_zero(s: Seq<u32>)
    requires
        forall|i: int| 0 <= i < s.len() ==> s[i] == 0,
    ensures
        sum_votes(s) == 0,
        sum_squares(s) == 0,
    decreases s.len(),
{
    if s.len() > 0 {
        assert forall|i: int| 0 <= i < s.drop_last().len() implies s.drop_last()[i] == 0 by {
            assert(s.drop_last()[i] == s[i]);
        }
        lemma_sum_zero(s.drop_last());
        assert(s.last() == s[s.len() - 1]);
    }
}

/// The sum of squares is bounded by the square of the sum.
pub proof fn lemma_sum_squares_le_square_of_sum(s: Seq<u32>)
    ensures
        sum_squares(s) <= sum_votes(s) * sum_votes(s),
    decreases s.len(),
{
    if s.len() > 0 {
        lemma_sum_squares_le_square_of_sum(s.drop_last());
        lemma_sum_votes_nonneg(s.drop_last());
        let t = sum_votes(s.drop_last());
        let l = s.last();
        assert(t * t + l * l <= (t + l) * (t + l)) by (nonlinear_arith)
            requires
                t >= 0,
                l >= 0,
        ;
    }
}

/// One account's record for the round: how many votes it has cast in all,
/// how much collateral that keeps reserved, and the cumulative vote count
/// per proposal slot.
pub struct Voter {
    total_votes: u32,
    amount_reserved: Balance,
    votes_per_proposal: Vec<u32>,
}

impl Voter {
    pub closed spec fn spec_total_votes(self) -> u32 {
        self.total_votes
    }

    pub closed spec fn spec_amount_reserved(self) -> Balance {
        self.amount_reserved
    }

    pub closed spec fn spec_votes(self) -> Seq<u32> {
        self.votes_per_proposal@
    }

    /// The record's invariant, relative to the configured number of
    /// proposal slots and the per-account vote allowance: one slot per
    /// proposal, the running total is the sum of the slots, the reserved
    /// collateral is the sum of their squares, the total respects the
    /// allowance, and each slot's square fits the checked arithmetic that
    /// wrote it.
    pub open spec fn wf(self, max_proposals: int, max_votes_per_account: int) -> bool {
        &&& self.spec_votes().len() == max_proposals
        &&& self.spec_total_votes() == sum_votes(self.spec_votes())
        &&& self.spec_amount_reserved() == sum_squares(self.spec_votes())
        &&& self.spec_total_votes() <= max_votes_per_account
        &&& forall|i: int|
            0 <= i < self.spec_votes().len() ==> (#[trigger] self.spec_votes()[i])
                * self.spec_votes()[i] <= u32::MAX
    }

    /// A fresh record with one zeroed slot per proposal.
    pub(crate) fn zeroed(max_proposals: u32) -> (w: Voter)
        ensures
            w.spec_votes().len() == max_proposals,
            forall|i: int| 0 <= i < w.spec_votes().len() ==> w.spec_votes()[i] == 0,
            w.spec_total_votes() == 0,
            w.spec_amount_reserved() == 0,
    {
        let mut slots: Vec<u32> = Vec::new();
        let mut i: u32 = 0;
        while i < max_proposals
            invariant
                i <= max_proposals,
                slots@.len() == i,
                forall|j: int| 0 <= j < slots@.len() ==> slots@[j] == 0,
            decreases max_proposals - i,
        {
            slots.push(0);
            i = i + 1;
        }
        Voter { total_votes: 0, amount_reserved: 0, votes_per_proposal: slots }
    }

    pub fn total_votes(&self) -> (r: u32)
        ensures
            r == self.spec_total_votes(),
    {
        self.total_votes
    }

    pub fn amount_reserved(&self) -> (r: Balance)
        ensures
            r == self.spec_amount_reserved(),
    {
        self.amount_reserved
    }

    pub fn votes_on(&self, slot: usize) -> (r: u32)
        requires
            slot < self.spec_votes().len(),
        ensures
            r == self.spec_votes()[slot as int],
    {
        self.votes_per_proposal[slot]
    }

    /// Writes the outcome of one accepted vote: the slot's new cumulative
    /// count and the recomputed running totals.
    pub(crate) fn store_vote(&mut self, slot: usize, slot_votes: u32, total: u32, reserved: Balance)
        requires
            slot < old(self).spec_votes().len(),
        ensures
            final(self).spec_votes() == old(self).spec_votes().update(slot as int, slot_votes),
            final(self).spec_total_votes() == total,
            final(self).spec_amount_reserved() == reserved,
    {
        self.votes_per_proposal[slot] = slot_votes;
        self.total_votes = total;
        self.amount_reserved = reserved;
    }
}

} // verus!
