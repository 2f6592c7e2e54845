//! Laws of the voting core, stated and proved once and for all inputs:
//! phase gating of the three operations, rejection of duplicate proposal
//! identifiers, additivity of the quadratic cost in the cumulative vote
//! count, and convergence of rate-limited cleanup.

use vstd::prelude::*;

use crate::ledger::Ledger;
use crate::quadravote::{Error, Pallet, ProposalId};
use crate::AccountId;

verus! {

/// Casting a vote during the proposing window always fails with the
/// phase error, whoever calls and whatever the arguments; nothing else is
/// even examined.
pub proof fn lemma_cast_vote_phase_gated(
    p: Pallet,
    ledger: Ledger,
    identified: bool,
    sender: AccountId,
    proposal_index: u32,
    votes_for: u32,
    votes_against: u32,
)
    requires
        p.in_proposal_period(),
    ensures
        p.cast_vote_outcome(ledger, identified, sender, proposal_index, votes_for, votes_against)
            == Err::<(), Error>(Error::NotInVotingPeriod),
{
}

/// Creating a proposal during the voting window always fails with the
/// phase error.
pub proof fn lemma_create_proposal_phase_gated(p: Pallet, identified: bool, proposal: ProposalId)
    requires
        !p.in_proposal_period(),
    ensures
        p.create_outcome(identified, proposal) == Err::<(), Error>(Error::NotInProposalPeriod),
{
}

/// Withdrawing a proposal during the voting window always fails with the
/// phase error.
pub proof fn lemma_withdraw_proposal_phase_gated(p: Pallet, sender: AccountId, proposal: ProposalId)
    requires
        !p.in_proposal_period(),
    ensures
        p.withdraw_outcome(sender, proposal) == Err::<(), Error>(Error::NotInProposalPeriod),
{
}

/// Creating a proposal whose identifier is already present never
/// succeeds, whatever the phase and whoever calls; together with
/// `create_proposal`'s failure clause this means the stored binding is
/// never silently overwritten.
pub proof fn lemma_duplicate_proposal_rejected(p: Pallet, identified: bool, proposal: ProposalId)
    requires
        p.spec_owners().dom().contains(proposal),
    ensures
        p.create_outcome(identified, proposal) is Err,
{
}

/// In the proposing window, an identified creator re-submitting a present
/// identifier gets exactly the duplicate error.
pub proof fn lemma_duplicate_proposal_error(p: Pallet, proposal: ProposalId)
    requires
        p.in_proposal_period(),
        p.spec_owners().dom().contains(proposal),
    ensures
        p.create_outcome(true, proposal) == Err::<(), Error>(Error::ProposalAlreadyExists),
{
}

/// The quadratic cost is a function of the cumulative count alone:
/// casting `k1` then `k2` votes on one proposal reserves in total exactly
/// what a single call of `k1 + k2` votes would.
pub proof fn lemma_cost_additive(s0: int, k1: int, k2: int)
    ensures
        Pallet::spec_reserve_delta(s0, k1) + Pallet::spec_reserve_delta(s0 + k1, k2)
            == Pallet::spec_reserve_delta(s0, k1 + k2),
{
    assert((s0 + k1 + k2) * (s0 + k1 + k2) == (s0 + (k1 + k2)) * (s0 + (k1 + k2)))
        by (nonlinear_arith);
}

/// How many records remain to be cleared after `k` cleanup passes, each
/// removing up to `limit` of them: the arithmetic shadow of the voter
/// store's resumption token across `on_initialize` calls.
pub open spec fn spec_len_after_passes(len: nat, limit: nat, k: nat) -> nat
    decreases k,
{
    if k == 0 {
        len
    } else {
        let next = if len <= limit {
            0
        } else {
            (len - limit) as nat
        };
        spec_len_after_passes(next, limit, (k - 1) as nat)
    }
}

/// Nothing is left to clear of an already empty store.
proof fn lemma_cleanup_of_empty(limit: nat, k: nat)
    ensures
        spec_len_after_passes(0, limit, k) == 0,
    decreases k,
{
    if k > 0 {
        lemma_cleanup_of_empty(limit, (k - 1) as nat);
    }
}

/// Once cleared, a store stays cleared under further passes.
proof fn lemma_cleanup_monotone(len: nat, limit: nat, k1: nat, k2: nat)
    requires
        k1 <= k2,
        spec_len_after_passes(len, limit, k1) == 0,
    ensures
        spec_len_after_passes(len, limit, k2) == 0,
    decreases k1,
{
    if k1 == 0 {
        lemma_cleanup_of_empty(limit, k2);
    } else {
        let next = if len <= limit {
            0
        } else {
            (len - limit) as nat
        };
        lemma_cleanup_monotone(next, limit, (k1 - 1) as nat, (k2 - 1) as nat);
    }
}

/// Cleanup converges: with a positive per-pass limit, any finite store is
/// cleared after at most as many passes as it has records, so the
/// resumption token is eventually absent and no record present at the
/// first pass survives.
pub proof fn lemma_cleanup_converges(len: nat, limit: nat)
    requires
        limit >= 1,
    ensures
        spec_len_after_passes(len, limit, len) == 0,
    decreases len,
{
    if len > 0 {
        let next = if len <= limit {
            0
        } else {
            (len - limit) as nat
        };
        lemma_cleanup_converges(next, limit);
        lemma_cleanup_monotone(next, limit, next, (len - 1) as nat);
    }
}

} // verus!
