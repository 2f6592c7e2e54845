use quadravote::ledger::{Ledger, LedgerError};
use quadravote::quadravote::{Config, Error, Event, Pallet, VotingProposal};
use quadravote::votingregistry;

fn config(period_length: u32, max_voters_per_session: u32) -> Config {
    Config {
        period_length,
        max_proposals: 10,
        max_votes_per_account: 10,
        max_voters_per_session,
    }
}

fn new_registry() -> votingregistry::Pallet {
    votingregistry::Pallet::new(votingregistry::Config { reserve_amount: 50 })
}

fn run_to_block(pallet: &mut Pallet, ledger: &mut Ledger, height: &mut u64, n: u64) {
    while *height < n {
        *height += 1;
        pallet.on_initialize(ledger, *height);
    }
}

/// A funded, registered account.
fn fund_and_register(
    ledger: &mut Ledger,
    registry: &mut votingregistry::Pallet,
    who: u64,
    free: u64,
) {
    ledger.set_balance(who, free, 0);
    registry.register(ledger, who).unwrap();
}

#[test]
fn example_round_reserves_quadratically() {
    // Period length 5: at height 5 the phase flips to Proposing, at 10 to
    // Voting. Five votes reserve 25; five more reserve another
    // 10 * 10 - 5 * 5 = 75, cumulative 100: repeated casts add up before
    // squaring.
    let mut pallet = Pallet::new(config(5, 10));
    let mut ledger = Ledger::new();
    let mut registry = new_registry();
    let mut height = 0u64;
    let alice = 7u64;
    fund_and_register(&mut ledger, &mut registry, alice, 10_000_000);
    assert_eq!(ledger.reserved_balance(alice), 50);

    run_to_block(&mut pallet, &mut ledger, &mut height, 5);
    assert!(pallet.is_proposal_period());
    assert!(pallet.create_proposal(&registry, alice, [9u8; 32]).is_ok());
    assert_eq!(
        pallet.events().last(),
        Some(&Event::ProposalCreated { proposal: [9u8; 32] })
    );

    run_to_block(&mut pallet, &mut ledger, &mut height, 10);
    assert!(!pallet.is_proposal_period());
    assert!(pallet.cast_vote(&registry, &mut ledger, alice, 0, 5, 0).is_ok());
    assert_eq!(ledger.reserved_balance(alice), 50 + 25);
    assert!(pallet.cast_vote(&registry, &mut ledger, alice, 0, 5, 0).is_ok());
    assert_eq!(ledger.reserved_balance(alice), 50 + 100);
    assert_eq!(
        pallet.events().last(),
        Some(&Event::VoteRegistered { proposal: [9u8; 32], who: alice })
    );
    // the stored record mirrors the ledger: 10 cumulative votes, 10 * 10
    // reserved
    let record = pallet.get_all_voters(&alice).unwrap();
    assert_eq!(record.total_votes(), 10);
    assert_eq!(record.amount_reserved(), 100);
    assert_eq!(record.votes_on(0), 10);
}

#[test]
fn cost_is_function_of_cumulative_count() {
    // Alice casts 2 then 3 votes, Bob casts 5 in one call: both end up
    // with the same reserved collateral.
    let mut pallet = Pallet::new(config(5, 10));
    let mut ledger = Ledger::new();
    let mut registry = new_registry();
    let mut height = 0u64;
    let alice = 1u64;
    let bob = 2u64;
    fund_and_register(&mut ledger, &mut registry, alice, 1_000);
    fund_and_register(&mut ledger, &mut registry, bob, 1_000);

    run_to_block(&mut pallet, &mut ledger, &mut height, 5);
    pallet.create_proposal(&registry, alice, [0u8; 32]).unwrap();
    run_to_block(&mut pallet, &mut ledger, &mut height, 10);

    pallet.cast_vote(&registry, &mut ledger, alice, 0, 2, 0).unwrap();
    pallet.cast_vote(&registry, &mut ledger, alice, 0, 3, 0).unwrap();
    pallet.cast_vote(&registry, &mut ledger, bob, 0, 5, 0).unwrap();
    assert_eq!(ledger.reserved_balance(alice), ledger.reserved_balance(bob));
    assert_eq!(ledger.reserved_balance(alice), 50 + 25);
    assert_eq!(ledger.free_balance(alice), ledger.free_balance(bob));
}

#[test]
fn indecision_is_priced() {
    // 2 for and 2 against, twice, costs as much as 8 votes of one kind:
    // the squared count is 64.
    let mut pallet = Pallet::new(config(5, 10));
    let mut ledger = Ledger::new();
    let mut registry = new_registry();
    let mut height = 0u64;
    let alice = 1u64;
    fund_and_register(&mut ledger, &mut registry, alice, 1_000);

    run_to_block(&mut pallet, &mut ledger, &mut height, 5);
    pallet.create_proposal(&registry, alice, [0u8; 32]).unwrap();
    run_to_block(&mut pallet, &mut ledger, &mut height, 10);

    pallet.cast_vote(&registry, &mut ledger, alice, 0, 2, 2).unwrap();
    pallet.cast_vote(&registry, &mut ledger, alice, 0, 2, 2).unwrap();
    assert_eq!(ledger.reserved_balance(alice), 50 + 64);
}

#[test]
fn winners_have_more_for_than_against() {
    // Three proposals: a clear winner, a tie (ties lose), a clear loser.
    // The announcement carries exactly the winner, with its tallies.
    let mut pallet = Pallet::new(config(5, 10));
    let mut ledger = Ledger::new();
    let mut registry = new_registry();
    let mut height = 0u64;
    let alice = 1u64;
    let bob = 2u64;
    fund_and_register(&mut ledger, &mut registry, alice, 1_000);
    fund_and_register(&mut ledger, &mut registry, bob, 1_000);

    run_to_block(&mut pallet, &mut ledger, &mut height, 5);
    pallet.create_proposal(&registry, alice, [0u8; 32]).unwrap();
    pallet.create_proposal(&registry, alice, [1u8; 32]).unwrap();
    pallet.create_proposal(&registry, alice, [2u8; 32]).unwrap();
    run_to_block(&mut pallet, &mut ledger, &mut height, 10);

    pallet.cast_vote(&registry, &mut ledger, alice, 0, 3, 1).unwrap();
    pallet.cast_vote(&registry, &mut ledger, alice, 1, 2, 2).unwrap();
    pallet.cast_vote(&registry, &mut ledger, bob, 2, 1, 3).unwrap();

    run_to_block(&mut pallet, &mut ledger, &mut height, 15);
    let events = pallet.events();
    let n = events.len();
    assert_eq!(
        &events[n - 2],
        &Event::VotingPeriodEnded { block: 15 }
    );
    assert_eq!(
        &events[n - 1],
        &Event::WinningProposals {
            winners: vec![VotingProposal { proposal: [0u8; 32], votes_for: 3, votes_against: 1 }],
        }
    );
}

#[test]
fn empty_round_announces_no_winners() {
    // With no proposals the boundary emits only the period event.
    let mut pallet = Pallet::new(config(5, 10));
    let mut ledger = Ledger::new();
    let mut height = 0u64;
    run_to_block(&mut pallet, &mut ledger, &mut height, 5);
    assert_eq!(
        pallet.events().last(),
        Some(&Event::VotingPeriodEnded { block: 5 })
    );
    run_to_block(&mut pallet, &mut ledger, &mut height, 10);
    assert_eq!(
        pallet.events().last(),
        Some(&Event::ProposalPeriodEnded { block: 10 })
    );
}

#[test]
fn cleanup_converges_and_refunds() {
    // Five voters, two cleared per pass: the round-end pass clears two and
    // leaves a token; two more passes finish. Every record present before
    // the first pass is gone afterwards, and every voter's collateral is
    // back.
    let mut pallet = Pallet::new(config(10, 2));
    let mut ledger = Ledger::new();
    let mut registry = new_registry();
    let mut height = 0u64;
    for who in 1u64..=5 {
        fund_and_register(&mut ledger, &mut registry, who, 1_000);
    }

    run_to_block(&mut pallet, &mut ledger, &mut height, 10);
    pallet.create_proposal(&registry, 1, [0u8; 32]).unwrap();
    run_to_block(&mut pallet, &mut ledger, &mut height, 20);
    for who in 1u64..=5 {
        pallet.cast_vote(&registry, &mut ledger, who, 0, 3, 0).unwrap();
        assert_eq!(ledger.reserved_balance(who), 50 + 9);
    }
    assert_eq!(pallet.voter_count(), 5);

    // Round end: one pass of two, token notes the remaining three.
    run_to_block(&mut pallet, &mut ledger, &mut height, 30);
    assert_eq!(pallet.voter_count(), 3);
    assert_eq!(pallet.pending_voter_cleanup(), Some(3));

    run_to_block(&mut pallet, &mut ledger, &mut height, 31);
    assert_eq!(pallet.voter_count(), 1);
    assert_eq!(pallet.pending_voter_cleanup(), Some(1));

    run_to_block(&mut pallet, &mut ledger, &mut height, 32);
    assert_eq!(pallet.voter_count(), 0);
    assert_eq!(pallet.pending_voter_cleanup(), None);
    for who in 1u64..=5 {
        assert!(pallet.get_all_voters(&who).is_none());
        assert_eq!(ledger.reserved_balance(who), 50);
        assert_eq!(ledger.free_balance(who), 950);
    }
}

#[test]
fn math_error_on_vote_overflow() {
    let mut pallet = Pallet::new(config(5, 10));
    let mut ledger = Ledger::new();
    let mut registry = new_registry();
    let mut height = 0u64;
    let alice = 1u64;
    fund_and_register(&mut ledger, &mut registry, alice, 1_000);
    run_to_block(&mut pallet, &mut ledger, &mut height, 5);
    pallet.create_proposal(&registry, alice, [0u8; 32]).unwrap();
    run_to_block(&mut pallet, &mut ledger, &mut height, 10);
    assert_eq!(
        pallet.cast_vote(&registry, &mut ledger, alice, 0, u32::MAX, 1),
        Err(Error::MathError)
    );
}

#[test]
fn vote_slot_out_of_bounds() {
    let mut pallet = Pallet::new(config(5, 10));
    let mut ledger = Ledger::new();
    let mut registry = new_registry();
    let mut height = 0u64;
    let alice = 1u64;
    fund_and_register(&mut ledger, &mut registry, alice, 1_000);
    run_to_block(&mut pallet, &mut ledger, &mut height, 10);
    assert_eq!(
        pallet.cast_vote(&registry, &mut ledger, alice, 10, 1, 0),
        Err(Error::ProposalIndexOutOfBounds)
    );
}

#[test]
fn vote_on_missing_proposal_is_fatal() {
    // Slot 5 is within the configured bound but no proposal lives there.
    let mut pallet = Pallet::new(config(5, 10));
    let mut ledger = Ledger::new();
    let mut registry = new_registry();
    let mut height = 0u64;
    let alice = 1u64;
    fund_and_register(&mut ledger, &mut registry, alice, 1_000);
    run_to_block(&mut pallet, &mut ledger, &mut height, 5);
    pallet.create_proposal(&registry, alice, [0u8; 32]).unwrap();
    run_to_block(&mut pallet, &mut ledger, &mut height, 10);
    assert_eq!(
        pallet.cast_vote(&registry, &mut ledger, alice, 5, 1, 0),
        Err(Error::SkyIsFalling)
    );
}

#[test]
fn vote_without_funds_is_rejected() {
    // After the 50-unit registration bond, 10 free units cannot fund the
    // 25 units five votes reserve; nothing is committed.
    let mut pallet = Pallet::new(config(5, 10));
    let mut ledger = Ledger::new();
    let mut registry = new_registry();
    let mut height = 0u64;
    let alice = 1u64;
    fund_and_register(&mut ledger, &mut registry, alice, 60);
    run_to_block(&mut pallet, &mut ledger, &mut height, 5);
    pallet.create_proposal(&registry, alice, [0u8; 32]).unwrap();
    run_to_block(&mut pallet, &mut ledger, &mut height, 10);
    assert_eq!(
        pallet.cast_vote(&registry, &mut ledger, alice, 0, 5, 0),
        Err(Error::NotEnoughFunds)
    );
    assert_eq!(ledger.free_balance(alice), 10);
    assert_eq!(ledger.reserved_balance(alice), 50);
    assert!(pallet.get_all_voters(&alice).is_none());
}

#[test]
fn register_without_funds_is_rejected() {
    let mut ledger = Ledger::new();
    let mut registry = new_registry();
    let alice = 1u64;
    ledger.set_balance(alice, 10, 0);
    assert_eq!(
        registry.register(&mut ledger, alice),
        Err(votingregistry::Error::NotEnoughFunds)
    );
    assert_eq!(ledger.free_balance(alice), 10);
}

#[test]
fn withdraw_keeps_both_views_consistent() {
    // Withdrawing removes the proposal from the ordered record too, so a
    // later creation reuses the freed slot and the count matches.
    let mut pallet = Pallet::new(config(5, 10));
    let mut ledger = Ledger::new();
    let mut registry = new_registry();
    let mut height = 0u64;
    let alice = 1u64;
    fund_and_register(&mut ledger, &mut registry, alice, 1_000);
    run_to_block(&mut pallet, &mut ledger, &mut height, 5);
    pallet.create_proposal(&registry, alice, [0u8; 32]).unwrap();
    pallet.create_proposal(&registry, alice, [1u8; 32]).unwrap();
    assert_eq!(pallet.proposal_count(), 2);
    assert_eq!(pallet.proposals().len(), 2);
    pallet.withdraw_proposal(alice, [0u8; 32]).unwrap();
    assert_eq!(pallet.proposal_count(), 1);
    assert_eq!(pallet.proposals().len(), 1);
    assert_eq!(pallet.proposals()[0].proposal, [1u8; 32]);
    // the freed capacity is usable again
    pallet.create_proposal(&registry, alice, [0u8; 32]).unwrap();
    assert_eq!(pallet.proposal_count(), 2);
}

#[test]
fn vote_in_proposing_window_is_gated() {
    let mut pallet = Pallet::new(config(5, 10));
    let mut ledger = Ledger::new();
    let mut registry = new_registry();
    let mut height = 0u64;
    let alice = 1u64;
    fund_and_register(&mut ledger, &mut registry, alice, 1_000);
    run_to_block(&mut pallet, &mut ledger, &mut height, 5);
    assert!(pallet.is_proposal_period());
    assert_eq!(
        pallet.cast_vote(&registry, &mut ledger, alice, 0, 1, 0),
        Err(Error::NotInVotingPeriod)
    );
}

#[test]
fn ledger_reserve_and_unreserve() {
    let mut ledger = Ledger::new();
    let alice = 1u64;
    ledger.set_balance(alice, 100, 0);
    assert!(ledger.reserve(alice, 60).is_ok());
    assert_eq!(ledger.free_balance(alice), 40);
    assert_eq!(ledger.reserved_balance(alice), 60);
    // more than the free balance is rejected, nothing moves
    assert_eq!(ledger.reserve(alice, 41), Err(LedgerError::InsufficientFunds));
    assert_eq!(ledger.free_balance(alice), 40);
    // unreserving is capped at what is actually reserved
    ledger.unreserve(alice, 1_000);
    assert_eq!(ledger.free_balance(alice), 100);
    assert_eq!(ledger.reserved_balance(alice), 0);
}
