use quadravote::ledger::Ledger;
use quadravote::quadravote::{Config, Error, Pallet};
use quadravote::votingregistry;

fn test_config() -> Config {
    Config {
        period_length: 5,
        max_proposals: 10,
        max_votes_per_account: 10,
        max_voters_per_session: 10,
    }
}

fn new_registry() -> votingregistry::Pallet {
    votingregistry::Pallet::new(votingregistry::Config { reserve_amount: 50 })
}

fn run_to_block(pallet: &mut Pallet, ledger: &mut Ledger, height: &mut u64, n: u64) {
    while *height < n {
        *height += 1;
        pallet.on_initialize(ledger, *height);
    }
}

#[test]
fn call_create_proposal() {
    let mut pallet = Pallet::new(test_config());
    let mut ledger = Ledger::new();
    let mut registry = new_registry();
    let mut height = 0u64;
    let period_length = 5u64;
    let alice = 0u64;

    // Set some balance
    ledger.set_balance(alice, 10_000_000, 0);

    // Signed fails while in the voting period
    assert_eq!(
        pallet.create_proposal(&registry, alice, [0u8; 32]),
        Err(Error::NotInProposalPeriod)
    );

    // Advance the chain by the period length to get to proposal period
    run_to_block(&mut pallet, &mut ledger, &mut height, period_length);

    // Does not work if not identified by the voting registry
    assert_eq!(
        pallet.create_proposal(&registry, alice, [0u8; 32]),
        Err(Error::NotIdentified)
    );

    // Register alice with the voting registry
    registry.register(&mut ledger, alice).unwrap();

    // Works in the proposal period
    assert!(pallet.create_proposal(&registry, alice, [0u8; 32]).is_ok());

    // Submitting the same proposal fails
    assert_eq!(
        pallet.create_proposal(&registry, alice, [0u8; 32]),
        Err(Error::ProposalAlreadyExists)
    );
}

#[test]
fn call_create_proposal_maximum() {
    let mut pallet = Pallet::new(test_config());
    let mut ledger = Ledger::new();
    let mut registry = new_registry();
    let mut height = 0u64;
    let period_length = 5u64;
    let max_proposals = 10u32;
    let alice = 0u64;

    // Set some balance for alice
    ledger.set_balance(alice, 10_000_000, 0);

    // Register alice with the voting registry
    registry.register(&mut ledger, alice).unwrap();

    // Advance the chain by the period length to get to proposal period
    run_to_block(&mut pallet, &mut ledger, &mut height, period_length);
    for i in 0..max_proposals {
        assert!(pallet.create_proposal(&registry, alice, [i as u8; 32]).is_ok());
    }
    assert_eq!(
        pallet.create_proposal(&registry, alice, [10 as u8; 32]),
        Err(Error::TooManyProposals)
    );
}

#[test]
fn call_withdraw_proposal() {
    let mut pallet = Pallet::new(test_config());
    let mut ledger = Ledger::new();
    let mut registry = new_registry();
    let mut height = 0u64;
    let period_length = 5u64;
    let alice = 0u64;
    let evelyn = 1u64;

    // Set some balance for alice
    ledger.set_balance(alice, 10_000_000, 0);

    // Set some balance for evelyn
    ledger.set_balance(evelyn, 10_000_000, 0);

    // Register alice with the voting registry
    registry.register(&mut ledger, alice).unwrap();

    // Fails while in the voting period
    assert_eq!(
        pallet.withdraw_proposal(alice, [0u8; 32]),
        Err(Error::NotInProposalPeriod)
    );

    // Advance the chain by the period length
    run_to_block(&mut pallet, &mut ledger, &mut height, period_length);

    // Set up an existing proposal
    pallet.create_proposal(&registry, alice, [0u8; 32]).unwrap();

    // Withdrawing as another account id fails
    assert_eq!(
        pallet.withdraw_proposal(evelyn, [0u8; 32]),
        Err(Error::NotYourProposal)
    );

    // Works in the proposal period
    assert!(pallet.withdraw_proposal(alice, [0u8; 32]).is_ok());

    // Withdrawing a withdrawn proposal fails
    assert_eq!(
        pallet.withdraw_proposal(alice, [0u8; 32]),
        Err(Error::ProposalDoesNotExist)
    );
}

#[test]
fn call_cast_vote() {
    let mut pallet = Pallet::new(test_config());
    let mut ledger = Ledger::new();
    let mut registry = new_registry();
    let mut height = 0u64;
    let period_length = 5u64;
    let alice = 0u64;
    let evelyn = 1u64;

    // Set some balance for alice
    ledger.set_balance(alice, 10_000_000, 0);

    // Set some balance for evelyn
    ledger.set_balance(evelyn, 10_000_000, 0);

    // Unidentified call fails
    assert_eq!(
        pallet.cast_vote(&registry, &mut ledger, alice, 0, 0, 0),
        Err(Error::NotIdentified)
    );

    // Register alice & evelyn with the voting registry
    registry.register(&mut ledger, alice).unwrap();
    registry.register(&mut ledger, evelyn).unwrap();

    // Proposal period
    let mut current_height = period_length;
    run_to_block(&mut pallet, &mut ledger, &mut height, current_height);
    // Submit 2 proposals
    assert!(pallet.create_proposal(&registry, alice, [0u8; 32]).is_ok());
    assert!(pallet.create_proposal(&registry, evelyn, [1u8; 32]).is_ok());

    // Voting period
    current_height += period_length;
    run_to_block(&mut pallet, &mut ledger, &mut height, current_height);

    // Submit 5 votes for a proposal.
    // At this point alice is missing 50 from registering with the
    // identity provider.
    assert!(pallet.cast_vote(&registry, &mut ledger, alice, 0, 5, 0).is_ok());
    assert_eq!(ledger.free_balance(alice), 9_999_925);

    // Submit another 5 votes
    assert!(pallet.cast_vote(&registry, &mut ledger, alice, 0, 5, 0).is_ok());
    assert_eq!(ledger.free_balance(alice), 9_999_850);

    // Submit another 5 votes
    assert_eq!(
        pallet.cast_vote(&registry, &mut ledger, alice, 0, 5, 0),
        Err(Error::AllVotesCastForAccount)
    );

    // Submit another 5 votes, this time exceeding the account voting limit
    assert_eq!(
        pallet.cast_vote(&registry, &mut ledger, alice, 0, 5, 0),
        Err(Error::AllVotesCastForAccount)
    );

    // Submit 5 votes to another proposal, should also affect the voting limit
    assert_eq!(
        pallet.cast_vote(&registry, &mut ledger, alice, 1, 5, 0),
        Err(Error::AllVotesCastForAccount)
    );

    // Proposal period
    current_height += period_length;
    run_to_block(&mut pallet, &mut ledger, &mut height, current_height);

    // Refunded the voter balance
    assert_eq!(ledger.free_balance(alice), 9_999_950);
}
