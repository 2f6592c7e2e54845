use quadravote::ledger::Ledger;
use quadravote::votingregistry::{Config, Error, Pallet};

fn new_registry() -> Pallet {
    Pallet::new(Config { reserve_amount: 50 })
}

#[test]
fn test_balance_assumptions() {
    let mut ledger = Ledger::new();
    let alice = 1u64;
    ledger.set_balance(alice, 10_000_000, 6969);
    let alice_balance = ledger.free_balance(alice);
    assert_eq!(10_000_000, alice_balance);
}

#[test]
fn call_register() {
    let mut ledger = Ledger::new();
    let mut registry = new_registry();
    let alice = 1u64;
    // Set some balance
    ledger.set_balance(alice, 10_000_000, 0);
    // Does work
    assert!(registry.register(&mut ledger, alice).is_ok());
    // Does not work if already registered
    assert_eq!(
        registry.register(&mut ledger, alice),
        Err(Error::AlreadyRegistered)
    );
}

#[test]
fn call_deregister() {
    let mut ledger = Ledger::new();
    let mut registry = new_registry();
    let alice = 1u64;
    // Set some balance
    ledger.set_balance(alice, 10_000_000, 0);
    // Tested above, assumed working.
    registry.register(&mut ledger, alice).unwrap();
    // Does work registered
    assert!(registry.deregister(&mut ledger, alice).is_ok());
    // Does not work if already deregistered
    assert_eq!(
        registry.deregister(&mut ledger, alice),
        Err(Error::NotRegistered)
    );
}
