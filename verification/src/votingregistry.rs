//! The voting registry: accounts register to vote by locking a fixed bond
//! in the reservation ledger and get it back when they deregister. The
//! registry is the crate's identity provider: an account is identified
//! exactly while it is registered.

use vstd::prelude::*;

use crate::account_map::AccountMap;
use crate::identity::IdentityInterface;
use crate::ledger::Ledger;
use crate::{AccountId, Balance};

verus! {

#[derive(Clone, Copy, Debug, PartialEq, Eq)]
pub enum Error {
    /// The account is already in the registry.
    AlreadyRegistered,
    /// The account is not in the registry.
    NotRegistered,
    /// The account cannot fund the registration bond.
    NotEnoughFunds,
}

#[derive(Clone, Copy, Debug, PartialEq, Eq)]
pub enum Event {
    RegisteredToVote { who: AccountId },
    DeRegisteredToVote { who: AccountId },
}

/// Fixed at deployment: the bond each account locks while registered.
#[derive(Clone, Copy, Debug, PartialEq, Eq)]
pub struct Config {
    pub reserve_amount: Balance,
}

/// The registry itself: who is registered, and with what bond. The bond in
/// force at registration time is stored with the entry, so a later change
/// of configuration still refunds what was actually locked.
pub struct Pallet {
    config: Config,
    registry: AccountMap<Balance>,
    events: Vec<Event>,
}

impl Pallet {
    pub closed spec fn spec_config(self) -> Config {
        self.config
    }

    /// Registered accounts and the bond each has locked.
    pub closed spec fn spec_registry(self) -> Map<AccountId, Balance> {
        self.registry.as_map()
    }

    /// Every event deposited so far, oldest first.
    pub closed spec fn spec_events(self) -> Seq<Event> {
        self.events@
    }

    pub closed spec fn wf(self) -> bool {
        self.registry.wf()
    }

    pub open spec fn spec_registered(self, who: AccountId) -> bool {
        self.spec_registry().dom().contains(who)
    }

    /// How `register` decides, in the order the checks are made.
    pub open spec fn register_outcome(self, ledger: Ledger, who: AccountId) -> Result<(), Error> {
        if self.spec_registered(who) {
            Err(Error::AlreadyRegistered)
        } else if ledger.free_of(who) < self.spec_config().reserve_amount {
            Err(Error::NotEnoughFunds)
        } else {
            Ok(())
        }
    }

    /// How `deregister` decides.
    pub open spec fn deregister_outcome(self, who: AccountId) -> Result<(), Error> {
        if !self.spec_registered(who) {
            Err(Error::NotRegistered)
        } else {
            Ok(())
        }
    }

    pub fn new(config: Config) -> (p: Pallet)
        ensures
            p.wf(),
            p.spec_config() == config,
            p.spec_registry() == Map::<AccountId, Balance>::empty(),
            p.spec_events() == Seq::<Event>::empty(),
    {
        Pallet { config, registry: AccountMap::new(), events: Vec::new() }
    }

    pub fn events(&self) -> (r: &Vec<Event>)
        ensures
            r@ == self.spec_events(),
    {
        &self.events
    }

    /// Registers `who`, locking the configured bond in the ledger.
    /// Fails when `who` is already registered or cannot fund the bond;
    /// on failure nothing is committed.
    pub fn register(&mut self, ledger: &mut Ledger, who: AccountId) -> (r: Result<(), Error>)
        requires
            old(self).wf(),
            old(ledger).wf(),
        ensures
            final(self).wf(),
            final(ledger).wf(),
            r == old(self).register_outcome(*old(ledger), who),
            r is Err ==> *final(self) == *old(self) && *final(ledger) == *old(ledger),
            r is Ok ==> {
                let bond = old(self).spec_config().reserve_amount;
                &&& final(self).spec_registry() == old(self).spec_registry().insert(who, bond)
                &&& final(self).spec_events() == old(self).spec_events().push(
                    Event::RegisteredToVote { who },
                )
                &&& final(self).spec_config() == old(self).spec_config()
                &&& final(ledger)@ == old(ledger)@.insert(
                    who,
                    (
                        (old(ledger).free_of(who) - bond) as Balance,
                        (old(ledger).reserved_of(who) + bond) as Balance,
                    ),
                )
            },
    {
        if self.registry.contains_key(who) {
            return Err(Error::AlreadyRegistered);
        }
        match ledger.reserve(who, self.config.reserve_amount) {
            Ok(()) => {
                self.registry.insert(who, self.config.reserve_amount);
                self.events.push(Event::RegisteredToVote { who });
                Ok(())
            },
            Err(_) => Err(Error::NotEnoughFunds),
        }
    }

    /// Deregisters `who` and releases the bond stored with the entry.
    /// Fails when `who` is not registered; then nothing is committed.
    pub fn deregister(&mut self, ledger: &mut Ledger, who: AccountId) -> (r: Result<(), Error>)
        requires
            old(self).wf(),
            old(ledger).wf(),
        ensures
            final(self).wf(),
            final(ledger).wf(),
            r == old(self).deregister_outcome(who),
            r is Err ==> *final(self) == *old(self) && *final(ledger) == *old(ledger),
            r is Ok ==> {
                &&& final(self).spec_registry() == old(self).spec_registry().remove(who)
                &&& final(self).spec_events() == old(self).spec_events().push(
                    Event::DeRegisteredToVote { who },
                )
                &&& final(self).spec_config() == old(self).spec_config()
                &&& final(ledger)@ == Ledger::spec_unreserve(
                    old(ledger)@,
                    who,
                    old(self).spec_registry()[who],
                )
            },
    {
        match self.registry.take(who) {
            Some(amount) => {
                ledger.unreserve(who, amount);
                self.events.push(Event::DeRegisteredToVote { who });
                Ok(())
            },
            None => Err(Error::NotRegistered),
        }
    }
}

impl IdentityInterface<AccountId> for Pallet {
    /// An account is identified exactly while it is registered.
    open spec fn spec_is_identified(&self, who: AccountId) -> bool {
        self.spec_registered(who)
    }

    fn is_identified(&self, who: &AccountId) -> (r: bool)
        ensures
            r == self.spec_is_identified(*who),
    {
        self.registry.contains_key(*who)
    }
}

} // verus!
