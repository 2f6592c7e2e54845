//! The reservation ledger: per account a free and a reserved quantity.
//! Reserving moves funds from free to reserved and fails when the free
//! balance does not cover the amount; unreserving moves funds back and is
//! best-effort, releasing at most what is reserved. The voting core never
//! reads balances directly: it only calls `reserve` and `unreserve` and
//! observes their outcomes.

use vstd::prelude::*;

use crate::account_map::AccountMap;
use crate::{AccountId, Balance};

verus! {

/// Reservation rejected: the account's free balance does not cover it.
#[derive(Clone, Copy, Debug, PartialEq, Eq)]
pub enum LedgerError {
    InsufficientFunds,
}

/// An account's standing: free funds and funds held in reserve.
pub struct Ledger {
    accounts: AccountMap<(Balance, Balance)>,
}

impl View for Ledger {
    /// Account id to (free, reserved). Absent accounts hold nothing.
    type V = Map<AccountId, (Balance, Balance)>;

    closed spec fn view(&self) -> Map<AccountId, (Balance, Balance)> {
        self.accounts.as_map()
    }
}

impl Ledger {
    /// Free and reserved funds of an account always fit one balance when
    /// added, so moving funds between the two can never overflow.
    pub closed spec fn wf(self) -> bool {
        &&& self.accounts.wf()
        &&& forall|who: AccountId|
            self@.dom().contains(who) ==> (#[trigger] self@[who]).0 + self@[who].1 <= u64::MAX
    }

    pub open spec fn free_of(self, who: AccountId) -> Balance {
        if self@.dom().contains(who) {
            self@[who].0
        } else {
            0
        }
    }

    pub open spec fn reserved_of(self, who: AccountId) -> Balance {
        if self@.dom().contains(who) {
            self@[who].1
        } else {
            0
        }
    }

    /// What `unreserve` does to the accounts: moves back the requested
    /// amount, capped at what is actually reserved.
    pub open spec fn spec_unreserve(
        m: Map<AccountId, (Balance, Balance)>,
        who: AccountId,
        amount: Balance,
    ) -> Map<AccountId, (Balance, Balance)> {
        if m.dom().contains(who) {
            let free = m[who].0;
            let reserved = m[who].1;
            let moved: Balance = if amount <= reserved {
                amount
            } else {
                reserved
            };
            m.insert(who, ((free + moved) as Balance, (reserved - moved) as Balance))
        } else {
            m
        }
    }

    pub fn new() -> (l: Ledger)
        ensures
            l@ == Map::<AccountId, (Balance, Balance)>::empty(),
            l.wf(),
    {
        Ledger { accounts: AccountMap::new() }
    }

    /// Overwrites an account's standing outright. Only deployment and test
    /// setup use this; the voting core moves funds solely through
    /// `reserve` and `unreserve`.
    pub fn set_balance(&mut self, who: AccountId, free: Balance, reserved: Balance)
        requires
            old(self).wf(),
            free + reserved <= u64::MAX,
        ensures
            final(self).wf(),
            final(self)@ == old(self)@.insert(who, (free, reserved)),
    {
        self.accounts.insert(who, (free, reserved));
        proof {
            assert forall|w: AccountId| self@.dom().contains(w) implies (#[trigger] self@[w]).0
                + self@[w].1 <= u64::MAX by {
                if w != who {
                    assert(old(self)@.dom().contains(w));
                    assert(old(self)@[w].0 + old(self)@[w].1 <= u64::MAX);
                }
            }
        }
    }

    pub fn free_balance(&self, who: AccountId) -> (r: Balance)
        requires
            self.wf(),
        ensures
            r == self.free_of(who),
    {
        match self.accounts.get(who) {
            Some(p) => p.0,
            None => 0,
        }
    }

    pub fn reserved_balance(&self, who: AccountId) -> (r: Balance)
        requires
            self.wf(),
        ensures
            r == self.reserved_of(who),
    {
        match self.accounts.get(who) {
            Some(p) => p.1,
            None => 0,
        }
    }

    /// Moves `amount` from free to reserved; succeeds exactly when the free
    /// balance covers the amount.
    pub fn reserve(&mut self, who: AccountId, amount: Balance) -> (r: Result<(), LedgerError>)
        requires
            old(self).wf(),
        ensures
            final(self).wf(),
            r is Ok <==> amount <= old(self).free_of(who),
            r is Ok ==> final(self)@ == old(self)@.insert(
                who,
                (
                    (old(self).free_of(who) - amount) as Balance,
                    (old(self).reserved_of(who) + amount) as Balance,
                ),
            ),
            r is Err ==> r == Err::<(), LedgerError>(LedgerError::InsufficientFunds)
                && *final(self) == *old(self),
    {
        let (free, reserved) = match self.accounts.get(who) {
            Some(p) => (p.0, p.1),
            None => (0, 0),
        };
        proof {
            if self@.dom().contains(who) {
                assert(self@[who].0 + self@[who].1 <= u64::MAX);
            }
        }
        if amount <= free {
            self.accounts.insert(who, (free - amount, reserved + amount));
            proof {
                assert forall|w: AccountId| self@.dom().contains(w) implies (#[trigger] self@[w]).0
                    + self@[w].1 <= u64::MAX by {
                    if w != who {
                        assert(old(self)@.dom().contains(w));
                        assert(old(self)@[w].0 + old(self)@[w].1 <= u64::MAX);
                    }
                }
            }
            Ok(())
        } else {
            Err(LedgerError::InsufficientFunds)
        }
    }

    /// Moves up to `amount` back from reserved to free; never fails.
    pub fn unreserve(&mut self, who: AccountId, amount: Balance)
        requires
            old(self).wf(),
        ensures
            final(self).wf(),
            final(self)@ == Ledger::spec_unreserve(old(self)@, who, amount),
    {
        match self.accounts.get(who) {
            Some(p) => {
                let (free, reserved) = (p.0, p.1);
                proof {
                    assert(self@[who].0 + self@[who].1 <= u64::MAX);
                }
                let moved = if amount <= reserved {
                    amount
                } else {
                    reserved
                };
                self.accounts.insert(who, (free + moved, reserved - moved));
                proof {
                    assert forall|w: AccountId| self@.dom().contains(w) implies (
                    #[trigger] self@[w]).0 + self@[w].1 <= u64::MAX by {
                        if w != who {
                            assert(old(self)@.dom().contains(w));
                            assert(old(self)@[w].0 + old(self)@[w].1 <= u64::MAX);
                        }
                    }
                    assert(self@ =~= Ledger::spec_unreserve(old(self)@, who, amount));
                }
            },
            None => (),
        }
    }
}

} // verus!
