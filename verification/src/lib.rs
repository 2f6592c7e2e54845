//! A periodic quadratic-voting state machine.
//!
//! Time is split into two alternating windows of equal length: a *proposing*
//! window, during which registered accounts may open proposals, and a
//! *voting* window, during which registered accounts reserve collateral to
//! vote on those proposals. The collateral required for a vote equals the
//! square of the cumulative number of votes the account has cast on that
//! proposal, so indecision is priced rather than free. At the end of each
//! voting window the proposals with more votes for than against are
//! announced as winners, and the bounded proposal and voter stores are
//! reclaimed incrementally, a rate-limited slice per unit of work, so that
//! no single unit does unbounded work.
//!
//! The external collaborators are kept behind narrow capability values: the
//! reservation ledger (`ledger::Ledger`) holds and releases collateral, and
//! the identity check (`identity::IdentityInterface`) gates participation.

pub mod assoc;
pub mod identity;
pub mod laws;
pub mod ledger;
pub mod quadravote;
pub mod votingregistry;

mod account_map;

use vstd::prelude::*;

verus! {

/// Account identifier handed in by the caller of every operation.
pub type AccountId = u64;

/// Non-negative currency quantity as the reservation ledger counts it.
pub type Balance = u64;

} // verus!
