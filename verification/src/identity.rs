//! The identity check: a narrow capability the voting core consults before
//! accepting a proposal or a vote. Implementations answer, as a pure read,
//! whether an account is allowed to participate. `votingregistry::Pallet`
//! is this crate's implementation; a deployment may supply another.

use vstd::prelude::*;

verus! {

pub trait IdentityInterface<AccountId> {
    /// The answer the implementation gives for each account.
    spec fn spec_is_identified(&self, who: AccountId) -> bool;

    /// Is `who` allowed to participate? Pure read, no side effects.
    fn is_identified(&self, who: &AccountId) -> (r: bool)
        ensures
            r == self.spec_is_identified(*who),
    ;
}

} // verus!
