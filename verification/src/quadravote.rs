//! The voting core: a state machine that alternates between a proposing
//! window and a voting window of equal length, driven once per unit of work
//! by `on_initialize`. During the proposing window identified accounts open
//! (and may withdraw) proposals; during the voting window they cast
//! quadratically priced votes. When a voting window closes, the winners are
//! announced, the round's stores are cleared — the voter store a bounded
//! slice at a time, resumable across units — and each cleared voter's vote
//! collateral is released back to its account.

pub mod proposals;
pub mod tally;
pub mod voter;

use vstd::prelude::*;

use crate::account_map::AccountMap;
use crate::assoc;
use crate::identity::IdentityInterface;
use crate::ledger::Ledger;
use crate::{AccountId, Balance};

pub use self::proposals::{ProposalId, VotingProposal};
pub use self::voter::Voter;

use self::proposals::OwnerMap;

verus! {

#[derive(Clone, Copy, Debug, PartialEq, Eq)]
pub enum Error {
    /// The call is only valid during the proposing window.
    NotInProposalPeriod,
    /// The call is only valid during the voting window.
    NotInVotingPeriod,
    /// The caller is not identified by the identity provider.
    NotIdentified,
    /// The ledger rejected the vote's collateral reservation.
    NotEnoughFunds,
    /// Only the creator of a proposal may withdraw it.
    NotYourProposal,
    /// A proposal with this identifier is already open.
    ProposalAlreadyExists,
    /// No open proposal carries this identifier.
    ProposalDoesNotExist,
    /// The bound on simultaneously open proposals is reached.
    TooManyProposals,
    /// The proposal slot index lies outside the configured bound.
    ProposalIndexOutOfBounds,
    /// The account has exhausted its vote allowance for this round.
    AllVotesCastForAccount,
    /// A checked arithmetic step on the vote counts overflowed.
    MathError,
    /// A valid slot index pointed at no live proposal: a fatal breach of
    /// the registry's invariants, never a user error.
    SkyIsFalling,
}

#[derive(Debug, PartialEq, Eq)]
pub enum Event {
    ProposalCreated { proposal: ProposalId },
    ProposalWithdrawn { proposal: ProposalId },
    VotingPeriodEnded { block: u64 },
    ProposalPeriodEnded { block: u64 },
    VoteRegistered { proposal: ProposalId, who: AccountId },
    WinningProposals { winners: Vec<VotingProposal> },
}

/// Fixed at deployment, not runtime-mutable.
#[derive(Clone, Copy, Debug, PartialEq, Eq)]
pub struct Config {
    /// How many units of work each window runs for.
    pub period_length: u32,
    /// How many proposals can be open simultaneously.
    pub max_proposals: u32,
    /// How many votes one account may cast in one round, over all proposals.
    pub max_votes_per_account: u32,
    /// How many voter records one cleanup pass may clear.
    pub max_voters_per_session: u32,
}

impl Config {
    /// The window length drives a modulus and the cleanup limit drives
    /// progress, so neither may be zero.
    pub open spec fn wf(self) -> bool {
        &&& self.period_length >= 1
        &&& self.max_voters_per_session >= 1
    }
}

/// The accounts' standings after each voter record in `drained` has had
/// its reserved vote collateral released, front to back.
pub open spec fn spec_release_all(
    m: Map<AccountId, (Balance, Balance)>,
    drained: Seq<(AccountId, Voter)>,
) -> Map<AccountId, (Balance, Balance)>
    decreases drained.len(),
{
    if drained.len() == 0 {
        m
    } else {
        spec_release_all(
            Ledger::spec_unreserve(m, drained[0].0, drained[0].1.spec_amount_reserved()),
            drained.skip(1),
        )
    }
}

/// Releases each drained voter's reserved collateral back to its account.
fn release_voters(ledger: &mut Ledger, drained: &Vec<(AccountId, Voter)>)
    requires
        old(ledger).wf(),
    ensures
        final(ledger).wf(),
        final(ledger)@ == spec_release_all(old(ledger)@, drained@),
{
    let n = drained.len();
    let mut i: usize = 0;
    proof {
        assert(drained@.skip(0) =~= drained@);
    }
    while i < n
        invariant
            i <= n,
            n == drained@.len(),
            ledger.wf(),
            spec_release_all(ledger@, drained@.skip(i as int)) == spec_release_all(
                old(ledger)@,
                drained@,
            ),
        decreases n - i,
    {
        let who = drained[i].0;
        let amount = drained[i].1.amount_reserved();
        proof {
            assert(drained@.skip(i as int)[0] == drained@[i as int]);
            assert(drained@.skip(i as int).skip(1) =~= drained@.skip(i + 1));
        }
        ledger.unreserve(who, amount);
        i = i + 1;
    }
    proof {
        assert(drained@.skip(n as int) =~= Seq::<(AccountId, Voter)>::empty());
    }
}

/// The voting core's whole state. Nothing outside this module mutates it;
/// the reservation ledger and the identity provider are handed in by the
/// caller of each operation.
pub struct Pallet {
    config: Config,
    /// The phase flag: set while proposing, clear while voting. A fresh
    /// deployment starts in the voting window, until the first boundary.
    proposal_period: bool,
    /// Id-to-creator view of the open proposals, bounded by
    /// `max_proposals`.
    counted_proposals: OwnerMap,
    /// Ordered record of the open proposals' tallies, kept consistent with
    /// `counted_proposals`.
    proposals: Vec<VotingProposal>,
    /// Per-account voting records of the current round.
    voters: AccountMap<Voter>,
    /// Resumption token of an unfinished cleanup of the proposal store. A
    /// cleanup pass over it is bounded by `max_proposals`, which also
    /// bounds the store itself, so a single pass always clears it whole
    /// and no token survives a unit of work.
    leftover_proposal_cursor: Option<u64>,
    /// Resumption token of an unfinished cleanup of the voter store: how
    /// many of the store's oldest records still belong to the round being
    /// cleared. Records created later sit behind them and are never
    /// touched by the pending cleanup.
    leftover_voter_cursor: Option<u64>,
    /// Every event deposited so far, oldest first.
    events: Vec<Event>,
}

impl Pallet {
    pub closed spec fn spec_config(self) -> Config {
        self.config
    }

    /// True while the proposing window is open; false while voting.
    pub closed spec fn in_proposal_period(self) -> bool {
        self.proposal_period
    }

    /// The id-to-creator store's entries, oldest first.
    pub closed spec fn spec_owner_entries(self) -> Seq<(ProposalId, AccountId)> {
        self.counted_proposals@
    }

    /// The map the id-to-creator store denotes.
    pub closed spec fn spec_owners(self) -> Map<ProposalId, AccountId> {
        self.counted_proposals.as_map()
    }

    /// The ordered record of open proposals' tallies.
    pub closed spec fn spec_proposals(self) -> Seq<VotingProposal> {
        self.proposals@
    }

    /// The voter store's entries, oldest first.
    pub closed spec fn spec_voter_entries(self) -> Seq<(AccountId, Voter)> {
        self.voters@
    }

    /// The map the voter store denotes.
    pub closed spec fn spec_voters(self) -> Map<AccountId, Voter> {
        self.voters.as_map()
    }

    pub closed spec fn spec_proposal_cursor(self) -> Option<u64> {
        self.leftover_proposal_cursor
    }

    pub closed spec fn spec_voter_cursor(self) -> Option<u64> {
        self.leftover_voter_cursor
    }

    pub closed spec fn spec_events(self) -> Seq<Event> {
        self.events@
    }

    /// Is some open proposal's record carrying `id`?
    pub open spec fn spec_has_proposal(s: Seq<VotingProposal>, id: ProposalId) -> bool {
        exists|i: int| 0 <= i < s.len() && (#[trigger] s[i]).proposal == id
    }

    /// The state machine's invariant. The two views of the proposal
    /// registry hold the same identifiers, each exactly once; every voter
    /// record satisfies its quadratic-cost bookkeeping; and a pending
    /// voter-cleanup token counts records the store actually holds.
    pub closed spec fn wf(self) -> bool {
        &&& self.config.wf()
        &&& self.counted_proposals.wf()
        &&& self.voters.wf()
        &&& self.counted_proposals@.len() <= self.config.max_proposals
        &&& self.counted_proposals@.len() == self.proposals@.len()
        &&& forall|i: int, j: int|
            0 <= i < j < self.proposals@.len() ==> (#[trigger] self.proposals@[i]).proposal != (
            #[trigger] self.proposals@[j]).proposal
        &&& forall|i: int|
            0 <= i < self.proposals@.len() ==> assoc::has_key(
                self.counted_proposals@,
                (#[trigger] self.proposals@[i]).proposal,
            )
        &&& forall|j: int|
            0 <= j < self.counted_proposals@.len() ==> Pallet::spec_has_proposal(
                self.proposals@,
                (#[trigger] self.counted_proposals@[j]).0,
            )
        &&& self.leftover_proposal_cursor is None
        &&& match self.leftover_voter_cursor {
            None => true,
            Some(m) => 1 <= m <= self.voters@.len(),
        }
        &&& forall|i: int|
            0 <= i < self.voters@.len() ==> (#[trigger] self.voters@[i]).1.wf(
                self.config.max_proposals as int,
                self.config.max_votes_per_account as int,
            )
    }

    /// A fresh deployment: voting window, nothing stored, nothing pending.
    pub fn new(config: Config) -> (p: Pallet)
        requires
            config.wf(),
        ensures
            p.wf(),
            p.spec_config() == config,
            !p.in_proposal_period(),
            p.spec_owner_entries() == Seq::<(ProposalId, AccountId)>::empty(),
            p.spec_owners() == Map::<ProposalId, AccountId>::empty(),
            p.spec_proposals() == Seq::<VotingProposal>::empty(),
            p.spec_voter_entries() == Seq::<(AccountId, Voter)>::empty(),
            p.spec_voters() == Map::<AccountId, Voter>::empty(),
            p.spec_proposal_cursor() is None,
            p.spec_voter_cursor() is None,
            p.spec_events() == Seq::<Event>::empty(),
    {
        Pallet {
            config,
            proposal_period: false,
            counted_proposals: OwnerMap::new(),
            proposals: Vec::new(),
            voters: AccountMap::new(),
            leftover_proposal_cursor: None,
            leftover_voter_cursor: None,
            events: Vec::new(),
        }
    }

    pub fn is_proposal_period(&self) -> (r: bool)
        ensures
            r == self.in_proposal_period(),
    {
        self.proposal_period
    }

    pub fn proposal_count(&self) -> (n: usize)
        ensures
            n == self.spec_owner_entries().len(),
    {
        self.counted_proposals.len()
    }

    pub fn proposals(&self) -> (r: &Vec<VotingProposal>)
        ensures
            r@ == self.spec_proposals(),
    {
        &self.proposals
    }

    pub fn voter_count(&self) -> (n: usize)
        ensures
            n == self.spec_voter_entries().len(),
    {
        self.voters.len()
    }

    /// The stored voting record of `who`, if it has voted this round.
    pub fn get_all_voters(&self, who: &AccountId) -> (r: Option<&Voter>)
        requires
            self.wf(),
        ensures
            match r {
                Some(w) => self.spec_voters().dom().contains(*who)
                    && *w == self.spec_voters()[*who],
                None => !self.spec_voters().dom().contains(*who),
            },
    {
        self.voters.get(*who)
    }

    pub fn pending_voter_cleanup(&self) -> (r: Option<u64>)
        ensures
            r == self.spec_voter_cursor(),
    {
        self.leftover_voter_cursor
    }

    pub fn events(&self) -> (r: &Vec<Event>)
        ensures
            r@ == self.spec_events(),
    {
        &self.events
    }

    /// How `create_proposal` decides, in the order the checks are made.
    pub open spec fn create_outcome(self, identified: bool, proposal: ProposalId) -> Result<
        (),
        Error,
    > {
        if !self.in_proposal_period() {
            Err(Error::NotInProposalPeriod)
        } else if !identified {
            Err(Error::NotIdentified)
        } else if self.spec_owners().dom().contains(proposal) {
            Err(Error::ProposalAlreadyExists)
        } else if self.spec_owner_entries().len() >= self.spec_config().max_proposals {
            Err(Error::TooManyProposals)
        } else {
            Ok(())
        }
    }

    /// Opens a proposal owned by `creator`. Requires the proposing window,
    /// an identified creator, a fresh identifier and free capacity; on
    /// success the identifier is bound to its creator, a zero-tally record
    /// is appended, and `ProposalCreated` is deposited. On failure nothing
    /// is committed.
    pub fn create_proposal<I: IdentityInterface<AccountId>>(
        &mut self,
        identity: &I,
        creator: AccountId,
        proposal: ProposalId,
    ) -> (r: Result<(), Error>)
        requires
            old(self).wf(),
        ensures
            final(self).wf(),
            r == old(self).create_outcome(identity.spec_is_identified(creator), proposal),
            r is Err ==> *final(self) == *old(self),
            r is Ok ==> {
                &&& final(self).spec_owner_entries() == old(self).spec_owner_entries().push(
                    (proposal, creator),
                )
                &&& final(self).spec_owners() == old(self).spec_owners().insert(proposal, creator)
                &&& final(self).spec_proposals() == old(self).spec_proposals().push(
                    VotingProposal { proposal, votes_for: 0, votes_against: 0 },
                )
                &&& final(self).spec_events() == old(self).spec_events().push(
                    Event::ProposalCreated { proposal },
                )
                &&& final(self).in_proposal_period() == old(self).in_proposal_period()
                &&& final(self).spec_voter_entries() == old(self).spec_voter_entries()
                &&& final(self).spec_voter_cursor() == old(self).spec_voter_cursor()
                &&& final(self).spec_config() == old(self).spec_config()
            },
    {
        if !self.proposal_period {
            return Err(Error::NotInProposalPeriod);
        }
        if !identity.is_identified(&creator) {
            return Err(Error::NotIdentified);
        }
        if self.counted_proposals.contains_key(&proposal) {
            return Err(Error::ProposalAlreadyExists);
        }
        if self.counted_proposals.len() >= self.config.max_proposals as usize {
            return Err(Error::TooManyProposals);
        }
        self.counted_proposals.insert(proposal, creator);
        self.proposals.push(VotingProposal { proposal, votes_for: 0, votes_against: 0 });
        self.events.push(Event::ProposalCreated { proposal });
        proof {
            let sp = self.proposals@;
            let so = self.counted_proposals@;
            let op = old(self).proposals@;
            let oo = old(self).counted_proposals@;
            assert forall|i: int, j: int| 0 <= i < j < sp.len() implies (
            #[trigger] sp[i]).proposal != (#[trigger] sp[j]).proposal by {
                if j < sp.len() - 1 {
                    assert(sp[i] == op[i] && sp[j] == op[j]);
                } else {
                    assert(sp[i] == op[i]);
                    assert(assoc::has_key(oo, op[i].proposal));
                    assert(sp[j].proposal == proposal);
                }
            }
            assert forall|i: int| 0 <= i < sp.len() implies assoc::has_key(
                so,
                (#[trigger] sp[i]).proposal,
            ) by {
                if i < sp.len() - 1 {
                    assert(assoc::has_key(oo, op[i].proposal));
                    let w = choose|w: int| 0 <= w < oo.len() && (#[trigger] oo[w]).0
                        == op[i].proposal;
                    assert(so[w] == oo[w]);
                } else {
                    assert(so[so.len() - 1].0 == proposal);
                }
            }
            assert forall|j: int| 0 <= j < so.len() implies Pallet::spec_has_proposal(
                sp,
                (#[trigger] so[j]).0,
            ) by {
                if j < so.len() - 1 {
                    assert(so[j] == oo[j]);
                    assert(Pallet::spec_has_proposal(op, oo[j].0));
                    let w = choose|w: int| 0 <= w < op.len() && (#[trigger] op[w]).proposal
                        == oo[j].0;
                    assert(sp[w] == op[w]);
                } else {
                    assert(sp[sp.len() - 1].proposal == so[j].0);
                }
            }
            assert forall|i: int| 0 <= i < self.voters@.len() implies (
            #[trigger] self.voters@[i]).1.wf(
                self.config.max_proposals as int,
                self.config.max_votes_per_account as int,
            ) by {
                assert(self.voters@[i] == old(self).voters@[i]);
            }
        }
        Ok(())
    }

    /// How `withdraw_proposal` decides, in the order the checks are made.
    /// Identity is not re-checked: the creator may have deregistered since
    /// creating the proposal and must still be able to withdraw it.
    pub open spec fn withdraw_outcome(self, sender: AccountId, proposal: ProposalId) -> Result<
        (),
        Error,
    > {
        if !self.in_proposal_period() {
            Err(Error::NotInProposalPeriod)
        } else if !self.spec_owners().dom().contains(proposal) {
            Err(Error::ProposalDoesNotExist)
        } else if self.spec_owners()[proposal] != sender {
            Err(Error::NotYourProposal)
        } else {
            Ok(())
        }
    }

    /// Withdraws a proposal still open in the same proposing window.
    /// Requires the proposing window and that `sender` created the
    /// proposal; on success the identifier leaves both views of the
    /// registry and `ProposalWithdrawn` is deposited. On failure nothing
    /// is committed.
    pub fn withdraw_proposal(&mut self, sender: AccountId, proposal: ProposalId) -> (r: Result<
        (),
        Error,
    >)
        requires
            old(self).wf(),
        ensures
            final(self).wf(),
            r == old(self).withdraw_outcome(sender, proposal),
            r is Err ==> *final(self) == *old(self),
            r is Ok ==> {
                &&& final(self).spec_owners() == old(self).spec_owners().remove(proposal)
                &&& exists|j: int|
                    0 <= j < old(self).spec_owner_entries().len() && (#[trigger] old(
                        self,
                    ).spec_owner_entries()[j]).0 == proposal && final(self).spec_owner_entries()
                        == old(self).spec_owner_entries().remove(j)
                &&& exists|i: int|
                    0 <= i < old(self).spec_proposals().len() && (#[trigger] old(
                        self,
                    ).spec_proposals()[i]).proposal == proposal && final(self).spec_proposals()
                        == old(self).spec_proposals().remove(i)
                &&& final(self).spec_events() == old(self).spec_events().push(
                    Event::ProposalWithdrawn { proposal },
                )
                &&& final(self).in_proposal_period() == old(self).in_proposal_period()
                &&& final(self).spec_voter_entries() == old(self).spec_voter_entries()
                &&& final(self).spec_voter_cursor() == old(self).spec_voter_cursor()
                &&& final(self).spec_config() == old(self).spec_config()
            },
    {
        if !self.proposal_period {
            return Err(Error::NotInProposalPeriod);
        }
        match self.counted_proposals.get(&proposal) {
            None => {
                return Err(Error::ProposalDoesNotExist);
            },
            Some(creator) => {
                if creator != sender {
                    return Err(Error::NotYourProposal);
                }
            },
        }
        let idx = match proposals::find_proposal(&self.proposals, &proposal) {
            Some(i) => i,
            None => {
                // the invariant ties the two views together, so the record
                // is always found
                proof {
                    assoc::lemma_map_of_contains(self.counted_proposals@, proposal);
                    let j = choose|j: int|
                        0 <= j < self.counted_proposals@.len() && (
                        #[trigger] self.counted_proposals@[j]).0 == proposal;
                    assert(Pallet::spec_has_proposal(self.proposals@, proposal));
                    assert(false);
                }
                0
            },
        };
        self.proposals.remove(idx);
        self.counted_proposals.remove(&proposal);
        self.events.push(Event::ProposalWithdrawn { proposal });
        proof {
            let sp = self.proposals@;
            let so = self.counted_proposals@;
            let op = old(self).proposals@;
            let oo = old(self).counted_proposals@;
            let j = choose|j: int|
                0 <= j < oo.len() && (#[trigger] oo[j]).0 == proposal && so == oo.remove(j);
            assert(sp == op.remove(idx as int));
            assert forall|x: int, y: int| 0 <= x < y < sp.len() implies (
            #[trigger] sp[x]).proposal != (#[trigger] sp[y]).proposal by {
                assert(sp[x] == if x < idx {
                    op[x]
                } else {
                    op[x + 1]
                });
                assert(sp[y] == if y < idx {
                    op[y]
                } else {
                    op[y + 1]
                });
            }
            assert forall|x: int| 0 <= x < sp.len() implies assoc::has_key(
                so,
                (#[trigger] sp[x]).proposal,
            ) by {
                let xo = if x < idx {
                    x
                } else {
                    x + 1
                };
                assert(sp[x] == op[xo]);
                assert(op[xo].proposal != proposal);
                assert(assoc::has_key(oo, op[xo].proposal));
                let w = choose|w: int| 0 <= w < oo.len() && (#[trigger] oo[w]).0
                    == op[xo].proposal;
                assert(w != j);
                let wn = if w < j {
                    w
                } else {
                    w - 1
                };
                assert(so[wn] == oo[w]);
            }
            assert forall|y: int| 0 <= y < so.len() implies Pallet::spec_has_proposal(
                sp,
                (#[trigger] so[y]).0,
            ) by {
                let yo = if y < j {
                    y
                } else {
                    y + 1
                };
                assert(so[y] == oo[yo]);
                assert(oo[yo].0 != proposal);
                assert(Pallet::spec_has_proposal(op, oo[yo].0));
                let w = choose|w: int| 0 <= w < op.len() && (#[trigger] op[w]).proposal
                    == oo[yo].0;
                assert(op[w].proposal != proposal);
                assert(w != idx);
                let wn = if w < idx {
                    w
                } else {
                    w - 1
                };
                assert(sp[wn] == op[w]);
            }
            assert(0 <= j < old(self).spec_owner_entries().len() && (old(
                self,
            ).spec_owner_entries()[j]).0 == proposal && self.spec_owner_entries() == old(
                self,
            ).spec_owner_entries().remove(j));
            assert(0 <= idx < old(self).spec_proposals().len() && (old(
                self,
            ).spec_proposals()[idx as int]).proposal == proposal && self.spec_proposals() == old(
                self,
            ).spec_proposals().remove(idx as int));
        }
        Ok(())
    }

    /// The vote counts `sender` holds per proposal slot: its stored record,
    /// or all zeroes if it has not voted this round.
    pub open spec fn spec_prior_slots(self, sender: AccountId) -> Seq<u32> {
        if self.spec_voters().dom().contains(sender) {
            self.spec_voters()[sender].spec_votes()
        } else {
            Seq::new(self.spec_config().max_proposals as nat, |i: int| 0u32)
        }
    }

    pub open spec fn spec_prior_total(self, sender: AccountId) -> u32 {
        if self.spec_voters().dom().contains(sender) {
            self.spec_voters()[sender].spec_total_votes()
        } else {
            0
        }
    }

    pub open spec fn spec_prior_reserved(self, sender: AccountId) -> Balance {
        if self.spec_voters().dom().contains(sender) {
            self.spec_voters()[sender].spec_amount_reserved()
        } else {
            0
        }
    }

    /// The collateral one call must add: the difference of the squared
    /// cumulative slot count before and after. A function of the cumulative
    /// count alone, so splitting the same votes over several calls reserves
    /// the same total.
    pub open spec fn spec_reserve_delta(s0: int, delta: int) -> int {
        (s0 + delta) * (s0 + delta) - s0 * s0
    }

    /// How `cast_vote` decides, in the order the checks are made.
    pub open spec fn cast_vote_outcome(
        self,
        ledger: Ledger,
        identified: bool,
        sender: AccountId,
        proposal_index: u32,
        votes_for: u32,
        votes_against: u32,
    ) -> Result<(), Error> {
        let t0 = self.spec_prior_total(sender);
        let s0 = self.spec_prior_slots(sender)[proposal_index as int];
        let delta = votes_for + votes_against;
        if self.in_proposal_period() {
            Err(Error::NotInVotingPeriod)
        } else if !identified {
            Err(Error::NotIdentified)
        } else if proposal_index >= self.spec_config().max_proposals {
            Err(Error::ProposalIndexOutOfBounds)
        } else if delta > u32::MAX {
            Err(Error::MathError)
        } else if t0 + delta > u32::MAX {
            Err(Error::MathError)
        } else if t0 + delta > self.spec_config().max_votes_per_account {
            Err(Error::AllVotesCastForAccount)
        } else if s0 + delta > u32::MAX {
            Err(Error::MathError)
        } else if (s0 + delta) * (s0 + delta) > u32::MAX {
            Err(Error::MathError)
        } else if proposal_index >= self.spec_proposals().len() {
            Err(Error::SkyIsFalling)
        } else if self.spec_proposals()[proposal_index as int].votes_for + votes_for > u32::MAX
            || self.spec_proposals()[proposal_index as int].votes_against + votes_against
            > u32::MAX {
            Err(Error::MathError)
        } else if ledger.free_of(sender) < Pallet::spec_reserve_delta(s0 as int, delta) {
            Err(Error::NotEnoughFunds)
        } else {
            Ok(())
        }
    }

    /// Casts `votes_for` and `votes_against` on the proposal in the given
    /// slot. Both kinds accumulate into the same per-proposal count, whose
    /// square is the collateral the ledger must hold, so the call reserves
    /// the difference between the new and the old squared count. Requires
    /// the voting window, an identified sender, a slot within bounds,
    /// checked arithmetic throughout, the per-account vote allowance, a
    /// live proposal in the slot, and a funded reservation; on success the
    /// sender's record, the proposal's tallies and the ledger are updated
    /// together and `VoteRegistered` is deposited. On failure nothing is
    /// committed.
    pub fn cast_vote<I: IdentityInterface<AccountId>>(
        &mut self,
        identity: &I,
        ledger: &mut Ledger,
        sender: AccountId,
        proposal_index: u32,
        votes_for: u32,
        votes_against: u32,
    ) -> (r: Result<(), Error>)
        requires
            old(self).wf(),
            old(ledger).wf(),
        ensures
            final(self).wf(),
            final(ledger).wf(),
            r == old(self).cast_vote_outcome(
                *old(ledger),
                identity.spec_is_identified(sender),
                sender,
                proposal_index,
                votes_for,
                votes_against,
            ),
            r is Err ==> *final(self) == *old(self) && *final(ledger) == *old(ledger),
            r is Ok ==> {
                let delta = votes_for + votes_against;
                let s0 = old(self).spec_prior_slots(sender)[proposal_index as int];
                let d = Pallet::spec_reserve_delta(s0 as int, delta);
                let w = final(self).spec_voters()[sender];
                let p0 = old(self).spec_proposals()[proposal_index as int];
                &&& final(self).spec_voters().dom() == old(self).spec_voters().dom().insert(
                    sender,
                )
                &&& final(self).spec_voters().remove(sender) == old(self).spec_voters().remove(
                    sender,
                )
                &&& w.spec_total_votes() == old(self).spec_prior_total(sender) + delta
                &&& w.spec_votes() == old(self).spec_prior_slots(sender).update(
                    proposal_index as int,
                    (s0 + delta) as u32,
                )
                &&& w.spec_amount_reserved() == old(self).spec_prior_reserved(sender) + d
                &&& old(self).spec_voters().dom().contains(sender) ==> {
                    &&& final(self).spec_voter_entries().len() == old(
                        self,
                    ).spec_voter_entries().len()
                    &&& forall|j: int|
                        0 <= j < final(self).spec_voter_entries().len()
                            ==> (#[trigger] final(self).spec_voter_entries()[j]).0
                            == old(self).spec_voter_entries()[j].0
                    &&& forall|j: int|
                        0 <= j < final(self).spec_voter_entries().len() && old(
                            self,
                        ).spec_voter_entries()[j].0 != sender ==> final(self).spec_voter_entries()[j]
                            == old(self).spec_voter_entries()[j]
                }
                &&& !old(self).spec_voters().dom().contains(sender)
                    ==> final(self).spec_voter_entries()
                    == old(self).spec_voter_entries().push((sender, w))
                &&& final(self).spec_proposals() == old(self).spec_proposals().update(
                    proposal_index as int,
                    VotingProposal {
                        proposal: p0.proposal,
                        votes_for: (p0.votes_for + votes_for) as u32,
                        votes_against: (p0.votes_against + votes_against) as u32,
                    },
                )
                &&& final(ledger)@ == old(ledger)@.insert(
                    sender,
                    (
                        (old(ledger).free_of(sender) - d) as Balance,
                        (old(ledger).reserved_of(sender) + d) as Balance,
                    ),
                )
                &&& final(self).spec_events() == old(self).spec_events().push(
                    Event::VoteRegistered { proposal: p0.proposal, who: sender },
                )
                &&& final(self).in_proposal_period() == old(self).in_proposal_period()
                &&& final(self).spec_owner_entries() == old(self).spec_owner_entries()
                &&& final(self).spec_voter_cursor() == old(self).spec_voter_cursor()
                &&& final(self).spec_config() == old(self).spec_config()
            },
    {
        if self.proposal_period {
            return Err(Error::NotInVotingPeriod);
        }
        if !identity.is_identified(&sender) {
            return Err(Error::NotIdentified);
        }
        if proposal_index >= self.config.max_proposals {
            return Err(Error::ProposalIndexOutOfBounds);
        }
        let slot = proposal_index as usize;
        proof {
            assoc::lemma_map_of_contains(self.voters@, sender);
            if self.spec_voters().dom().contains(sender) {
                let i = choose|i: int|
                    0 <= i < self.voters@.len() && (#[trigger] self.voters@[i]).0 == sender;
                assoc::lemma_map_of_index(self.voters@, i);
            }
        }
        // The sender's standing before this call: running total, this
        // slot's cumulative count, reserved collateral.
        let (t0, s0, r0) = match self.voters.get(sender) {
            Some(w) => (w.total_votes(), w.votes_on(slot), w.amount_reserved()),
            None => (0u32, 0u32, 0u64),
        };
        let delta = match votes_for.checked_add(votes_against) {
            Some(d) => d,
            None => {
                return Err(Error::MathError);
            },
        };
        let new_total = match t0.checked_add(delta) {
            Some(t) => t,
            None => {
                return Err(Error::MathError);
            },
        };
        if new_total > self.config.max_votes_per_account {
            return Err(Error::AllVotesCastForAccount);
        }
        let new_slot = match s0.checked_add(delta) {
            Some(v) => v,
            None => {
                return Err(Error::MathError);
            },
        };
        let new_sq = match new_slot.checked_mul(new_slot) {
            Some(q) => q,
            None => {
                return Err(Error::MathError);
            },
        };
        proof {
            if self.spec_voters().dom().contains(sender) {
                let w0 = self.spec_voters()[sender];
                assert(s0 * s0 <= u32::MAX);
            }
            assert(s0 * s0 <= new_sq) by (nonlinear_arith)
                requires
                    0 <= s0 <= new_slot,
                    new_sq == new_slot * new_slot,
            ;
        }
        let old_sq = s0 * s0;
        // The squares cannot wrap downward: the count only grew.
        let reserve_delta = new_sq - old_sq;
        if slot >= self.proposals.len() {
            return Err(Error::SkyIsFalling);
        }
        let prop = self.proposals[slot];
        let new_for = match prop.votes_for.checked_add(votes_for) {
            Some(x) => x,
            None => {
                return Err(Error::MathError);
            },
        };
        let new_against = match prop.votes_against.checked_add(votes_against) {
            Some(x) => x,
            None => {
                return Err(Error::MathError);
            },
        };
        match ledger.reserve(sender, reserve_delta as u64) {
            Ok(()) => (),
            Err(_) => {
                return Err(Error::NotEnoughFunds);
            },
        }
        // Everything fallible has passed: commit all the writes together.
        proof {
            if self.spec_voters().dom().contains(sender) {
                let w0 = self.spec_voters()[sender];
                voter::lemma_sum_squares_elem(w0.spec_votes(), slot as int);
                voter::lemma_sum_update(w0.spec_votes(), slot as int, new_slot);
                voter::lemma_sum_squares_le_square_of_sum(
                    w0.spec_votes().update(slot as int, new_slot),
                );
                assert((new_total as int) * (new_total as int) <= u32::MAX * u32::MAX)
                    by (nonlinear_arith)
                    requires
                        0 <= new_total <= u32::MAX,
                ;
            } else {
                let z = Seq::new(self.spec_config().max_proposals as nat, |i: int| 0u32);
                voter::lemma_sum_zero(z);
                voter::lemma_sum_update(z, slot as int, new_slot);
                voter::lemma_sum_squares_le_square_of_sum(z.update(slot as int, new_slot));
                assert((new_total as int) * (new_total as int) <= u32::MAX * u32::MAX)
                    by (nonlinear_arith)
                    requires
                        0 <= new_total <= u32::MAX,
                ;
            }
        }
        let new_reserved = r0 - (old_sq as u64) + (new_sq as u64);
        match self.voters.index_of(sender) {
            Some(i) => {
                let (k0, mut w) = self.voters.take_at(i);
                w.store_vote(slot, new_slot, new_total, new_reserved);
                proof {
                    assoc::lemma_map_of_contains(self.voters@, k0);
                }
                self.voters.insert_at(i, k0, w);
                proof {
                    let ov = old(self).voters@;
                    assert(self.voters@ =~= ov.update(i as int, (k0, w)));
                    assoc::lemma_map_of_update(ov, i as int, w);
                    let w0 = ov[i as int].1;
                    assert(old(self).spec_voters()[sender] == w0) by {
                        assoc::lemma_map_of_index(ov, i as int);
                    }
                    assert(w0.wf(
                        self.config.max_proposals as int,
                        self.config.max_votes_per_account as int,
                    ));
                    assert(w.wf(
                        self.config.max_proposals as int,
                        self.config.max_votes_per_account as int,
                    )) by {
                        let upd = w0.spec_votes().update(slot as int, new_slot);
                        assert(w.spec_votes() == upd);
                        assert forall|y: int| 0 <= y < upd.len() implies (#[trigger] upd[y])
                            * upd[y] <= u32::MAX by {
                            if y != slot as int {
                                assert(upd[y] == w0.spec_votes()[y]);
                            }
                        }
                    }
                }
            },
            None => {
                let mut w = Voter::zeroed(self.config.max_proposals);
                proof {
                    voter::lemma_sum_zero(w.spec_votes());
                    voter::lemma_sum_update(w.spec_votes(), slot as int, new_slot);
                    assert(w.spec_votes() =~= old(self).spec_prior_slots(sender));
                }
                let ghost z = w.spec_votes();
                w.store_vote(slot, new_slot, new_total, new_reserved);
                proof {
                    assert(w.wf(
                        self.config.max_proposals as int,
                        self.config.max_votes_per_account as int,
                    )) by {
                        let upd = z.update(slot as int, new_slot);
                        assert(w.spec_votes() == upd);
                        assert forall|y: int| 0 <= y < upd.len() implies (#[trigger] upd[y])
                            * upd[y] <= u32::MAX by {
                            if y != slot as int {
                                assert(upd[y] == z[y]);
                                assert(z[y] == 0);
                            }
                        }
                    }
                }
                self.voters.insert(sender, w);
            },
        }
        self.proposals[slot] = VotingProposal {
            proposal: prop.proposal,
            votes_for: new_for,
            votes_against: new_against,
        };
        self.events.push(Event::VoteRegistered { proposal: prop.proposal, who: sender });
        proof {
            let sp = self.proposals@;
            let op = old(self).proposals@;
            assert(sp =~= op.update(
                slot as int,
                VotingProposal { proposal: prop.proposal, votes_for: new_for, votes_against: new_against },
            ));
            assert forall|x: int, y: int| 0 <= x < y < sp.len() implies (
            #[trigger] sp[x]).proposal != (#[trigger] sp[y]).proposal by {
                assert(sp[x].proposal == op[x].proposal && sp[y].proposal == op[y].proposal);
            }
            assert forall|x: int| 0 <= x < sp.len() implies assoc::has_key(
                self.counted_proposals@,
                (#[trigger] sp[x]).proposal,
            ) by {
                assert(sp[x].proposal == op[x].proposal);
            }
            assert forall|y: int| 0 <= y < self.counted_proposals@.len() implies
                Pallet::spec_has_proposal(sp, (#[trigger] self.counted_proposals@[y]).0) by {
                assert(Pallet::spec_has_proposal(op, self.counted_proposals@[y].0));
                let x = choose|x: int| 0 <= x < op.len() && (#[trigger] op[x]).proposal
                    == self.counted_proposals@[y].0;
                assert(sp[x].proposal == op[x].proposal);
            }
            let sv = self.voters@;
            let ov = old(self).voters@;
            assert forall|x: int| 0 <= x < sv.len() implies (#[trigger] sv[x]).1.wf(
                self.config.max_proposals as int,
                self.config.max_votes_per_account as int,
            ) by {
                if old(self).spec_voters().dom().contains(sender) {
                    let i = choose|i: int| 0 <= i < ov.len() && (#[trigger] ov[i]).0 == sender;
                    if x != i {
                        assert(sv[x] == ov[x]);
                    } else {
                        assert(sv[x].1.wf(
                            self.config.max_proposals as int,
                            self.config.max_votes_per_account as int,
                        ));
                    }
                } else {
                    if x < sv.len() - 1 {
                        assert(sv[x] == ov[x]);
                    }
                }
            }
            assert(self.spec_voters().dom() =~= old(self).spec_voters().dom().insert(sender));
            assert(self.spec_voters().remove(sender) =~= old(self).spec_voters().remove(sender));
        }
        Ok(())
    }

    /// The map views are the maps the entry sequences denote, so knowledge
    /// of the entries carries over to the maps through `assoc::map_of`.
    pub proof fn lemma_views_agree(self)
        ensures
            self.spec_owners() == assoc::map_of(self.spec_owner_entries()),
            self.spec_voters() == assoc::map_of(self.spec_voter_entries()),
    {
    }

    /// For every account that has voted this round, the recorded reserved
    /// collateral equals the sum over proposal slots of the squared
    /// cumulative vote count — so it can never go negative — and the
    /// running total equals the sum of the counts and respects the
    /// per-account allowance.
    pub proof fn lemma_reserved_matches_votes(self, who: AccountId)
        requires
            self.wf(),
            self.spec_voters().dom().contains(who),
        ensures
            self.spec_voters()[who].spec_amount_reserved() == voter::sum_squares(
                self.spec_voters()[who].spec_votes(),
            ),
            self.spec_voters()[who].spec_total_votes() == voter::sum_votes(
                self.spec_voters()[who].spec_votes(),
            ),
            self.spec_voters()[who].spec_amount_reserved() >= 0,
            self.spec_voters()[who].spec_votes().len() == self.spec_config().max_proposals,
            self.spec_voters()[who].spec_total_votes()
                <= self.spec_config().max_votes_per_account,
    {
        assoc::lemma_map_of_contains(self.voters@, who);
        let i = choose|i: int|
            0 <= i < self.voters@.len() && (#[trigger] self.voters@[i]).0 == who;
        assoc::lemma_map_of_index(self.voters@, i);
    }

    /// Does `now` sit on a window boundary?
    pub open spec fn spec_is_boundary(self, now: u64) -> bool {
        now % (self.spec_config().period_length as u64) == 0
    }

    /// One unit of work, run once per height `now`. On a boundary while
    /// proposing, the proposing window ends. On a boundary while voting,
    /// the voting window ends: the winners among the round's proposals are
    /// announced, both proposal views are discarded — the id-to-creator
    /// store in one pass, since its pass limit is its capacity bound — and
    /// clearing of the voter store begins, up to `max_voters_per_session`
    /// records per pass, releasing each cleared record's collateral;
    /// whatever remains is noted in a resumption token. Off the boundary,
    /// a pending voter cleanup advances by one such pass. No single unit
    /// does more than one bounded pass per store.
    pub fn on_initialize(&mut self, ledger: &mut Ledger, now: u64)
        requires
            old(self).wf(),
            old(ledger).wf(),
        ensures
            final(self).wf(),
            final(ledger).wf(),
            final(self).spec_config() == old(self).spec_config(),
            old(self).spec_is_boundary(now) && old(self).in_proposal_period() ==> {
                &&& !final(self).in_proposal_period()
                &&& final(self).spec_events() == old(self).spec_events().push(
                    Event::ProposalPeriodEnded { block: now },
                )
                &&& final(self).spec_owner_entries() == old(self).spec_owner_entries()
                &&& final(self).spec_proposals() == old(self).spec_proposals()
                &&& final(self).spec_voter_entries() == old(self).spec_voter_entries()
                &&& final(self).spec_voter_cursor() == old(self).spec_voter_cursor()
                &&& *final(ledger) == *old(ledger)
            },
            old(self).spec_is_boundary(now) && !old(self).in_proposal_period() ==> {
                let ne = old(self).spec_events().len() as int;
                let n_v = old(self).spec_voter_entries().len() as int;
                let k_v = if old(self).spec_config().max_voters_per_session <= n_v {
                    old(self).spec_config().max_voters_per_session as int
                } else {
                    n_v
                };
                &&& final(self).in_proposal_period()
                &&& final(self).spec_events()[ne] == Event::VotingPeriodEnded { block: now }
                &&& if old(self).spec_proposals().len() > 0 {
                    &&& final(self).spec_events().len() == ne + 2
                    &&& (final(self).spec_events()[ne + 1] matches Event::WinningProposals {
                        winners,
                    } && winners@ == tally::winners_of(old(self).spec_proposals()))
                } else {
                    final(self).spec_events() == old(self).spec_events().push(
                        Event::VotingPeriodEnded { block: now },
                    )
                }
                &&& final(self).spec_events().take(ne) == old(self).spec_events()
                &&& final(self).spec_proposals() == Seq::<VotingProposal>::empty()
                &&& final(self).spec_owner_entries() == Seq::<(ProposalId, AccountId)>::empty()
                &&& final(self).spec_proposal_cursor() is None
                &&& final(self).spec_voter_entries() == old(self).spec_voter_entries().skip(k_v)
                &&& final(ledger)@ == spec_release_all(
                    old(ledger)@,
                    old(self).spec_voter_entries().take(k_v),
                )
                &&& final(self).spec_voter_cursor() == (if n_v - k_v > 0 {
                    Some((n_v - k_v) as u64)
                } else {
                    Option::<u64>::None
                })
            },
            !old(self).spec_is_boundary(now) ==> {
                &&& final(self).in_proposal_period() == old(self).in_proposal_period()
                &&& final(self).spec_events() == old(self).spec_events()
                &&& final(self).spec_owner_entries() == old(self).spec_owner_entries()
                &&& final(self).spec_proposals() == old(self).spec_proposals()
                &&& final(self).spec_proposal_cursor() is None
                &&& match old(self).spec_voter_cursor() {
                    None => final(self).spec_voter_entries() == old(self).spec_voter_entries()
                        && final(self).spec_voter_cursor() is None && *final(ledger) == *old(
                        ledger,
                    ),
                    Some(pending) => {
                        let k = if old(self).spec_config().max_voters_per_session <= pending {
                            old(self).spec_config().max_voters_per_session as int
                        } else {
                            pending as int
                        };
                        &&& final(self).spec_voter_entries() == old(
                            self,
                        ).spec_voter_entries().skip(k)
                        &&& final(ledger)@ == spec_release_all(
                            old(ledger)@,
                            old(self).spec_voter_entries().take(k),
                        )
                        &&& final(self).spec_voter_cursor() == (if pending - k > 0 {
                            Some((pending - k) as u64)
                        } else {
                            Option::<u64>::None
                        })
                    },
                }
            },
    {
        let period_length = self.config.period_length as u64;
        let boundary = now % period_length == 0;
        if boundary {
            if self.proposal_period {
                // The proposing window has ended: from this unit on, no new
                // proposals or withdrawals are accepted.
                self.proposal_period = false;
                self.events.push(Event::ProposalPeriodEnded { block: now });
            } else {
                // The voting window has ended: no further votes this round.
                self.proposal_period = true;
                self.events.push(Event::VotingPeriodEnded { block: now });
                if self.proposals.len() > 0 {
                    let winners = tally::winning_proposals(&self.proposals);
                    self.events.push(Event::WinningProposals { winners });
                }
                self.proposals.clear();
                // One pass bounded by `max_proposals` covers the whole
                // id-to-creator store, so no token remains for it.
                let n_owned = self.counted_proposals.len();
                let limit_p = self.config.max_proposals as usize;
                let k_p = if limit_p <= n_owned {
                    limit_p
                } else {
                    n_owned
                };
                self.counted_proposals.drain_front(k_p);
                let remaining_p = n_owned - k_p;
                self.leftover_proposal_cursor = if remaining_p > 0 {
                    Some(remaining_p as u64)
                } else {
                    None
                };
                // Begin clearing the voter store, releasing collateral.
                let n_v = self.voters.len();
                let limit_v = self.config.max_voters_per_session as usize;
                let k_v = if limit_v <= n_v {
                    limit_v
                } else {
                    n_v
                };
                let drained = self.voters.drain_front(k_v);
                release_voters(ledger, &drained);
                let remaining_v = n_v - k_v;
                self.leftover_voter_cursor = if remaining_v > 0 {
                    Some(remaining_v as u64)
                } else {
                    None
                };
                proof {
                    let sv = self.voters@;
                    let ov = old(self).voters@;
                    assert forall|x: int| 0 <= x < sv.len() implies (#[trigger] sv[x]).1.wf(
                        self.config.max_proposals as int,
                        self.config.max_votes_per_account as int,
                    ) by {
                        assert(sv[x] == ov[x + k_v]);
                    }
                    assert(self.events@.take(old(self).spec_events().len() as int)
                        =~= old(self).spec_events());
                    if old(self).spec_proposals().len() == 0 {
                        assert(self.events@ =~= old(self).spec_events().push(
                            Event::VotingPeriodEnded { block: now },
                        ));
                    }
                }
            }
        } else {
            // No boundary: advance whatever cleanup is pending. The
            // proposal store never leaves a token behind (see above), so
            // only the voter store can have one.
            match self.leftover_proposal_cursor {
                Some(_) => {
                    proof {
                        assert(false);
                    }
                },
                None => (),
            }
            match self.leftover_voter_cursor {
                Some(pending) => {
                    let n_v = self.voters.len();
                    proof {
                        assert(pending <= n_v);
                    }
                    let pending_now = pending as usize;
                    let limit_v = self.config.max_voters_per_session as usize;
                    let k = if limit_v <= pending_now {
                        limit_v
                    } else {
                        pending_now
                    };
                    let drained = self.voters.drain_front(k);
                    release_voters(ledger, &drained);
                    let remaining = pending_now - k;
                    self.leftover_voter_cursor = if remaining > 0 {
                        Some(remaining as u64)
                    } else {
                        None
                    };
                    proof {
                        let sv = self.voters@;
                        let ov = old(self).voters@;
                        assert forall|x: int| 0 <= x < sv.len() implies (#[trigger] sv[x]).1.wf(
                            self.config.max_proposals as int,
                            self.config.max_votes_per_account as int,
                        ) by {
                            assert(sv[x] == ov[x + k]);
                        }
                    }
                },
                None => (),
            }
        }
    }
}

} // verus!
