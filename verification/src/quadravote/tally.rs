//! Winner tallying: the pure filter run over the round's proposal record
//! when a voting window closes. A proposal wins when it has strictly more
//! votes for than against; ties lose. Order is preserved. Winners are only
//! announced in an event, never stored: the notification is the round's
//! sole output, and the tallied records are discarded with the round.

use vstd::prelude::*;

use crate::quadravote::proposals::VotingProposal;

verus! {

pub open spec fn is_winner(p: VotingProposal) -> bool {
    p.votes_for > p.votes_against
}

/// The winners among `s`, in the order they stand in `s`.
pub open spec fn winners_of(s: Seq<VotingProposal>) -> Seq<VotingProposal>
    decreases s.len(),
{
    if s.len() == 0 {
        Seq::empty()
    } else {
        let rest = winners_of(s.drop_last());
        if is_winner(s.last()) {
            rest.push(s.last())
        } else {
            rest
        }
    }
}

pub fn winning_proposals(proposals: &Vec<VotingProposal>) -> (w: Vec<VotingProposal>)
    ensures
        w@ == winners_of(proposals@),
{
    let n = proposals.len();
    let mut w: Vec<VotingProposal> = Vec::new();
    let mut i: usize = 0;
    while i < n
        invariant
            i <= n,
            n == proposals@.len(),
            w@ == winners_of(proposals@.take(i as int)),
        decreases n - i,
    {
        let p = proposals[i];
        proof {
            assert(proposals@.take(i + 1).drop_last() =~= proposals@.take(i as int));
            assert(proposals@.take(i + 1).last() == proposals@[i as int]);
        }
        if p.votes_for > p.votes_against {
            w.push(p);
        }
        i = i + 1;
    }
    proof {
        assert(proposals@.take(n as int) =~= proposals@);
    }
    w
}

} // verus!
