//! The quorum rule and the vote tally.
use vstd::prelude::*;

verus! {

/// Number of votes needed for a binding decision among `n` eligible voters:
/// the smallest strict majority.
pub open spec fn vote_target(n: nat) -> nat {
    n / 2 + 1
}

/// Whether `quorum` votes cast reach the target among `max` eligible voters.
pub fn consensus(max: u64, quorum: u64) -> (r: bool)
    ensures
        r == (quorum as nat >= vote_target(max as nat)),
{
    let target: u64 = max / 2 + 1;
    quorum >= target
}

/// The target is the least strict majority: it exceeds half of the voters,
/// and one vote fewer does not.
pub proof fn lemma_target_is_least_strict_majority(n: nat)
    ensures
        2 * vote_target(n) > n,
        2 * (vote_target(n) - 1) <= n,
{
}

/// Approve and reject counts of one proposal in its current voting round.
pub struct ProposalVote {
    pub approve: u64,
    pub reject: u64,
}

impl ProposalVote {
    /// More approvals than rejections.
    pub fn is_approve(&self) -> (r: bool)
        ensures
            r == (self.approve > self.reject),
    {
        self.approve > self.reject
    }

    /// As many approvals as rejections.
    pub fn is_parte(&self) -> (r: bool)
        ensures
            r == (self.approve == self.reject),
    {
        self.approve == self.reject
    }

    /// More rejections than approvals.
    pub fn is_reject(&self) -> (r: bool)
        ensures
            r == (self.approve < self.reject),
    {
        self.approve < self.reject
    }
}

} // verus!
