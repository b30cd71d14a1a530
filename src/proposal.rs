//! Proposals: their records and how a vote moves one along.
use vstd::prelude::*;
use crate::consensus::{consensus, vote_target, ProposalVote};
use crate::error::SocietyError;

verus! {

/// Longest title, in characters.
pub const MAX_TITLE_LEN: usize = 170;

/// Longest description, in characters.
pub const MAX_DESCRIPTION_LEN: usize = 1000;

#[derive(PartialEq, Eq, Structural, Clone, Copy, Debug)]
pub enum ProposalKind {
    /// The author asks to be admitted.
    MemberRequest,
    /// The author asks for a payout from the treasury.
    FundRequest,
}

#[derive(PartialEq, Eq, Structural, Clone, Copy, Debug)]
pub enum ProposalStatus {
    /// Reset after a tie among all voters; the author may resubmit.
    Draft,
    /// Open for votes.
    Vote,
    Accepted,
    Rejected,
}

/// A proposal as the society stores it.
pub struct ProposalState {
    /// When the proposal was created or last resubmitted.
    pub timestamp: u64,
    pub title: String,
    pub kind: ProposalKind,
    pub status: ProposalStatus,
    pub description: String,
    /// The script of a fund request.
    pub script: Option<String>,
    pub author: String,
    pub vote: ProposalVote,
    /// The amount that a fund request asks for; zero for a member request.
    pub fund: u128,
}

/// A proposal as the society lists it, with its id.
pub struct Proposal {
    pub id: u64,
    pub timestamp: u64,
    pub title: String,
    pub kind: ProposalKind,
    pub status: ProposalStatus,
    pub description: String,
    pub script: Option<String>,
    pub author: String,
    pub vote: ProposalVote,
}

/// Whether a proposal is still open: being voted on, or reset to a draft.
pub open spec fn is_open(status: ProposalStatus) -> bool {
    status == ProposalStatus::Vote || status == ProposalStatus::Draft
}

/// What a proposal holds back from the treasury: the requested amount while
/// a fund request is being voted on, nothing otherwise.
pub open spec fn reservation(p: ProposalState) -> nat {
    if p.kind == ProposalKind::FundRequest && p.status == ProposalStatus::Vote {
        p.fund as nat
    } else {
        0
    }
}

/// What all the given proposals hold back from the treasury.
pub open spec fn reserved_sum(ps: Seq<ProposalState>) -> nat
    decreases ps.len(),
{
    if ps.len() == 0 {
        0
    } else {
        reserved_sum(ps.drop_last()) + reservation(ps.last())
    }
}

pub proof fn lemma_reserved_sum_push(ps: Seq<ProposalState>, p: ProposalState)
    ensures
        reserved_sum(ps.push(p)) == reserved_sum(ps) + reservation(p),
{
    assert(ps.push(p).drop_last() =~= ps);
}

pub proof fn lemma_reserved_sum_update(ps: Seq<ProposalState>, j: int, p: ProposalState)
    requires
        0 <= j < ps.len(),
    ensures
        reserved_sum(ps.update(j, p)) + reservation(ps[j]) == reserved_sum(ps) + reservation(p),
    decreases ps.len(),
{
    if j == ps.len() - 1 {
        assert(ps.update(j, p).drop_last() =~= ps.drop_last());
    } else {
        assert(ps.update(j, p).drop_last() =~= ps.drop_last().update(j, p));
        lemma_reserved_sum_update(ps.drop_last(), j, p);
    }
}

/// The text of an optional field; an absent one is empty.
pub open spec fn opt_text(o: Option<String>) -> Seq<char> {
    match o {
        Some(t) => t@,
        None => Seq::empty(),
    }
}

pub open spec fn fields_fit(title: Seq<char>, description: Seq<char>) -> bool {
    title.len() <= MAX_TITLE_LEN && description.len() <= MAX_DESCRIPTION_LEN
}

fn text_or_empty(o: Option<String>) -> (r: String)
    ensures
        r@ == opt_text(o),
{
    match o {
        Some(t) => t,
        None => String::new(),
    }
}

impl ProposalState {
    pub open spec fn quorum_spec(self) -> nat {
        (self.vote.approve + self.vote.reject) as nat
    }

    /// The proposal with one more vote, for or against.
    pub open spec fn tallied(self, resolve: bool) -> ProposalState {
        if resolve {
            ProposalState {
                vote: ProposalVote { approve: (self.vote.approve + 1) as u64, ..self.vote },
                ..self
            }
        } else {
            ProposalState {
                vote: ProposalVote { reject: (self.vote.reject + 1) as u64, ..self.vote },
                ..self
            }
        }
    }

    /// The proposal after its tally is weighed against `total` eligible voters.
    pub open spec fn decided(self, total: nat) -> ProposalState {
        if self.quorum_spec() < vote_target(total) {
            self
        } else if self.vote.approve > self.vote.reject {
            ProposalState { status: ProposalStatus::Accepted, ..self }
        } else if self.vote.approve < self.vote.reject {
            ProposalState { status: ProposalStatus::Rejected, ..self }
        } else if self.quorum_spec() == total {
            ProposalState {
                status: ProposalStatus::Draft,
                vote: ProposalVote { approve: 0, reject: 0 },
                ..self
            }
        } else {
            self
        }
    }

    /// A new proposal, open for votes with an empty tally; absent texts are empty.
    pub fn new(
        title: Option<String>,
        description: Option<String>,
        author: String,
        kind: ProposalKind,
        status: ProposalStatus,
        script: Option<String>,
        fund: u128,
        timestamp: u64,
    ) -> (r: Result<Self, SocietyError>)
        ensures
            match r {
                Ok(p) => {
                    &&& fields_fit(opt_text(title), opt_text(description))
                    &&& p.title@ == opt_text(title)
                    &&& p.description@ == opt_text(description)
                    &&& p.author == author
                    &&& p.kind == kind
                    &&& p.status == status
                    &&& p.script == script
                    &&& p.fund == fund
                    &&& p.timestamp == timestamp
                    &&& p.vote == (ProposalVote { approve: 0, reject: 0 })
                },
                Err(e) => {
                    &&& e == SocietyError::FieldTooLong
                    &&& !fields_fit(opt_text(title), opt_text(description))
                },
            },
    {
        let title = text_or_empty(title);
        if title.as_str().unicode_len() > MAX_TITLE_LEN {
            return Err(SocietyError::FieldTooLong);
        }
        let description = text_or_empty(description);
        if description.as_str().unicode_len() > MAX_DESCRIPTION_LEN {
            return Err(SocietyError::FieldTooLong);
        }
        Ok(ProposalState {
            timestamp,
            title,
            kind,
            status,
            description,
            script,
            author,
            vote: ProposalVote { approve: 0, reject: 0 },
            fund,
        })
    }

    /// A copy of the proposal.
    pub fn snapshot(&self) -> (r: ProposalState)
        ensures
            r == *self,
    {
        let script = match &self.script {
            Some(t) => Some(t.clone()),
            None => None,
        };
        ProposalState {
            timestamp: self.timestamp,
            title: self.title.clone(),
            kind: self.kind,
            status: self.status,
            description: self.description.clone(),
            script,
            author: self.author.clone(),
            vote: ProposalVote { approve: self.vote.approve, reject: self.vote.reject },
            fund: self.fund,
        }
    }

    pub fn is_draft(&self) -> (r: bool)
        ensures
            r == (self.status == ProposalStatus::Draft),
    {
        self.status == ProposalStatus::Draft
    }

    pub fn is_accepted(&self) -> (r: bool)
        ensures
            r == (self.status == ProposalStatus::Accepted),
    {
        self.status == ProposalStatus::Accepted
    }

    /// Counts one vote, then weighs the tally against `max` eligible voters.
    pub fn vote(&mut self, resolve: bool, max: u64)
        requires
            old(self).quorum_spec() < u64::MAX,
        ensures
            *final(self) == old(self).tallied(resolve).decided(max as nat),
    {
        if resolve {
            self.vote.approve = self.vote.approve + 1;
        } else {
            self.vote.reject = self.vote.reject + 1;
        }
        self.calc(max);
    }

    /// Weighs the tally against `total` eligible voters: accepts or rejects on
    /// a majority that reaches the target, and resets to a fresh draft round
    /// on a tie among all of them.
    pub fn calc(&mut self, total: u64)
        requires
            old(self).quorum_spec() <= u64::MAX,
        ensures
            *final(self) == old(self).decided(total as nat),
    {
        if !self.consensus(total) {
            return;
        }
        if self.vote.is_approve() {
            self.status = ProposalStatus::Accepted;
        } else if self.vote.is_reject() {
            self.status = ProposalStatus::Rejected;
        } else if self.quorum() == total {
            self.status = ProposalStatus::Draft;
            self.vote.reject = 0;
            self.vote.approve = 0;
        }
    }

    /// Whether the votes cast reach the target among `max` eligible voters.
    pub fn consensus(&self, max: u64) -> (r: bool)
        requires
            self.quorum_spec() <= u64::MAX,
        ensures
            r == (self.quorum_spec() >= vote_target(max as nat)),
    {
        consensus(max, self.quorum())
    }

    /// Votes cast in the current round.
    pub fn quorum(&self) -> (r: u64)
        requires
            self.quorum_spec() <= u64::MAX,
        ensures
            r == self.quorum_spec(),
    {
        self.vote.approve + self.vote.reject
    }
}

} // verus!
