//! The society: its members, its proposals, the voters of each proposal's
//! current round, and what open fund requests hold back from the treasury.
use vstd::prelude::*;
use vstd::set_lib::lemma_len_subset;
use crate::consensus::vote_target;
use crate::treasury::surplus;
use crate::error::SocietyError;
use crate::proposal::{
    fields_fit, is_open, lemma_reserved_sum_push, lemma_reserved_sum_update, opt_text,
    reservation, reserved_sum, Proposal, ProposalKind, ProposalState, ProposalStatus,
};
use crate::script::{requested_fund, script_fund};
use crate::treasury::{spendable, spendable_balance, HostAccount};

verus! {

/// How long, in nanoseconds, a proposal stays locked against resubmission: ten minutes.
pub const TIME_LOCK: u64 = 600_000_000_000;

/// Page size where none is given.
pub const DEFAULT_PAGE: u64 = 100;

/// The identities that a list of strings holds.
pub open spec fn ids(v: Seq<String>) -> Seq<Seq<char>> {
    v.map_values(|s: String| s@)
}

/// The page size that a request asks for.
pub open spec fn page_limit(limit: Option<u64>) -> nat {
    match limit {
        Some(l) => l as nat,
        None => DEFAULT_PAGE as nat,
    }
}

/// Where a requested page starts.
pub open spec fn page_start(offset: Option<u64>) -> nat {
    match offset {
        Some(o) => o as nat,
        None => 0,
    }
}

/// Where a page of `limit` items from `start` ends, among `total` items.
pub open spec fn page_end(start: nat, limit: nat, total: nat) -> nat {
    if start + limit < total {
        start + limit
    } else {
        total
    }
}

/// `p` lists proposal `s` under the id `id`.
pub open spec fn lists(p: Proposal, id: int, s: ProposalState) -> bool {
    &&& p.id == id
    &&& p.timestamp == s.timestamp
    &&& p.title == s.title
    &&& p.kind == s.kind
    &&& p.status == s.status
    &&& p.description == s.description
    &&& p.script == s.script
    &&& p.author == s.author
    &&& p.vote == s.vote
}

/// A payout that an accepted fund request orders.
pub struct Transfer {
    pub receiver: String,
    pub amount: u128,
}

/// `p` is a proposal just filed by `author`: open for votes, empty tally.
pub open spec fn fresh(
    p: ProposalState,
    author: Seq<char>,
    kind: ProposalKind,
    title: Seq<char>,
    description: Seq<char>,
    script: Option<String>,
    fund: u128,
    now: u64,
) -> bool {
    &&& p.author@ == author
    &&& p.kind == kind
    &&& p.status == ProposalStatus::Vote
    &&& p.title@ == title
    &&& p.description@ == description
    &&& p.script == script
    &&& p.fund == fund
    &&& p.timestamp == now
    &&& p.vote.approve == 0
    &&& p.vote.reject == 0
}

/// The society's whole state. Each collection is held in memory: keeping it
/// in the host's key-value storage is the host's business (every operation on
/// a storage-backed collection reads or writes storage), done outside the
/// library on the parts that `into_parts` gives and `restore` takes.
pub struct Society {
    member_list: Vec<String>,
    proposal_list: Vec<ProposalState>,
    vote_list: Vec<Vec<String>>,
    fund_proposal: u128,
}

proof fn lemma_ids_push(v: Seq<String>, x: String)
    ensures
        ids(v.push(x)) == ids(v).push(x@),
        ids(v).len() == v.len(),
{
    assert(ids(v.push(x)) =~= ids(v).push(x@));
}

fn contains_id(v: &Vec<String>, a: &String) -> (r: bool)
    ensures
        r == ids(v@).contains(a@),
{
    let mut i: usize = 0;
    while i < v.len()
        invariant
            i <= v@.len(),
            forall|k: int| 0 <= k < i ==> ids(v@)[k] != a@,
        decreases v@.len() - i,
    {
        if v[i] == *a {
            assert(ids(v@)[i as int] == a@);
            return true;
        }
        i = i + 1;
    }
    false
}

fn distinct_ids(v: &Vec<String>) -> (r: bool)
    ensures
        r == ids(v@).no_duplicates(),
{
    let mut i: usize = 0;
    while i < v.len()
        invariant
            i <= v@.len(),
            forall|a: int, b: int| 0 <= a < i && 0 <= b < i && a != b ==> ids(v@)[a] != ids(v@)[b],
        decreases v@.len() - i,
    {
        let mut j: usize = 0;
        while j < i
            invariant
                j <= i < v@.len(),
                forall|b: int| 0 <= b < j ==> ids(v@)[b] != ids(v@)[i as int],
            decreases i - j,
        {
            if v[j] == v[i] {
                assert(ids(v@)[j as int] == ids(v@)[i as int]);
                return false;
            }
            j = j + 1;
        }
        i = i + 1;
    }
    true
}

fn all_among(v: &Vec<String>, members: &Vec<String>) -> (r: bool)
    ensures
        r == forall|k: int| 0 <= k < v@.len() ==> ids(members@).contains(#[trigger] ids(v@)[k]),
{
    let mut i: usize = 0;
    while i < v.len()
        invariant
            i <= v@.len(),
            forall|k: int| 0 <= k < i ==> ids(members@).contains(#[trigger] ids(v@)[k]),
        decreases v@.len() - i,
    {
        if !contains_id(members, &v[i]) {
            assert(!ids(members@).contains(ids(v@)[i as int]));
            return false;
        }
        i = i + 1;
    }
    true
}

proof fn lemma_reserved_sum_prefix(ps: Seq<ProposalState>, i: int)
    requires
        0 <= i <= ps.len(),
    ensures
        reserved_sum(ps.subrange(0, i)) <= reserved_sum(ps),
    decreases ps.len(),
{
    if i < ps.len() {
        assert(ps.subrange(0, i) =~= ps.drop_last().subrange(0, i));
        lemma_reserved_sum_prefix(ps.drop_last(), i);
    } else {
        assert(ps.subrange(0, i) =~= ps);
    }
}

impl Society {
    /// The members, in order of admission.
    pub closed spec fn members(&self) -> Seq<Seq<char>> {
        ids(self.member_list@)
    }

    /// The proposals, by id.
    pub closed spec fn proposals(&self) -> Seq<ProposalState> {
        self.proposal_list@
    }

    /// Who has voted in the current round of proposal `id`.
    pub closed spec fn voters(&self, id: int) -> Seq<Seq<char>> {
        ids(self.vote_list@[id]@)
    }

    /// What open fund requests hold back from the treasury.
    pub closed spec fn reserved(&self) -> nat {
        self.fund_proposal as nat
    }

    /// Proposal `j` is open and by `author`.
    pub open spec fn open_by(&self, j: int, author: Seq<char>) -> bool {
        &&& 0 <= j < self.proposals().len()
        &&& self.proposals()[j].author@ == author
        &&& is_open(self.proposals()[j].status)
    }

    /// The open proposal of `author`, if there is one.
    pub open spec fn open_slot(&self, author: Seq<char>) -> Option<int> {
        if exists|j: int| self.open_by(j, author) {
            Some(choose|j: int| self.open_by(j, author))
        } else {
            None
        }
    }

    /// Where a new proposal by `author` goes: in place of the author's open
    /// proposal, or after the last one.
    pub open spec fn slot_for(&self, author: Seq<char>) -> int {
        match self.open_slot(author) {
            Some(j) => j,
            None => self.proposals().len() as int,
        }
    }

    /// Why `author` may not file a proposal at time `now`, as far as the
    /// author's open proposal is concerned: it is locked, or being voted on.
    pub open spec fn resubmit_check(&self, author: Seq<char>, now: u64) -> Option<SocietyError> {
        match self.open_slot(author) {
            Some(j) => if (now as int) < self.proposals()[j].timestamp + TIME_LOCK {
                Some(SocietyError::ProposalLocked)
            } else if self.proposals()[j].status != ProposalStatus::Draft {
                Some(SocietyError::NotInDraft)
            } else {
                None
            },
            None => None,
        }
    }

    /// Why a member request by `author` is refused, if it is.
    pub open spec fn member_request_check(
        &self,
        author: Seq<char>,
        now: u64,
        title: Seq<char>,
        description: Seq<char>,
    ) -> Option<SocietyError> {
        if self.members().contains(author) {
            Some(SocietyError::AlreadyMember)
        } else if self.resubmit_check(author, now) is Some {
            self.resubmit_check(author, now)
        } else if !fields_fit(title, description) {
            Some(SocietyError::FieldTooLong)
        } else {
            None
        }
    }

    /// Why a request by `author` for `fund` is refused, if it is.
    pub open spec fn fund_request_check(
        &self,
        author: Seq<char>,
        now: u64,
        host: HostAccount,
        title: Seq<char>,
        description: Seq<char>,
        fund: u128,
    ) -> Option<SocietyError> {
        if !self.members().contains(author) {
            Some(SocietyError::NotAMember)
        } else if fund as nat >= spendable(host, self.reserved()) {
            Some(SocietyError::InsufficientFunds)
        } else if self.resubmit_check(author, now) is Some {
            self.resubmit_check(author, now)
        } else if !fields_fit(title, description) {
            Some(SocietyError::FieldTooLong)
        } else {
            None
        }
    }

    /// `new` is `old` with proposal `p` filed under id `id`.
    pub open spec fn filed(old: &Society, new: &Society, id: int, p: ProposalState) -> bool {
        &&& id == old.slot_for(p.author@)
        &&& new.proposals() == (if id < old.proposals().len() {
            old.proposals().update(id, p)
        } else {
            old.proposals().push(p)
        })
        &&& new.members() == old.members()
        &&& new.voters(id) == Seq::<Seq<char>>::empty()
        &&& forall|i: int| 0 <= i < old.proposals().len() && i != id ==> new.voters(i) == old.voters(i)
        &&& new.reserved() == old.reserved() + reservation(p)
    }

    /// Why `voter`'s vote on proposal `id` is refused, if it is.
    pub open spec fn vote_check(&self, id: u64, voter: Seq<char>) -> Option<SocietyError> {
        if !self.members().contains(voter) {
            Some(SocietyError::NotAMember)
        } else if id >= self.proposals().len() {
            Some(SocietyError::ProposalNotFound)
        } else if self.proposals()[id as int].status != ProposalStatus::Vote {
            Some(SocietyError::ProposalClosed)
        } else if self.voters(id as int).contains(voter) {
            Some(SocietyError::AlreadyVoted)
        } else {
            None
        }
    }

    /// Proposal `id` once `voter`'s vote is counted among the members.
    pub open spec fn after_vote(&self, id: u64, resolve: bool) -> ProposalState {
        self.proposals()[id as int].tallied(resolve).decided(self.members().len())
    }

    /// `new` is `old` once `voter`'s vote on proposal `id` is counted: the
    /// proposal is weighed, the voter recorded (or the round restarted on a
    /// draft reset), an accepted member request admits its author, and a fund
    /// request that is no longer voted on gives its reservation back.
    pub open spec fn voted(old: &Society, new: &Society, id: u64, voter: Seq<char>, resolve: bool) -> bool {
        let p = old.proposals()[id as int];
        let q = old.after_vote(id, resolve);
        &&& new.proposals() == old.proposals().update(id as int, q)
        &&& new.voters(id as int) == (if q.status == ProposalStatus::Draft {
            Seq::<Seq<char>>::empty()
        } else {
            old.voters(id as int).push(voter)
        })
        &&& forall|i: int|
            0 <= i < old.proposals().len() && i != id ==> #[trigger] new.voters(i) == old.voters(i)
        &&& new.members() == (if q.status == ProposalStatus::Accepted && q.kind
            == ProposalKind::MemberRequest {
            old.members().push(p.author@)
        } else {
            old.members()
        })
        &&& new.reserved() == (if p.kind == ProposalKind::FundRequest && q.status
            != ProposalStatus::Vote {
            (old.reserved() - p.fund) as nat
        } else {
            old.reserved()
        })
    }

    /// The payout that a vote orders: the requested amount to the author of a
    /// fund request that the vote accepts.
    pub open spec fn payout(&self, id: u64, resolve: bool, t: Option<Transfer>) -> bool {
        let p = self.proposals()[id as int];
        let q = self.after_vote(id, resolve);
        if q.status == ProposalStatus::Accepted && q.kind == ProposalKind::FundRequest {
            t matches Some(x) && x.receiver == p.author && x.amount == p.fund
        } else {
            t is None
        }
    }

    /// The invariant of a society.
    pub closed spec fn wf(&self) -> bool {
        &&& self.vote_list@.len() == self.proposal_list@.len()
        &&& self.members().no_duplicates()
        &&& forall|i: int| 0 <= i < self.proposals().len() ==> (#[trigger] self.voters(i)).no_duplicates()
        &&& forall|i: int| 0 <= i < self.proposals().len()
            ==> (#[trigger] self.voters(i)).len() == self.proposals()[i].quorum_spec()
        &&& forall|i: int, k: int| 0 <= i < self.proposals().len() && 0 <= k < self.voters(i).len()
            ==> self.members().contains(#[trigger] self.voters(i)[k])
        &&& forall|i: int, j: int|
            #![trigger self.proposals()[i], self.proposals()[j]]
            0 <= i < self.proposals().len() && 0 <= j < self.proposals().len()
            && is_open(self.proposals()[i].status) && is_open(self.proposals()[j].status)
            && self.proposals()[i].author@ == self.proposals()[j].author@ ==> i == j
        &&& forall|i: int| 0 <= i < self.proposals().len()
            && is_open((#[trigger] self.proposals()[i]).status)
            && self.proposals()[i].kind == ProposalKind::MemberRequest
            ==> !self.members().contains(self.proposals()[i].author@)
        &&& self.fund_proposal as nat == reserved_sum(self.proposals())
    }

    proof fn lemma_open_slot(&self, author: Seq<char>, j: int)
        requires
            self.wf(),
            self.open_by(j, author),
        ensures
            self.open_slot(author) == Some(j),
    {
        let c = choose|c: int| self.open_by(c, author);
        assert(self.proposals()[c] == self.proposals()[c]);
        assert(self.proposals()[j] == self.proposals()[j]);
    }

    proof fn lemma_no_open_slot(&self, author: Seq<char>, j: int)
        requires
            self.open_slot(author) is None,
            0 <= j < self.proposals().len(),
            self.proposals()[j].author@ == author,
        ensures
            !is_open(self.proposals()[j].status),
    {
        if is_open(self.proposals()[j].status) {
            assert(self.open_by(j, author));
        }
    }

    /// The open proposal of `author`.
    fn find_open(&self, author: &String) -> (r: Option<usize>)
        requires
            self.wf(),
        ensures
            match r {
                Some(j) => self.open_slot(author@) == Some(j as int),
                None => self.open_slot(author@) is None,
            },
    {
        let mut i: usize = 0;
        while i < self.proposal_list.len()
            invariant
                self.wf(),
                i <= self.proposals().len(),
                forall|k: int| 0 <= k < i ==> !self.open_by(k, author@),
            decreases self.proposals().len() - i,
        {
            let p = &self.proposal_list[i];
            if p.author == *author && (p.status == ProposalStatus::Vote || p.status
                == ProposalStatus::Draft) {
                proof {
                    self.lemma_open_slot(author@, i as int);
                }
                return Some(i);
            }
            i = i + 1;
        }
        assert(!exists|j: int| self.open_by(j, author@));
        None
    }

    /// Files a new proposal, or resubmits the author's draft in its place.
    fn add_proposal(
        &mut self,
        author: String,
        kind: ProposalKind,
        title: Option<String>,
        description: Option<String>,
        script: Option<String>,
        fund: u128,
        now: u64,
    ) -> (r: Result<u64, SocietyError>)
        requires
            old(self).wf(),
            kind == ProposalKind::MemberRequest ==> !old(self).members().contains(author@),
            kind == ProposalKind::MemberRequest ==> fund == 0,
            kind == ProposalKind::FundRequest ==> old(self).reserved() + fund <= u128::MAX,
        ensures
            final(self).wf(),
            match r {
                Ok(id) => {
                    &&& old(self).resubmit_check(author@, now) is None
                    &&& fields_fit(opt_text(title), opt_text(description))
                    &&& Society::filed(old(self), final(self), id as int, final(self).proposals()[id as int])
                    &&& fresh(
                        final(self).proposals()[id as int],
                        author@,
                        kind,
                        opt_text(title),
                        opt_text(description),
                        script,
                        fund,
                        now,
                    )
                },
                Err(e) => {
                    &&& *final(self) == *old(self)
                    &&& Some(e) == (if old(self).resubmit_check(author@, now) is Some {
                        old(self).resubmit_check(author@, now)
                    } else {
                        Some(SocietyError::FieldTooLong)
                    })
                    &&& (old(self).resubmit_check(author@, now) is None ==> !fields_fit(
                        opt_text(title),
                        opt_text(description),
                    ))
                },
            },
    {
        let slot = self.find_open(&author);
        if let Some(j) = slot {
            let p = &self.proposal_list[j];
            if (now as u128) < p.timestamp as u128 + TIME_LOCK as u128 {
                return Err(SocietyError::ProposalLocked);
            }
            if p.status != ProposalStatus::Draft {
                return Err(SocietyError::NotInDraft);
            }
        }
        let proposal = match ProposalState::new(
            title,
            description,
            author,
            kind,
            ProposalStatus::Vote,
            script,
            fund,
            now,
        ) {
            Ok(p) => p,
            Err(e) => return Err(e),
        };
        let ghost old_self = *self;
        let ghost p = proposal;
        match slot {
            Some(j) => {
                self.proposal_list.set(j, proposal);
                self.vote_list.set(j, Vec::new());
                self.fund_proposal = self.fund_proposal + if kind == ProposalKind::FundRequest {
                    fund
                } else {
                    0
                };
                proof {
                    assert(self.voters(j as int) =~= Seq::<Seq<char>>::empty());
                    assert forall|i: int| 0 <= i < old_self.proposals().len() && i != j implies self.voters(i) == old_self.voters(i) by {}
                    self.lemma_filed_keeps_wf(&old_self, j as int, p);
                }
                Ok(j as u64)
            },
            None => {
                let id = self.proposal_list.len();
                self.proposal_list.push(proposal);
                self.vote_list.push(Vec::new());
                self.fund_proposal = self.fund_proposal + if kind == ProposalKind::FundRequest {
                    fund
                } else {
                    0
                };
                proof {
                    assert(self.voters(id as int) =~= Seq::<Seq<char>>::empty());
                    assert forall|i: int| 0 <= i < old_self.proposals().len() && i != id implies self.voters(i) == old_self.voters(i) by {}
                    self.lemma_filed_keeps_wf(&old_self, id as int, p);
                }
                Ok(id as u64)
            },
        }
    }

    /// `signer` votes for proposal `proposal_id`. Returns the payout that the
    /// vote orders, if any.
    pub fn vote_approve(&mut self, signer: String, proposal_id: u64) -> (r: Result<
        Option<Transfer>,
        SocietyError,
    >)
        requires
            old(self).wf(),
        ensures
            final(self).wf(),
            match r {
                Ok(t) => {
                    &&& old(self).vote_check(proposal_id, signer@) is None
                    &&& Society::voted(old(self), final(self), proposal_id, signer@, true)
                    &&& old(self).payout(proposal_id, true, t)
                },
                Err(e) => {
                    &&& Some(e) == old(self).vote_check(proposal_id, signer@)
                    &&& *final(self) == *old(self)
                },
            },
    {
        self.vote(signer, proposal_id, true)
    }

    /// `signer` votes against proposal `proposal_id`.
    pub fn vote_reject(&mut self, signer: String, proposal_id: u64) -> (r: Result<
        Option<Transfer>,
        SocietyError,
    >)
        requires
            old(self).wf(),
        ensures
            final(self).wf(),
            match r {
                Ok(t) => {
                    &&& old(self).vote_check(proposal_id, signer@) is None
                    &&& Society::voted(old(self), final(self), proposal_id, signer@, false)
                    &&& old(self).payout(proposal_id, false, t)
                },
                Err(e) => {
                    &&& Some(e) == old(self).vote_check(proposal_id, signer@)
                    &&& *final(self) == *old(self)
                },
            },
    {
        self.vote(signer, proposal_id, false)
    }

    /// `signer` votes on proposal `proposal_id`: for it where `resolve`
    /// holds, against it otherwise. Returns the payout that the vote orders.
    pub fn vote(&mut self, signer: String, proposal_id: u64, resolve: bool) -> (r: Result<
        Option<Transfer>,
        SocietyError,
    >)
        requires
            old(self).wf(),
        ensures
            final(self).wf(),
            match r {
                Ok(t) => {
                    &&& old(self).vote_check(proposal_id, signer@) is None
                    &&& Society::voted(old(self), final(self), proposal_id, signer@, resolve)
                    &&& old(self).payout(proposal_id, resolve, t)
                },
                Err(e) => {
                    &&& Some(e) == old(self).vote_check(proposal_id, signer@)
                    &&& *final(self) == *old(self)
                },
            },
    {
        if !contains_id(&self.member_list, &signer) {
            return Err(SocietyError::NotAMember);
        }
        if proposal_id >= self.proposal_list.len() as u64 {
            return Err(SocietyError::ProposalNotFound);
        }
        let idx = proposal_id as usize;
        if self.proposal_list[idx].status != ProposalStatus::Vote {
            return Err(SocietyError::ProposalClosed);
        }
        if contains_id(&self.vote_list[idx], &signer) {
            return Err(SocietyError::AlreadyVoted);
        }
        let ghost old_self = *self;
        proof {
            self.lemma_room_for_vote(idx as int, signer@);
        }
        let total = self.vote_total();
        let mut proposal = self.proposal_list[idx].snapshot();
        proposal.vote(resolve, total);
        let draft = proposal.is_draft();
        let accepted = proposal.is_accepted();
        let kind = proposal.kind;
        let status = proposal.status;
        let fund = proposal.fund;
        let author = proposal.author.clone();
        let ghost q = proposal;
        self.proposal_list.set(idx, proposal);
        assert(q == old_self.after_vote(proposal_id, resolve));
        assert(self.proposals() == old_self.proposals().update(idx as int, q));
        let ghost old_voters = self.vote_list@[idx as int]@;
        if draft {
            self.vote_list.set(idx, Vec::new());
            assert(self.voters(idx as int) =~= Seq::<Seq<char>>::empty());
        } else {
            let ghost signer_view = signer@;
            self.vote_list[idx].push(signer);
            proof {
                assert(self.vote_list@[idx as int]@ == old_voters.push(signer));
                lemma_ids_push(old_voters, signer);
                assert(self.voters(idx as int) == old_self.voters(idx as int).push(signer_view));
            }
        }
        assert forall|i: int| 0 <= i < old_self.proposals().len() && i != proposal_id implies #[trigger] self.voters(i) == old_self.voters(i) by {
            assert(self.vote_list@[i] == old_self.vote_list@[i]);
        }
        if kind == ProposalKind::FundRequest && status != ProposalStatus::Vote {
            proof {
                lemma_reserved_sum_update(old_self.proposals(), idx as int, q);
            }
            self.fund_proposal = self.fund_proposal - fund;
        }
        let mut transfer: Option<Transfer> = None;
        if accepted {
            if kind == ProposalKind::MemberRequest {
                proof {
                    lemma_ids_push(self.member_list@, author);
                }
                self.member_list.push(author);
            } else {
                transfer = Some(Transfer { receiver: author, amount: fund });
            }
        }
        proof {
            self.lemma_voted_keeps_wf(&old_self, proposal_id, signer@, resolve);
        }
        Ok(transfer)
    }

    /// `signer` asks to be admitted. Returns the proposal's id: a new one, or
    /// that of the signer's draft, which the request replaces.
    pub fn add_member_proposal(
        &mut self,
        signer: String,
        now: u64,
        title: Option<String>,
        description: Option<String>,
    ) -> (r: Result<u64, SocietyError>)
        requires
            old(self).wf(),
        ensures
            final(self).wf(),
            match r {
                Ok(id) => {
                    &&& old(self).member_request_check(
                        signer@,
                        now,
                        opt_text(title),
                        opt_text(description),
                    ) is None
                    &&& Society::filed(old(self), final(self), id as int, final(self).proposals()[id as int])
                    &&& fresh(
                        final(self).proposals()[id as int],
                        signer@,
                        ProposalKind::MemberRequest,
                        opt_text(title),
                        opt_text(description),
                        None,
                        0,
                        now,
                    )
                },
                Err(e) => {
                    &&& Some(e) == old(self).member_request_check(
                        signer@,
                        now,
                        opt_text(title),
                        opt_text(description),
                    )
                    &&& *final(self) == *old(self)
                },
            },
    {
        if contains_id(&self.member_list, &signer) {
            return Err(SocietyError::AlreadyMember);
        }
        self.add_proposal(signer, ProposalKind::MemberRequest, title, description, None, 0, now)
    }

    /// `signer`, a member, asks the treasury for what `script` states. Returns
    /// the proposal's id: a new one, or that of the signer's draft, which the
    /// request replaces.
    pub fn add_fund_proposal(
        &mut self,
        signer: String,
        now: u64,
        host: &HostAccount,
        title: String,
        description: String,
        script: String,
    ) -> (r: Result<u64, SocietyError>)
        requires
            old(self).wf(),
        ensures
            final(self).wf(),
            !old(self).members().contains(signer@) ==> r == Err::<u64, SocietyError>(
                SocietyError::NotAMember,
            ),
            old(self).members().contains(signer@) && script_fund(script@) is None ==> r == Err::<
                u64,
                SocietyError,
            >(SocietyError::InvalidScript),
            r is Err ==> *final(self) == *old(self),
            script_fund(script@) matches Some(fund) ==> {
                match r {
                    Ok(id) => {
                        &&& old(self).fund_request_check(
                            signer@,
                            now,
                            *host,
                            title@,
                            description@,
                            fund,
                        ) is None
                        &&& Society::filed(
                            old(self),
                            final(self),
                            id as int,
                            final(self).proposals()[id as int],
                        )
                        &&& fresh(
                            final(self).proposals()[id as int],
                            signer@,
                            ProposalKind::FundRequest,
                            title@,
                            description@,
                            Some(script),
                            fund,
                            now,
                        )
                    },
                    Err(e) => Some(e) == old(self).fund_request_check(
                        signer@,
                        now,
                        *host,
                        title@,
                        description@,
                        fund,
                    ),
                }
            },
    {
        if !contains_id(&self.member_list, &signer) {
            return Err(SocietyError::NotAMember);
        }
        let fund = match requested_fund(script.as_str()) {
            Some(f) => f,
            None => return Err(SocietyError::InvalidScript),
        };
        self.add_fund_proposal_for(signer, now, host, title, description, script, fund)
    }

    /// `signer`, a member, asks the treasury for `fund`, the amount that
    /// `script` states. Returns the proposal's id: a new one, or that of the
    /// signer's draft, which the request replaces.
    pub fn add_fund_proposal_for(
        &mut self,
        signer: String,
        now: u64,
        host: &HostAccount,
        title: String,
        description: String,
        script: String,
        fund: u128,
    ) -> (r: Result<u64, SocietyError>)
        requires
            old(self).wf(),
        ensures
            final(self).wf(),
            match r {
                Ok(id) => {
                    &&& old(self).fund_request_check(
                        signer@,
                        now,
                        *host,
                        title@,
                        description@,
                        fund,
                    ) is None
                    &&& Society::filed(old(self), final(self), id as int, final(self).proposals()[id as int])
                    &&& fresh(
                        final(self).proposals()[id as int],
                        signer@,
                        ProposalKind::FundRequest,
                        title@,
                        description@,
                        Some(script),
                        fund,
                        now,
                    )
                },
                Err(e) => {
                    &&& Some(e) == old(self).fund_request_check(
                        signer@,
                        now,
                        *host,
                        title@,
                        description@,
                        fund,
                    )
                    &&& *final(self) == *old(self)
                },
            },
    {
        if !contains_id(&self.member_list, &signer) {
            return Err(SocietyError::NotAMember);
        }
        let available = spendable_balance(host, self.fund_proposal);
        if fund >= available {
            return Err(SocietyError::InsufficientFunds);
        }
        proof {
            assert(host.storage_byte_cost * host.storage_usage >= 0) by (nonlinear_arith);
        }
        self.add_proposal(
            signer,
            ProposalKind::FundRequest,
            Some(title),
            Some(description),
            Some(script),
            fund,
            now,
        )
    }

    /// A member who has not voted on proposal `id` leaves room for one more
    /// vote: the voters are distinct members other than this one.
    proof fn lemma_room_for_vote(&self, id: int, voter: Seq<char>)
        requires
            self.wf(),
            0 <= id < self.proposals().len(),
            self.members().contains(voter),
            !self.voters(id).contains(voter),
        ensures
            self.voters(id).len() < self.members().len(),
            self.proposals()[id].quorum_spec() < self.members().len(),
    {
        let vs = self.voters(id);
        let ms = self.members();
        vs.unique_seq_to_set();
        ms.lemma_cardinality_of_set();
        let with_voter = vs.to_set().insert(voter);
        assert(with_voter.subset_of(ms.to_set())) by {
            assert forall|x: Seq<char>| with_voter.contains(x) implies ms.to_set().contains(x) by {
                if x != voter {
                    let k = choose|k: int| 0 <= k < vs.len() && vs[k] == x;
                    assert(ms.contains(self.voters(id)[k]));
                }
            }
        }
        lemma_len_subset(with_voter, ms.to_set());
    }

    /// Counting a vote keeps the invariant.
    proof fn lemma_voted_keeps_wf(&self, old: &Society, id: u64, voter: Seq<char>, resolve: bool)
        requires
            old.wf(),
            old.vote_check(id, voter) is None,
            Society::voted(old, self, id, voter, resolve),
            self.vote_list@.len() == self.proposal_list@.len(),
        ensures
            self.wf(),
    {
        let p = old.proposals()[id as int];
        let q = old.after_vote(id, resolve);
        let a = p.author@;
        let n = old.proposals().len();
        lemma_reserved_sum_update(old.proposals(), id as int, q);
        old.lemma_room_for_vote(id as int, voter);
        assert(old.members().len() == old.member_list.len());
        assert(self.proposals()[id as int] == q);
        assert(q.author == p.author && q.kind == p.kind && q.fund == p.fund);
        assert(is_open(p.status));
        if q.status == ProposalStatus::Accepted && q.kind == ProposalKind::MemberRequest {
            assert(!old.members().contains(a));
        }
        assert forall|i: int| 0 <= i < self.proposals().len() implies (#[trigger] self.voters(i)).no_duplicates()
            && self.voters(i).len() == self.proposals()[i].quorum_spec() by {
            if i != id {
                assert(self.proposals()[i] == old.proposals()[i]);
            } else if q.status != ProposalStatus::Draft {
                assert(q.vote == p.tallied(resolve).vote);
                assert(p.tallied(resolve).quorum_spec() == p.quorum_spec() + 1);
                assert(self.voters(i) == old.voters(i).push(voter));
                assert forall|x: int, y: int| 0 <= x < y < self.voters(i).len() implies self.voters(i)[x]
                    != self.voters(i)[y] by {
                    if y == self.voters(i).len() - 1 {
                        assert(self.voters(i)[y] == voter);
                        assert(self.voters(i)[x] == old.voters(i)[x]);
                    } else {
                        assert(self.voters(i)[x] == old.voters(i)[x]);
                        assert(self.voters(i)[y] == old.voters(i)[y]);
                    }
                }
            }
        }
        assert forall|i: int, k: int| 0 <= i < self.proposals().len() && 0 <= k < self.voters(i).len()
            implies self.members().contains(#[trigger] self.voters(i)[k]) by {
            let m = if i != id {
                old.voters(i)[k]
            } else if k < old.voters(i).len() {
                old.voters(i)[k]
            } else {
                voter
            };
            if i == id && q.status != ProposalStatus::Draft {
                assert(self.voters(i) == old.voters(i).push(voter));
            }
            assert(self.voters(i)[k] == m);
            assert(old.members().contains(m));
            let j = choose|j: int| 0 <= j < old.members().len() && old.members()[j] == m;
            assert(self.members()[j] == m);
        }
        assert forall|i: int, j: int|
            #![trigger self.proposals()[i], self.proposals()[j]]
            0 <= i < self.proposals().len() && 0 <= j < self.proposals().len()
            && is_open(self.proposals()[i].status) && is_open(self.proposals()[j].status)
            && self.proposals()[i].author@ == self.proposals()[j].author@ implies i == j by {
            assert(is_open(old.proposals()[i].status));
            assert(is_open(old.proposals()[j].status));
            assert(old.proposals()[i].author@ == self.proposals()[i].author@);
            assert(old.proposals()[j].author@ == self.proposals()[j].author@);
        }
        assert forall|i: int| 0 <= i < self.proposals().len()
            && is_open((#[trigger] self.proposals()[i]).status)
            && self.proposals()[i].kind == ProposalKind::MemberRequest
            implies !self.members().contains(self.proposals()[i].author@) by {
            if i != id {
                assert(old.proposals()[i] == self.proposals()[i]);
            }
            assert(old.proposals()[i].author == self.proposals()[i].author);
            assert(old.proposals()[i].kind == self.proposals()[i].kind);
            assert(is_open(old.proposals()[i].status));
            assert(!old.members().contains(old.proposals()[i].author@));
            if q.status == ProposalStatus::Accepted && q.kind == ProposalKind::MemberRequest {
                assert(i != id);
                assert(old.proposals()[i].author@ != a) by {
                    if old.proposals()[i].author@ == a {
                        assert(old.proposals()[id as int] == p);
                    }
                }
            }
        }
    }

    /// Filing a proposal of an author with no open one, or in place of the
    /// author's draft, keeps the invariant.
    proof fn lemma_filed_keeps_wf(&self, old: &Society, id: int, p: ProposalState)
        requires
            old.wf(),
            Society::filed(old, self, id, p),
            self.vote_list@.len() == self.proposal_list@.len(),
            old.resubmit_check(p.author@, p.timestamp) is None,
            p.status == ProposalStatus::Vote,
            p.vote.approve == 0 && p.vote.reject == 0,
            p.kind == ProposalKind::MemberRequest ==> !old.members().contains(p.author@),
        ensures
            self.wf(),
    {
        let a = p.author@;
        let n = old.proposals().len();
        if id < n {
            assert(old.open_slot(a) == Some(id));
            assert(old.proposals()[id].status == ProposalStatus::Draft);
            lemma_reserved_sum_update(old.proposals(), id, p);
        } else {
            lemma_reserved_sum_push(old.proposals(), p);
        }
        assert forall|i: int| 0 <= i < self.proposals().len() implies (#[trigger] self.voters(i)).no_duplicates()
            && self.voters(i).len() == self.proposals()[i].quorum_spec() by {
            if i != id {
                assert(self.proposals()[i] == old.proposals()[i]);
            }
        }
        assert forall|i: int, k: int| 0 <= i < self.proposals().len() && 0 <= k < self.voters(i).len()
            implies self.members().contains(#[trigger] self.voters(i)[k]) by {
            if i != id {
                assert(old.members().contains(old.voters(i)[k]));
            }
        }
        assert forall|i: int, j: int|
            #![trigger self.proposals()[i], self.proposals()[j]]
            0 <= i < self.proposals().len() && 0 <= j < self.proposals().len()
            && is_open(self.proposals()[i].status) && is_open(self.proposals()[j].status)
            && self.proposals()[i].author@ == self.proposals()[j].author@ implies i == j by {
            if i != id && j != id {
                assert(old.proposals()[i] == self.proposals()[i]);
                assert(old.proposals()[j] == self.proposals()[j]);
            } else if i == id && j != id {
                assert(old.proposals()[j] == self.proposals()[j]);
                if id < n {
                    assert(old.open_by(id, a));
                    assert(old.open_by(j, a));
                    assert(old.proposals()[id] == old.proposals()[id]);
                } else {
                    old.lemma_no_open_slot(a, j);
                }
            } else if j == id && i != id {
                assert(old.proposals()[i] == self.proposals()[i]);
                if id < n {
                    assert(old.open_by(id, a));
                    assert(old.open_by(i, a));
                    assert(old.proposals()[id] == old.proposals()[id]);
                } else {
                    old.lemma_no_open_slot(a, i);
                }
            }
        }
        assert forall|i: int| 0 <= i < self.proposals().len()
            && is_open((#[trigger] self.proposals()[i]).status)
            && self.proposals()[i].kind == ProposalKind::MemberRequest
            implies !self.members().contains(self.proposals()[i].author@) by {
            if i != id {
                assert(old.proposals()[i] == self.proposals()[i]);
            }
        }
    }

    /// The society that the given parts make up, if they hold together: the
    /// members, the proposals by id, the voters of each proposal's current
    /// round, and what open fund requests hold back.
    pub closed spec fn parts_hold(
        members: Vec<String>,
        proposals: Vec<ProposalState>,
        voters: Vec<Vec<String>>,
        reserved: u128,
    ) -> bool {
        (Society {
            member_list: members,
            proposal_list: proposals,
            vote_list: voters,
            fund_proposal: reserved,
        }).wf()
    }

    /// Rebuilds a society from its parts, as `into_parts` gives them; `None`
    /// where they do not hold together.
    pub fn restore(
        members: Vec<String>,
        proposals: Vec<ProposalState>,
        voters: Vec<Vec<String>>,
        reserved: u128,
    ) -> (r: Option<Society>)
        ensures
            r is Some == Society::parts_hold(members, proposals, voters, reserved),
            r matches Some(s) ==> {
                &&& s.wf()
                &&& s.members() == ids(members@)
                &&& s.proposals() == proposals@
                &&& forall|i: int| 0 <= i < proposals@.len() ==> s.voters(i) == ids(voters@[i]@)
                &&& s.reserved() == reserved
            },
    {
        let society = Society {
            member_list: members,
            proposal_list: proposals,
            vote_list: voters,
            fund_proposal: reserved,
        };
        if society.vote_list.len() != society.proposal_list.len() {
            return None;
        }
        if !distinct_ids(&society.member_list) {
            return None;
        }
        if !society.rounds_hold() {
            return None;
        }
        if !society.open_authors_distinct() {
            return None;
        }
        if !society.open_requests_by_outsiders() {
            return None;
        }
        if !society.reservation_holds() {
            return None;
        }
        Some(society)
    }

    /// The parts of the society, as `restore` takes them.
    pub fn into_parts(self) -> (r: (Vec<String>, Vec<ProposalState>, Vec<Vec<String>>, u128))
        ensures
            ids(r.0@) == self.members(),
            r.1@ == self.proposals(),
            r.1@.len() == r.2@.len() ==> forall|i: int|
                0 <= i < r.2@.len() ==> ids(r.2@[i]@) == self.voters(i),
            r.1@.len() == r.2@.len() <== self.wf(),
            r.3 == self.reserved(),
            Society::parts_hold(r.0, r.1, r.2, r.3) == self.wf(),
    {
        (self.member_list, self.proposal_list, self.vote_list, self.fund_proposal)
    }

    fn rounds_hold(&self) -> (r: bool)
        requires
            self.vote_list@.len() == self.proposal_list@.len(),
        ensures
            r == {
                &&& forall|i: int| 0 <= i < self.proposals().len() ==> (#[trigger] self.voters(i)).no_duplicates()
                &&& forall|i: int| 0 <= i < self.proposals().len()
                    ==> (#[trigger] self.voters(i)).len() == self.proposals()[i].quorum_spec()
                &&& forall|i: int, k: int| 0 <= i < self.proposals().len() && 0 <= k < self.voters(i).len()
                    ==> self.members().contains(#[trigger] self.voters(i)[k])
            },
    {
        let mut i: usize = 0;
        while i < self.vote_list.len()
            invariant
                i <= self.proposals().len(),
                self.vote_list@.len() == self.proposal_list@.len(),
                forall|x: int| 0 <= x < i ==> (#[trigger] self.voters(x)).no_duplicates(),
                forall|x: int| 0 <= x < i ==> (#[trigger] self.voters(x)).len() == self.proposals()[x].quorum_spec(),
                forall|x: int, k: int| 0 <= x < i && 0 <= k < self.voters(x).len()
                    ==> self.members().contains(#[trigger] self.voters(x)[k]),
            decreases self.proposals().len() - i,
        {
            let round = &self.vote_list[i];
            let p = &self.proposal_list[i];
            assert(self.voters(i as int) == ids(round@));
            if !distinct_ids(round) {
                assert(!self.voters(i as int).no_duplicates());
                return false;
            }
            if round.len() as u128 != p.vote.approve as u128 + p.vote.reject as u128 {
                assert(ids(round@).len() == round@.len());
                assert(self.voters(i as int).len() != self.proposals()[i as int].quorum_spec());
                return false;
            }
            if !all_among(round, &self.member_list) {
                proof {
                    let k = choose|k: int| 0 <= k < round@.len() && !ids(self.member_list@).contains(
                        #[trigger] ids(round@)[k],
                    );
                    assert(ids(round@).len() == round@.len());
                    assert(!self.members().contains(self.voters(i as int)[k]));
                }
                return false;
            }
            assert(ids(round@).len() == round@.len());
            i = i + 1;
        }
        true
    }

    fn open_authors_distinct(&self) -> (r: bool)
        ensures
            r == forall|i: int, j: int|
                #![trigger self.proposals()[i], self.proposals()[j]]
                0 <= i < self.proposals().len() && 0 <= j < self.proposals().len()
                && is_open(self.proposals()[i].status) && is_open(self.proposals()[j].status)
                && self.proposals()[i].author@ == self.proposals()[j].author@ ==> i == j,
    {
        let n = self.proposal_list.len();
        let mut i: usize = 0;
        while i < n
            invariant
                i <= n == self.proposals().len(),
                forall|a: int, b: int|
                    #![trigger self.proposals()[a], self.proposals()[b]]
                    0 <= a < i && 0 <= b < i
                    && is_open(self.proposals()[a].status) && is_open(self.proposals()[b].status)
                    && self.proposals()[a].author@ == self.proposals()[b].author@ ==> a == b,
            decreases n - i,
        {
            let p = &self.proposal_list[i];
            let p_open = p.status == ProposalStatus::Vote || p.status == ProposalStatus::Draft;
            let mut j: usize = 0;
            while j < i
                invariant
                    j <= i < n == self.proposals().len(),
                    p == self.proposals()[i as int],
                    p_open == is_open(p.status),
                    forall|b: int|
                        0 <= b < j && p_open && is_open((#[trigger] self.proposals()[b]).status)
                        ==> self.proposals()[b].author@ != p.author@,
                decreases i - j,
            {
                let q = &self.proposal_list[j];
                if p_open && (q.status == ProposalStatus::Vote || q.status == ProposalStatus::Draft)
                    && q.author == p.author {
                    assert(self.proposals()[j as int] == *q);
                    return false;
                }
                j = j + 1;
            }
            i = i + 1;
            assert forall|a: int, b: int|
                #![trigger self.proposals()[a], self.proposals()[b]]
                0 <= a < i && 0 <= b < i
                && is_open(self.proposals()[a].status) && is_open(self.proposals()[b].status)
                && self.proposals()[a].author@ == self.proposals()[b].author@ implies a == b by {
                if a == i - 1 && b < i - 1 {
                    assert(is_open(self.proposals()[b].status));
                } else if b == i - 1 && a < i - 1 {
                    assert(is_open(self.proposals()[a].status));
                }
            }
        }
        true
    }

    fn open_requests_by_outsiders(&self) -> (r: bool)
        ensures
            r == forall|i: int| 0 <= i < self.proposals().len()
                && is_open((#[trigger] self.proposals()[i]).status)
                && self.proposals()[i].kind == ProposalKind::MemberRequest
                ==> !self.members().contains(self.proposals()[i].author@),
    {
        let mut i: usize = 0;
        while i < self.proposal_list.len()
            invariant
                i <= self.proposals().len(),
                forall|x: int| 0 <= x < i
                    && is_open((#[trigger] self.proposals()[x]).status)
                    && self.proposals()[x].kind == ProposalKind::MemberRequest
                    ==> !self.members().contains(self.proposals()[x].author@),
            decreases self.proposals().len() - i,
        {
            let p = &self.proposal_list[i];
            if (p.status == ProposalStatus::Vote || p.status == ProposalStatus::Draft)
                && p.kind == ProposalKind::MemberRequest && contains_id(&self.member_list, &p.author) {
                return false;
            }
            i = i + 1;
        }
        true
    }

    fn reservation_holds(&self) -> (r: bool)
        ensures
            r == (self.fund_proposal as nat == reserved_sum(self.proposals())),
    {
        let mut acc: u128 = 0;
        let mut i: usize = 0;
        while i < self.proposal_list.len()
            invariant
                i <= self.proposals().len(),
                acc == reserved_sum(self.proposals().subrange(0, i as int)),
            decreases self.proposals().len() - i,
        {
            let p = &self.proposal_list[i];
            let share: u128 = if p.kind == ProposalKind::FundRequest && p.status == ProposalStatus::Vote {
                p.fund
            } else {
                0
            };
            proof {
                assert(self.proposals().subrange(0, i + 1).drop_last() =~= self.proposals().subrange(0, i as int));
                lemma_reserved_sum_prefix(self.proposals(), i + 1);
            }
            if acc > u128::MAX - share {
                return false;
            }
            acc = acc + share;
            i = i + 1;
        }
        proof {
            assert(self.proposals().subrange(0, i as int) =~= self.proposals());
        }
        acc == self.fund_proposal
    }

    /// A society whose members are `initial_members`, with no proposal yet.
    pub fn init(initial_members: Vec<String>) -> (r: Result<Society, SocietyError>)
        ensures
            match r {
                Ok(s) => {
                    &&& initial_members@.len() > 0
                    &&& ids(initial_members@).no_duplicates()
                    &&& s.wf()
                    &&& s.members() == ids(initial_members@)
                    &&& s.proposals().len() == 0
                    &&& s.reserved() == 0
                },
                Err(e) => {
                    ||| e == SocietyError::NoInitialMembers && initial_members@.len() == 0
                    ||| e == SocietyError::AlreadyMember && initial_members@.len() > 0
                        && !ids(initial_members@).no_duplicates()
                },
            },
            initial_members@.len() > 0 && ids(initial_members@).no_duplicates() ==> r is Ok,
    {
        if initial_members.len() == 0 {
            return Err(SocietyError::NoInitialMembers);
        }
        let mut society = Society {
            member_list: Vec::new(),
            proposal_list: Vec::new(),
            vote_list: Vec::new(),
            fund_proposal: 0,
        };
        let mut i: usize = 0;
        while i < initial_members.len()
            invariant
                i <= initial_members@.len(),
                society.wf(),
                society.members() == ids(initial_members@).subrange(0, i as int),
                society.proposals().len() == 0,
                society.fund_proposal == 0,
            decreases initial_members@.len() - i,
        {
            let member = initial_members[i].clone();
            if contains_id(&society.member_list, &member) {
                proof {
                    let k = choose|k: int| 0 <= k < i && ids(initial_members@)[k] == member@;
                    assert(ids(initial_members@)[k] == ids(initial_members@)[i as int]);
                }
                return Err(SocietyError::AlreadyMember);
            }
            let ghost before = society.member_list@;
            society.member_list.push(member);
            i = i + 1;
            proof {
                lemma_ids_push(before, member);
                assert(ids(initial_members@).subrange(0, i as int) =~= ids(initial_members@).subrange(
                    0,
                    i - 1,
                ).push(member@));
            }
        }
        proof {
            assert(ids(initial_members@).subrange(0, i as int) =~= ids(initial_members@));
        }
        Ok(society)
    }

    pub fn is_member(&self, account_id: String) -> (r: bool)
        ensures
            r == self.members().contains(account_id@),
    {
        contains_id(&self.member_list, &account_id)
    }

    /// Number of members: the eligible voters of every proposal.
    pub fn vote_total(&self) -> (r: u64)
        ensures
            r == self.members().len(),
    {
        self.member_list.len() as u64
    }

    /// What the treasury can spend now, given the account's figures.
    pub fn balance(&self, host: &HostAccount) -> (r: u128)
        ensures
            r as nat == spendable(*host, self.reserved()),
    {
        spendable_balance(host, self.fund_proposal)
    }

    /// A page of the members, in order of admission.
    pub fn member_list(&self, offset: Option<u64>, limit: Option<u64>) -> (r: Result<
        Vec<String>,
        SocietyError,
    >)
        ensures
            page_limit(limit) == 0 ==> r == Err::<Vec<String>, SocietyError>(
                SocietyError::InvalidArgument,
            ),
            page_limit(limit) != 0 && page_start(offset) >= self.members().len() ==> r == Err::<
                Vec<String>,
                SocietyError,
            >(SocietyError::OutOfRange),
            page_limit(limit) != 0 && page_start(offset) < self.members().len() ==> r is Ok,
            r matches Ok(v) ==> ids(v@) == self.members().subrange(
                page_start(offset) as int,
                page_end(page_start(offset), page_limit(limit), self.members().len()) as int,
            ),
            r matches Ok(v) ==> v@.len() <= page_limit(limit) && page_start(offset) + v@.len()
                <= self.members().len(),
            self.wf() ==> (r matches Ok(v) ==> ids(v@).no_duplicates()),
    {
        let limit: u64 = match limit {
            Some(l) => l,
            None => DEFAULT_PAGE,
        };
        if limit == 0 {
            return Err(SocietyError::InvalidArgument);
        }
        let start: u64 = match offset {
            Some(o) => o,
            None => 0,
        };
        let total = self.member_list.len();
        if start >= total as u64 {
            return Err(SocietyError::OutOfRange);
        }
        let start = start as usize;
        let end: usize = if limit < (total - start) as u64 {
            start + limit as usize
        } else {
            total
        };
        let mut page: Vec<String> = Vec::new();
        let mut i: usize = start;
        while i < end
            invariant
                start <= i <= end <= total,
                total == self.member_list@.len(),
                ids(page@) == self.members().subrange(start as int, i as int),
            decreases end - i,
        {
            let ghost before = page@;
            page.push(self.member_list[i].clone());
            proof {
                lemma_ids_push(before, self.member_list@[i as int]);
                assert(self.members().subrange(start as int, i + 1) =~= self.members().subrange(
                    start as int,
                    i as int,
                ).push(self.member_list@[i as int]@));
            }
            i = i + 1;
        }
        proof {
            assert(ids(page@).len() == page@.len());
            if self.wf() {
                let m = self.members();
                assert forall|a: int, b: int|
                    0 <= a < ids(page@).len() && 0 <= b < ids(page@).len() && a != b implies ids(
                    page@,
                )[a] != ids(page@)[b] by {
                    assert(ids(page@)[a] == m[start + a]);
                    assert(ids(page@)[b] == m[start + b]);
                }
            }
        }
        Ok(page)
    }

    /// A page of the proposals, by id. The page may start at the end of the
    /// list, and is then empty, but not past it.
    pub fn proposal_list(&self, offset: Option<u64>, limit: Option<u64>) -> (r: Result<
        Vec<Proposal>,
        SocietyError,
    >)
        ensures
            page_limit(limit) == 0 ==> r == Err::<Vec<Proposal>, SocietyError>(
                SocietyError::InvalidArgument,
            ),
            page_limit(limit) != 0 && page_start(offset) > self.proposals().len() ==> r == Err::<
                Vec<Proposal>,
                SocietyError,
            >(SocietyError::OutOfRange),
            page_limit(limit) != 0 && page_start(offset) <= self.proposals().len() ==> r is Ok,
            r matches Ok(v) ==> {
                let start = page_start(offset);
                let total = self.proposals().len();
                &&& v@.len() == page_end(start, page_limit(limit), total) - start
                &&& v@.len() <= page_limit(limit)
                &&& start + v@.len() <= total
                &&& forall|k: int|
                    0 <= k < v@.len() ==> lists(
                        #[trigger] v@[k],
                        start + k,
                        self.proposals()[start + k],
                    )
            },
    {
        let limit: u64 = match limit {
            Some(l) => l,
            None => DEFAULT_PAGE,
        };
        if limit == 0 {
            return Err(SocietyError::InvalidArgument);
        }
        let start: u64 = match offset {
            Some(o) => o,
            None => 0,
        };
        let total = self.proposal_list.len();
        if start > total as u64 {
            return Err(SocietyError::OutOfRange);
        }
        let mut page: Vec<Proposal> = Vec::new();
        let start = start as usize;
        let end: usize = if limit < (total - start) as u64 {
            start + limit as usize
        } else {
            total
        };
        let mut i: usize = start;
        while i < end
            invariant
                start <= i <= end <= total,
                total == self.proposal_list@.len(),
                page@.len() == i - start,
                forall|k: int|
                    0 <= k < page@.len() ==> lists(
                        #[trigger] page@[k],
                        start + k,
                        self.proposals()[start + k],
                    ),
            decreases end - i,
        {
            let state = self.proposal_list[i].snapshot();
            page.push(
                Proposal {
                    id: i as u64,
                    timestamp: state.timestamp,
                    title: state.title,
                    kind: state.kind,
                    status: state.status,
                    description: state.description,
                    script: state.script,
                    author: state.author,
                    vote: state.vote,
                },
            );
            i = i + 1;
        }
        Ok(page)
    }

    /// Whether `account_id` has yet to vote in the current round of proposal
    /// `proposal_id`; true of an id that names no proposal.
    pub fn can_vote(&self, proposal_id: u64, account_id: String) -> (r: bool)
        requires
            self.wf(),
        ensures
            r == !(proposal_id < self.proposals().len()
                && self.voters(proposal_id as int).contains(account_id@)),
    {
        if proposal_id >= self.proposal_list.len() as u64 {
            return true;
        }
        !contains_id(&self.vote_list[proposal_id as usize], &account_id)
    }
}

/// What all the given fund requests that are open (voted on or in draft) ask for.
pub open spec fn open_fund_sum(ps: Seq<ProposalState>) -> nat
    decreases ps.len(),
{
    if ps.len() == 0 {
        0
    } else {
        open_fund_sum(ps.drop_last()) + if ps.last().kind == ProposalKind::FundRequest && is_open(
            ps.last().status,
        ) {
            ps.last().fund as nat
        } else {
            0
        }
    }
}

proof fn lemma_open_fund_sum_without_drafts(ps: Seq<ProposalState>)
    requires
        forall|i: int|
            0 <= i < ps.len() && (#[trigger] ps[i]).kind == ProposalKind::FundRequest
                ==> ps[i].status != ProposalStatus::Draft,
    ensures
        open_fund_sum(ps) == reserved_sum(ps),
    decreases ps.len(),
{
    if ps.len() > 0 {
        let rest = ps.drop_last();
        assert forall|i: int|
            0 <= i < rest.len() && (#[trigger] rest[i]).kind == ProposalKind::FundRequest
                implies rest[i].status != ProposalStatus::Draft by {
            assert(rest[i] == ps[i]);
        }
        lemma_open_fund_sum_without_drafts(rest);
        assert(ps.last() == ps[ps.len() - 1]);
    }
}

/// No one is a member twice.
pub proof fn lemma_members_distinct(s: &Society)
    requires
        s.wf(),
    ensures
        s.members().no_duplicates(),
{
}

/// In every proposal, approvals plus rejections equal the number of distinct
/// voters recorded in its current round.
pub proof fn lemma_tally_counts_voters(s: &Society, id: int)
    requires
        s.wf(),
        0 <= id < s.proposals().len(),
    ensures
        s.proposals()[id].vote.approve + s.proposals()[id].vote.reject == s.voters(id).len(),
        s.voters(id).no_duplicates(),
{
}

/// A member whose vote was counted cannot vote again on the proposal in the
/// same round: unless the vote reset the proposal to a draft, a second vote
/// is refused (and a refused vote changes nothing).
pub proof fn lemma_no_second_vote(
    s0: &Society,
    s1: &Society,
    id: u64,
    voter: Seq<char>,
    resolve: bool,
)
    requires
        s0.wf(),
        s0.vote_check(id, voter) is None,
        Society::voted(s0, s1, id, voter, resolve),
        s1.proposals()[id as int].status != ProposalStatus::Draft,
    ensures
        s1.vote_check(id, voter) == Some(SocietyError::AlreadyVoted) || s1.vote_check(id, voter)
            == Some(SocietyError::ProposalClosed),
{
    assert(s0.members().contains(voter));
    let j = choose|j: int| 0 <= j < s0.members().len() && s0.members()[j] == voter;
    assert(s1.members()[j] == voter);
    if s1.proposals()[id as int].status == ProposalStatus::Vote {
        assert(s1.voters(id as int).last() == voter);
        assert(s1.voters(id as int).contains(voter));
    }
}

/// What the treasury holds back is exactly what the fund requests being
/// voted on ask for.
pub proof fn lemma_reserved_is_requested(s: &Society)
    requires
        s.wf(),
    ensures
        s.reserved() == reserved_sum(s.proposals()),
{
}

/// While no fund request sits in draft, what the treasury holds back is
/// what the open fund requests (voted on or in draft) ask for.
pub proof fn lemma_reserved_is_open_requests(s: &Society)
    requires
        s.wf(),
        forall|i: int|
            0 <= i < s.proposals().len() && (#[trigger] s.proposals()[i]).kind
                == ProposalKind::FundRequest ==> s.proposals()[i].status != ProposalStatus::Draft,
    ensures
        s.reserved() == open_fund_sum(s.proposals()),
{
    lemma_open_fund_sum_without_drafts(s.proposals());
}

/// On a member request with no rejection, the approval that reaches the
/// target accepts it and admits its author: exactly one new member.
pub proof fn lemma_reaching_target_admits(s0: &Society, s1: &Society, id: u64, voter: Seq<char>)
    requires
        s0.wf(),
        s0.vote_check(id, voter) is None,
        Society::voted(s0, s1, id, voter, true),
        s0.proposals()[id as int].kind == ProposalKind::MemberRequest,
        s0.proposals()[id as int].vote.reject == 0,
        s0.proposals()[id as int].vote.approve + 1 == vote_target(s0.members().len()),
    ensures
        s1.proposals()[id as int].status == ProposalStatus::Accepted,
        s1.members() == s0.members().push(s0.proposals()[id as int].author@),
        !s0.members().contains(s0.proposals()[id as int].author@),
{
    s0.lemma_room_for_vote(id as int, voter);
    assert(s0.members().len() == s0.member_list.len());
}

/// On a member request with no rejection, an approval short of the target
/// only counts: the proposal stays open for votes and no one is admitted.
pub proof fn lemma_below_target_counts(s0: &Society, s1: &Society, id: u64, voter: Seq<char>)
    requires
        s0.wf(),
        s0.vote_check(id, voter) is None,
        Society::voted(s0, s1, id, voter, true),
        s0.proposals()[id as int].vote.reject == 0,
        s0.proposals()[id as int].vote.approve + 1 < vote_target(s0.members().len()),
    ensures
        s1.proposals()[id as int].status == ProposalStatus::Vote,
        s1.proposals()[id as int].vote.approve == s0.proposals()[id as int].vote.approve + 1,
        s1.proposals()[id as int].vote.reject == 0,
        s1.members() == s0.members(),
{
    s0.lemma_room_for_vote(id as int, voter);
    assert(s0.members().len() == s0.member_list.len());
}

proof fn lemma_approvals_so_far(states: Seq<Society>, id: u64, voters: Seq<Seq<char>>, t: int)
    requires
        states.len() == voters.len() + 1,
        forall|u: int| 0 <= u < states.len() ==> (#[trigger] states[u]).wf(),
        id < states[0].proposals().len(),
        states[0].proposals()[id as int].kind == ProposalKind::MemberRequest,
        states[0].proposals()[id as int].status == ProposalStatus::Vote,
        states[0].proposals()[id as int].vote.approve == 0,
        states[0].proposals()[id as int].vote.reject == 0,
        voters.len() == vote_target(states[0].members().len()),
        forall|u: int|
            0 <= u < voters.len() ==> (#[trigger] states[u]).vote_check(id, voters[u]) is None
                && Society::voted(&states[u], &states[u + 1], id, voters[u], true),
        0 <= t < voters.len(),
    ensures
        states[t].members() == states[0].members(),
        states[t].proposals()[id as int].author == states[0].proposals()[id as int].author,
        states[t].proposals()[id as int].kind == ProposalKind::MemberRequest,
        states[t].proposals()[id as int].vote.approve == t,
        states[t].proposals()[id as int].vote.reject == 0,
    decreases t,
{
    if t > 0 {
        lemma_approvals_so_far(states, id, voters, t - 1);
        let s0 = states[t - 1];
        assert(s0.vote_check(id, voters[t - 1]) is None);
        lemma_below_target_counts(&s0, &states[t], id, voters[t - 1]);
    }
}

/// Filing a member request and then counting as many approvals as the
/// target asks for, one from each of so many members, accepts the request
/// and admits its author: exactly one new member.
pub proof fn lemma_approvals_admit(states: Seq<Society>, id: u64, voters: Seq<Seq<char>>)
    requires
        states.len() == voters.len() + 1,
        forall|u: int| 0 <= u < states.len() ==> (#[trigger] states[u]).wf(),
        id < states[0].proposals().len(),
        states[0].proposals()[id as int].kind == ProposalKind::MemberRequest,
        states[0].proposals()[id as int].status == ProposalStatus::Vote,
        states[0].proposals()[id as int].vote.approve == 0,
        states[0].proposals()[id as int].vote.reject == 0,
        voters.len() == vote_target(states[0].members().len()),
        forall|u: int|
            0 <= u < voters.len() ==> (#[trigger] states[u]).vote_check(id, voters[u]) is None
                && Society::voted(&states[u], &states[u + 1], id, voters[u], true),
    ensures
        states.last().proposals()[id as int].status == ProposalStatus::Accepted,
        states.last().members() == states[0].members().push(
            states[0].proposals()[id as int].author@,
        ),
        !states[0].members().contains(states[0].proposals()[id as int].author@),
{
    let k = voters.len() - 1;
    lemma_approvals_so_far(states, id, voters, k);
    let s = states[k];
    assert(s.vote_check(id, voters[k]) is None);
    lemma_reaching_target_admits(&s, &states[k + 1], id, voters[k]);
    assert(states.last() == states[k + 1]);
}

/// An accepted or rejected proposal takes no more votes.
pub proof fn lemma_decided_refuses_votes(s: &Society, id: u64, voter: Seq<char>)
    requires
        id < s.proposals().len(),
        s.proposals()[id as int].status == ProposalStatus::Accepted || s.proposals()[id as int].status
            == ProposalStatus::Rejected,
    ensures
        s.vote_check(id, voter) is Some,
{
}

/// Filing a proposal leaves every accepted or rejected one as it was.
pub proof fn lemma_filing_keeps_decided(s0: &Society, s1: &Society, id: int, p: ProposalState, i: int)
    requires
        s0.wf(),
        Society::filed(s0, s1, id, p),
        0 <= i < s0.proposals().len(),
        !is_open(s0.proposals()[i].status),
    ensures
        s1.proposals()[i] == s0.proposals()[i],
{
    if id < s0.proposals().len() {
        assert(s0.open_slot(p.author@) == Some(id));
        assert(s0.open_by(id, p.author@));
    }
}

/// A tie among all members resets the proposal to a draft: the tally and the
/// round's voters are cleared, and a fund request's reservation goes back to
/// the treasury, whose surplus grows by the requested amount.
pub proof fn lemma_full_tie_resets_round(
    s0: &Society,
    s1: &Society,
    id: u64,
    voter: Seq<char>,
    resolve: bool,
    host: HostAccount,
)
    requires
        s0.wf(),
        s0.vote_check(id, voter) is None,
        Society::voted(s0, s1, id, voter, resolve),
        s0.proposals()[id as int].tallied(resolve).vote.approve == s0.proposals()[id as int].tallied(
            resolve,
        ).vote.reject,
        s0.proposals()[id as int].tallied(resolve).quorum_spec() == s0.members().len(),
    ensures
        s1.proposals()[id as int].status == ProposalStatus::Draft,
        s1.proposals()[id as int].vote.approve == 0,
        s1.proposals()[id as int].vote.reject == 0,
        s1.voters(id as int).len() == 0,
        s1.members() == s0.members(),
        s0.proposals()[id as int].kind == ProposalKind::FundRequest ==> {
            &&& s1.reserved() == s0.reserved() - s0.proposals()[id as int].fund
            &&& surplus(host, s1.reserved()) == surplus(host, s0.reserved())
                + s0.proposals()[id as int].fund
        },
{
    s0.lemma_room_for_vote(id as int, voter);
    lemma_reserved_sum_update(
        s0.proposals(),
        id as int,
        s0.proposals()[id as int].tallied(resolve).decided(s0.members().len()),
    );
    lemma_reserved_sum_update(s0.proposals(), id as int, s0.proposals()[id as int]);
}

} // verus!
