//! Why a call is refused. A refused call changes nothing.
use vstd::prelude::*;

verus! {

#[derive(PartialEq, Eq, Structural, Clone, Copy, Debug)]
pub enum SocietyError {
    /// The genesis member list is empty.
    NoInitialMembers,
    /// The identity is a member already.
    AlreadyMember,
    /// The caller is not a member.
    NotAMember,
    /// A title or a description is longer than allowed.
    FieldTooLong,
    /// The author's open proposal is still inside its time-lock.
    ProposalLocked,
    /// The author's open proposal is being voted on and cannot be replaced.
    NotInDraft,
    /// No proposal has this id.
    ProposalNotFound,
    /// The proposal is not in its voting round.
    ProposalClosed,
    /// The voter has voted in this round already.
    AlreadyVoted,
    /// The treasury cannot spare the requested amount.
    InsufficientFunds,
    /// A fund request's script states no amount.
    InvalidScript,
    /// A page of zero items was asked for.
    InvalidArgument,
    /// A page starts past the end.
    OutOfRange,
}

} // verus!
