//! Governance engine of a small member society: members admit new members
//! and authorise treasury payouts by majority vote.

pub mod consensus;
pub mod decimal;
pub mod error;
pub mod gas;
pub mod proposal;
pub mod script;
pub mod society;
pub mod treasury;

pub use consensus::{consensus, ProposalVote};
pub use error::SocietyError;
pub use proposal::{Proposal, ProposalKind, ProposalState, ProposalStatus};
pub use society::{Society, Transfer};
pub use treasury::HostAccount;
pub use gas::to_gas;
