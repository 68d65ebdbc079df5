//! The calls that the ledger takes and the answers it gives.

use vstd::prelude::*;
use crate::uint256::Uint256;

verus! {

/// The initialization call. It carries nothing: the caller becomes the owner.
#[derive(Clone, Debug, PartialEq, Default)]
pub struct InstantiateMsg {}

/// A call that changes the ledger.
#[derive(Clone, Debug, PartialEq)]
pub enum ExecuteMsg {
    /// Appends a proposal. Owner only.
    SubmitProposal { id: String, choice_count: u8, start_time: u64, end_time: u64 },
    /// Registers a voter for a proposal, or replaces the voter's record.
    /// Owner only.
    RegisterVoter { proposal_id: String, eth_addr: String, scrt_addr: String, power: Uint256 },
    /// Casts the one vote of a registered voter.
    CastVote { proposal_id: String, eth_addr: String, scrt_addr: String, choice: u8 },
}

/// A call that reads the ledger.
#[derive(Clone, Debug, PartialEq)]
pub enum QueryMsg {
    /// The proposal submitted last.
    CurrentProposal {},
    /// The first proposal with the given id.
    ProposalById { proposal_id: String },
    /// The number of proposals.
    ProposalCount {},
    /// The number of voters registered for the proposal submitted last.
    VoterCount {},
    /// The winning choice of the proposal submitted last.
    WhoWon { proposal_id: String },
}

/// A proposal as a query reports it.
#[derive(Clone, Debug, PartialEq)]
pub struct ProposalResponse {
    pub id: String,
    pub choice_count: u8,
}

/// A count as a query reports it.
#[derive(Clone, Copy, Debug, PartialEq, Eq)]
pub struct CountResponse {
    pub count: u64,
}

/// The winning choice and the power it has accumulated.
#[derive(Clone, Copy, Debug, PartialEq, Eq)]
pub struct WinnerResponse {
    pub choice: u8,
    pub choice_count: Uint256,
}

/// The answer to a [`QueryMsg`].
#[derive(Clone, Debug, PartialEq)]
pub enum QueryResponse {
    Proposal(ProposalResponse),
    Count(CountResponse),
    Winner(WinnerResponse),
}

} // verus!
