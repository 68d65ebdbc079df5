//! The ways in which a call on the ledger can fail.

use vstd::prelude::*;

verus! {

/// Why a call was rejected. A rejected call leaves the ledger as it was.
#[derive(Clone, Copy, Debug, PartialEq, Eq, Structural)]
pub enum CustomContractError {
    /// The caller is not the owner.
    Unauthorized,
    /// No proposal has been submitted yet.
    EmptyLedger,
    /// No proposal carries the given id.
    UnknownProposal,
    /// The address is not registered for the proposal.
    UnknownVoter,
    /// The voter has already cast a vote on the proposal.
    AlreadyVoted,
    /// The choice is not one of the proposal's counters.
    InvalidChoice,
    /// A position at or past the end of an append list.
    OutOfRange,
    /// The owner has already been recorded.
    AlreadyInitialized,
    /// The counter would pass the largest 256-bit amount.
    Overflow,
}

} // verus!
