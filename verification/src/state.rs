//! The two records of the ledger: proposals and voters.

use vstd::prelude::*;
use crate::uint256::Uint256;

verus! {

/// The view of a voter record.
pub struct VoterView {
    pub proposal_id: Seq<char>,
    pub eth_addr: Seq<char>,
    pub scrt_addr: Seq<char>,
    pub power: nat,
    pub has_voted: bool,
}

/// A voter registered for one proposal: the external address the voter is
/// known by, the native address, the voting power, and whether the vote has
/// been cast.
#[derive(Clone, Debug, PartialEq, Default)]
pub struct ProposalVoter {
    pub proposal_id: String,
    pub eth_addr: String,
    pub scrt_addr: String,
    pub power: Uint256,
    pub has_voted: bool,
}

impl View for ProposalVoter {
    type V = VoterView;

    open spec fn view(&self) -> VoterView {
        VoterView {
            proposal_id: self.proposal_id@,
            eth_addr: self.eth_addr@,
            scrt_addr: self.scrt_addr@,
            power: self.power@,
            has_voted: self.has_voted,
        }
    }
}

impl ProposalVoter {
    /// A voter who has not voted yet.
    pub fn register(
        proposal_id: String,
        eth_addr: String,
        scrt_addr: String,
        power: Uint256,
    ) -> (voter: ProposalVoter)
        ensures
            voter@ == (VoterView {
                proposal_id: proposal_id@,
                eth_addr: eth_addr@,
                scrt_addr: scrt_addr@,
                power: power@,
                has_voted: false,
            }),
    {
        ProposalVoter { proposal_id, eth_addr, scrt_addr, power, has_voted: false }
    }
}

/// The view of a proposal. `counters` has one amount per choice.
pub struct ProposalView {
    pub id: Seq<char>,
    pub choice_count: u8,
    pub start_time: u64,
    pub end_time: u64,
    pub counters: Seq<nat>,
}

/// A proposal: its id, the number of choices it advertises, the nanoseconds
/// at which voting opens and closes, and the power accumulated by each choice.
#[derive(Clone, Debug, PartialEq, Default)]
pub struct Proposal {
    pub id: String,
    pub choice_count: u8,
    pub start_time: u64,
    pub end_time: u64,
    pub counters: [Uint256; 4],
}

/// The amounts held by an array of counters.
pub open spec fn counters_view(counters: [Uint256; 4]) -> Seq<nat> {
    Seq::new(4, |i: int| counters[i]@)
}

/// The proposal that a submission creates: no choice has received any power.
pub open spec fn new_proposal(id: Seq<char>, choice_count: u8, start_time: u64, end_time: u64)
    -> ProposalView {
    ProposalView { id, choice_count, start_time, end_time, counters: seq![0nat, 0nat, 0nat, 0nat] }
}

impl View for Proposal {
    type V = ProposalView;

    open spec fn view(&self) -> ProposalView {
        ProposalView {
            id: self.id@,
            choice_count: self.choice_count,
            start_time: self.start_time,
            end_time: self.end_time,
            counters: counters_view(self.counters),
        }
    }
}

impl Proposal {
    /// A proposal with all four counters at zero, whatever `choice_count` is.
    pub fn new(id: String, choice_count: u8, start_time: u64, end_time: u64) -> (proposal: Proposal)
        ensures
            proposal@ == new_proposal(id@, choice_count, start_time, end_time),
    {
        let zero = Uint256::zero();
        let proposal = Proposal {
            id,
            choice_count,
            start_time,
            end_time,
            counters: [zero, zero, zero, zero],
        };
        assert(proposal@.counters =~= seq![0nat, 0nat, 0nat, 0nat]);
        proposal
    }
}

} // verus!
