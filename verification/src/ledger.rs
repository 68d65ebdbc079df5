//! The ledger and its mathematical model.
//!
//! [`LedgerView`] is the state of the system as mathematics: the owner, the
//! proposals in the order of their submission, and the voter records, each in
//! the namespace of the proposal it belongs to. Every call on the ledger is
//! described by two functions of that state: which error it meets, if any,
//! and the state it leaves when it meets none.

use vstd::prelude::*;
use crate::append_list::AppendList;
use crate::errors::CustomContractError;
use crate::namespaced_map::{
    count_in, distinct_keys, lookup, upsert, Entry, NamespacedMap, Slot,
};
use crate::state::{new_proposal, Proposal, ProposalView, ProposalVoter, VoterView};
use crate::uint256::uint256_limit;

verus! {

/// Proposal `i` carries `id`, and no proposal before it does.
pub open spec fn is_first_with_id(proposals: Seq<ProposalView>, id: Seq<char>, i: int) -> bool {
    &&& 0 <= i < proposals.len()
    &&& proposals[i].id == id
    &&& forall|j: int| 0 <= j < i ==> (#[trigger] proposals[j]).id != id
}

/// Some proposal carries `id`.
pub open spec fn has_id(proposals: Seq<ProposalView>, id: Seq<char>) -> bool {
    exists|i: int| 0 <= i < proposals.len() && (#[trigger] proposals[i]).id == id
}

/// The position that `id` resolves to: that of the first proposal, in the
/// order of submission, that carries it.
pub open spec fn index_of_id(proposals: Seq<ProposalView>, id: Seq<char>) -> int {
    choose|i: int| is_first_with_id(proposals, id, i)
}

/// The first proposal with an id is the one the id resolves to.
pub proof fn lemma_first_is_index(proposals: Seq<ProposalView>, id: Seq<char>, i: int)
    requires
        is_first_with_id(proposals, id, i),
    ensures
        has_id(proposals, id),
        index_of_id(proposals, id) == i,
{
    let j = index_of_id(proposals, id);
    assert(is_first_with_id(proposals, id, j));
    if j < i {
        assert(proposals[j].id != id);
    } else if i < j {
        assert(proposals[i].id != id);
    }
}

/// An id that some proposal carries resolves to the first proposal with it.
pub proof fn lemma_index_of_id(proposals: Seq<ProposalView>, id: Seq<char>)
    requires
        has_id(proposals, id),
    ensures
        is_first_with_id(proposals, id, index_of_id(proposals, id)),
{
    let k = choose|i: int| 0 <= i < proposals.len() && (#[trigger] proposals[i]).id == id;
    lemma_first_exists(proposals, id, k);
}

proof fn lemma_first_exists(proposals: Seq<ProposalView>, id: Seq<char>, k: int)
    requires
        0 <= k < proposals.len(),
        proposals[k].id == id,
    ensures
        exists|i: int| is_first_with_id(proposals, id, i),
    decreases k,
{
    if exists|j: int| 0 <= j < k && (#[trigger] proposals[j]).id == id {
        let j = choose|j: int| 0 <= j < k && (#[trigger] proposals[j]).id == id;
        lemma_first_exists(proposals, id, j);
    } else {
        assert(is_first_with_id(proposals, id, k));
    }
}

/// A call that changes the ledger, with the caller where the call looks at
/// it.
pub enum Call {
    Instantiate { caller: Seq<char> },
    SubmitProposal {
        caller: Seq<char>,
        id: Seq<char>,
        choice_count: u8,
        start_time: u64,
        end_time: u64,
    },
    RegisterVoter {
        caller: Seq<char>,
        proposal_id: Seq<char>,
        eth_addr: Seq<char>,
        scrt_addr: Seq<char>,
        power: nat,
    },
    CastVote { proposal_id: Seq<char>, eth_addr: Seq<char>, choice: u8 },
}

/// The state of the ledger.
pub struct LedgerView {
    /// The owner, once it has been recorded.
    pub owner: Option<Seq<char>>,
    /// The proposals, in the order of their submission.
    pub proposals: Seq<ProposalView>,
    /// The voter records. A record's namespace tag is the position of its
    /// proposal, and its key is the voter's external address.
    pub voters: Seq<Entry<VoterView>>,
}

impl LedgerView {
    /// What holds of every ledger: a proposal has at most one record per
    /// external address, voters are registered under proposals that exist,
    /// and every proposal has four counters.
    pub open spec fn wf(self) -> bool {
        &&& distinct_keys(self.voters)
        &&& forall|i: int|
            0 <= i < self.voters.len() ==> (#[trigger] self.voters[i]).tag < self.proposals.len()
        &&& forall|i: int|
            0 <= i < self.proposals.len() ==> (#[trigger] self.proposals[i]).counters.len() == 4
    }

    /// The ledger before anything was recorded.
    pub open spec fn fresh() -> LedgerView {
        LedgerView { owner: None, proposals: Seq::empty(), voters: Seq::empty() }
    }

    /// `caller` is the recorded owner.
    pub open spec fn is_owner(self, caller: Seq<char>) -> bool {
        self.owner == Some(caller)
    }

    /// The outcome of recording the owner: it can be done once.
    pub open spec fn instantiate_result(self) -> Result<(), CustomContractError> {
        if self.owner is Some {
            Err(CustomContractError::AlreadyInitialized)
        } else {
            Ok(())
        }
    }

    /// The ledger with `caller` recorded as its owner.
    pub open spec fn with_owner(self, caller: Seq<char>) -> LedgerView {
        LedgerView { owner: Some(caller), ..self }
    }

    /// The ledger after `caller` asked to be recorded as the owner.
    pub open spec fn instantiate(self, caller: Seq<char>) -> LedgerView {
        if self.instantiate_result() is Ok {
            self.with_owner(caller)
        } else {
            self
        }
    }

    /// The outcome of a submission by `caller`: only the owner may submit.
    pub open spec fn add_proposal_result(self, caller: Seq<char>) -> Result<
        (),
        CustomContractError,
    > {
        if !self.is_owner(caller) {
            Err(CustomContractError::Unauthorized)
        } else {
            Ok(())
        }
    }

    /// The ledger with a new proposal appended. Nothing is asked of `id`: a
    /// second proposal may carry an id that an earlier one has.
    pub open spec fn with_proposal(
        self,
        id: Seq<char>,
        choice_count: u8,
        start_time: u64,
        end_time: u64,
    ) -> LedgerView {
        LedgerView {
            proposals: self.proposals.push(new_proposal(id, choice_count, start_time, end_time)),
            ..self
        }
    }

    /// The ledger after `caller` asked to submit a proposal.
    pub open spec fn add_proposal(
        self,
        caller: Seq<char>,
        id: Seq<char>,
        choice_count: u8,
        start_time: u64,
        end_time: u64,
    ) -> LedgerView {
        if self.add_proposal_result(caller) is Ok {
            self.with_proposal(id, choice_count, start_time, end_time)
        } else {
            self
        }
    }

    /// The outcome of a registration by `caller` for `proposal_id`.
    pub open spec fn register_voter_result(self, caller: Seq<char>, proposal_id: Seq<char>)
        -> Result<(), CustomContractError> {
        if !self.is_owner(caller) {
            Err(CustomContractError::Unauthorized)
        } else if self.proposals.len() == 0 {
            Err(CustomContractError::EmptyLedger)
        } else if !has_id(self.proposals, proposal_id) {
            Err(CustomContractError::UnknownProposal)
        } else {
            Ok(())
        }
    }

    /// The ledger with a voter registered for the proposal that `proposal_id`
    /// resolves to. The record takes the place of the one that the external
    /// address had for that proposal, if any, and says that no vote was cast.
    pub open spec fn with_voter(
        self,
        proposal_id: Seq<char>,
        eth_addr: Seq<char>,
        scrt_addr: Seq<char>,
        power: nat,
    ) -> LedgerView {
        LedgerView {
            voters: upsert(
                self.voters,
                index_of_id(self.proposals, proposal_id) as nat,
                eth_addr,
                VoterView { proposal_id, eth_addr, scrt_addr, power, has_voted: false },
            ),
            ..self
        }
    }

    /// The ledger after `caller` asked to register a voter.
    pub open spec fn register_voter(
        self,
        caller: Seq<char>,
        proposal_id: Seq<char>,
        eth_addr: Seq<char>,
        scrt_addr: Seq<char>,
        power: nat,
    ) -> LedgerView {
        if self.register_voter_result(caller, proposal_id) is Ok {
            self.with_voter(proposal_id, eth_addr, scrt_addr, power)
        } else {
            self
        }
    }

    /// The outcome of a vote by `eth_addr` for `choice` on `proposal_id`. The
    /// checks are made in this order, and the first that fails names the
    /// error.
    pub open spec fn cast_vote_result(self, proposal_id: Seq<char>, eth_addr: Seq<char>, choice: u8)
        -> Result<(), CustomContractError> {
        if self.proposals.len() == 0 {
            Err(CustomContractError::EmptyLedger)
        } else if !has_id(self.proposals, proposal_id) {
            Err(CustomContractError::UnknownProposal)
        } else {
            let index = index_of_id(self.proposals, proposal_id);
            match lookup(self.voters, index as nat, eth_addr) {
                None => Err(CustomContractError::UnknownVoter),
                Some(voter) => {
                    if voter.has_voted {
                        Err(CustomContractError::AlreadyVoted)
                    } else if choice >= 4 {
                        Err(CustomContractError::InvalidChoice)
                    } else if self.proposals[index].counters[choice as int] + voter.power
                        >= uint256_limit() {
                        Err(CustomContractError::Overflow)
                    } else {
                        Ok(())
                    }
                },
            }
        }
    }

    /// The ledger after the vote: the voter's record says that the vote was
    /// cast, and the voter's power is added to the counter of `choice`, in
    /// the proposal where it stands.
    pub open spec fn with_vote(self, proposal_id: Seq<char>, eth_addr: Seq<char>, choice: u8)
        -> LedgerView {
        let index = index_of_id(self.proposals, proposal_id);
        let voter = lookup(self.voters, index as nat, eth_addr)->0;
        let proposal = self.proposals[index];
        LedgerView {
            owner: self.owner,
            proposals: self.proposals.update(
                index,
                ProposalView {
                    counters: proposal.counters.update(
                        choice as int,
                        proposal.counters[choice as int] + voter.power,
                    ),
                    ..proposal
                },
            ),
            voters: upsert(
                self.voters,
                index as nat,
                eth_addr,
                VoterView { has_voted: true, ..voter },
            ),
        }
    }

    /// The ledger after `eth_addr` asked to vote.
    pub open spec fn cast_vote(self, proposal_id: Seq<char>, eth_addr: Seq<char>, choice: u8)
        -> LedgerView {
        if self.cast_vote_result(proposal_id, eth_addr, choice) is Ok {
            self.with_vote(proposal_id, eth_addr, choice)
        } else {
            self
        }
    }

    /// The outcome of `call`.
    pub open spec fn result_of(self, call: Call) -> Result<(), CustomContractError> {
        match call {
            Call::Instantiate { .. } => self.instantiate_result(),
            Call::SubmitProposal { caller, .. } => self.add_proposal_result(caller),
            Call::RegisterVoter { caller, proposal_id, .. } => self.register_voter_result(
                caller,
                proposal_id,
            ),
            Call::CastVote { proposal_id, eth_addr, choice } => self.cast_vote_result(
                proposal_id,
                eth_addr,
                choice,
            ),
        }
    }

    /// The ledger after `call`: changed as the call asks where the call
    /// succeeds, and as it was where the call fails.
    pub open spec fn apply(self, call: Call) -> LedgerView {
        match call {
            Call::Instantiate { caller } => self.instantiate(caller),
            Call::SubmitProposal { caller, id, choice_count, start_time, end_time } => {
                self.add_proposal(caller, id, choice_count, start_time, end_time)
            },
            Call::RegisterVoter { caller, proposal_id, eth_addr, scrt_addr, power } => {
                self.register_voter(caller, proposal_id, eth_addr, scrt_addr, power)
            },
            Call::CastVote { proposal_id, eth_addr, choice } => self.cast_vote(
                proposal_id,
                eth_addr,
                choice,
            ),
        }
    }

    /// The number of external addresses registered for the proposal at
    /// position `index`.
    pub open spec fn voter_count(self, index: int) -> nat {
        count_in(self.voters, index as nat)
    }
}

/// The namespace tag under which the voters of the proposal at position
/// `index` are kept. It is the position itself, so that two proposals never
/// share a tag.
pub fn namespace_of(index: usize) -> (tag: u64)
    ensures
        tag as nat == index as nat,
{
    index as u64
}

/// The state that the given parts describe.
pub open spec fn parts_view(
    owner: Option<String>,
    proposals: Vec<Proposal>,
    voters: Vec<Slot<ProposalVoter>>,
) -> LedgerView {
    LedgerView {
        owner: match owner {
            Some(owner) => Some(owner@),
            None => None,
        },
        proposals: proposals@.map_values(|p: Proposal| p@),
        voters: voters@.map_values(|s: Slot<ProposalVoter>| s@),
    }
}

/// The ledger: the owner, the list of proposals, and the voter records.
pub struct Ledger {
    pub(crate) owner: Option<String>,
    pub(crate) proposals: AppendList<Proposal>,
    pub(crate) voters: NamespacedMap<ProposalVoter>,
}

impl View for Ledger {
    type V = LedgerView;

    open(crate) spec fn view(&self) -> LedgerView {
        LedgerView {
            owner: match self.owner {
                Some(owner) => Some(owner@),
                None => None,
            },
            proposals: self.proposals@,
            voters: self.voters@,
        }
    }
}

impl Ledger {
    /// The invariant of the ledger, which every function here keeps.
    pub open spec fn wf(&self) -> bool {
        self@.wf()
    }

    /// The ledger before anything was recorded.
    pub fn new() -> (ledger: Ledger)
        ensures
            ledger.wf(),
            ledger@ == LedgerView::fresh(),
    {
        Ledger { owner: None, proposals: AppendList::new(), voters: NamespacedMap::new() }
    }

    /// The ledger made of the given parts, as they were read out of a ledger
    /// before: the owner, the proposals in their order, and the voter
    /// records, each tagged with the position of its proposal. `None` where
    /// the parts are not those of a ledger: where an address has two records
    /// for one proposal, or a record belongs to no proposal.
    pub fn restore(
        owner: Option<String>,
        proposals: Vec<Proposal>,
        voters: Vec<Slot<ProposalVoter>>,
    ) -> (made: Option<Ledger>)
        ensures
            made is Some <==> parts_view(owner, proposals, voters).wf(),
            made is Some ==> made->0.wf() && made->0@ == parts_view(owner, proposals, voters),
    {
        let ghost parts = parts_view(owner, proposals, voters);
        let count = proposals.len();
        let map = match NamespacedMap::from_slots(voters) {
            Some(map) => map,
            None => {
                return None;
            },
        };
        let slots = map.slots();
        let mut i: usize = 0;
        while i < slots.len()
            invariant
                i <= slots@.len(),
                parts == parts_view(owner, proposals, voters),
                slots@.len() == parts.voters.len(),
                count == parts.proposals.len(),
                forall|k: int| 0 <= k < slots@.len() ==> (#[trigger] slots@[k])@ == parts.voters[k],
                forall|k: int| 0 <= k < i ==> (#[trigger] parts.voters[k]).tag < count,
            decreases slots@.len() - i,
        {
            if slots[i].tag >= count as u64 {
                assert(slots@[i as int]@ == parts.voters[i as int]);
                assert(!(parts.voters[i as int].tag < parts.proposals.len()));
                return None;
            }
            assert(slots@[i as int]@ == parts.voters[i as int]);
            i += 1;
        }
        let ledger = Ledger { owner, proposals: AppendList::from_vec(proposals), voters: map };
        assert(ledger@.proposals == parts.proposals);
        Some(ledger)
    }

    /// The recorded owner.
    pub fn owner(&self) -> (owner: &Option<String>)
        ensures
            owner is Some <==> self@.owner is Some,
            owner is Some ==> owner->0@ == self@.owner->0,
    {
        &self.owner
    }

    /// The proposals, in the order of their submission.
    pub fn proposals(&self) -> (list: &AppendList<Proposal>)
        ensures
            list@ == self@.proposals,
    {
        &self.proposals
    }

    /// The voter records of all proposals.
    pub fn voters(&self) -> (map: &NamespacedMap<ProposalVoter>)
        ensures
            map@ == self@.voters,
            self.wf() ==> map.wf(),
    {
        &self.voters
    }

    /// The position of the first proposal that carries `proposal_id`, found
    /// by walking the proposals in the order of their submission.
    pub fn find_by_id(&self, proposal_id: &str) -> (found: Option<usize>)
        ensures
            found is Some <==> has_id(self@.proposals, proposal_id@),
            found is Some ==> found->0 == index_of_id(self@.proposals, proposal_id@)
                && is_first_with_id(self@.proposals, proposal_id@, found->0 as int),
    {
        let wanted = proposal_id.to_owned();
        let all = self.proposals.records();
        let mut i: usize = 0;
        while i < all.len()
            invariant
                i <= all@.len(),
                all@.len() == self@.proposals.len(),
                wanted@ == proposal_id@,
                forall|j: int| 0 <= j < all@.len() ==> (#[trigger] all@[j])@ == self@.proposals[j],
                forall|j: int| 0 <= j < i ==> (#[trigger] self@.proposals[j]).id != proposal_id@,
            decreases all@.len() - i,
        {
            if all[i].id == wanted {
                assert(all@[i as int]@ == self@.proposals[i as int]);
                proof {
                    lemma_first_is_index(self@.proposals, proposal_id@, i as int);
                }
                return Some(i);
            }
            assert(all@[i as int]@ == self@.proposals[i as int]);
            i += 1;
        }
        None
    }
}

} // verus!
