//! The calls on the ledger.
//!
//! A call that changes the ledger either succeeds and leaves the state that
//! the model gives for it, or fails with the error that the model names and
//! leaves the ledger exactly as it was.

use vstd::prelude::*;
use crate::errors::CustomContractError;
use crate::ledger::{has_id, index_of_id, namespace_of, Call, Ledger, LedgerView};
use crate::msg::{
    CountResponse, ExecuteMsg, InstantiateMsg, ProposalResponse, QueryMsg, QueryResponse,
    WinnerResponse,
};
use crate::namespaced_map::{has_key, holds_at, position_of};
use crate::state::{Proposal, ProposalVoter};
use crate::tally::{is_winner, tally};
use crate::uint256::Uint256;

verus! {

/// The id that [`query_proposal_by_id`] reports where no proposal carries the
/// id it was asked for.
pub open spec fn not_found_id() -> Seq<char> {
    "Proposal not found"@
}

/// Records `sender` as the owner. This can be done once: a ledger that has an
/// owner keeps it.
pub fn instantiate(ledger: &mut Ledger, sender: &str, _msg: InstantiateMsg) -> (r: Result<
    (),
    CustomContractError,
>)
    requires
        old(ledger).wf(),
    ensures
        final(ledger).wf(),
        r == old(ledger)@.instantiate_result(),
        final(ledger)@ == old(ledger)@.instantiate(sender@),
{
    if ledger.owner.is_some() {
        return Err(CustomContractError::AlreadyInitialized);
    }
    ledger.owner = Some(sender.to_owned());
    Ok(())
}

/// The owner guard: `Unauthorized` unless `caller` is the recorded owner. A
/// ledger without an owner authorizes nobody.
pub fn require_owner(ledger: &Ledger, caller: &str) -> (r: Result<(), CustomContractError>)
    ensures
        ledger@.is_owner(caller@) ==> r is Ok,
        !ledger@.is_owner(caller@) ==> r == Err::<(), CustomContractError>(
            CustomContractError::Unauthorized,
        ),
{
    match &ledger.owner {
        Some(owner) => {
            if *owner == caller.to_owned() {
                Ok(())
            } else {
                Err(CustomContractError::Unauthorized)
            }
        },
        None => Err(CustomContractError::Unauthorized),
    }
}

/// Appends a proposal with all four counters at zero. Only the owner may do
/// so. Neither `id` nor `choice_count` is checked.
pub fn try_add_proposal(
    ledger: &mut Ledger,
    sender: &str,
    id: String,
    choice_count: u8,
    start_time: u64,
    end_time: u64,
) -> (r: Result<(), CustomContractError>)
    requires
        old(ledger).wf(),
    ensures
        final(ledger).wf(),
        r == old(ledger)@.add_proposal_result(sender@),
        final(ledger)@ == old(ledger)@.add_proposal(
            sender@,
            id@,
            choice_count,
            start_time,
            end_time,
        ),
{
    if require_owner(ledger, sender).is_err() {
        return Err(CustomContractError::Unauthorized);
    }
    let prop = Proposal::new(id, choice_count, start_time, end_time);
    ledger.proposals.push(prop);
    Ok(())
}

/// Registers a voter for the proposal that `proposal_id` resolves to, under
/// the external address `eth_addr`. A record that the address already had for
/// that proposal is replaced. Only the owner may do so.
pub fn try_register_voter(
    ledger: &mut Ledger,
    sender: &str,
    proposal_id: String,
    eth_addr: String,
    scrt_addr: String,
    power: Uint256,
) -> (r: Result<(), CustomContractError>)
    requires
        old(ledger).wf(),
    ensures
        final(ledger).wf(),
        r == old(ledger)@.register_voter_result(sender@, proposal_id@),
        final(ledger)@ == old(ledger)@.register_voter(
            sender@,
            proposal_id@,
            eth_addr@,
            scrt_addr@,
            power@,
        ),
{
    if require_owner(ledger, sender).is_err() {
        return Err(CustomContractError::Unauthorized);
    }
    if ledger.proposals.len() == 0 {
        return Err(CustomContractError::EmptyLedger);
    }
    let prop_idx = match ledger.find_by_id(proposal_id.as_str()) {
        Some(i) => i,
        None => {
            return Err(CustomContractError::UnknownProposal);
        },
    };
    let key = eth_addr.clone();
    let vp = ProposalVoter::register(proposal_id, eth_addr, scrt_addr, power);
    proof {
        let tag = prop_idx as nat;
        if has_key(ledger@.voters, tag, key@) {
            let at = position_of(ledger@.voters, tag, key@);
            assert(holds_at(ledger@.voters, at, tag, key@));
        }
    }
    ledger.voters.insert(namespace_of(prop_idx), key, vp);
    Ok(())
}

/// Casts the vote of `eth_addr` on the proposal that `proposal_id` resolves
/// to: the voter's record is marked, and the voter's power is added to the
/// counter of `choice`, in the proposal where it stands. Anybody may call;
/// `scrt_addr` is not looked at.
pub fn try_cast_vote(
    ledger: &mut Ledger,
    proposal_id: String,
    eth_addr: String,
    scrt_addr: String,
    choice: u8,
) -> (r: Result<(), CustomContractError>)
    requires
        old(ledger).wf(),
    ensures
        final(ledger).wf(),
        r == old(ledger)@.cast_vote_result(proposal_id@, eth_addr@, choice),
        final(ledger)@ == old(ledger)@.cast_vote(proposal_id@, eth_addr@, choice),
{
    if ledger.proposals.len() == 0 {
        return Err(CustomContractError::EmptyLedger);
    }
    let prop_idx = match ledger.find_by_id(proposal_id.as_str()) {
        Some(i) => i,
        None => {
            return Err(CustomContractError::UnknownProposal);
        },
    };
    let tag = namespace_of(prop_idx);
    let voted = match ledger.voters.get(tag, &eth_addr) {
        None => {
            return Err(CustomContractError::UnknownVoter);
        },
        Some(vp) => {
            if vp.has_voted {
                return Err(CustomContractError::AlreadyVoted);
            }
            ProposalVoter {
                proposal_id: vp.proposal_id.clone(),
                eth_addr: vp.eth_addr.clone(),
                scrt_addr: vp.scrt_addr.clone(),
                power: vp.power,
                has_voted: true,
            }
        },
    };
    if choice >= 4 {
        return Err(CustomContractError::InvalidChoice);
    }
    let updated = match ledger.proposals.get(prop_idx) {
        Err(e) => {
            return Err(e);
        },
        Ok(prop) => {
            let sum = match prop.counters[choice as usize].checked_add(&voted.power) {
                None => {
                    return Err(CustomContractError::Overflow);
                },
                Some(sum) => sum,
            };
            let mut counters = prop.counters;
            counters[choice as usize] = sum;
            let updated = Proposal {
                id: prop.id.clone(),
                choice_count: prop.choice_count,
                start_time: prop.start_time,
                end_time: prop.end_time,
                counters,
            };
            assert(updated@.counters =~= prop@.counters.update(
                choice as int,
                prop@.counters[choice as int] + voted@.power,
            ));
            updated
        },
    };
    proof {
        let tag = prop_idx as nat;
        assert(has_key(ledger@.voters, tag, eth_addr@));
        let at = position_of(ledger@.voters, tag, eth_addr@);
        assert(holds_at(ledger@.voters, at, tag, eth_addr@));
    }
    ledger.voters.insert(tag, eth_addr, voted);
    let _ = ledger.proposals.set_at(prop_idx, updated);
    Ok(())
}

/// What [`query_count_vote_results`] answers on ledger `s`.
pub open spec fn is_vote_result(s: LedgerView, r: Result<WinnerResponse, CustomContractError>)
    -> bool {
    if s.proposals.len() == 0 {
        r == Err::<WinnerResponse, CustomContractError>(CustomContractError::EmptyLedger)
    } else {
        &&& r is Ok
        &&& is_winner(s.proposals.last().counters, r->Ok_0.choice as int)
        &&& r->Ok_0.choice_count@ == s.proposals.last().counters[r->Ok_0.choice as int]
    }
}

/// What [`query_current_proposal`] answers on ledger `s`.
pub open spec fn is_current_proposal(
    s: LedgerView,
    r: Result<ProposalResponse, CustomContractError>,
) -> bool {
    if s.proposals.len() == 0 {
        r == Err::<ProposalResponse, CustomContractError>(CustomContractError::EmptyLedger)
    } else {
        &&& r is Ok
        &&& r->Ok_0.id@ == s.proposals.last().id
        &&& r->Ok_0.choice_count == s.proposals.last().choice_count
    }
}

/// What [`query_proposal_by_id`] answers on ledger `s` when asked for
/// `proposal_id`.
pub open spec fn is_proposal_by_id(
    s: LedgerView,
    proposal_id: Seq<char>,
    r: Result<ProposalResponse, CustomContractError>,
) -> bool {
    &&& r is Ok
    &&& if has_id(s.proposals, proposal_id) {
        &&& r->Ok_0.id@ == proposal_id
        &&& r->Ok_0.choice_count == s.proposals[index_of_id(s.proposals, proposal_id)].choice_count
    } else {
        &&& r->Ok_0.id@ == not_found_id()
        &&& r->Ok_0.choice_count == 0
    }
}

/// What [`query_proposal_count`] answers on ledger `s`.
pub open spec fn is_proposal_count(s: LedgerView, r: Result<CountResponse, CustomContractError>)
    -> bool {
    &&& r is Ok
    &&& r->Ok_0.count == s.proposals.len()
}

/// What [`query_voter_count`] answers on ledger `s`.
pub open spec fn is_voter_count(s: LedgerView, r: Result<CountResponse, CustomContractError>)
    -> bool {
    if s.proposals.len() == 0 {
        r == Err::<CountResponse, CustomContractError>(CustomContractError::EmptyLedger)
    } else {
        &&& r is Ok
        &&& r->Ok_0.count == s.voter_count(s.proposals.len() - 1)
    }
}

/// The winning choice of the proposal submitted last, whatever `proposal_id`
/// is: among the choices with the greatest accumulated power, the one of
/// lowest index, with that power.
pub fn query_count_vote_results(ledger: &Ledger, proposal_id: &str) -> (r: Result<
    WinnerResponse,
    CustomContractError,
>)
    ensures
        is_vote_result(ledger@, r),
{
    let prop_len = ledger.proposals.len();
    if prop_len == 0 {
        return Err(CustomContractError::EmptyLedger);
    }
    match ledger.proposals.get(prop_len - 1) {
        Err(e) => Err(e),
        Ok(prop) => {
            let (choice, choice_count) = tally(prop);
            Ok(WinnerResponse { choice, choice_count })
        },
    }
}

/// The id and the number of choices of the proposal submitted last;
/// `EmptyLedger` where there is none.
pub fn query_current_proposal(ledger: &Ledger) -> (r: Result<ProposalResponse, CustomContractError>)
    ensures
        is_current_proposal(ledger@, r),
{
    let prop_len = ledger.proposals.len();
    if prop_len == 0 {
        return Err(CustomContractError::EmptyLedger);
    }
    match ledger.proposals.get(prop_len - 1) {
        Err(e) => Err(e),
        Ok(prop) => Ok(ProposalResponse { id: prop.id.clone(), choice_count: prop.choice_count }),
    }
}

/// The id and the number of choices of the first proposal, in the order of
/// submission, that carries `proposal_id`. Where none does, the answer is not
/// an error but a proposal with the id "Proposal not found" and no choices.
pub fn query_proposal_by_id(ledger: &Ledger, proposal_id: &str) -> (r: Result<
    ProposalResponse,
    CustomContractError,
>)
    ensures
        is_proposal_by_id(ledger@, proposal_id@, r),
{
    match ledger.find_by_id(proposal_id) {
        Some(i) => match ledger.proposals.get(i) {
            Ok(prop) => Ok(
                ProposalResponse { id: prop.id.clone(), choice_count: prop.choice_count },
            ),
            Err(e) => Err(e),
        },
        None => Ok(ProposalResponse { id: "Proposal not found".to_owned(), choice_count: 0 }),
    }
}

/// The number of proposals.
pub fn query_proposal_count(ledger: &Ledger) -> (r: Result<CountResponse, CustomContractError>)
    ensures
        is_proposal_count(ledger@, r),
{
    Ok(CountResponse { count: ledger.proposals.len() as u64 })
}

/// The number of external addresses registered for the proposal submitted
/// last; `EmptyLedger` where there is none.
pub fn query_voter_count(ledger: &Ledger) -> (r: Result<CountResponse, CustomContractError>)
    requires
        ledger.wf(),
    ensures
        is_voter_count(ledger@, r),
{
    let prop_len = ledger.proposals.len();
    if prop_len == 0 {
        return Err(CustomContractError::EmptyLedger);
    }
    let prop_idx = prop_len - 1;
    Ok(CountResponse { count: ledger.voters.len(namespace_of(prop_idx)) as u64 })
}

/// What [`query_voter_count_of`] answers on ledger `s` when asked for
/// `proposal_id`.
pub open spec fn is_voter_count_of(
    s: LedgerView,
    proposal_id: Seq<char>,
    r: Result<CountResponse, CustomContractError>,
) -> bool {
    if s.proposals.len() == 0 {
        r == Err::<CountResponse, CustomContractError>(CustomContractError::EmptyLedger)
    } else if !has_id(s.proposals, proposal_id) {
        r == Err::<CountResponse, CustomContractError>(CustomContractError::UnknownProposal)
    } else {
        &&& r is Ok
        &&& r->Ok_0.count == s.voter_count(index_of_id(s.proposals, proposal_id))
    }
}

/// The number of external addresses registered for the proposal that
/// `proposal_id` resolves to.
pub fn query_voter_count_of(ledger: &Ledger, proposal_id: &str) -> (r: Result<
    CountResponse,
    CustomContractError,
>)
    requires
        ledger.wf(),
    ensures
        is_voter_count_of(ledger@, proposal_id@, r),
{
    if ledger.proposals.len() == 0 {
        return Err(CustomContractError::EmptyLedger);
    }
    match ledger.find_by_id(proposal_id) {
        Some(prop_idx) => Ok(
            CountResponse { count: ledger.voters.len(namespace_of(prop_idx)) as u64 },
        ),
        None => Err(CustomContractError::UnknownProposal),
    }
}

/// The call that `sender` makes with `msg`.
pub open spec fn call_of(sender: Seq<char>, msg: ExecuteMsg) -> Call {
    match msg {
        ExecuteMsg::SubmitProposal { id, choice_count, start_time, end_time } => {
            Call::SubmitProposal { caller: sender, id: id@, choice_count, start_time, end_time }
        },
        ExecuteMsg::RegisterVoter { proposal_id, eth_addr, scrt_addr, power } => {
            Call::RegisterVoter {
                caller: sender,
                proposal_id: proposal_id@,
                eth_addr: eth_addr@,
                scrt_addr: scrt_addr@,
                power: power@,
            }
        },
        ExecuteMsg::CastVote { proposal_id, eth_addr, scrt_addr, choice } => Call::CastVote {
            proposal_id: proposal_id@,
            eth_addr: eth_addr@,
            choice,
        },
    }
}

/// Carries out the call that `sender` makes with `msg`.
pub fn execute(ledger: &mut Ledger, sender: &str, msg: ExecuteMsg) -> (r: Result<
    (),
    CustomContractError,
>)
    requires
        old(ledger).wf(),
    ensures
        final(ledger).wf(),
        r == old(ledger)@.result_of(call_of(sender@, msg)),
        final(ledger)@ == old(ledger)@.apply(call_of(sender@, msg)),
{
    match msg {
        ExecuteMsg::SubmitProposal { id, choice_count, start_time, end_time } => try_add_proposal(
            ledger,
            sender,
            id,
            choice_count,
            start_time,
            end_time,
        ),
        ExecuteMsg::RegisterVoter { proposal_id, eth_addr, scrt_addr, power } => try_register_voter(
            ledger,
            sender,
            proposal_id,
            eth_addr,
            scrt_addr,
            power,
        ),
        ExecuteMsg::CastVote { proposal_id, eth_addr, scrt_addr, choice } => try_cast_vote(
            ledger,
            proposal_id,
            eth_addr,
            scrt_addr,
            choice,
        ),
    }
}

/// What [`query`] answers on ledger `s` when asked `msg`: the answer of the
/// query that `msg` names, in the variant that belongs to it.
pub open spec fn is_answer(
    s: LedgerView,
    msg: QueryMsg,
    r: Result<QueryResponse, CustomContractError>,
) -> bool {
    match msg {
        QueryMsg::CurrentProposal {  } => match r {
            Ok(QueryResponse::Proposal(p)) => is_current_proposal(s, Ok(p)),
            Ok(_) => false,
            Err(e) => is_current_proposal(s, Err(e)),
        },
        QueryMsg::ProposalById { proposal_id } => match r {
            Ok(QueryResponse::Proposal(p)) => is_proposal_by_id(s, proposal_id@, Ok(p)),
            Ok(_) => false,
            Err(e) => is_proposal_by_id(s, proposal_id@, Err(e)),
        },
        QueryMsg::ProposalCount {  } => match r {
            Ok(QueryResponse::Count(c)) => is_proposal_count(s, Ok(c)),
            Ok(_) => false,
            Err(e) => is_proposal_count(s, Err(e)),
        },
        QueryMsg::VoterCount {  } => match r {
            Ok(QueryResponse::Count(c)) => is_voter_count(s, Ok(c)),
            Ok(_) => false,
            Err(e) => is_voter_count(s, Err(e)),
        },
        QueryMsg::WhoWon { proposal_id } => match r {
            Ok(QueryResponse::Winner(w)) => is_vote_result(s, Ok(w)),
            Ok(_) => false,
            Err(e) => is_vote_result(s, Err(e)),
        },
    }
}

/// Answers the query that `msg` names.
pub fn query(ledger: &Ledger, msg: QueryMsg) -> (r: Result<QueryResponse, CustomContractError>)
    requires
        ledger.wf(),
    ensures
        is_answer(ledger@, msg, r),
{
    match msg {
        QueryMsg::CurrentProposal {  } => match query_current_proposal(ledger) {
            Ok(p) => Ok(QueryResponse::Proposal(p)),
            Err(e) => Err(e),
        },
        QueryMsg::ProposalById { proposal_id } => match query_proposal_by_id(
            ledger,
            proposal_id.as_str(),
        ) {
            Ok(p) => Ok(QueryResponse::Proposal(p)),
            Err(e) => Err(e),
        },
        QueryMsg::ProposalCount {  } => match query_proposal_count(ledger) {
            Ok(c) => Ok(QueryResponse::Count(c)),
            Err(e) => Err(e),
        },
        QueryMsg::VoterCount {  } => match query_voter_count(ledger) {
            Ok(c) => Ok(QueryResponse::Count(c)),
            Err(e) => Err(e),
        },
        QueryMsg::WhoWon { proposal_id } => match query_count_vote_results(
            ledger,
            proposal_id.as_str(),
        ) {
            Ok(w) => Ok(QueryResponse::Winner(w)),
            Err(e) => Err(e),
        },
    }
}

} // verus!
