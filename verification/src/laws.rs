//! What holds of the ledger across calls.
//!
//! The laws are stated over [`LedgerView`], the model in which the contracts
//! of the calls are written, so each of them speaks of the ledger that the
//! calls leave behind.

use vstd::prelude::*;
use crate::errors::CustomContractError;
use crate::ledger::{
    has_id, index_of_id, is_first_with_id, lemma_first_is_index, lemma_index_of_id, Call,
    LedgerView,
};
use crate::namespaced_map::{
    count_in, has_key, holds_at, lemma_count_is_number_of_keys, lemma_position_unique,
    lemma_upsert_count, lemma_upsert_lookup, lookup, position_of, space_of, Entry,
};
use crate::state::{new_proposal, ProposalView, VoterView};
use crate::uint256::uint256_limit;

verus! {

/// The sum of a sequence of amounts.
pub open spec fn total(amounts: Seq<nat>) -> nat
    decreases amounts.len(),
{
    if amounts.len() == 0 {
        0
    } else {
        total(amounts.drop_last()) + amounts.last()
    }
}

/// What one voter record adds to the power that has voted in namespace
/// `tag`: its power, if it belongs there and its vote was cast.
pub open spec fn cast_power(entry: Entry<VoterView>, tag: nat) -> nat {
    if entry.tag == tag && entry.value.has_voted {
        entry.value.power
    } else {
        0
    }
}

/// The sum of the power of the voters of namespace `tag` whose vote was cast.
pub open spec fn voted_power(voters: Seq<Entry<VoterView>>, tag: nat) -> nat
    decreases voters.len(),
{
    if voters.len() == 0 {
        0
    } else {
        voted_power(voters.drop_last(), tag) + cast_power(voters.last(), tag)
    }
}

/// In every proposal, the counters add up to the power of the voters who
/// have voted on it.
pub open spec fn balanced(s: LedgerView) -> bool {
    forall|i: int|
        0 <= i < s.proposals.len() ==> total((#[trigger] s.proposals[i]).counters) == voted_power(
            s.voters,
            i as nat,
        )
}

/// `after` keeps every proposal of `before` at its position, with its id, its
/// number of choices and its times, and with no counter below what it was.
pub open spec fn extends(before: LedgerView, after: LedgerView) -> bool {
    &&& before.proposals.len() <= after.proposals.len()
    &&& forall|i: int|
        0 <= i < before.proposals.len() ==> {
            let old_one = #[trigger] before.proposals[i];
            let new_one = after.proposals[i];
            &&& new_one.id == old_one.id
            &&& new_one.choice_count == old_one.choice_count
            &&& new_one.start_time == old_one.start_time
            &&& new_one.end_time == old_one.end_time
            &&& new_one.counters.len() == old_one.counters.len()
            &&& forall|c: int|
                0 <= c < old_one.counters.len() ==> old_one.counters[c]
                    <= #[trigger] new_one.counters[c]
        }
}

/// Every record of `before` whose vote was cast is a record of `after` whose
/// vote was cast.
pub open spec fn votes_stay_cast(before: LedgerView, after: LedgerView) -> bool {
    forall|tag: nat, key: Seq<char>|
        (#[trigger] lookup(before.voters, tag, key) matches Some(v) && v.has_voted) ==> (lookup(
            after.voters,
            tag,
            key,
        ) matches Some(w) && w.has_voted)
}

proof fn lemma_total_update(amounts: Seq<nat>, at: int, amount: nat)
    requires
        0 <= at < amounts.len(),
    ensures
        total(amounts.update(at, amount)) + amounts[at] == total(amounts) + amount,
    decreases amounts.len(),
{
    let after = amounts.update(at, amount);
    if at == amounts.len() - 1 {
        assert(after.drop_last() =~= amounts.drop_last());
    } else {
        assert(after.drop_last() =~= amounts.drop_last().update(at, amount));
        lemma_total_update(amounts.drop_last(), at, amount);
    }
}

proof fn lemma_voted_power_update(
    voters: Seq<Entry<VoterView>>,
    at: int,
    entry: Entry<VoterView>,
    tag: nat,
)
    requires
        0 <= at < voters.len(),
    ensures
        voted_power(voters.update(at, entry), tag) + cast_power(voters[at], tag) == voted_power(
            voters,
            tag,
        ) + cast_power(entry, tag),
    decreases voters.len(),
{
    let after = voters.update(at, entry);
    if at == voters.len() - 1 {
        assert(after.drop_last() =~= voters.drop_last());
    } else {
        assert(after.drop_last() =~= voters.drop_last().update(at, entry));
        lemma_voted_power_update(voters.drop_last(), at, entry, tag);
    }
}

proof fn lemma_voted_power_push(voters: Seq<Entry<VoterView>>, entry: Entry<VoterView>, tag: nat)
    ensures
        voted_power(voters.push(entry), tag) == voted_power(voters, tag) + cast_power(entry, tag),
{
    assert(voters.push(entry).drop_last() =~= voters);
}

proof fn lemma_voted_power_absent(voters: Seq<Entry<VoterView>>, tag: nat)
    requires
        forall|i: int| 0 <= i < voters.len() ==> (#[trigger] voters[i]).tag != tag,
    ensures
        voted_power(voters, tag) == 0,
    decreases voters.len(),
{
    if voters.len() > 0 {
        assert(voters.last() == voters[voters.len() - 1]);
        let front = voters.drop_last();
        assert forall|i: int| 0 <= i < front.len() implies (#[trigger] front[i]).tag != tag by {
            assert(front[i] == voters[i]);
        }
        lemma_voted_power_absent(front, tag);
    }
}

/// Recording the owner keeps the ledger well formed and touches nothing but
/// the owner; an owner, once recorded, is never replaced.
pub proof fn law_instantiate(s: LedgerView, caller: Seq<char>)
    requires
        s.wf(),
    ensures
        ({
            let t = s.instantiate(caller);
            &&& t.wf()
            &&& t.proposals == s.proposals
            &&& t.voters == s.voters
            &&& s.owner is Some ==> t.owner == s.owner
            &&& s.owner is None ==> t.owner == Some(caller)
            &&& balanced(s) ==> balanced(t)
        }),
{
}

/// A submission keeps the ledger well formed, appends exactly one proposal
/// behind those that were there, and touches neither the owner nor a voter.
pub proof fn law_add_proposal(
    s: LedgerView,
    caller: Seq<char>,
    id: Seq<char>,
    choice_count: u8,
    start_time: u64,
    end_time: u64,
)
    requires
        s.wf(),
    ensures
        ({
            let t = s.add_proposal(caller, id, choice_count, start_time, end_time);
            &&& t.wf()
            &&& t.owner == s.owner
            &&& t.voters == s.voters
            &&& extends(s, t)
            &&& votes_stay_cast(s, t)
            &&& balanced(s) ==> balanced(t)
            &&& s.is_owner(caller) ==> t.proposals == s.proposals.push(
                new_proposal(id, choice_count, start_time, end_time),
            )
            &&& !s.is_owner(caller) ==> t == s
        }),
{
    let t = s.add_proposal(caller, id, choice_count, start_time, end_time);
    if s.is_owner(caller) {
        let fresh = new_proposal(id, choice_count, start_time, end_time);
        assert(fresh.counters.len() == 4);
        if balanced(s) {
            assert forall|i: int| 0 <= i < t.proposals.len() implies total(
                (#[trigger] t.proposals[i]).counters,
            ) == voted_power(t.voters, i as nat) by {
                if i < s.proposals.len() {
                    assert(t.proposals[i] == s.proposals[i]);
                } else {
                    lemma_voted_power_absent(s.voters, i as nat);
                    lemma_total_zero(fresh.counters);
                }
            }
        }
    }
}

/// A registration keeps the ledger well formed and touches neither the owner
/// nor a proposal nor the record of any other address or proposal. Where it
/// succeeds, the address has the record that was asked for, with no vote
/// cast.
pub proof fn law_register_voter(
    s: LedgerView,
    caller: Seq<char>,
    proposal_id: Seq<char>,
    eth_addr: Seq<char>,
    scrt_addr: Seq<char>,
    power: nat,
)
    requires
        s.wf(),
    ensures
        ({
            let t = s.register_voter(caller, proposal_id, eth_addr, scrt_addr, power);
            let tag = index_of_id(s.proposals, proposal_id) as nat;
            &&& t.wf()
            &&& t.owner == s.owner
            &&& t.proposals == s.proposals
            &&& extends(s, t)
            &&& forall|other: nat, key: Seq<char>|
                !(other == tag && key == eth_addr) ==> #[trigger] lookup(t.voters, other, key)
                    == lookup(s.voters, other, key)
            &&& s.register_voter_result(caller, proposal_id) is Ok ==> {
                &&& 0 <= index_of_id(s.proposals, proposal_id) < s.proposals.len()
                &&& lookup(t.voters, tag, eth_addr) == Some(
                    VoterView { proposal_id, eth_addr, scrt_addr, power, has_voted: false },
                )
            }
            &&& s.register_voter_result(caller, proposal_id) is Err ==> t == s
        }),
{
    let t = s.register_voter(caller, proposal_id, eth_addr, scrt_addr, power);
    if s.register_voter_result(caller, proposal_id) is Ok {
        lemma_index_of_id(s.proposals, proposal_id);
        let tag = index_of_id(s.proposals, proposal_id) as nat;
        let record = VoterView { proposal_id, eth_addr, scrt_addr, power, has_voted: false };
        lemma_upsert_lookup(s.voters, tag, eth_addr, record);
        if has_key(s.voters, tag, eth_addr) {
            assert(holds_at(s.voters, position_of(s.voters, tag, eth_addr), tag, eth_addr));
        }
    }
}

/// Registering an address that has not voted on the proposal, whether it is
/// new there or not, keeps the counters and the power that has voted in
/// balance.
pub proof fn law_register_voter_balance(
    s: LedgerView,
    caller: Seq<char>,
    proposal_id: Seq<char>,
    eth_addr: Seq<char>,
    scrt_addr: Seq<char>,
    power: nat,
)
    requires
        s.wf(),
        balanced(s),
        !(lookup(s.voters, index_of_id(s.proposals, proposal_id) as nat, eth_addr) matches Some(v)
            && v.has_voted),
    ensures
        balanced(s.register_voter(caller, proposal_id, eth_addr, scrt_addr, power)),
{
    let t = s.register_voter(caller, proposal_id, eth_addr, scrt_addr, power);
    if s.register_voter_result(caller, proposal_id) is Ok {
        let tag = index_of_id(s.proposals, proposal_id) as nat;
        let record = VoterView { proposal_id, eth_addr, scrt_addr, power, has_voted: false };
        let entry = Entry { tag, key: eth_addr, value: record };
        assert forall|i: int| 0 <= i < t.proposals.len() implies total(
            (#[trigger] t.proposals[i]).counters,
        ) == voted_power(t.voters, i as nat) by {
            assert(t.proposals[i] == s.proposals[i]);
            if has_key(s.voters, tag, eth_addr) {
                let at = position_of(s.voters, tag, eth_addr);
                assert(holds_at(s.voters, at, tag, eth_addr));
                lemma_position_unique(s.voters, at);
                lemma_voted_power_update(s.voters, at, entry, i as nat);
            } else {
                lemma_voted_power_push(s.voters, entry, i as nat);
            }
        }
    }
}

/// A vote keeps the ledger well formed, keeps every proposal in its place
/// with no counter below what it was, keeps every vote that was cast, and
/// keeps the counters and the power that has voted in balance. Where it
/// fails, it changes nothing.
pub proof fn law_cast_vote(s: LedgerView, proposal_id: Seq<char>, eth_addr: Seq<char>, choice: u8)
    requires
        s.wf(),
    ensures
        ({
            let t = s.cast_vote(proposal_id, eth_addr, choice);
            let index = index_of_id(s.proposals, proposal_id);
            &&& t.wf()
            &&& t.owner == s.owner
            &&& t.proposals.len() == s.proposals.len()
            &&& t.voters.len() == s.voters.len()
            &&& extends(s, t)
            &&& votes_stay_cast(s, t)
            &&& balanced(s) ==> balanced(t)
            &&& s.cast_vote_result(proposal_id, eth_addr, choice) is Err ==> t == s
            &&& s.cast_vote_result(proposal_id, eth_addr, choice) is Ok ==> {
                &&& 0 <= index < s.proposals.len()
                &&& lookup(s.voters, index as nat, eth_addr) is Some
                &&& lookup(t.voters, index as nat, eth_addr) == Some(
                    VoterView { has_voted: true, ..lookup(s.voters, index as nat, eth_addr)->0 },
                )
                &&& t.proposals[index].counters[choice as int]
                    == s.proposals[index].counters[choice as int] + lookup(
                    s.voters,
                    index as nat,
                    eth_addr,
                )->0.power
                &&& t.proposals[index].counters[choice as int] < uint256_limit()
                &&& forall|i: int, c: int|
                    0 <= i < s.proposals.len() && 0 <= c < 4 && !(i == index && c == choice)
                        ==> #[trigger] t.proposals[i].counters[c] == s.proposals[i].counters[c]
                &&& forall|tag: nat, key: Seq<char>|
                    !(tag == index as nat && key == eth_addr) ==> #[trigger] lookup(
                        t.voters,
                        tag,
                        key,
                    ) == lookup(s.voters, tag, key)
            }
        }),
{
    let t = s.cast_vote(proposal_id, eth_addr, choice);
    if s.cast_vote_result(proposal_id, eth_addr, choice) is Ok {
        lemma_index_of_id(s.proposals, proposal_id);
        let index = index_of_id(s.proposals, proposal_id);
        let tag = index as nat;
        assert(has_key(s.voters, tag, eth_addr));
        let at = position_of(s.voters, tag, eth_addr);
        assert(holds_at(s.voters, at, tag, eth_addr));
        lemma_position_unique(s.voters, at);
        let voter = s.voters[at].value;
        let voted = VoterView { has_voted: true, ..voter };
        let entry = Entry { tag, key: eth_addr, value: voted };
        lemma_upsert_lookup(s.voters, tag, eth_addr, voted);
        assert(t.voters == s.voters.update(at, entry));
        let proposal = s.proposals[index];
        assert forall|tg: nat, key: Seq<char>|
            (#[trigger] lookup(s.voters, tg, key) matches Some(v) && v.has_voted) implies (lookup(
            t.voters,
            tg,
            key,
        ) matches Some(w) && w.has_voted) by {
            if tg == tag && key == eth_addr {
            } else {
                assert(lookup(t.voters, tg, key) == lookup(s.voters, tg, key));
            }
        }
        if balanced(s) {
            assert forall|i: int| 0 <= i < t.proposals.len() implies total(
                (#[trigger] t.proposals[i]).counters,
            ) == voted_power(t.voters, i as nat) by {
                lemma_voted_power_update(s.voters, at, entry, i as nat);
                if i == index {
                    lemma_total_update(
                        proposal.counters,
                        choice as int,
                        proposal.counters[choice as int] + voter.power,
                    );
                } else {
                    assert(t.proposals[i] == s.proposals[i]);
                }
            }
        }
    }
}

/// One submission: what the owner hands over with a proposal.
pub struct Submission {
    pub id: Seq<char>,
    pub choice_count: u8,
    pub start_time: u64,
    pub end_time: u64,
}

/// The proposal that a submission creates.
pub open spec fn submitted(submission: Submission) -> ProposalView {
    new_proposal(
        submission.id,
        submission.choice_count,
        submission.start_time,
        submission.end_time,
    )
}

/// The ledger after `caller` made the submissions one after the other.
pub open spec fn submit_all(s: LedgerView, caller: Seq<char>, submissions: Seq<Submission>)
    -> LedgerView
    decreases submissions.len(),
{
    if submissions.len() == 0 {
        s
    } else {
        let last = submissions.last();
        submit_all(s, caller, submissions.drop_last()).add_proposal(
            caller,
            last.id,
            last.choice_count,
            last.start_time,
            last.end_time,
        )
    }
}

/// After the owner has made any number of submissions with ids that differ
/// from one another and from those already in the ledger, as all do on an
/// empty ledger, the ledger has grown by the number of submissions, each
/// submission is found under its id at the position it was appended at, and
/// the proposal submitted last is the last submission.
pub proof fn law_submissions(s: LedgerView, owner: Seq<char>, submissions: Seq<Submission>)
    requires
        s.is_owner(owner),
        forall|i: int, j: int|
            0 <= i < j < submissions.len() ==> (#[trigger] submissions[i]).id
                != (#[trigger] submissions[j]).id,
        forall|i: int|
            0 <= i < submissions.len() ==> !has_id(s.proposals, (#[trigger] submissions[i]).id),
    ensures
        ({
            let t = submit_all(s, owner, submissions);
            let base = s.proposals.len();
            &&& t.owner == s.owner
            &&& t.voters == s.voters
            &&& t.proposals.len() == base + submissions.len()
            &&& forall|j: int| 0 <= j < base ==> #[trigger] t.proposals[j] == s.proposals[j]
            &&& forall|i: int|
                0 <= i < submissions.len() ==> {
                    &&& t.proposals[base + i] == submitted(#[trigger] submissions[i])
                    &&& has_id(t.proposals, submissions[i].id)
                    &&& index_of_id(t.proposals, submissions[i].id) == base + i
                }
            &&& submissions.len() > 0 ==> t.proposals.last() == submitted(submissions.last())
        }),
    decreases submissions.len(),
{
    if submissions.len() > 0 {
        let front = submissions.drop_last();
        let last = submissions.last();
        let before = submit_all(s, owner, front);
        let t = submit_all(s, owner, submissions);
        let base = s.proposals.len() as int;
        assert forall|i: int, j: int| 0 <= i < j < front.len() implies (#[trigger] front[i]).id
            != (#[trigger] front[j]).id by {
            assert(front[i] == submissions[i] && front[j] == submissions[j]);
        }
        assert forall|i: int| 0 <= i < front.len() implies !has_id(
            s.proposals,
            (#[trigger] front[i]).id,
        ) by {
            assert(front[i] == submissions[i]);
        }
        law_submissions(s, owner, front);
        assert(t.proposals == before.proposals.push(submitted(last)));
        assert forall|i: int| 0 <= i < submissions.len() implies {
            &&& t.proposals[base + i] == submitted(#[trigger] submissions[i])
            &&& has_id(t.proposals, submissions[i].id)
            &&& index_of_id(t.proposals, submissions[i].id) == base + i
        } by {
            let id = submissions[i].id;
            if i < front.len() {
                assert(front[i] == submissions[i]);
                lemma_index_of_id(before.proposals, id);
                assert(is_first_with_id(before.proposals, id, base + i));
                assert forall|j: int| 0 <= j < base + i implies (#[trigger] t.proposals[j]).id
                    != id by {
                    assert(t.proposals[j] == before.proposals[j]);
                }
            } else {
                assert forall|j: int| 0 <= j < base + i implies (#[trigger] t.proposals[j]).id
                    != id by {
                    assert(t.proposals[j] == before.proposals[j]);
                    if j < base {
                        assert(before.proposals[j] == s.proposals[j]);
                    } else {
                        assert(before.proposals[j] == submitted(front[j - base]));
                        assert(front[j - base] == submissions[j - base]);
                    }
                }
            }
            assert(is_first_with_id(t.proposals, id, base + i));
            lemma_first_is_index(t.proposals, id, base + i);
        }
        assert forall|j: int| 0 <= j < base implies #[trigger] t.proposals[j] == s.proposals[j] by {
            assert(t.proposals[j] == before.proposals[j]);
        }
    }
}

/// On a ledger that has its owner and nothing else, after any number of
/// submissions with distinct ids: the number of proposals is the number of
/// submissions, the proposal submitted last is the last submission, and each
/// submission is found under its id, at the position of its submission.
pub proof fn law_submissions_from_start(owner: Seq<char>, submissions: Seq<Submission>)
    requires
        forall|i: int, j: int|
            0 <= i < j < submissions.len() ==> (#[trigger] submissions[i]).id
                != (#[trigger] submissions[j]).id,
    ensures
        ({
            let t = submit_all(LedgerView::fresh().instantiate(owner), owner, submissions);
            &&& t.proposals.len() == submissions.len()
            &&& submissions.len() > 0 ==> t.proposals.last() == submitted(submissions.last())
            &&& forall|i: int|
                0 <= i < submissions.len() ==> {
                    &&& has_id(t.proposals, (#[trigger] submissions[i]).id)
                    &&& index_of_id(t.proposals, submissions[i].id) == i
                    &&& t.proposals[i] == submitted(submissions[i])
                }
        }),
{
    law_submissions(LedgerView::fresh().instantiate(owner), owner, submissions);
}

/// Registering an address twice for one proposal is as registering it once
/// with what was said last: the second record takes the place of the first,
/// the proposal's voter count is what it was after the first registration,
/// and that count is the number of distinct addresses registered for the
/// proposal.
pub proof fn law_registration_overwrites(
    s: LedgerView,
    owner: Seq<char>,
    proposal_id: Seq<char>,
    eth_addr: Seq<char>,
    first_scrt_addr: Seq<char>,
    first_power: nat,
    scrt_addr: Seq<char>,
    power: nat,
)
    requires
        s.wf(),
        s.register_voter_result(owner, proposal_id) is Ok,
    ensures
        ({
            let once = s.register_voter(owner, proposal_id, eth_addr, first_scrt_addr, first_power);
            let twice = once.register_voter(owner, proposal_id, eth_addr, scrt_addr, power);
            let index = index_of_id(s.proposals, proposal_id);
            &&& once.register_voter_result(owner, proposal_id) is Ok
            &&& twice == s.register_voter(owner, proposal_id, eth_addr, scrt_addr, power)
            &&& lookup(twice.voters, index as nat, eth_addr) == Some(
                VoterView { proposal_id, eth_addr, scrt_addr, power, has_voted: false },
            )
            &&& forall|i: int| #[trigger] twice.voter_count(i) == once.voter_count(i)
            &&& once.voter_count(index) == s.voter_count(index) + if has_key(
                s.voters,
                index as nat,
                eth_addr,
            ) {
                0nat
            } else {
                1nat
            }
            &&& forall|i: int|
                0 <= i ==> #[trigger] twice.voter_count(i) == space_of(
                    twice.voters,
                    i as nat,
                ).dom().len()
        }),
{
    let once = s.register_voter(owner, proposal_id, eth_addr, first_scrt_addr, first_power);
    let twice = once.register_voter(owner, proposal_id, eth_addr, scrt_addr, power);
    let tag = index_of_id(s.proposals, proposal_id) as nat;
    let first = VoterView {
        proposal_id,
        eth_addr,
        scrt_addr: first_scrt_addr,
        power: first_power,
        has_voted: false,
    };
    let second = VoterView { proposal_id, eth_addr, scrt_addr, power, has_voted: false };
    let entry = Entry { tag, key: eth_addr, value: second };
    law_register_voter(s, owner, proposal_id, eth_addr, first_scrt_addr, first_power);
    law_register_voter(once, owner, proposal_id, eth_addr, scrt_addr, power);
    lemma_upsert_lookup(s.voters, tag, eth_addr, first);
    lemma_upsert_count(s.voters, tag, eth_addr, first);
    lemma_upsert_count(once.voters, tag, eth_addr, second);
    assert(has_key(once.voters, tag, eth_addr));
    let at = position_of(once.voters, tag, eth_addr);
    assert(holds_at(once.voters, at, tag, eth_addr));
    if has_key(s.voters, tag, eth_addr) {
        let was = position_of(s.voters, tag, eth_addr);
        assert(holds_at(s.voters, was, tag, eth_addr));
        lemma_position_unique(once.voters, was);
        assert(twice.voters =~= s.voters.update(was, entry));
    } else {
        lemma_position_unique(once.voters, s.voters.len() as int);
        assert(twice.voters =~= s.voters.push(entry));
    }
    assert forall|i: int| #[trigger] twice.voter_count(i) == once.voter_count(i) by {
        if i as nat != tag {
            assert(count_in(twice.voters, i as nat) == count_in(once.voters, i as nat));
        }
    }
    assert forall|i: int| 0 <= i implies #[trigger] twice.voter_count(i) == space_of(
        twice.voters,
        i as nat,
    ).dom().len() by {
        lemma_count_is_number_of_keys(twice.voters, i as nat);
    }
}

/// A vote by an address that is not registered for the proposal fails with
/// `UnknownVoter`, whatever the choice, and changes nothing.
pub proof fn law_unregistered_vote(
    s: LedgerView,
    proposal_id: Seq<char>,
    eth_addr: Seq<char>,
    choice: u8,
)
    requires
        has_id(s.proposals, proposal_id),
        !has_key(s.voters, index_of_id(s.proposals, proposal_id) as nat, eth_addr),
    ensures
        s.cast_vote_result(proposal_id, eth_addr, choice) == Err::<(), CustomContractError>(
            CustomContractError::UnknownVoter,
        ),
        s.cast_vote(proposal_id, eth_addr, choice) == s,
{
}

/// After a vote has succeeded, a second vote by the same address on the same
/// proposal fails with `AlreadyVoted`, whatever the choice, and changes
/// nothing: every counter is what the first vote left.
pub proof fn law_second_vote(
    s: LedgerView,
    proposal_id: Seq<char>,
    eth_addr: Seq<char>,
    choice: u8,
    second_choice: u8,
)
    requires
        s.wf(),
        s.cast_vote_result(proposal_id, eth_addr, choice) is Ok,
    ensures
        ({
            let t = s.cast_vote(proposal_id, eth_addr, choice);
            &&& t.cast_vote_result(proposal_id, eth_addr, second_choice) == Err::<
                (),
                CustomContractError,
            >(CustomContractError::AlreadyVoted)
            &&& t.cast_vote(proposal_id, eth_addr, second_choice) == t
        }),
{
    let t = s.cast_vote(proposal_id, eth_addr, choice);
    law_cast_vote(s, proposal_id, eth_addr, choice);
    lemma_index_of_id(s.proposals, proposal_id);
    let index = index_of_id(s.proposals, proposal_id);
    assert(is_first_with_id(t.proposals, proposal_id, index)) by {
        assert forall|j: int| 0 <= j < index implies (#[trigger] t.proposals[j]).id
            != proposal_id by {
            assert(s.proposals[j].id != proposal_id);
        }
        assert(s.proposals[index].id == proposal_id);
    }
    lemma_first_is_index(t.proposals, proposal_id, index);
}

/// A vote that would carry a counter to two to the power 256 or past it,
/// by a registered voter who has not voted and for a choice that exists,
/// fails with `Overflow` and changes nothing.
pub proof fn law_overflowing_vote(
    s: LedgerView,
    proposal_id: Seq<char>,
    eth_addr: Seq<char>,
    choice: u8,
)
    requires
        has_id(s.proposals, proposal_id),
        choice < 4,
        lookup(s.voters, index_of_id(s.proposals, proposal_id) as nat, eth_addr) matches Some(v)
            && !v.has_voted && s.proposals[index_of_id(
            s.proposals,
            proposal_id,
        )].counters[choice as int] + v.power >= uint256_limit(),
    ensures
        s.cast_vote_result(proposal_id, eth_addr, choice) == Err::<(), CustomContractError>(
            CustomContractError::Overflow,
        ),
        s.cast_vote(proposal_id, eth_addr, choice) == s,
{
}

/// The vote of one address on one proposal.
pub struct Vote {
    pub proposal_id: Seq<char>,
    pub eth_addr: Seq<char>,
    pub choice: u8,
}

/// The ledger after the votes were asked for one after the other.
pub open spec fn cast_all(s: LedgerView, votes: Seq<Vote>) -> LedgerView
    decreases votes.len(),
{
    if votes.len() == 0 {
        s
    } else {
        let last = votes.last();
        cast_all(s, votes.drop_last()).cast_vote(last.proposal_id, last.eth_addr, last.choice)
    }
}

/// `extends` passes along a chain of ledgers.
pub proof fn lemma_extends_transitive(a: LedgerView, b: LedgerView, c: LedgerView)
    requires
        extends(a, b),
        extends(b, c),
    ensures
        extends(a, c),
{
    assert forall|i: int| 0 <= i < a.proposals.len() implies {
        let old_one = #[trigger] a.proposals[i];
        let new_one = c.proposals[i];
        &&& new_one.id == old_one.id
        &&& new_one.choice_count == old_one.choice_count
        &&& new_one.start_time == old_one.start_time
        &&& new_one.end_time == old_one.end_time
        &&& new_one.counters.len() == old_one.counters.len()
        &&& forall|k: int|
            0 <= k < old_one.counters.len() ==> old_one.counters[k]
                <= #[trigger] new_one.counters[k]
    } by {
        let first = a.proposals[i];
        let mid = b.proposals[i];
        let last = c.proposals[i];
        assert forall|k: int| 0 <= k < first.counters.len() implies first.counters[k]
            <= #[trigger] last.counters[k] by {
            assert(first.counters[k] <= mid.counters[k]);
            assert(mid.counters[k] <= last.counters[k]);
        }
    }
}

/// `votes_stay_cast` passes along a chain of ledgers.
pub proof fn lemma_votes_stay_cast_transitive(a: LedgerView, b: LedgerView, c: LedgerView)
    requires
        votes_stay_cast(a, b),
        votes_stay_cast(b, c),
    ensures
        votes_stay_cast(a, c),
{
    assert forall|tag: nat, key: Seq<char>|
        (#[trigger] lookup(a.voters, tag, key) matches Some(v) && v.has_voted) implies (lookup(
        c.voters,
        tag,
        key,
    ) matches Some(w) && w.has_voted) by {
        assert(lookup(b.voters, tag, key) matches Some(u) && u.has_voted);
    }
}

/// Through any sequence of votes, on a ledger whose counters and voted power
/// are in balance, as they are where nobody has voted yet: the sum of the
/// counters of each proposal stays equal to the sum of the power of the
/// voters who have voted on it, no counter ever decreases, no proposal moves,
/// and no vote that was cast is forgotten.
pub proof fn law_vote_sequences(s: LedgerView, votes: Seq<Vote>)
    requires
        s.wf(),
        balanced(s),
    ensures
        ({
            let t = cast_all(s, votes);
            &&& t.wf()
            &&& balanced(t)
            &&& t.owner == s.owner
            &&& t.proposals.len() == s.proposals.len()
            &&& extends(s, t)
            &&& votes_stay_cast(s, t)
        }),
    decreases votes.len(),
{
    if votes.len() > 0 {
        let last = votes.last();
        let before = cast_all(s, votes.drop_last());
        law_vote_sequences(s, votes.drop_last());
        law_cast_vote(before, last.proposal_id, last.eth_addr, last.choice);
        lemma_extends_transitive(s, before, cast_all(s, votes));
        lemma_votes_stay_cast_transitive(s, before, cast_all(s, votes));
    }
}

/// A ledger on which no vote has been cast and every counter is zero is in
/// balance.
pub proof fn law_unvoted_is_balanced(s: LedgerView)
    requires
        s.wf(),
        forall|i: int| 0 <= i < s.voters.len() ==> !(#[trigger] s.voters[i]).value.has_voted,
        forall|i: int, c: int|
            0 <= i < s.proposals.len() && 0 <= c < 4 ==> #[trigger] s.proposals[i].counters[c] == 0,
    ensures
        balanced(s),
{
    assert forall|i: int| 0 <= i < s.proposals.len() implies total(
        (#[trigger] s.proposals[i]).counters,
    ) == voted_power(s.voters, i as nat) by {
        lemma_voted_power_unvoted(s.voters, i as nat);
        let counters = s.proposals[i].counters;
        assert(counters.len() == 4);
        assert(counters[0] == 0 && counters[1] == 0 && counters[2] == 0 && counters[3] == 0);
        lemma_total_zero(counters);
    }
}

proof fn lemma_voted_power_unvoted(voters: Seq<Entry<VoterView>>, tag: nat)
    requires
        forall|i: int| 0 <= i < voters.len() ==> !(#[trigger] voters[i]).value.has_voted,
    ensures
        voted_power(voters, tag) == 0,
    decreases voters.len(),
{
    if voters.len() > 0 {
        assert(voters.last() == voters[voters.len() - 1]);
        let front = voters.drop_last();
        assert forall|i: int| 0 <= i < front.len() implies !(#[trigger] front[i]).value.has_voted
        by {
            assert(front[i] == voters[i]);
        }
        lemma_voted_power_unvoted(front, tag);
    }
}

proof fn lemma_total_zero(amounts: Seq<nat>)
    requires
        forall|c: int| 0 <= c < amounts.len() ==> amounts[c] == 0,
    ensures
        total(amounts) == 0,
    decreases amounts.len(),
{
    if amounts.len() > 0 {
        lemma_total_zero(amounts.drop_last());
    }
}

/// The ledger after the calls were made one after the other.
pub open spec fn run(s: LedgerView, calls: Seq<Call>) -> LedgerView
    decreases calls.len(),
{
    if calls.len() == 0 {
        s
    } else {
        run(s, calls.drop_last()).apply(calls.last())
    }
}

/// No call of the sequence registers anew an address whose vote on that
/// proposal has already been cast by the time of the call.
pub open spec fn registers_before_votes(s: LedgerView, calls: Seq<Call>) -> bool
    decreases calls.len(),
{
    if calls.len() == 0 {
        true
    } else {
        let before = run(s, calls.drop_last());
        &&& registers_before_votes(s, calls.drop_last())
        &&& calls.last() matches Call::RegisterVoter { proposal_id, eth_addr, .. } ==> !(lookup(
            before.voters,
            index_of_id(before.proposals, proposal_id) as nat,
            eth_addr,
        ) matches Some(v) && v.has_voted)
    }
}

/// Whatever calls are made, in whatever order and by whomever: the ledger
/// stays well formed, an owner that was recorded stays the owner, and the
/// proposals stay where they are, in the order of their submission, with
/// counters that never decrease. Where no registration replaces the record
/// of a voter who has voted, the counters of each proposal also stay in
/// balance with the power that has voted on it, and every vote that was cast
/// stays cast.
pub proof fn law_history(s: LedgerView, calls: Seq<Call>)
    requires
        s.wf(),
    ensures
        ({
            let t = run(s, calls);
            &&& t.wf()
            &&& s.owner is Some ==> t.owner == s.owner
            &&& extends(s, t)
            &&& registers_before_votes(s, calls) ==> votes_stay_cast(s, t)
            &&& registers_before_votes(s, calls) && balanced(s) ==> balanced(t)
        }),
    decreases calls.len(),
{
    if calls.len() > 0 {
        let before = run(s, calls.drop_last());
        let t = run(s, calls);
        law_history(s, calls.drop_last());
        match calls.last() {
            Call::Instantiate { caller } => {
                law_instantiate(before, caller);
            },
            Call::SubmitProposal { caller, id, choice_count, start_time, end_time } => {
                law_add_proposal(before, caller, id, choice_count, start_time, end_time);
            },
            Call::RegisterVoter { caller, proposal_id, eth_addr, scrt_addr, power } => {
                law_register_voter(before, caller, proposal_id, eth_addr, scrt_addr, power);
                if registers_before_votes(s, calls) {
                    if balanced(before) {
                        law_register_voter_balance(
                            before,
                            caller,
                            proposal_id,
                            eth_addr,
                            scrt_addr,
                            power,
                        );
                    }
                    let tag = index_of_id(before.proposals, proposal_id) as nat;
                    assert forall|tg: nat, key: Seq<char>|
                        (#[trigger] lookup(before.voters, tg, key) matches Some(v)
                            && v.has_voted) implies (lookup(t.voters, tg, key) matches Some(w)
                        && w.has_voted) by {
                        if !(tg == tag && key == eth_addr) {
                            assert(lookup(t.voters, tg, key) == lookup(before.voters, tg, key));
                        }
                    }
                }
            },
            Call::CastVote { proposal_id, eth_addr, choice } => {
                law_cast_vote(before, proposal_id, eth_addr, choice);
            },
        }
        lemma_extends_transitive(s, before, t);
        if registers_before_votes(s, calls) {
            lemma_votes_stay_cast_transitive(s, before, t);
        }
    }
}

} // verus!
