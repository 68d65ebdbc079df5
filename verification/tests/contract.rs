use vote_ledger::contract::{
    execute, instantiate, query, query_count_vote_results, query_current_proposal,
    query_proposal_by_id, query_proposal_count, query_voter_count, query_voter_count_of,
    require_owner,
    try_add_proposal, try_cast_vote, try_register_voter,
};
use vote_ledger::errors::CustomContractError;
use vote_ledger::ledger::Ledger;
use vote_ledger::msg::{
    CountResponse, ExecuteMsg, InstantiateMsg, ProposalResponse, QueryMsg, QueryResponse,
    WinnerResponse,
};
use vote_ledger::uint256::Uint256;

#[test]
fn proper_instantialization() {
    let mut ledger = Ledger::new();

    let msg = InstantiateMsg {};

    // we can just call .unwrap() to assert this was a success
    let res = instantiate(&mut ledger, "creator", msg);
    assert_eq!(Ok(()), res);
    assert_eq!(ledger.owner(), &Some(String::from("creator")));
}

#[test]
fn cast_vote1() {
    let mut ledger = Ledger::new();

    let msg = InstantiateMsg {};
    let _res = instantiate(&mut ledger, "creator", msg).unwrap();

    let proposal = ExecuteMsg::SubmitProposal {
        id: String::from("prop1"),
        choice_count: 4u8,
        start_time: 1_000_000_101,
        end_time: 1_000_000_202,
    };

    let res = execute(&mut ledger, "creator", proposal);
    assert_eq!(Ok(()), res);

    let regvo1 = ExecuteMsg::RegisterVoter {
        proposal_id: String::from("prop1"),
        eth_addr: String::from("0xBEEF"),
        scrt_addr: String::from("secretvoter1"),
        power: Uint256::from_u128(100),
    };

    let res = execute(&mut ledger, "creator", regvo1);
    assert_eq!(Ok(()), res);

    let regvo2 = ExecuteMsg::RegisterVoter {
        proposal_id: String::from("prop1"),
        eth_addr: String::from("0xDEAD"),
        scrt_addr: String::from("secretvoter2"),
        power: Uint256::from_u128(250),
    };

    let res = execute(&mut ledger, "creator", regvo2);
    assert_eq!(Ok(()), res);

    let cnt = query_voter_count(&ledger).unwrap();
    println!("voter cnt {:?}", cnt);

    let cast1 = ExecuteMsg::CastVote {
        proposal_id: String::from("prop1"),
        eth_addr: String::from("0xBEEF"),
        scrt_addr: String::from("secretvoter1"),
        choice: 2,
    };

    let res = execute(&mut ledger, "creator", cast1);
    assert_eq!(Ok(()), res);

    let cast2 = ExecuteMsg::CastVote {
        proposal_id: String::from("prop1"),
        eth_addr: String::from("0xDEAD"),
        scrt_addr: String::from("secretvoter2"),
        choice: 1,
    };

    let res = execute(&mut ledger, "creator", cast2);
    assert_eq!(Ok(()), res);

    let winner = query_count_vote_results(&ledger, "prop1").unwrap();
    println!("winner should be #1 {:?}", winner);
    assert_eq!(winner.choice, 1);
}

#[test]
fn register_voter1() {
    let mut ledger = Ledger::new();

    let msg = InstantiateMsg {};
    let _res = instantiate(&mut ledger, "creator", msg).unwrap();

    let proposal = ExecuteMsg::SubmitProposal {
        id: String::from("prop1"),
        choice_count: 4u8,
        start_time: 1_000_000_101,
        end_time: 1_000_000_202,
    };

    let res = execute(&mut ledger, "creator", proposal);
    assert_eq!(Ok(()), res);

    let regvo1 = ExecuteMsg::RegisterVoter {
        proposal_id: String::from("prop1"),
        eth_addr: String::from("0xBEEF"),
        scrt_addr: String::from("secretvoter1"),
        power: Uint256::from_u128(100),
    };

    let res = execute(&mut ledger, "creator", regvo1);
    assert_eq!(Ok(()), res);

    let regvo2 = ExecuteMsg::RegisterVoter {
        proposal_id: String::from("prop1"),
        eth_addr: String::from("0xDEAD"),
        scrt_addr: String::from("secretvoter2"),
        power: Uint256::from_u128(250),
    };

    let res = execute(&mut ledger, "creator", regvo2);
    assert_eq!(Ok(()), res);

    let cnt = query_voter_count(&ledger).unwrap();
    println!("voter cnt should be 2 {:?}", cnt);
    assert_eq!("2".to_string(), cnt.count.to_string());
}

#[test]
fn add_proposal() {
    let mut ledger = Ledger::new();

    let msg = InstantiateMsg {};
    let _res = instantiate(&mut ledger, "creator", msg).unwrap();

    let proposal = ExecuteMsg::SubmitProposal {
        id: String::from("prop1"),
        choice_count: 4u8,
        start_time: 1_000_000_101,
        end_time: 1_000_000_202,
    };

    let res = execute(&mut ledger, "creator", proposal);
    assert_eq!(Ok(()), res);

    let proposal = ExecuteMsg::SubmitProposal {
        id: String::from("prop2"),
        choice_count: 3u8,
        start_time: 1_000_000_101,
        end_time: 1_000_000_202,
    };

    let res = execute(&mut ledger, "creator", proposal);
    assert_eq!(Ok(()), res);

    let resprop = query_current_proposal(&ledger).unwrap();
    assert_eq!(resprop.id, "prop2".to_string());
    println!("check this prop isn't 1st prop1 {:?}", resprop);

    let resprop1 = query_proposal_by_id(&ledger, &"prop1").unwrap();
    assert_eq!(resprop1.id, "prop1".to_string());
    println!("check this prop is 1st prop1 {:?}", resprop1);
}

fn ledger_with(ids: &[&str]) -> Ledger {
    let mut ledger = Ledger::new();
    instantiate(&mut ledger, "creator", InstantiateMsg {}).unwrap();
    for id in ids {
        try_add_proposal(&mut ledger, "creator", id.to_string(), 4, 10, 20).unwrap();
    }
    ledger
}

fn register(ledger: &mut Ledger, proposal: &str, addr: &str, power: u128) {
    try_register_voter(
        ledger,
        "creator",
        proposal.to_string(),
        addr.to_string(),
        format!("secret-{}", addr),
        Uint256::from_u128(power),
    )
    .unwrap();
}

fn vote(ledger: &mut Ledger, proposal: &str, addr: &str, choice: u8) -> Result<(), CustomContractError> {
    try_cast_vote(ledger, proposal.to_string(), addr.to_string(), String::new(), choice)
}

fn counters(ledger: &Ledger, index: usize) -> [Uint256; 4] {
    ledger.proposals().get(index).unwrap().counters
}

#[test]
fn two_voters_two_choices_winner_is_the_heavier() {
    let mut ledger = ledger_with(&["prop1"]);
    register(&mut ledger, "prop1", "A", 100);
    register(&mut ledger, "prop1", "B", 250);
    assert_eq!(vote(&mut ledger, "prop1", "A", 2), Ok(()));
    assert_eq!(vote(&mut ledger, "prop1", "B", 1), Ok(()));
    let winner = query_count_vote_results(&ledger, "prop1").unwrap();
    assert_eq!(winner, WinnerResponse { choice: 1, choice_count: Uint256::from_u128(250) });
    assert_eq!(
        counters(&ledger, 0),
        [
            Uint256::from_u128(0),
            Uint256::from_u128(250),
            Uint256::from_u128(100),
            Uint256::from_u128(0)
        ]
    );
}

#[test]
fn two_submissions_current_is_the_second() {
    let ledger = ledger_with(&["prop1", "prop2"]);
    assert_eq!(query_current_proposal(&ledger).unwrap().id, "prop2");
    assert_eq!(query_proposal_by_id(&ledger, "prop1").unwrap().id, "prop1");
    assert_eq!(query_proposal_count(&ledger), Ok(CountResponse { count: 2 }));
}

#[test]
fn empty_ledger_rejects_registration_and_has_no_current_proposal() {
    let mut ledger = Ledger::new();
    instantiate(&mut ledger, "creator", InstantiateMsg {}).unwrap();
    let r = try_register_voter(
        &mut ledger,
        "creator",
        "prop1".to_string(),
        "0xBEEF".to_string(),
        "secretvoter1".to_string(),
        Uint256::from_u128(100),
    );
    assert_eq!(r, Err(CustomContractError::EmptyLedger));
    assert_eq!(query_current_proposal(&ledger), Err(CustomContractError::EmptyLedger));
    assert_eq!(query_voter_count(&ledger), Err(CustomContractError::EmptyLedger));
    assert_eq!(
        query_count_vote_results(&ledger, "prop1"),
        Err(CustomContractError::EmptyLedger)
    );
    assert_eq!(vote(&mut ledger, "prop1", "0xBEEF", 0), Err(CustomContractError::EmptyLedger));
    assert_eq!(query_proposal_count(&ledger), Ok(CountResponse { count: 0 }));
    assert!(ledger.voters().slots().is_empty());
}

#[test]
fn second_instantiate_is_rejected_and_keeps_the_owner() {
    let mut ledger = Ledger::new();
    assert_eq!(ledger.owner(), &None);
    assert_eq!(instantiate(&mut ledger, "creator", InstantiateMsg {}), Ok(()));
    assert_eq!(
        instantiate(&mut ledger, "intruder", InstantiateMsg {}),
        Err(CustomContractError::AlreadyInitialized)
    );
    assert_eq!(ledger.owner(), &Some("creator".to_string()));
    assert_eq!(require_owner(&ledger, "creator"), Ok(()));
    assert_eq!(require_owner(&ledger, "intruder"), Err(CustomContractError::Unauthorized));
}

#[test]
fn nobody_is_authorized_before_the_owner_is_recorded() {
    let mut ledger = Ledger::new();
    assert_eq!(require_owner(&ledger, ""), Err(CustomContractError::Unauthorized));
    assert_eq!(
        try_add_proposal(&mut ledger, "creator", "prop1".to_string(), 4, 1, 2),
        Err(CustomContractError::Unauthorized)
    );
    assert_eq!(query_proposal_count(&ledger), Ok(CountResponse { count: 0 }));
}

#[test]
fn only_the_owner_submits_and_registers() {
    let mut ledger = ledger_with(&["prop1"]);
    assert_eq!(
        try_add_proposal(&mut ledger, "mallory", "prop2".to_string(), 4, 1, 2),
        Err(CustomContractError::Unauthorized)
    );
    assert_eq!(
        try_register_voter(
            &mut ledger,
            "mallory",
            "prop1".to_string(),
            "A".to_string(),
            "a".to_string(),
            Uint256::from_u128(1)
        ),
        Err(CustomContractError::Unauthorized)
    );
    assert_eq!(query_proposal_count(&ledger), Ok(CountResponse { count: 1 }));
    assert_eq!(query_voter_count(&ledger), Ok(CountResponse { count: 0 }));
}

#[test]
fn unauthorized_comes_before_empty_ledger() {
    let mut ledger = Ledger::new();
    instantiate(&mut ledger, "creator", InstantiateMsg {}).unwrap();
    let r = try_register_voter(
        &mut ledger,
        "mallory",
        "prop1".to_string(),
        "A".to_string(),
        "a".to_string(),
        Uint256::from_u128(1),
    );
    assert_eq!(r, Err(CustomContractError::Unauthorized));
}

#[test]
fn registration_for_an_unknown_proposal_is_rejected() {
    let mut ledger = ledger_with(&["prop1"]);
    let r = try_register_voter(
        &mut ledger,
        "creator",
        "prop9".to_string(),
        "A".to_string(),
        "a".to_string(),
        Uint256::from_u128(1),
    );
    assert_eq!(r, Err(CustomContractError::UnknownProposal));
    assert!(ledger.voters().slots().is_empty());
}

#[test]
fn a_new_proposal_has_four_zero_counters_whatever_its_choice_count() {
    let mut ledger = Ledger::new();
    instantiate(&mut ledger, "creator", InstantiateMsg {}).unwrap();
    for choice_count in [0u8, 2, 4, 9, 255] {
        try_add_proposal(&mut ledger, "creator", format!("p{}", choice_count), choice_count, 5, 6)
            .unwrap();
        let last = ledger.proposals().len() - 1;
        let p = ledger.proposals().get(last).unwrap();
        assert_eq!(p.choice_count, choice_count);
        assert_eq!(p.start_time, 5);
        assert_eq!(p.end_time, 6);
        assert_eq!(p.counters, [Uint256::zero(); 4]);
    }
    assert_eq!(query_proposal_count(&ledger), Ok(CountResponse { count: 5 }));
}

#[test]
fn reregistration_overwrites_and_counts_the_address_once() {
    let mut ledger = ledger_with(&["prop1"]);
    register(&mut ledger, "prop1", "A", 100);
    register(&mut ledger, "prop1", "B", 7);
    assert_eq!(query_voter_count(&ledger), Ok(CountResponse { count: 2 }));
    try_register_voter(
        &mut ledger,
        "creator",
        "prop1".to_string(),
        "A".to_string(),
        "moved".to_string(),
        Uint256::from_u128(300),
    )
    .unwrap();
    assert_eq!(query_voter_count(&ledger), Ok(CountResponse { count: 2 }));
    let a = ledger.voters().get(0, &"A".to_string()).unwrap();
    assert_eq!(a.power, Uint256::from_u128(300));
    assert_eq!(a.scrt_addr, "moved");
    assert_eq!(a.eth_addr, "A");
    assert_eq!(a.proposal_id, "prop1");
    assert!(!a.has_voted);
    let b = ledger.voters().get(0, &"B".to_string()).unwrap();
    assert_eq!(b.power, Uint256::from_u128(7));
    // the overwritten power is the one that votes
    assert_eq!(vote(&mut ledger, "prop1", "A", 3), Ok(()));
    assert_eq!(counters(&ledger, 0)[3], Uint256::from_u128(300));
}

#[test]
fn voters_of_different_proposals_do_not_mix() {
    let mut ledger = ledger_with(&["prop1", "prop2"]);
    register(&mut ledger, "prop1", "A", 100);
    register(&mut ledger, "prop2", "A", 5);
    register(&mut ledger, "prop2", "B", 6);
    assert_eq!(ledger.voters().len(0), 1);
    assert_eq!(ledger.voters().len(1), 2);
    assert_eq!(query_voter_count(&ledger), Ok(CountResponse { count: 2 }));
    assert_eq!(ledger.voters().get(0, &"A".to_string()).unwrap().power, Uint256::from_u128(100));
    assert_eq!(ledger.voters().get(1, &"A".to_string()).unwrap().power, Uint256::from_u128(5));
    assert!(ledger.voters().get(0, &"B".to_string()).is_none());
    // B is registered for prop2 only
    assert_eq!(vote(&mut ledger, "prop1", "B", 0), Err(CustomContractError::UnknownVoter));
    assert_eq!(vote(&mut ledger, "prop2", "B", 0), Ok(()));
    // a vote on prop2 leaves A free to vote on prop1
    assert_eq!(vote(&mut ledger, "prop2", "A", 1), Ok(()));
    assert_eq!(vote(&mut ledger, "prop1", "A", 1), Ok(()));
    assert_eq!(counters(&ledger, 0)[1], Uint256::from_u128(100));
    assert_eq!(counters(&ledger, 1)[1], Uint256::from_u128(5));
    assert_eq!(counters(&ledger, 1)[0], Uint256::from_u128(6));
}

#[test]
fn unregistered_address_cannot_vote() {
    let mut ledger = ledger_with(&["prop1"]);
    register(&mut ledger, "prop1", "A", 100);
    assert_eq!(vote(&mut ledger, "prop1", "Z", 0), Err(CustomContractError::UnknownVoter));
    assert_eq!(vote(&mut ledger, "prop1", "Z", 200), Err(CustomContractError::UnknownVoter));
    assert_eq!(counters(&ledger, 0), [Uint256::zero(); 4]);
}

#[test]
fn vote_on_unknown_proposal_is_rejected() {
    let mut ledger = ledger_with(&["prop1"]);
    register(&mut ledger, "prop1", "A", 100);
    assert_eq!(vote(&mut ledger, "prop7", "A", 0), Err(CustomContractError::UnknownProposal));
}

#[test]
fn second_vote_is_rejected_and_changes_no_counter() {
    let mut ledger = ledger_with(&["prop1"]);
    register(&mut ledger, "prop1", "A", 100);
    assert_eq!(vote(&mut ledger, "prop1", "A", 2), Ok(()));
    let after_first = counters(&ledger, 0);
    assert_eq!(vote(&mut ledger, "prop1", "A", 2), Err(CustomContractError::AlreadyVoted));
    assert_eq!(vote(&mut ledger, "prop1", "A", 0), Err(CustomContractError::AlreadyVoted));
    assert_eq!(vote(&mut ledger, "prop1", "A", 77), Err(CustomContractError::AlreadyVoted));
    assert_eq!(counters(&ledger, 0), after_first);
    assert_eq!(after_first[2], Uint256::from_u128(100));
    assert!(ledger.voters().get(0, &"A".to_string()).unwrap().has_voted);
}

#[test]
fn choice_past_the_counters_is_rejected_and_the_vote_is_kept() {
    let mut ledger = ledger_with(&["prop1"]);
    register(&mut ledger, "prop1", "A", 100);
    assert_eq!(vote(&mut ledger, "prop1", "A", 4), Err(CustomContractError::InvalidChoice));
    assert_eq!(vote(&mut ledger, "prop1", "A", 255), Err(CustomContractError::InvalidChoice));
    assert!(!ledger.voters().get(0, &"A".to_string()).unwrap().has_voted);
    assert_eq!(counters(&ledger, 0), [Uint256::zero(); 4]);
    assert_eq!(vote(&mut ledger, "prop1", "A", 3), Ok(()));
    assert_eq!(counters(&ledger, 0)[3], Uint256::from_u128(100));
}

#[test]
fn counter_overflow_is_rejected_and_changes_nothing() {
    let mut ledger = ledger_with(&["prop1"]);
    try_register_voter(
        &mut ledger,
        "creator",
        "prop1".to_string(),
        "big".to_string(),
        "b".to_string(),
        Uint256::from_be_bytes([0xff; 32]),
    )
    .unwrap();
    register(&mut ledger, "prop1", "one", 1);
    assert_eq!(vote(&mut ledger, "prop1", "big", 0), Ok(()));
    assert_eq!(vote(&mut ledger, "prop1", "one", 0), Err(CustomContractError::Overflow));
    assert_eq!(counters(&ledger, 0)[0], Uint256::from_be_bytes([0xff; 32]));
    assert!(!ledger.voters().get(0, &"one".to_string()).unwrap().has_voted);
    // the other counters still take the vote
    assert_eq!(vote(&mut ledger, "prop1", "one", 1), Ok(()));
    assert_eq!(counters(&ledger, 0)[1], Uint256::from_u128(1));
}

#[test]
fn a_vote_updates_the_proposal_in_place() {
    let mut ledger = ledger_with(&["prop1", "prop2"]);
    register(&mut ledger, "prop1", "A", 100);
    assert_eq!(vote(&mut ledger, "prop1", "A", 0), Ok(()));
    assert_eq!(query_proposal_count(&ledger), Ok(CountResponse { count: 2 }));
    assert_eq!(ledger.find_by_id("prop1"), Some(0));
    assert_eq!(ledger.find_by_id("prop2"), Some(1));
    assert_eq!(query_current_proposal(&ledger).unwrap().id, "prop2");
    let p = ledger.proposals().get(0).unwrap();
    assert_eq!((p.id.as_str(), p.choice_count, p.start_time, p.end_time), ("prop1", 4, 10, 20));
}

#[test]
fn an_id_resolves_to_its_first_proposal() {
    let mut ledger = Ledger::new();
    instantiate(&mut ledger, "creator", InstantiateMsg {}).unwrap();
    try_add_proposal(&mut ledger, "creator", "dup".to_string(), 2, 1, 2).unwrap();
    try_add_proposal(&mut ledger, "creator", "other".to_string(), 3, 1, 2).unwrap();
    try_add_proposal(&mut ledger, "creator", "dup".to_string(), 4, 1, 2).unwrap();
    assert_eq!(ledger.find_by_id("dup"), Some(0));
    assert_eq!(ledger.find_by_id("other"), Some(1));
    assert_eq!(ledger.find_by_id("none"), None);
    assert_eq!(
        query_proposal_by_id(&ledger, "dup"),
        Ok(ProposalResponse { id: "dup".to_string(), choice_count: 2 })
    );
    register(&mut ledger, "dup", "A", 9);
    assert_eq!(ledger.voters().len(0), 1);
    assert_eq!(ledger.voters().len(2), 0);
    assert_eq!(query_voter_count(&ledger), Ok(CountResponse { count: 0 }));
}

#[test]
fn proposal_by_id_answers_a_sentinel_where_nothing_matches() {
    let ledger = ledger_with(&["prop1"]);
    assert_eq!(
        query_proposal_by_id(&ledger, "prop2"),
        Ok(ProposalResponse { id: "Proposal not found".to_string(), choice_count: 0 })
    );
    let empty = Ledger::new();
    assert_eq!(
        query_proposal_by_id(&empty, "prop1"),
        Ok(ProposalResponse { id: "Proposal not found".to_string(), choice_count: 0 })
    );
}

#[test]
fn who_won_tallies_the_last_proposal_whatever_id_is_given() {
    let mut ledger = ledger_with(&["prop1", "prop2"]);
    register(&mut ledger, "prop1", "A", 100);
    register(&mut ledger, "prop2", "B", 5);
    vote(&mut ledger, "prop1", "A", 3).unwrap();
    vote(&mut ledger, "prop2", "B", 2).unwrap();
    let expected = Ok(WinnerResponse { choice: 2, choice_count: Uint256::from_u128(5) });
    assert_eq!(query_count_vote_results(&ledger, "prop1"), expected);
    assert_eq!(query_count_vote_results(&ledger, "prop2"), expected);
    assert_eq!(query_count_vote_results(&ledger, "no such id"), expected);
}

#[test]
fn who_won_on_a_proposal_without_votes_is_choice_zero_with_nothing() {
    let ledger = ledger_with(&["prop1"]);
    assert_eq!(
        query_count_vote_results(&ledger, "prop1"),
        Ok(WinnerResponse { choice: 0, choice_count: Uint256::zero() })
    );
}

#[test]
fn a_tie_goes_to_the_lowest_index() {
    let mut ledger = ledger_with(&["prop1"]);
    register(&mut ledger, "prop1", "A", 50);
    register(&mut ledger, "prop1", "B", 50);
    register(&mut ledger, "prop1", "C", 20);
    vote(&mut ledger, "prop1", "A", 3).unwrap();
    vote(&mut ledger, "prop1", "C", 0).unwrap();
    vote(&mut ledger, "prop1", "B", 1).unwrap();
    assert_eq!(
        query_count_vote_results(&ledger, "prop1"),
        Ok(WinnerResponse { choice: 1, choice_count: Uint256::from_u128(50) })
    );
}

#[test]
fn counters_add_up_to_the_power_that_voted() {
    let mut ledger = ledger_with(&["prop1"]);
    let powers: [u128; 5] = [3, 10, 200, 7, 1_000_000];
    for (i, p) in powers.iter().enumerate() {
        register(&mut ledger, "prop1", &format!("v{}", i), *p);
    }
    let mut voted: u128 = 0;
    let mut before = counters(&ledger, 0);
    for (i, p) in powers.iter().enumerate().take(4) {
        vote(&mut ledger, "prop1", &format!("v{}", i), (i % 3) as u8).unwrap();
        voted += p;
        let now = counters(&ledger, 0);
        let mut sum = Uint256::zero();
        for c in 0..4 {
            assert!(!before[c].gt(&now[c]));
            sum = sum.checked_add(&now[c]).unwrap();
        }
        assert_eq!(sum, Uint256::from_u128(voted));
        before = now;
    }
    assert_eq!(voted, 220);
    assert_eq!(
        counters(&ledger, 0),
        [
            Uint256::from_u128(10),
            Uint256::from_u128(10),
            Uint256::from_u128(200),
            Uint256::zero()
        ]
    );
}

#[test]
fn execute_does_what_the_named_call_does() {
    let mut by_call = ledger_with(&[]);
    let mut by_msg = ledger_with(&[]);
    try_add_proposal(&mut by_call, "creator", "p".to_string(), 3, 1, 2).unwrap();
    execute(
        &mut by_msg,
        "creator",
        ExecuteMsg::SubmitProposal { id: "p".to_string(), choice_count: 3, start_time: 1, end_time: 2 },
    )
    .unwrap();
    register(&mut by_call, "p", "A", 11);
    execute(
        &mut by_msg,
        "creator",
        ExecuteMsg::RegisterVoter {
            proposal_id: "p".to_string(),
            eth_addr: "A".to_string(),
            scrt_addr: "secret-A".to_string(),
            power: Uint256::from_u128(11),
        },
    )
    .unwrap();
    vote(&mut by_call, "p", "A", 1).unwrap();
    let cast = ExecuteMsg::CastVote {
        proposal_id: "p".to_string(),
        eth_addr: "A".to_string(),
        scrt_addr: String::new(),
        choice: 1,
    };
    assert_eq!(execute(&mut by_msg, "anybody", cast.clone()), Ok(()));
    assert_eq!(execute(&mut by_msg, "anybody", cast), Err(CustomContractError::AlreadyVoted));
    assert_eq!(by_call.proposals().records(), by_msg.proposals().records());
    assert_eq!(
        by_call.voters().get(0, &"A".to_string()),
        by_msg.voters().get(0, &"A".to_string())
    );
    assert_eq!(
        execute(
            &mut by_msg,
            "mallory",
            ExecuteMsg::SubmitProposal {
                id: "q".to_string(),
                choice_count: 3,
                start_time: 1,
                end_time: 2
            }
        ),
        Err(CustomContractError::Unauthorized)
    );
}

#[test]
fn query_answers_in_the_variant_of_the_question() {
    let mut ledger = ledger_with(&["prop1", "prop2"]);
    register(&mut ledger, "prop2", "A", 8);
    vote(&mut ledger, "prop2", "A", 3).unwrap();
    assert_eq!(
        query(&ledger, QueryMsg::CurrentProposal {}),
        Ok(QueryResponse::Proposal(ProposalResponse { id: "prop2".to_string(), choice_count: 4 }))
    );
    assert_eq!(
        query(&ledger, QueryMsg::ProposalById { proposal_id: "prop1".to_string() }),
        Ok(QueryResponse::Proposal(ProposalResponse { id: "prop1".to_string(), choice_count: 4 }))
    );
    assert_eq!(
        query(&ledger, QueryMsg::ProposalCount {}),
        Ok(QueryResponse::Count(CountResponse { count: 2 }))
    );
    assert_eq!(
        query(&ledger, QueryMsg::VoterCount {}),
        Ok(QueryResponse::Count(CountResponse { count: 1 }))
    );
    assert_eq!(
        query(&ledger, QueryMsg::WhoWon { proposal_id: "prop1".to_string() }),
        Ok(QueryResponse::Winner(WinnerResponse { choice: 3, choice_count: Uint256::from_u128(8) }))
    );
    let empty = Ledger::new();
    assert_eq!(query(&empty, QueryMsg::CurrentProposal {}), Err(CustomContractError::EmptyLedger));
    assert_eq!(query(&empty, QueryMsg::VoterCount {}), Err(CustomContractError::EmptyLedger));
    assert_eq!(
        query(&empty, QueryMsg::WhoWon { proposal_id: String::new() }),
        Err(CustomContractError::EmptyLedger)
    );
    assert_eq!(
        query(&empty, QueryMsg::ProposalCount {}),
        Ok(QueryResponse::Count(CountResponse { count: 0 }))
    );
}

#[test]
fn many_submissions_are_each_found_by_their_id() {
    let mut ledger = Ledger::new();
    instantiate(&mut ledger, "creator", InstantiateMsg {}).unwrap();
    for i in 0..300u32 {
        try_add_proposal(&mut ledger, "creator", format!("prop{}", i), (i % 7) as u8, 1, 2)
            .unwrap();
        assert_eq!(query_proposal_count(&ledger).unwrap().count, u64::from(i) + 1);
        assert_eq!(query_current_proposal(&ledger).unwrap().id, format!("prop{}", i));
    }
    for i in 0..300u32 {
        assert_eq!(ledger.find_by_id(&format!("prop{}", i)), Some(i as usize));
        assert_eq!(
            query_proposal_by_id(&ledger, &format!("prop{}", i)),
            Ok(ProposalResponse { id: format!("prop{}", i), choice_count: (i % 7) as u8 })
        );
    }
    // positions past 255 keep their own voters
    register(&mut ledger, "prop0", "A", 1);
    register(&mut ledger, "prop256", "A", 2);
    register(&mut ledger, "prop256", "B", 3);
    assert_eq!(ledger.voters().len(0), 1);
    assert_eq!(ledger.voters().len(256), 2);
}

#[test]
fn voter_count_of_a_named_proposal() {
    let mut ledger = ledger_with(&["prop1", "prop2"]);
    register(&mut ledger, "prop1", "A", 1);
    register(&mut ledger, "prop1", "B", 2);
    register(&mut ledger, "prop2", "A", 3);
    register(&mut ledger, "prop1", "A", 4);
    assert_eq!(query_voter_count_of(&ledger, "prop1"), Ok(CountResponse { count: 2 }));
    assert_eq!(query_voter_count_of(&ledger, "prop2"), Ok(CountResponse { count: 1 }));
    assert_eq!(
        query_voter_count_of(&ledger, "prop3"),
        Err(CustomContractError::UnknownProposal)
    );
    assert_eq!(
        query_voter_count_of(&Ledger::new(), "prop1"),
        Err(CustomContractError::EmptyLedger)
    );
}
