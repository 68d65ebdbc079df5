use vote_ledger::contract::{
    query_current_proposal, query_voter_count, try_cast_vote, try_register_voter,
};
use vote_ledger::errors::CustomContractError;
use vote_ledger::ledger::{namespace_of, Ledger};
use vote_ledger::msg::CountResponse;
use vote_ledger::namespaced_map::Slot;
use vote_ledger::state::{Proposal, ProposalVoter};
use vote_ledger::tally::tally;
use vote_ledger::uint256::Uint256;

fn amounts(values: [u128; 4]) -> [Uint256; 4] {
    values.map(Uint256::from_u128)
}

fn proposal(id: &str, counters: [u128; 4]) -> Proposal {
    Proposal {
        id: id.to_string(),
        choice_count: 4,
        start_time: 1,
        end_time: 2,
        counters: amounts(counters),
    }
}

fn voter(tag: u64, proposal_id: &str, addr: &str, power: u128, has_voted: bool) -> Slot<ProposalVoter> {
    Slot {
        tag,
        key: addr.to_string(),
        value: ProposalVoter {
            proposal_id: proposal_id.to_string(),
            eth_addr: addr.to_string(),
            scrt_addr: String::new(),
            power: Uint256::from_u128(power),
            has_voted,
        },
    }
}

#[test]
fn new_proposal_has_zero_counters() {
    let p = Proposal::new("prop1".to_string(), 7, 1_000_000_101, 1_000_000_202);
    assert_eq!(p.id, "prop1");
    assert_eq!(p.choice_count, 7);
    assert_eq!(p.start_time, 1_000_000_101);
    assert_eq!(p.end_time, 1_000_000_202);
    assert_eq!(p.counters, amounts([0, 0, 0, 0]));
}

#[test]
fn registered_voter_has_not_voted() {
    let v = ProposalVoter::register(
        "prop1".to_string(),
        "0xBEEF".to_string(),
        "secretvoter1".to_string(),
        Uint256::from_u128(100),
    );
    assert_eq!(
        v,
        ProposalVoter {
            proposal_id: "prop1".to_string(),
            eth_addr: "0xBEEF".to_string(),
            scrt_addr: "secretvoter1".to_string(),
            power: Uint256::from_u128(100),
            has_voted: false,
        }
    );
}

#[test]
fn tally_picks_the_greatest_counter() {
    assert_eq!(tally(&proposal("p", [0, 250, 100, 0])), (1, Uint256::from_u128(250)));
    assert_eq!(tally(&proposal("p", [1, 2, 3, 4])), (3, Uint256::from_u128(4)));
    assert_eq!(tally(&proposal("p", [9, 2, 3, 4])), (0, Uint256::from_u128(9)));
}

#[test]
fn tally_gives_a_tie_to_the_lowest_index() {
    assert_eq!(tally(&proposal("p", [0, 0, 0, 0])), (0, Uint256::zero()));
    assert_eq!(tally(&proposal("p", [5, 5, 5, 5])), (0, Uint256::from_u128(5)));
    assert_eq!(tally(&proposal("p", [1, 7, 7, 2])), (1, Uint256::from_u128(7)));
    assert_eq!(tally(&proposal("p", [0, 3, 8, 8])), (2, Uint256::from_u128(8)));
}

#[test]
fn tally_compares_all_256_bits() {
    let mut high = [0u8; 32];
    high[0] = 1;
    let mut p = proposal("p", [u128::MAX, 0, 0, 3]);
    p.counters[2] = Uint256::from_be_bytes(high);
    assert_eq!(tally(&p), (2, Uint256::from_be_bytes(high)));
}

#[test]
fn namespace_tag_is_the_position() {
    assert_eq!(namespace_of(0), 0);
    assert_eq!(namespace_of(255), 255);
    assert_eq!(namespace_of(256), 256);
    assert_eq!(namespace_of(70_000), 70_000);
}

#[test]
fn new_ledger_is_empty() {
    let ledger = Ledger::new();
    assert_eq!(ledger.owner(), &None);
    assert_eq!(ledger.proposals().len(), 0);
    assert!(ledger.voters().slots().is_empty());
    assert_eq!(ledger.find_by_id("prop1"), None);
    assert_eq!(ledger.find_by_id(""), None);
}

#[test]
fn restore_gives_back_what_was_read_out() {
    let ledger = Ledger::restore(
        Some("creator".to_string()),
        vec![proposal("prop1", [0, 250, 100, 0]), proposal("prop2", [0, 0, 0, 0])],
        vec![
            voter(0, "prop1", "A", 100, true),
            voter(0, "prop1", "B", 250, true),
            voter(1, "prop2", "A", 5, false),
        ],
    )
    .expect("the parts are those of a ledger");
    assert_eq!(ledger.owner(), &Some("creator".to_string()));
    assert_eq!(
        ledger.proposals().records(),
        &vec![proposal("prop1", [0, 250, 100, 0]), proposal("prop2", [0, 0, 0, 0])]
    );
    assert_eq!(ledger.voters().slots().len(), 3);
    assert_eq!(ledger.voters().get(0, &"B".to_string()), Some(&voter(0, "prop1", "B", 250, true).value));
    assert_eq!(query_current_proposal(&ledger).unwrap().id, "prop2");
    assert_eq!(query_voter_count(&ledger), Ok(CountResponse { count: 1 }));
}

#[test]
fn restored_ledger_goes_on_where_the_other_stopped() {
    let mut ledger = Ledger::restore(
        Some("creator".to_string()),
        vec![proposal("prop1", [0, 0, 100, 0])],
        vec![voter(0, "prop1", "A", 100, true), voter(0, "prop1", "B", 250, false)],
    )
    .unwrap();
    let again = try_cast_vote(&mut ledger, "prop1".to_string(), "A".to_string(), String::new(), 1);
    assert_eq!(again, Err(CustomContractError::AlreadyVoted));
    let first = try_cast_vote(&mut ledger, "prop1".to_string(), "B".to_string(), String::new(), 2);
    assert_eq!(first, Ok(()));
    assert_eq!(ledger.proposals().get(0).unwrap().counters, amounts([0, 0, 350, 0]));
    let by_other = try_register_voter(
        &mut ledger,
        "someone".to_string().as_str(),
        "prop1".to_string(),
        "C".to_string(),
        String::new(),
        Uint256::from_u128(1),
    );
    assert_eq!(by_other, Err(CustomContractError::Unauthorized));
}

#[test]
fn restore_refuses_a_voter_without_a_proposal() {
    assert!(Ledger::restore(None, vec![], vec![voter(0, "prop1", "A", 1, false)]).is_none());
    assert!(Ledger::restore(
        None,
        vec![proposal("prop1", [0, 0, 0, 0])],
        vec![voter(0, "prop1", "A", 1, false), voter(1, "prop2", "A", 1, false)]
    )
    .is_none());
    assert!(Ledger::restore(
        None,
        vec![proposal("prop1", [0, 0, 0, 0])],
        vec![voter(u64::MAX, "prop1", "A", 1, false)]
    )
    .is_none());
}

#[test]
fn restore_refuses_two_records_of_one_address() {
    assert!(Ledger::restore(
        None,
        vec![proposal("prop1", [0, 0, 0, 0])],
        vec![voter(0, "prop1", "A", 1, false), voter(0, "prop1", "A", 2, false)]
    )
    .is_none());
}

#[test]
fn restore_of_nothing_is_the_new_ledger() {
    let ledger = Ledger::restore(None, vec![], vec![]).unwrap();
    assert_eq!(ledger.owner(), &None);
    assert_eq!(ledger.proposals().len(), 0);
    assert!(ledger.voters().slots().is_empty());
}
