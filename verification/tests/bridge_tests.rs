use bridge::Action;
use bridge::Module;
use bridge::BridgeProposal;
use bridge::Error;
use bridge::Event;
use bridge::ExecutionError;
use bridge::Outcome;

const MESSAGE_ID: &[u8; 67] =
    b"0x5617efe391579685918e26bf24504b9602268c70d8edbf01b5dc8230db92ba65b";
const ETH_ADDRESS: &[u8; 42] = b"0x00b46c2526e227482e2ebb8f4c69e4674d262e75";
const USER1: u64 = 1;
const USER2: u64 = 2;

fn three_validators() -> Module {
    Module::new(vec![USER1, USER2, 3], 30, 2)
}

#[test]
fn token_eth2sub_mint_works() {
    let mut bridge = three_validators();
    assert!(bridge
        .eth2substrate(USER2, &MESSAGE_ID.to_vec(), &ETH_ADDRESS.to_vec(), USER2, 1000)
        .is_ok());
    assert!(bridge
        .eth2substrate(USER1, &MESSAGE_ID.to_vec(), &ETH_ADDRESS.to_vec(), USER2, 1000)
        .is_ok());
    assert_eq!(bridge.balance_of((0, USER2)), 1000);
    assert_eq!(bridge.total_supply(0), 1000);
}

#[test]
fn token_sub2eth_burn_works() {
    let mut bridge = three_validators();
    assert!(bridge
        .eth2substrate(USER2, &MESSAGE_ID.to_vec(), &ETH_ADDRESS.to_vec(), USER2, 1000)
        .is_ok());
    assert!(bridge
        .eth2substrate(USER1, &MESSAGE_ID.to_vec(), &ETH_ADDRESS.to_vec(), USER2, 1000)
        .is_ok());
    assert_eq!(bridge.balance_of((0, USER2)), 1000);
    assert_eq!(bridge.total_supply(0), 1000);
    assert!(bridge
        .substrate2eth(USER1, &MESSAGE_ID.to_vec(), &ETH_ADDRESS.to_vec(), USER2, 500)
        .is_ok());
    assert!(bridge
        .substrate2eth(USER2, &MESSAGE_ID.to_vec(), &ETH_ADDRESS.to_vec(), USER2, 500)
        .is_ok());
    assert_eq!(bridge.balance_of((0, USER2)), 500);
    assert_eq!(bridge.total_supply(0), 500);
}

#[test]
fn mint_fires_once_at_two_of_three_and_late_vote_fails() {
    let mut bridge = three_validators();
    let user_x: u64 = 7;
    let event_a = b"eventA".to_vec();
    let r1 = bridge.eth2substrate(USER1, &event_a, &ETH_ADDRESS.to_vec(), user_x, 1000);
    assert_eq!(r1, Ok((0, Outcome::Pending)));
    let r2 = bridge.eth2substrate(USER2, &event_a, &ETH_ADDRESS.to_vec(), user_x, 1000);
    assert_eq!(r2, Ok((0, Outcome::Accepted)));
    assert_eq!(bridge.balance_of((0, user_x)), 1000);
    assert_eq!(bridge.total_supply(0), 1000);
    // The late third vote hits the closed proposal.
    assert_eq!(bridge.vote(3, 0, true), Err(Error::NotOpen));
    // The ledger was credited exactly once.
    assert_eq!(bridge.balance_of((0, user_x)), 1000);
    // The closed record is immutable: two assents, closed.
    let p = bridge.proposals(0).unwrap();
    assert!(!p.open);
    assert_eq!(p.votes_count, 2);
}

#[test]
fn accepted_flow_emits_events_in_order() {
    let mut bridge = three_validators();
    let user_x: u64 = 7;
    let event_a = b"eventA".to_vec();
    bridge
        .eth2substrate(USER1, &event_a, &ETH_ADDRESS.to_vec(), user_x, 1000)
        .unwrap();
    bridge
        .eth2substrate(USER2, &event_a, &ETH_ADDRESS.to_vec(), user_x, 1000)
        .unwrap();
    let expected = vec![
        Event::ProposeToMint(0, user_x, 1000),
        Event::NewVote(0, USER1, true),
        Event::NewVote(0, USER2, true),
        Event::ProposalIsAccepted(0),
    ];
    assert_eq!(bridge.events().clone(), expected);
}

#[test]
fn resubmission_after_closure_starts_a_new_proposal() {
    let mut bridge = three_validators();
    let event_a = b"eventA".to_vec();
    bridge
        .eth2substrate(USER1, &event_a, &ETH_ADDRESS.to_vec(), 7, 1000)
        .unwrap();
    let r = bridge.eth2substrate(USER2, &event_a, &ETH_ADDRESS.to_vec(), 7, 1000);
    assert_eq!(r, Ok((0, Outcome::Accepted)));
    // The fingerprint is freed on closure: a fresh attestation opens a new
    // proposal rather than touching the closed one.
    let r3 = bridge.eth2substrate(3, &event_a, &ETH_ADDRESS.to_vec(), 7, 1000);
    assert_eq!(r3, Ok((1, Outcome::Pending)));
    assert!(!bridge.proposals(0).unwrap().open);
    assert!(bridge.proposals(1).unwrap().open);
    assert_eq!(bridge.bridge_proposals_count(), 2);
}

#[test]
fn single_vote_expires_after_the_voting_period() {
    let mut bridge = three_validators();
    let event_a = b"eventA".to_vec();
    let r = bridge.eth2substrate(USER1, &event_a, &ETH_ADDRESS.to_vec(), 7, 1000);
    assert_eq!(r, Ok((0, Outcome::Pending)));
    // The proposal is due at block 30; sweeping blocks 0..=30 expires it.
    for _ in 0..31 {
        bridge.on_finalize();
    }
    let p = bridge.proposals(0).unwrap();
    assert!(!p.open);
    assert_eq!(p.votes_count, 1);
    // The action never executed: the ledger is untouched.
    assert_eq!(bridge.balance_of((0, 7)), 0);
    assert_eq!(bridge.total_supply(0), 0);
    assert!(bridge
        .events()
        .iter()
        .any(|e| *e == Event::ProposalIsExpired(0)));
    // Voting on the expired proposal fails and changes nothing.
    assert_eq!(bridge.vote(USER2, 0, true), Err(Error::NotOpen));
    assert_eq!(bridge.proposals(0).unwrap().votes_count, 1);
}

#[test]
fn third_proposal_for_one_deadline_bucket_is_rejected() {
    let mut bridge = three_validators();
    let a1 = bridge.submit(&b"ev1".to_vec(), Action::Ethereum2Substrate(0, 7, 10));
    let a2 = bridge.submit(&b"ev2".to_vec(), Action::Ethereum2Substrate(0, 8, 10));
    assert_eq!(a1, Ok(0));
    assert_eq!(a2, Ok(1));
    let a3 = bridge.submit(&b"ev3".to_vec(), Action::Ethereum2Substrate(0, 9, 10));
    assert_eq!(a3, Err(Error::CapacityExceeded));
    assert_eq!(bridge.bridge_proposals_count(), 2);
}

#[test]
fn full_turnout_below_threshold_rejects_without_execution() {
    // With five validators, two assents are 40% and full turnout at five
    // votes rejects the proposal.
    let mut bridge = Module::new(vec![1, 2, 3, 4, 5], 30, 2);
    let event_b = b"eventB".to_vec();
    let id = bridge
        .submit(&event_b, Action::Ethereum2Substrate(0, 9, 50))
        .unwrap();
    assert_eq!(bridge.vote(1, id, true), Ok(Outcome::Pending));
    assert_eq!(bridge.vote(2, id, true), Ok(Outcome::Pending));
    assert_eq!(bridge.vote(3, id, false), Ok(Outcome::Pending));
    assert_eq!(bridge.vote(4, id, false), Ok(Outcome::Pending));
    assert_eq!(bridge.vote(5, id, false), Ok(Outcome::Rejected));
    let p = bridge.proposals(id).unwrap();
    assert!(!p.open);
    assert_eq!(p.votes_count, 2);
    assert_eq!(bridge.balance_of((0, 9)), 0);
    assert_eq!(bridge.total_supply(0), 0);
    assert!(bridge
        .events()
        .iter()
        .any(|e| *e == Event::ProposalIsRejected(id)));
}

#[test]
fn duplicate_attestations_converge_and_count_once() {
    let mut bridge = three_validators();
    let event_a = b"eventA".to_vec();
    let r1 = bridge.eth2substrate(USER1, &event_a, &ETH_ADDRESS.to_vec(), 7, 1000);
    assert_eq!(r1, Ok((0, Outcome::Pending)));
    // The same validator re-attests: same proposal, no second vote counted.
    let r2 = bridge.eth2substrate(USER1, &event_a, &ETH_ADDRESS.to_vec(), 7, 1000);
    assert_eq!(r2, Ok((0, Outcome::Pending)));
    assert_eq!(bridge.bridge_proposals_count(), 1);
    let p = bridge.proposals(0).unwrap();
    assert_eq!(p.votes_count, 1);
    assert_eq!(p.voters.len(), 1);
    assert_eq!(bridge.total_supply(0), 0);
}

#[test]
fn unknown_caller_is_unauthorized() {
    let mut bridge = three_validators();
    let r = bridge.eth2substrate(99, &b"ev".to_vec(), &ETH_ADDRESS.to_vec(), 7, 10);
    assert_eq!(r, Err(Error::Unauthorized));
    assert_eq!(bridge.bridge_proposals_count(), 0);
    assert_eq!(bridge.vote(99, 0, true), Err(Error::Unauthorized));
}

#[test]
fn vote_on_unknown_proposal_is_not_found() {
    let mut bridge = three_validators();
    assert_eq!(bridge.vote(USER1, 99, true), Err(Error::NotFound));
}

#[test]
fn reregistering_an_open_fingerprint_is_already_open() {
    let mut bridge = three_validators();
    let fp = b"ev".to_vec();
    assert_eq!(bridge.submit(&fp, Action::Ethereum2Substrate(0, 7, 10)), Ok(0));
    let r = bridge.create_proposal(&fp, Action::Ethereum2Substrate(0, 7, 10));
    assert_eq!(r, Err(Error::AlreadyOpen));
}

#[test]
fn deadline_arithmetic_exhaustion_is_overflow() {
    let mut bridge = Module::new(vec![1], u64::MAX, 2);
    bridge.on_finalize();
    let r = bridge.submit(&b"ev".to_vec(), Action::Ethereum2Substrate(0, 7, 10));
    assert_eq!(r, Err(Error::Overflow));
}

#[test]
fn accepted_burn_without_balance_fails_loudly_but_closes() {
    // One validator accepts alone; the ledger refuses the uncovered burn.
    let mut bridge = Module::new(vec![1], 30, 2);
    let r = bridge.substrate2eth(1, &b"ev".to_vec(), &ETH_ADDRESS.to_vec(), 5, 100);
    assert_eq!(
        r,
        Err(Error::ExecutionFailed(ExecutionError::InsufficientBalance))
    );
    // The vote outcome is final: the proposal is closed all the same.
    let p = bridge.proposals(0).unwrap();
    assert!(!p.open);
    assert_eq!(bridge.balance_of((0, 5)), 0);
    assert!(bridge
        .events()
        .iter()
        .any(|e| *e == Event::ProposalIsAccepted(0)));
}

#[test]
fn accepted_mint_overflowing_the_supply_fails_loudly() {
    let mut bridge = Module::new(vec![1], 30, 2);
    let r1 = bridge.eth2substrate(1, &b"ev1".to_vec(), &ETH_ADDRESS.to_vec(), 5, u128::MAX);
    assert_eq!(r1, Ok((0, Outcome::Accepted)));
    assert_eq!(bridge.total_supply(0), u128::MAX);
    let r2 = bridge.eth2substrate(1, &b"ev2".to_vec(), &ETH_ADDRESS.to_vec(), 5, 1);
    assert_eq!(r2, Err(Error::ExecutionFailed(ExecutionError::Overflow)));
    assert_eq!(bridge.total_supply(0), u128::MAX);
}

#[test]
fn threshold_is_integer_arithmetic() {
    let three = three_validators();
    assert!(three.votes_are_enough(2)); // 200 >= 153
    assert!(!three.votes_are_enough(1)); // 100 < 153
    let five = Module::new(vec![1, 2, 3, 4, 5], 30, 2);
    assert!(!five.votes_are_enough(2)); // 200 < 255
    assert!(five.votes_are_enough(3)); // 300 >= 255
    let mut accounts = Vec::new();
    for a in 0..100u64 {
        accounts.push(a);
    }
    let hundred = Module::new(accounts, 30, 2);
    assert!(hundred.votes_are_enough(51)); // 5100 >= 5100, exactly at 51%
    assert!(!hundred.votes_are_enough(50)); // 5000 < 5100
}

#[test]
fn default_proposal_is_an_open_sentinel() {
    let p = BridgeProposal::default();
    assert_eq!(p.proposal_id, 0);
    assert!(p.open);
    assert_eq!(p.votes_count, 0);
    assert_eq!(p.voting_deadline, 0);
    assert!(p.voters.is_empty());
    assert!(matches!(p.action, Action::EmptyAction));
}

#[test]
fn state_surface_reads_back() {
    let mut bridge = three_validators();
    assert_eq!(bridge.validators_count(), 3);
    assert_eq!(bridge.proposals_period_limit(), 30);
    assert_eq!(bridge.open_proposals_per_block(), 2);
    assert_eq!(bridge.block_number(), 0);
    assert_eq!(bridge.validators(0).unwrap().account, USER1);
    assert_eq!(bridge.validators(0).unwrap().validator_id, 0);
    assert!(bridge.validators(3).is_none());
    bridge
        .eth2substrate(USER1, &b"ev".to_vec(), &ETH_ADDRESS.to_vec(), 7, 10)
        .unwrap();
    assert_eq!(bridge.ethereum_address(0), Some(&ETH_ADDRESS.to_vec()));
    assert!(bridge.ethereum_address(1).is_none());
    assert_eq!(bridge.open_bridge_proposals(30), vec![0]);
    assert!(bridge.open_bridge_proposals(29).is_empty());
    bridge.on_finalize();
    assert_eq!(bridge.block_number(), 1);
}
