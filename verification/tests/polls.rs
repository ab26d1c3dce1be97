use pylon_gov::entry::Cw20HookMsg;
use pylon_gov::gov::{Gov, InstantiateMsg};
use pylon_gov::math::Decimal;
use pylon_gov::queries::{
    query_poll, query_polls_with_category_filter, query_polls_with_status_filter, query_staker,
    query_voters, OrderBy,
};
use pylon_gov::response::{AttrValue, Msg, Response, SelfMsg};
use pylon_gov::state::{
    ContractError, ExecuteData, PollCategory, PollStatus, StdError, TokenManager, VoteOption,
    VoterInfo,
};

use pylon_gov::keys::Address;
const VOTING_TOKEN: &str = "voting_token";
const TEST_CREATOR: &str = "creator";
const TEST_VOTER: &str = "voter1";
const TEST_VOTER_2: &str = "voter2";
const TEST_VOTER_3: &str = "voter3";
const CONTRACT: &str = "cosmos2contract";
const MOCK_HEIGHT: u64 = 12_345;
const MOCK_TIME: u64 = 1_571_797_419;
const DEPOSIT: u128 = 10_000_000_000;
const VOTING_PERIOD: u64 = 20_000;
const SHORT_STRING: &str = "X";

/// The account of a test address; its canonical bytes are those of its text.
fn account(s: &str) -> Address {
    Address { human: s.to_string(), canonical: s.as_bytes().to_vec() }
}

fn long_string() -> String {
    format!("L{}NG", "O".repeat(1100))
}

fn default_msg() -> InstantiateMsg {
    InstantiateMsg {
        voting_token: VOTING_TOKEN.to_string(),
        quorum: Decimal::percent(30),
        threshold: Decimal::percent(50),
        voting_period: VOTING_PERIOD,
        timelock_period: 10_000,
        proposal_deposit: DEPOSIT,
        snapshot_period: 10,
    }
}

fn instantiate() -> Gov {
    Gov::instantiate(TEST_CREATOR.to_string(), default_msg()).unwrap().0
}

fn attrs(resp: &Response) -> Vec<(String, String)> {
    resp.attributes
        .iter()
        .map(|a| {
            let v = match &a.value {
                AttrValue::Word(w) => w.to_string(),
                AttrValue::Text(t) => t.clone(),
                AttrValue::Number(n) => n.to_string(),
                AttrValue::Flag(b) => b.to_string(),
                AttrValue::Ids(ids) => format!("{:?}", ids),
            };
            (a.key.to_string(), v)
        })
        .collect()
}

fn pairs(v: &[(&str, &str)]) -> Vec<(String, String)> {
    v.iter().map(|(k, x)| (k.to_string(), x.to_string())).collect()
}

fn create(gov: &mut Gov, title: &str, category: PollCategory, description: &str, link: Option<String>, deposit: u128, height: u64) -> Result<Response, ContractError> {
    gov.create(
        TEST_CREATOR.to_string(),
        deposit,
        title.to_string(),
        category,
        description.to_string(),
        link,
        None,
        height,
    )
}

fn create_default(gov: &mut Gov, height: u64) -> Response {
    create(gov, "test", PollCategory::Core, "test", None, DEPOSIT, height).unwrap()
}

/// Stakes `amount` tokens for `addr`, with the contract
/// holding `contract_balance` tokens once they arrived: the first staker's
/// share is the amount, later ones get the amount's part of the shares.
fn stake(gov: &mut Gov, addr: &str, amount: u128, contract_balance: u128) {
    gov.stake(&CONTRACT.to_string(), &CONTRACT.to_string(), account(addr), amount, contract_balance).unwrap();
}

fn with_stake(gov: &mut Gov, poll_id: u64, addr: &str, vote: VoteOption, amount: u128, contract_balance: u128) {
    stake(gov, addr, amount, contract_balance);
    gov.cast_vote(account(addr), poll_id, vote, amount, MOCK_HEIGHT, contract_balance).unwrap();
}

fn assert_cast_vote_success(voter: &str, amount: u128, poll_id: u64, vote: &str, resp: &Response) {
    assert_eq!(
        attrs(resp),
        pairs(&[
            ("action", "cast_vote"),
            ("poll_id", &poll_id.to_string()),
            ("amount", &amount.to_string()),
            ("voter", voter),
            ("vote_option", vote),
        ])
    );
}

fn assert_create_poll_result(poll_id: u64, end_height: u64, creator: &str, resp: &Response, gov: &Gov) {
    assert_eq!(
        attrs(resp),
        pairs(&[
            ("action", "create_poll"),
            ("creator", creator),
            ("poll_id", &poll_id.to_string()),
            ("end_height", &end_height.to_string()),
        ])
    );
    assert_eq!(gov.state.poll_count, 1);
    assert_eq!(gov.state.total_share, 0);
    assert_eq!(gov.state.total_deposit, DEPOSIT);
    assert_eq!(gov.state.total_airdrop_count, 0);
    assert!(gov.state.airdrop_update_candidates.is_empty());
}

fn count_with_status(gov: &Gov, s: PollStatus) -> usize {
    query_polls_with_status_filter(gov, Some(s), None, None, Some(OrderBy::Desc)).unwrap().len()
}

fn assert_end_poll_success(gov: &Gov, resp: &Response, poll_id: u64, proposal_deposit: u128) {
    assert_eq!(
        attrs(resp),
        pairs(&[("action", "end_poll"), ("poll_id", &poll_id.to_string()), ("rejected_reason", ""), ("passed", "true")])
    );
    assert_eq!(resp.messages.len(), 1);
    match &resp.messages[0].msg {
        Msg::Transfer { token, recipient, amount } => {
            assert_eq!(token, VOTING_TOKEN);
            assert_eq!(recipient, TEST_CREATOR);
            assert_eq!(*amount, proposal_deposit);
        },
        other => panic!("unexpected message {:?}", other),
    }
    assert_eq!(query_poll(gov, poll_id).unwrap().status, PollStatus::Passed);
    assert_eq!(count_with_status(gov, PollStatus::Rejected), 0);
    assert_eq!(count_with_status(gov, PollStatus::InProgress), 0);
    assert_eq!(count_with_status(gov, PollStatus::Passed), 1);
}

fn assert_end_poll_fail(gov: &Gov, resp: &Response, poll_id: u64, rejected_reason: &str) {
    assert_eq!(
        attrs(resp),
        pairs(&[
            ("action", "end_poll"),
            ("poll_id", &poll_id.to_string()),
            ("rejected_reason", rejected_reason),
            ("passed", "false"),
        ])
    );
    assert_eq!(query_poll(gov, poll_id).unwrap().status, PollStatus::Rejected);
    assert_eq!(count_with_status(gov, PollStatus::Rejected), 1);
    assert_eq!(count_with_status(gov, PollStatus::InProgress), 0);
    assert_eq!(count_with_status(gov, PollStatus::Passed), 0);
}

#[test]
fn poll_create_success() {
    let mut gov = instantiate();
    let resp = create_default(&mut gov, MOCK_HEIGHT);
    assert_create_poll_result(1, MOCK_HEIGHT + VOTING_PERIOD, TEST_CREATOR, &resp, &gov);
}

fn expect_generic_err(r: Result<Response, ContractError>, text: &str) {
    match r {
        Ok(_) => panic!("Must return error"),
        Err(ContractError::Std(StdError::GenericErr { msg })) => assert_eq!(msg, text),
        Err(_) => panic!("Unknown error"),
    }
}

#[test]
fn fail_invalid_title() {
    let mut gov = instantiate();
    expect_generic_err(create(&mut gov, SHORT_STRING, PollCategory::Core, "test", None, DEPOSIT, MOCK_HEIGHT), "Title too short");
    expect_generic_err(create(&mut gov, &long_string(), PollCategory::Core, "test", None, DEPOSIT, MOCK_HEIGHT), "Title too long");
}

#[test]
fn fail_invalid_description() {
    let mut gov = instantiate();
    expect_generic_err(create(&mut gov, "test", PollCategory::Core, SHORT_STRING, None, DEPOSIT, MOCK_HEIGHT), "Description too short");
    expect_generic_err(create(&mut gov, "test", PollCategory::Core, &long_string(), None, DEPOSIT, MOCK_HEIGHT), "Description too long");
}

#[test]
fn fail_invalid_link() {
    let mut gov = instantiate();
    expect_generic_err(
        create(&mut gov, "test", PollCategory::Core, "test", Some("http://hih".to_string()), DEPOSIT, MOCK_HEIGHT),
        "Link too short",
    );
    expect_generic_err(
        create(&mut gov, "test", PollCategory::Core, "test", Some(long_string()), DEPOSIT, MOCK_HEIGHT),
        "Link too long",
    );
}

#[test]
fn fail_invalid_deposit() {
    let mut gov = instantiate();
    match create(&mut gov, "test", PollCategory::Core, "test", None, DEPOSIT - 1, MOCK_HEIGHT) {
        Ok(_) => panic!("Must return error"),
        Err(ContractError::InsufficientProposalDeposit(amount)) => assert_eq!(amount, DEPOSIT),
        Err(_) => panic!("Unknown error"),
    }
    assert_eq!(gov.state.poll_count, 0);
}

#[test]
fn poll_cast_vote_success() {
    let mut gov = instantiate();
    create_default(&mut gov, MOCK_HEIGHT);
    stake(&mut gov, TEST_VOTER, 11, 11 + DEPOSIT);
    let resp = gov.cast_vote(account(TEST_VOTER), 1, VoteOption::Yes, 10, MOCK_HEIGHT, 11 + DEPOSIT).unwrap();
    assert_cast_vote_success(TEST_VOTER, 10, 1, "yes", &resp);

    let staker = query_staker(&gov, &account(TEST_VOTER), MOCK_TIME, 22 + DEPOSIT).unwrap();
    assert_eq!(staker.balance, 22);
    assert_eq!(staker.share, 11);
    assert_eq!(staker.locked_balance, vec![(1u64, VoterInfo { vote: VoteOption::Yes, balance: 10 })]);
    assert!(staker.claimable_airdrop.is_empty());

    let voters = query_voters(&gov, 1, None, None, Some(OrderBy::Desc)).unwrap();
    assert_eq!(voters.len(), 1);
    assert_eq!(voters[0].voter, TEST_VOTER);
    assert_eq!(voters[0].vote, VoteOption::Yes);
    assert_eq!(voters[0].balance, 10);
}

fn run_vote_with_snapshot(create_height: u64) {
    let mut gov = instantiate();
    create_default(&mut gov, create_height);
    stake(&mut gov, TEST_VOTER, 11, 11 + DEPOSIT);
    let resp = gov.cast_vote(account(TEST_VOTER), 1, VoteOption::Yes, 10, create_height, 11 + DEPOSIT).unwrap();
    assert_cast_vote_success(TEST_VOTER, 10, 1, "yes", &resp);

    let poll = query_poll(&gov, 1).unwrap();
    assert_eq!(poll.staked_amount, None);
    let end_height = poll.end_height;

    stake(&mut gov, TEST_VOTER_2, 11, 22 + DEPOSIT);
    let resp = gov.cast_vote(account(TEST_VOTER_2), 1, VoteOption::Yes, 10, end_height - 9, 22 + DEPOSIT).unwrap();
    assert_cast_vote_success(TEST_VOTER_2, 10, 1, "yes", &resp);
    assert_eq!(query_poll(&gov, 1).unwrap().staked_amount, Some(22));

    let err = gov.snapshot(1, end_height - 9, 22 + DEPOSIT).unwrap_err();
    assert_eq!(err, ContractError::SnapshotAlreadyOccurred);

    stake(&mut gov, TEST_VOTER_3, 11, 33 + DEPOSIT);
    let resp = gov.cast_vote(account(TEST_VOTER_3), 1, VoteOption::Yes, 10, end_height - 8, 33 + DEPOSIT).unwrap();
    assert_cast_vote_success(TEST_VOTER_3, 10, 1, "yes", &resp);
    assert_eq!(query_poll(&gov, 1).unwrap().staked_amount, Some(22));
}

#[test]
fn success_with_snapshot() {
    run_vote_with_snapshot(MOCK_HEIGHT);
}

#[test]
fn fail_not_enough_staked() {
    let mut gov = instantiate();
    create_default(&mut gov, MOCK_HEIGHT);
    stake(&mut gov, TEST_VOTER, 11, 11 + DEPOSIT);
    match gov.cast_vote(account(TEST_VOTER), 1, VoteOption::Yes, 12, MOCK_HEIGHT, 11 + DEPOSIT) {
        Ok(_) => panic!("Must return error"),
        Err(ContractError::InsufficientStaked) => (),
        Err(e) => panic!("Unexpected error: {:?}", e),
    }
}

#[test]
fn fail_already_voted() {
    let mut gov = instantiate();
    create_default(&mut gov, MOCK_HEIGHT);
    stake(&mut gov, TEST_VOTER, 11, 11 + DEPOSIT);
    gov.cast_vote(account(TEST_VOTER), 1, VoteOption::Yes, 5, MOCK_HEIGHT, 11 + DEPOSIT).unwrap();
    match gov.cast_vote(account(TEST_VOTER), 1, VoteOption::Yes, 5, MOCK_HEIGHT, 11 + DEPOSIT) {
        Ok(_) => panic!("Must return error"),
        Err(ContractError::AlreadyVoted) => (),
        Err(e) => panic!("Unexpected error: {:?}", e),
    }
}

#[test]
fn fail_poll_not_found() {
    let mut gov = instantiate();
    match gov.cast_vote(account(TEST_VOTER), 1, VoteOption::Yes, 5, MOCK_HEIGHT, DEPOSIT) {
        Ok(_) => panic!("Must return error"),
        Err(ContractError::PollNotFound) => (),
        Err(e) => panic!("Unexpected error: {:?}", e),
    }
}

#[test]
fn end_poll() {
    let mut gov = instantiate();
    const STAKE_AMOUNT: u128 = 1000;
    create_default(&mut gov, MOCK_HEIGHT);
    let end_height = MOCK_HEIGHT + VOTING_PERIOD;
    with_stake(&mut gov, 1, TEST_VOTER, VoteOption::Yes, STAKE_AMOUNT, STAKE_AMOUNT + DEPOSIT);

    let resp = gov.end(1, end_height, STAKE_AMOUNT + DEPOSIT).unwrap();
    assert_end_poll_success(&gov, &resp, 1, DEPOSIT);

    // the deposit was paid back: the contract holds the stake alone
    assert!(query_voters(&gov, 1, None, None, None).unwrap().is_empty());
    let staker = query_staker(&gov, &account(TEST_VOTER), MOCK_TIME, STAKE_AMOUNT).unwrap();
    assert_eq!(staker.balance, STAKE_AMOUNT);
    assert_eq!(staker.share, STAKE_AMOUNT);
    assert!(staker.locked_balance.is_empty());
    assert!(staker.claimable_airdrop.is_empty());

    // the vote is still stored
    let voter = gov.voters.get(&1).unwrap().get(&account(TEST_VOTER)).unwrap();
    assert_eq!(*voter, VoterInfo { vote: VoteOption::Yes, balance: STAKE_AMOUNT });
    let manager = TokenManager::load(&gov, &account(TEST_VOTER));
    assert_eq!(manager.locked_balance, vec![(1u64, VoterInfo { vote: VoteOption::Yes, balance: STAKE_AMOUNT })]);
}

#[test]
fn end_poll_with_controlled_quorum() {
    let mut gov = instantiate();
    const STAKE_AMOUNT: u128 = 1000;
    create_default(&mut gov, MOCK_HEIGHT);
    let end_height = MOCK_HEIGHT + VOTING_PERIOD;
    with_stake(&mut gov, 1, TEST_VOTER, VoteOption::Yes, STAKE_AMOUNT, STAKE_AMOUNT + DEPOSIT);
    with_stake(&mut gov, 1, TEST_VOTER_2, VoteOption::Yes, 8 * STAKE_AMOUNT, 10 * STAKE_AMOUNT + DEPOSIT);

    let resp = gov.end(1, end_height, 10 * STAKE_AMOUNT + DEPOSIT).unwrap();
    assert_end_poll_success(&gov, &resp, 1, DEPOSIT);

    let poll = query_poll(&gov, 1).unwrap();
    assert_eq!(poll.total_balance_at_end_poll, Some(10 * STAKE_AMOUNT));
    assert_eq!(poll.yes_votes, 9 * STAKE_AMOUNT);
    let actual_staked_weight = (10 * STAKE_AMOUNT + DEPOSIT).checked_sub(DEPOSIT).unwrap();
    assert_eq!(actual_staked_weight, 10 * STAKE_AMOUNT);
}

#[test]
fn end_poll_zero_quorum() {
    let mut gov = instantiate();
    const STAKE_AMOUNT: u128 = 1000;
    create_default(&mut gov, MOCK_HEIGHT);
    let end_height = MOCK_HEIGHT + VOTING_PERIOD;
    stake(&mut gov, TEST_VOTER, STAKE_AMOUNT, STAKE_AMOUNT + DEPOSIT);
    let resp = gov.end(1, end_height, STAKE_AMOUNT + DEPOSIT).unwrap();
    assert_end_poll_fail(&gov, &resp, 1, "Quorum not reached");
}

#[test]
fn end_poll_quorum_rejected() {
    let mut gov = instantiate();
    const STAKE_AMOUNT: u128 = 1000;
    create_default(&mut gov, MOCK_HEIGHT);
    let end_height = MOCK_HEIGHT + VOTING_PERIOD;
    with_stake(&mut gov, 1, TEST_VOTER, VoteOption::Yes, STAKE_AMOUNT, 100 * STAKE_AMOUNT + DEPOSIT);
    let resp = gov.end(1, end_height, 100 * STAKE_AMOUNT + DEPOSIT).unwrap();
    assert_end_poll_fail(&gov, &resp, 1, "Quorum not reached");
}

#[test]
fn end_poll_quorum_rejected_nothing_staked() {
    let mut gov = instantiate();
    create_default(&mut gov, MOCK_HEIGHT);
    let end_height = MOCK_HEIGHT + VOTING_PERIOD;
    let resp = gov.end(1, end_height, DEPOSIT).unwrap();
    assert_end_poll_fail(&gov, &resp, 1, "Quorum not reached");
    assert!(resp.messages.is_empty());
}

#[test]
fn end_poll_nay_rejected() {
    let mut gov = instantiate();
    const STAKE_AMOUNT: u128 = 1000;
    create_default(&mut gov, MOCK_HEIGHT);
    let end_height = MOCK_HEIGHT + VOTING_PERIOD;
    with_stake(&mut gov, 1, TEST_VOTER, VoteOption::No, STAKE_AMOUNT, STAKE_AMOUNT + DEPOSIT);
    let resp = gov.end(1, end_height, STAKE_AMOUNT + DEPOSIT).unwrap();
    assert_end_poll_fail(&gov, &resp, 1, "Threshold not reached");
}

#[test]
fn fails_end_poll_before_end_height() {
    let mut gov = instantiate();
    create_default(&mut gov, MOCK_HEIGHT);
    match gov.end(1, MOCK_HEIGHT, DEPOSIT) {
        Ok(_) => panic!("Must return error"),
        Err(ContractError::PollVotingPeriod) => (),
        Err(e) => panic!("Unexpected error: {:?}", e),
    }
}

#[test]
fn poll_execute_success() {
    let mut gov = instantiate();
    const STAKE_AMOUNT: u128 = 1000;
    create_default(&mut gov, MOCK_HEIGHT);
    let end_height = MOCK_HEIGHT + VOTING_PERIOD;
    with_stake(&mut gov, 1, TEST_VOTER, VoteOption::Yes, STAKE_AMOUNT, STAKE_AMOUNT + DEPOSIT);
    gov.end(1, end_height, STAKE_AMOUNT + DEPOSIT).unwrap();
}

#[test]
fn poll_snapshot_success() {
    let mut gov = instantiate();
    create_default(&mut gov, MOCK_HEIGHT);
    let resp = gov.snapshot(1, MOCK_HEIGHT + VOTING_PERIOD - 10, 11 + DEPOSIT).unwrap();
    assert_eq!(attrs(&resp), pairs(&[("action", "snapshot_poll"), ("poll_id", "1"), ("staked_amount", "11")]));
}

#[test]
fn fail_height() {
    let mut gov = instantiate();
    create_default(&mut gov, MOCK_HEIGHT);
    match gov.snapshot(1, MOCK_HEIGHT, 11 + DEPOSIT) {
        Ok(_) => panic!("Must return error"),
        Err(ContractError::SnapshotHeight) => (),
        Err(e) => panic!("Unexpected error: {:?}", e),
    }
}

#[test]
fn fail_already_occurred() {
    let mut gov = instantiate();
    create_default(&mut gov, MOCK_HEIGHT);
    gov.snapshot(1, MOCK_HEIGHT + VOTING_PERIOD - 10, 11 + DEPOSIT).unwrap();
    match gov.snapshot(1, MOCK_HEIGHT + VOTING_PERIOD - 5, 11 + DEPOSIT) {
        Ok(_) => panic!("Must return error"),
        Err(ContractError::SnapshotAlreadyOccurred) => (),
        Err(e) => panic!("Unexpected error: {:?}", e),
    }
}

fn create_through_receive(gov: &mut Gov, title: &str, category: PollCategory, description: &str, link: Option<String>, execute_msgs: Option<Vec<ExecuteData>>, height: u64) -> Response {
    gov.receive(
        &VOTING_TOKEN.to_string(),
        TEST_CREATOR.to_string(),
        DEPOSIT,
        Some(Cw20HookMsg::CreatePoll {
            title: title.to_string(),
            category,
            description: description.to_string(),
            link,
            execute_msgs,
        }),
        height,
    )
    .unwrap()
}

fn stake_through_receive(gov: &mut Gov, addr: &str, amount: u128, contract_balance: u128) {
    let resp = gov.receive(&VOTING_TOKEN.to_string(), addr.to_string(), amount, Some(Cw20HookMsg::Stake), MOCK_HEIGHT).unwrap();
    assert_eq!(resp.messages.len(), 2);
    match &resp.messages[1].msg {
        Msg::ToSelf(SelfMsg::StakeInternal { sender, amount: a }) => {
            assert_eq!(sender, addr);
            assert_eq!(*a, amount);
        },
        other => panic!("unexpected message {:?}", other),
    }
    stake(gov, addr, amount, contract_balance);
}

#[test]
fn snapshot_poll() {
    let stake_amount = 1000u128;
    let mut gov = instantiate();
    let resp = create_through_receive(&mut gov, "test", PollCategory::Core, "test", None, None, MOCK_HEIGHT);
    assert_eq!(
        attrs(&resp),
        pairs(&[("action", "create_poll"), ("creator", TEST_CREATOR), ("poll_id", "1"), ("end_height", "32345")])
    );

    // the contract holds the proposal deposit
    let err = gov.snapshot(1, MOCK_HEIGHT, DEPOSIT).unwrap_err();
    assert_eq!(ContractError::SnapshotHeight, err);

    let height = 32345 - 10;
    let resp = gov.snapshot(1, height, stake_amount + DEPOSIT).unwrap();
    assert_eq!(
        attrs(&resp),
        pairs(&[("action", "snapshot_poll"), ("poll_id", "1"), ("staked_amount", &stake_amount.to_string())])
    );

    let err = gov.snapshot(1, height, stake_amount + DEPOSIT).unwrap_err();
    assert_eq!(ContractError::SnapshotAlreadyOccurred, err);
}

#[test]
fn cast_vote() {
    let mut gov = instantiate();
    let resp = create_through_receive(&mut gov, "test", PollCategory::Core, "test", None, None, 0);
    assert_create_poll_result(1, VOTING_PERIOD, TEST_CREATOR, &resp, &gov);

    stake_through_receive(&mut gov, TEST_VOTER, 11, 11 + DEPOSIT);
    let amount = 10u128;
    let resp = gov.cast_vote(account(TEST_VOTER), 1, VoteOption::Yes, amount, 0, 11 + DEPOSIT).unwrap();
    assert_cast_vote_success(TEST_VOTER, amount, 1, "yes", &resp);

    let staker = query_staker(&gov, &account(TEST_VOTER), MOCK_TIME, 22 + DEPOSIT).unwrap();
    assert_eq!(staker.balance, 22);
    assert_eq!(staker.share, 11);
    assert_eq!(staker.locked_balance, vec![(1u64, VoterInfo { vote: VoteOption::Yes, balance: amount })]);

    let voters = query_voters(&gov, 1, None, None, Some(OrderBy::Desc)).unwrap();
    assert_eq!(voters.len(), 1);
    assert_eq!(voters[0].voter, TEST_VOTER);
    assert_eq!(voters[0].vote, VoteOption::Yes);
    assert_eq!(voters[0].balance, amount);

    let voters = query_voters(&gov, 1, Some(account(TEST_VOTER)), None, None).unwrap();
    assert_eq!(voters.len(), 0);
}

#[test]
fn cast_vote_with_snapshot() {
    run_vote_with_snapshot(0);
}

#[test]
fn fails_cast_vote_not_enough_staked() {
    let mut gov = instantiate();
    let resp = create_through_receive(&mut gov, "test", PollCategory::Core, "test", None, None, 0);
    assert_create_poll_result(1, VOTING_PERIOD, TEST_CREATOR, &resp, &gov);
    stake_through_receive(&mut gov, TEST_VOTER, 10, 10 + DEPOSIT);
    match gov.cast_vote(account(TEST_VOTER), 1, VoteOption::Yes, 11, 0, 10 + DEPOSIT) {
        Ok(_) => panic!("Must return error"),
        Err(ContractError::InsufficientStaked) => (),
        Err(e) => panic!("Unexpected error: {:?}", e),
    }
}

#[test]
fn fails_cast_vote_twice() {
    let mut gov = instantiate();
    let resp = create_through_receive(&mut gov, "test", PollCategory::Core, "test", None, None, 0);
    assert_create_poll_result(1, VOTING_PERIOD, TEST_CREATOR, &resp, &gov);
    stake_through_receive(&mut gov, TEST_VOTER, 11, 11 + DEPOSIT);
    let resp = gov.cast_vote(account(TEST_VOTER), 1, VoteOption::Yes, 1, 0, 11 + DEPOSIT).unwrap();
    assert_cast_vote_success(TEST_VOTER, 1, 1, "yes", &resp);
    match gov.cast_vote(account(TEST_VOTER), 1, VoteOption::Yes, 1, 0, 11 + DEPOSIT) {
        Ok(_) => panic!("Must return error"),
        Err(ContractError::AlreadyVoted) => (),
        Err(e) => panic!("Unexpected error: {:?}", e),
    }
}

#[test]
fn fails_cast_vote_without_poll() {
    let mut gov = instantiate();
    match gov.cast_vote(account(TEST_VOTER), 0, VoteOption::Yes, 1, MOCK_HEIGHT, 11) {
        Ok(_) => panic!("Must return error"),
        Err(ContractError::PollNotFound) => (),
        Err(e) => panic!("Unexpected error: {:?}", e),
    }
}

fn burn_msg(amount: u128) -> Vec<u8> {
    cosmwasm_std::to_binary(&cw20::Cw20ExecuteMsg::Burn { amount: cosmwasm_std::Uint128::new(amount) })
        .unwrap()
        .to_vec()
}

fn query_execute_data() -> Vec<ExecuteData> {
    vec![
        ExecuteData { order: 1, contract: VOTING_TOKEN.to_string(), msg: burn_msg(123) },
        ExecuteData { order: 3, contract: VOTING_TOKEN.to_string(), msg: burn_msg(1) },
        ExecuteData { order: 2, contract: VOTING_TOKEN.to_string(), msg: burn_msg(12) },
    ]
}

fn same_data(a: &Option<Vec<ExecuteData>>, b: &Option<Vec<ExecuteData>>) -> bool {
    match (a, b) {
        (None, None) => true,
        (Some(x), Some(y)) => {
            x.len() == y.len()
                && x.iter().zip(y.iter()).all(|(p, q)| p.order == q.order && p.contract == q.contract && p.msg == q.msg)
        },
        _ => false,
    }
}

struct Expected {
    id: u64,
    title: &'static str,
    category: PollCategory,
    description: &'static str,
    link: Option<String>,
    execute_data: Option<Vec<ExecuteData>>,
}

fn assert_polls(actual: &[pylon_gov::state::Poll], expected: &[&Expected]) {
    assert_eq!(actual.len(), expected.len());
    for (p, e) in actual.iter().zip(expected.iter()) {
        assert_eq!(p.id, e.id);
        assert_eq!(p.creator, TEST_CREATOR);
        assert_eq!(p.status, PollStatus::InProgress);
        assert_eq!(p.end_height, 20000);
        assert_eq!(p.title, e.title);
        assert_eq!(p.category, e.category);
        assert_eq!(p.description, e.description);
        assert_eq!(p.link, e.link);
        assert_eq!(p.deposit_amount, DEPOSIT);
        assert!(same_data(&p.execute_data, &e.execute_data));
        assert_eq!(p.yes_votes, 0);
        assert_eq!(p.no_votes, 0);
        assert_eq!(p.staked_amount, None);
        assert_eq!(p.total_balance_at_end_poll, None);
    }
}

#[test]
fn query_polls() {
    let mut gov = instantiate();
    let poll_11 = Expected { id: 1, title: "test", category: PollCategory::Core, description: "test", link: Some("http://google.com".to_string()), execute_data: Some(query_execute_data()) };
    let poll_12 = Expected { id: 2, title: "test", category: PollCategory::Gateway, description: "test", link: Some("http://google.com".to_string()), execute_data: Some(query_execute_data()) };
    let poll_21 = Expected { id: 3, title: "test2", category: PollCategory::Core, description: "test2", link: None, execute_data: None };
    let poll_22 = Expected { id: 4, title: "test2", category: PollCategory::Gateway, description: "test2", link: None, execute_data: None };
    for e in [&poll_11, &poll_12, &poll_21, &poll_22] {
        let data = e.execute_data.as_ref().map(|v| v.iter().map(|d| ExecuteData { order: d.order, contract: d.contract.clone(), msg: d.msg.clone() }).collect());
        create_through_receive(&mut gov, e.title, e.category, e.description, e.link.clone(), data, 0);
    }

    let polls = pylon_gov::queries::query_polls(&gov, None, None, Some(OrderBy::Asc));
    assert_polls(&polls, &[&poll_11, &poll_12, &poll_21, &poll_22]);

    let polls = pylon_gov::queries::query_polls(&gov, Some(2), None, Some(OrderBy::Asc));
    assert_polls(&polls, &[&poll_21, &poll_22]);

    let polls = pylon_gov::queries::query_polls(&gov, Some(3), None, Some(OrderBy::Desc));
    assert_polls(&polls, &[&poll_12, &poll_11]);

    let polls = query_polls_with_category_filter(&gov, Some(PollCategory::Core), None, None, Some(OrderBy::Asc)).unwrap();
    assert_polls(&polls, &[&poll_11, &poll_21]);

    let polls = query_polls_with_category_filter(&gov, Some(PollCategory::Core), None, None, Some(OrderBy::Desc)).unwrap();
    assert_polls(&polls, &[&poll_21, &poll_11]);

    let polls = query_polls_with_status_filter(&gov, Some(PollStatus::InProgress), Some(2), None, Some(OrderBy::Asc)).unwrap();
    assert_polls(&polls, &[&poll_21, &poll_22]);

    let polls = query_polls_with_status_filter(&gov, Some(PollStatus::Passed), None, None, None).unwrap();
    assert!(polls.is_empty());
}

#[test]
fn poll_not_found() {
    let gov = instantiate();
    match query_poll(&gov, 1) {
        Err(ContractError::PollNotFound) => (),
        Err(e) => panic!("Unexpected error: {:?}", e),
        _ => panic!("Must return error"),
    }
}

// ----- further cases -----

fn passed_poll_with_messages() -> Gov {
    let mut gov = instantiate();
    let data = vec![
        ExecuteData { order: 3, contract: "c3".to_string(), msg: burn_msg(1) },
        ExecuteData { order: 1, contract: "c1".to_string(), msg: burn_msg(123) },
        ExecuteData { order: 2, contract: "c2".to_string(), msg: burn_msg(12) },
    ];
    create_through_receive(&mut gov, "test", PollCategory::Gateway, "test", None, Some(data), MOCK_HEIGHT);
    with_stake(&mut gov, 1, TEST_VOTER, VoteOption::Yes, 1000, 1000 + DEPOSIT);
    gov.end(1, MOCK_HEIGHT + VOTING_PERIOD, 1000 + DEPOSIT).unwrap();
    gov
}

#[test]
fn execute_waits_for_timelock_and_passed_status() {
    let mut gov = passed_poll_with_messages();
    let err = gov.execute(1, MOCK_HEIGHT + VOTING_PERIOD).unwrap_err();
    assert_eq!(err, ContractError::TimelockNotExpired);
    let err = gov.execute(2, MOCK_HEIGHT + VOTING_PERIOD).unwrap_err();
    assert_eq!(err, ContractError::Std(StdError::NotFound { kind: pylon_gov::state::Record::Poll }));

    let resp = gov.execute(1, MOCK_HEIGHT + VOTING_PERIOD + 10_000).unwrap();
    assert_eq!(gov.tmp_poll_id, Some(1));
    assert_eq!(resp.messages.len(), 1);
    assert_eq!(resp.messages[0].reply_on_error, Some(1));
    assert!(matches!(resp.messages[0].msg, Msg::ToSelf(SelfMsg::ExecuteMsgs { poll_id: 1 })));

    let mut rejected = instantiate();
    create_default(&mut rejected, MOCK_HEIGHT);
    rejected.end(1, MOCK_HEIGHT + VOTING_PERIOD, DEPOSIT).unwrap();
    assert_eq!(rejected.execute(1, u64::MAX / 2).unwrap_err(), ContractError::PollNotPassed);
}

#[test]
fn execute_messages_sends_in_order() {
    let mut gov = passed_poll_with_messages();
    let err = gov.execute_messages(&CONTRACT.to_string(), &TEST_VOTER.to_string(), 1).unwrap_err();
    assert_eq!(err, ContractError::Unauthorized);

    let resp = gov.execute_messages(&CONTRACT.to_string(), &CONTRACT.to_string(), 1).unwrap();
    let contracts: Vec<String> = resp
        .messages
        .iter()
        .map(|m| match &m.msg {
            Msg::Wasm { contract, .. } => contract.clone(),
            other => panic!("unexpected message {:?}", other),
        })
        .collect();
    assert_eq!(contracts, vec!["c1".to_string(), "c2".to_string(), "c3".to_string()]);
    assert_eq!(attrs(&resp), pairs(&[("action", "execute_poll"), ("poll_id", "1")]));
    assert_eq!(query_poll(&gov, 1).unwrap().status, PollStatus::Executed);
    assert_eq!(count_with_status(&gov, PollStatus::Executed), 1);
    assert_eq!(count_with_status(&gov, PollStatus::Passed), 0);
}

#[test]
fn reply_fails_the_executing_poll() {
    let mut gov = passed_poll_with_messages();
    assert_eq!(gov.reply(1).unwrap_err(), ContractError::Std(StdError::NotFound { kind: pylon_gov::state::Record::TempPollId }));
    gov.execute(1, MOCK_HEIGHT + VOTING_PERIOD + 10_000).unwrap();
    assert_eq!(gov.reply(7).unwrap_err(), ContractError::InvalidReplyId);

    let resp = gov.reply(1).unwrap();
    assert_eq!(attrs(&resp), pairs(&[("action", "fail_poll"), ("poll_id", "1")]));
    assert_eq!(query_poll(&gov, 1).unwrap().status, PollStatus::Failed);
    assert_eq!(count_with_status(&gov, PollStatus::Failed), 1);
    assert_eq!(count_with_status(&gov, PollStatus::Passed), 0);
}

#[test]
fn receive_checks_token_and_message() {
    let mut gov = instantiate();
    let err = gov.receive(&"other_token".to_string(), TEST_VOTER.to_string(), 5, Some(Cw20HookMsg::Stake), MOCK_HEIGHT).unwrap_err();
    assert_eq!(err, ContractError::Unauthorized);
    let err = gov.receive(&VOTING_TOKEN.to_string(), TEST_VOTER.to_string(), 5, None, MOCK_HEIGHT).unwrap_err();
    assert_eq!(err, ContractError::DataShouldBeGiven);

    let resp = gov.receive(&VOTING_TOKEN.to_string(), TEST_VOTER.to_string(), 5, Some(Cw20HookMsg::Stake), MOCK_HEIGHT).unwrap();
    match &resp.messages[0].msg {
        Msg::ToSelf(SelfMsg::AirdropUpdate { target }) => assert_eq!(target.as_deref(), Some(TEST_VOTER)),
        other => panic!("unexpected message {:?}", other),
    }
    assert_eq!(gov.state.total_share, 0);
}

#[test]
fn unstake_updates_rewards_first() {
    let resp = pylon_gov::entry::unstake(TEST_VOTER.to_string(), Some(7)).unwrap();
    assert_eq!(resp.messages.len(), 2);
    assert!(matches!(&resp.messages[0].msg, Msg::ToSelf(SelfMsg::AirdropUpdate { target: Some(t) }) if t == TEST_VOTER));
    assert!(matches!(&resp.messages[1].msg, Msg::ToSelf(SelfMsg::UnstakeInternal { sender, amount: Some(7) }) if sender == TEST_VOTER));
}

#[test]
fn second_vote_refused_after_poll_closes() {
    let mut gov = instantiate();
    create_default(&mut gov, MOCK_HEIGHT);
    stake(&mut gov, TEST_VOTER, 11, 11 + DEPOSIT);
    gov.cast_vote(account(TEST_VOTER), 1, VoteOption::No, 3, MOCK_HEIGHT, 11 + DEPOSIT).unwrap();
    let err = gov.cast_vote(account(TEST_VOTER), 1, VoteOption::No, 3, MOCK_HEIGHT + VOTING_PERIOD + 1, 11 + DEPOSIT).unwrap_err();
    assert_eq!(err, ContractError::PollNotInProgress);
    assert_eq!(query_poll(&gov, 1).unwrap().no_votes, 3);
}

#[test]
fn deposit_is_held_until_end() {
    let mut gov = instantiate();
    create_default(&mut gov, MOCK_HEIGHT);
    create_default(&mut gov, MOCK_HEIGHT);
    assert_eq!(gov.state.total_deposit, 2 * DEPOSIT);
    gov.end(1, MOCK_HEIGHT + VOTING_PERIOD, 2 * DEPOSIT).unwrap();
    assert_eq!(gov.state.total_deposit, DEPOSIT);
}

#[test]
fn status_filter_reports_missing_poll() {
    let mut gov = instantiate();
    create_default(&mut gov, MOCK_HEIGHT);
    gov.status_index.index(9, PollStatus::InProgress);
    let err = query_polls_with_status_filter(&gov, None, None, None, Some(OrderBy::Asc)).unwrap_err();
    assert_eq!(err, ContractError::Std(StdError::NotFound { kind: pylon_gov::state::Record::Poll }));
    let manager = TokenManager::default();
    assert_eq!(manager.share, 0);
}

#[test]
fn display_names() {
    assert_eq!(PollStatus::InProgress.to_string(), "InProgress");
    assert_eq!(PollStatus::Failed.to_string(), "Failed");
    assert_eq!(PollCategory::Uncategorized.to_string(), "None");
    assert_eq!(PollCategory::Gateway.to_string(), "Gateway");
    assert_eq!(VoteOption::No.to_string(), "no");
}

#[test]
fn overflow_checks_before_poll_actions() {
    let mut gov = instantiate();
    // a deposit below the minimum is refused before any arithmetic
    assert!(gov.create_fits_check(DEPOSIT - 1, u64::MAX));
    assert!(gov.create_fits_check(DEPOSIT, MOCK_HEIGHT));
    // the end height would overflow
    assert!(!gov.create_fits_check(DEPOSIT, u64::MAX - VOTING_PERIOD + 1));
    assert!(gov.create_fits_check(DEPOSIT, u64::MAX - VOTING_PERIOD));
    // the total deposit would overflow
    gov.state.total_deposit = u128::MAX - DEPOSIT + 1;
    assert!(!gov.create_fits_check(DEPOSIT, MOCK_HEIGHT));
    gov.state.total_deposit = 0;

    create_default(&mut gov, MOCK_HEIGHT);
    // a poll that has not passed never overflows on execution
    assert!(gov.execute_fits(1));
    assert!(gov.execute_fits(2));
    // a snapshot after the end height would underflow
    assert!(gov.snapshot_fits(1, MOCK_HEIGHT + VOTING_PERIOD, DEPOSIT));
    assert!(!gov.snapshot_fits(1, MOCK_HEIGHT + VOTING_PERIOD + 1, DEPOSIT));
    // a contract balance below the deposits makes the snapshot fail on its own
    assert!(gov.snapshot_fits(1, MOCK_HEIGHT + VOTING_PERIOD + 1, DEPOSIT - 1));
}

#[test]
fn deposit_total_is_what_open_polls_hold() {
    let mut gov = instantiate();
    let held = |g: &Gov| -> u128 {
        (1..=g.state.poll_count)
            .filter_map(|id| g.polls.get(&id))
            .filter(|p| p.status == PollStatus::InProgress)
            .map(|p| p.deposit_amount)
            .sum()
    };
    assert_eq!(gov.state.total_deposit, held(&gov));
    create(&mut gov, "first", PollCategory::Core, "description", None, DEPOSIT, MOCK_HEIGHT).unwrap();
    create(&mut gov, "second", PollCategory::Core, "description", None, DEPOSIT + 7, MOCK_HEIGHT).unwrap();
    assert_eq!(gov.state.total_deposit, 2 * DEPOSIT + 7);
    assert_eq!(gov.state.total_deposit, held(&gov));
    gov.end(2, MOCK_HEIGHT + VOTING_PERIOD, 2 * DEPOSIT + 7).unwrap();
    assert_eq!(gov.state.total_deposit, DEPOSIT);
    assert_eq!(gov.state.total_deposit, held(&gov));
}

#[test]
fn staking_deposit_success() {
    let mut gov = instantiate();
    let resp = gov.stake(&CONTRACT.to_string(), &CONTRACT.to_string(), account(TEST_VOTER), 11, 11).unwrap();
    assert_eq!(attrs(&resp)[2], ("share".to_string(), "11".to_string()));
    assert_eq!(gov.state.poll_count, 0);
    assert_eq!(gov.state.total_share, 11);
    assert_eq!(gov.state.total_deposit, 0);
    assert_eq!(gov.state.total_airdrop_count, 0);
    assert!(gov.state.airdrop_update_candidates.is_empty());
}

#[test]
fn staking_deposit_fail_unauthorized() {
    let mut gov = instantiate();
    match gov.stake(&CONTRACT.to_string(), &TEST_VOTER.to_string(), account(TEST_VOTER), 11, 11) {
        Ok(_) => panic!("Must return error"),
        Err(ContractError::Unauthorized) => (),
        Err(e) => panic!("Unexpected error: {:?}", e),
    }
}

#[test]
fn fail_insufficient_funds() {
    let mut gov = instantiate();
    match gov.stake(&CONTRACT.to_string(), &CONTRACT.to_string(), account(TEST_VOTER), 0, 0) {
        Ok(_) => panic!("Must return error"),
        Err(ContractError::InsufficientFunds) => (),
        Err(e) => panic!("Unexpected error: {:?}", e),
    }
}

#[test]
fn stake_shares_follow_staked_balance() {
    let mut gov = instantiate();
    // the first stake gets its amount as share
    let resp = gov.stake(&CONTRACT.to_string(), &CONTRACT.to_string(), account(TEST_VOTER), 100, 100).unwrap();
    assert_eq!(
        attrs(&resp),
        pairs(&[("action", "staking"), ("sender", TEST_VOTER), ("share", "100"), ("amount", "100")])
    );
    // with 200 tokens behind 100 shares, 100 more tokens get 50 shares
    let resp = gov.stake(&CONTRACT.to_string(), &CONTRACT.to_string(), account(TEST_VOTER), 100, 300).unwrap();
    assert_eq!(attrs(&resp)[2], ("share".to_string(), "50".to_string()));
    assert_eq!(TokenManager::load(&gov, &account(TEST_VOTER)).share, 150);
    assert_eq!(gov.state.total_share, 150);
    // a balance below the deposits and the amount is refused, changing nothing
    let err = gov.stake(&CONTRACT.to_string(), &CONTRACT.to_string(), account(TEST_VOTER_2), 10, 5).unwrap_err();
    assert_eq!(err, ContractError::Std(StdError::SubOverflow { minuend: 5, subtrahend: 10 }));
    assert_eq!(gov.state.total_share, 150);
    assert!(gov.stake_fits_check(&account(TEST_VOTER_2), 10, 5));
    assert!(!gov.stake_fits_check(&account(TEST_VOTER_2), u128::MAX, u128::MAX));
}

#[test]
fn voters_page_in_canonical_order() {
    let mut gov = instantiate();
    create_default(&mut gov, MOCK_HEIGHT);
    // the text order of these voters is the reverse of their canonical order
    let a = Address { human: "aaa".to_string(), canonical: vec![3] };
    let b = Address { human: "bbb".to_string(), canonical: vec![2] };
    let c = Address { human: "ccc".to_string(), canonical: vec![1] };
    let mut balance = DEPOSIT;
    for who in [&a, &b, &c] {
        balance += 10;
        gov.stake(&CONTRACT.to_string(), &CONTRACT.to_string(), who.copy(), 10, balance).unwrap();
    }
    for who in [&a, &b, &c] {
        gov.cast_vote(who.copy(), 1, VoteOption::Yes, 5, MOCK_HEIGHT, balance).unwrap();
    }
    let voters = query_voters(&gov, 1, None, None, Some(OrderBy::Asc)).unwrap();
    let names: Vec<&str> = voters.iter().map(|v| v.voter.as_str()).collect();
    assert_eq!(names, vec!["ccc", "bbb", "aaa"]);
    let voters = query_voters(&gov, 1, Some(b.copy()), None, Some(OrderBy::Asc)).unwrap();
    assert_eq!(voters.len(), 1);
    assert_eq!(voters[0].voter, "aaa");
    let stakers = query_staker_names(&gov, balance);
    assert_eq!(stakers, vec!["aaa".to_string(), "bbb".to_string(), "ccc".to_string()]);
}

fn query_staker_names(gov: &Gov, balance: u128) -> Vec<String> {
    pylon_gov::queries::query_stakers(gov, None, None, None, MOCK_TIME, balance)
        .unwrap()
        .into_iter()
        .map(|(name, _)| name)
        .collect()
}

#[test]
fn end_succeeds_with_deposits_held() {
    let mut gov = instantiate();
    create_default(&mut gov, MOCK_HEIGHT);
    create_default(&mut gov, MOCK_HEIGHT);
    let resp = gov.end(1, MOCK_HEIGHT + VOTING_PERIOD, 2 * DEPOSIT);
    assert!(resp.is_ok());
    assert_eq!(gov.polls.get(&1).unwrap().status, PollStatus::Rejected);
    assert_eq!(gov.state.total_deposit, DEPOSIT);
    assert_eq!(count_with_status(&gov, PollStatus::InProgress), 1);
    assert_eq!(count_with_status(&gov, PollStatus::Rejected), 1);
}
