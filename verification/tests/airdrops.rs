use pylon_gov::airdrop::{
    allocate, calculate_reward_per_token, calculate_rewards, claim, claim_internal, deallocate,
    instantiate as airdrop_instantiate, update,
};
use pylon_gov::fits::{accrual_fits_check, claim_fits, staker_fits_check, update_fits};
use pylon_gov::gov::{Gov, InstantiateMsg};
use pylon_gov::math::Decimal;
use pylon_gov::queries::{query_airdrop, query_airdrops, query_staker, query_stakers, OrderBy};
use pylon_gov::response::{AttrValue, Msg, Response, SelfMsg};
use pylon_gov::state::{Airdrop, AirdropConfig, AirdropState, ContractError, Reward};

use pylon_gov::keys::Address;
const VOTING_TOKEN: &str = "voting_token";
const TEST_CREATOR: &str = "creator";
const TEST_VOTER: &str = "voter1";
const TEST_VOTER_2: &str = "voter2";
const TEST_TOKEN: &str = "reward_token";
const CONTRACT: &str = "cosmos2contract";
const MOCK_TIME: u64 = 1_571_797_419;

/// The account of a test address; its canonical bytes are those of its text.
fn account(s: &str) -> Address {
    Address { human: s.to_string(), canonical: s.as_bytes().to_vec() }
}

fn instantiate() -> Gov {
    let msg = InstantiateMsg {
        voting_token: VOTING_TOKEN.to_string(),
        quorum: Decimal::percent(30),
        threshold: Decimal::percent(50),
        voting_period: 20_000,
        timelock_period: 10_000,
        proposal_deposit: 10_000_000_000,
        snapshot_period: 10,
    };
    Gov::instantiate(TEST_CREATOR.to_string(), msg).unwrap().0
}

fn attrs(resp: &Response) -> Vec<(String, String)> {
    resp.attributes
        .iter()
        .map(|a| {
            let v = match &a.value {
                AttrValue::Word(w) => w.to_string(),
                AttrValue::Text(t) => t.clone(),
                AttrValue::Number(n) => n.to_string(),
                AttrValue::Flag(b) => b.to_string(),
                AttrValue::Ids(ids) => format!("{:?}", ids),
            };
            (a.key.to_string(), v)
        })
        .collect()
}

fn pairs(v: &[(&str, &str)]) -> Vec<(String, String)> {
    v.iter().map(|(k, x)| (k.to_string(), x.to_string())).collect()
}

/// An airdrop paying `amount` of `token` over a day from the mock time.
fn default_airdrop(gov: &mut Gov, token: &str, amount: u128) -> Response {
    airdrop_instantiate(gov, &TEST_CREATOR.to_string(), MOCK_TIME, 86400, token.to_string(), amount).unwrap()
}

/// Stakes `amount` tokens for `addr`, with the contract
/// holding `contract_balance` tokens once they arrived.
fn stake(gov: &mut Gov, addr: &str, amount: u128, contract_balance: u128) {
    gov.stake(&CONTRACT.to_string(), &CONTRACT.to_string(), account(addr), amount, contract_balance).unwrap();
}

fn one() -> Decimal {
    Decimal::one()
}

#[test]
fn airdrop_instantiate_success() {
    let mut gov = instantiate();
    let resp = airdrop_instantiate(&mut gov, &TEST_CREATOR.to_string(), 100, 200, TEST_TOKEN.to_string(), 1000).unwrap();
    assert_eq!(
        attrs(&resp),
        pairs(&[("action", "airdrop_instantiate"), ("airdrop_id", "0"), ("reward_token", TEST_TOKEN), ("reward_amount", "1000")])
    );
    assert_eq!(gov.state.total_airdrop_count, 1);
    assert_eq!(gov.state.airdrop_update_candidates, vec![0]);
    let airdrop = gov.airdrops.get(&0).unwrap();
    assert_eq!(airdrop.config.start, 100);
    assert_eq!(airdrop.config.period, 200);
    assert_eq!(airdrop.config.reward_token, TEST_TOKEN);
    assert_eq!(airdrop.config.reward_rate, Decimal::from_ratio(1000, 200));
}

#[test]
fn airdrop_instantiate_fail_unauthorized() {
    let mut gov = instantiate();
    match airdrop_instantiate(&mut gov, &TEST_VOTER.to_string(), 100, 200, TEST_TOKEN.to_string(), 1000) {
        Ok(_) => panic!("Must return error"),
        Err(ContractError::Unauthorized) => (),
        Err(e) => panic!("Unexpected error: {:?}", e),
    }
}

#[test]
fn airdrop_deallocate_success() {
    let mut gov = instantiate();
    default_airdrop(&mut gov, TEST_TOKEN, 1000);
    allocate(&mut gov, &TEST_CREATOR.to_string(), 0, TEST_VOTER.to_string(), 1234).unwrap();
    let resp = deallocate(&mut gov, &TEST_CREATOR.to_string(), 0, TEST_VOTER.to_string(), 34).unwrap();
    assert_eq!(
        attrs(&resp),
        pairs(&[("action", "airdrop_deallocate"), ("airdrop_id", "0"), ("recipient", TEST_VOTER), ("amount", "34")])
    );
    assert_eq!(Reward::load(&gov, &TEST_VOTER.to_string(), 0).reward, 1200);
}

#[test]
fn airdrop_deallocate_fail_unauthorized() {
    let mut gov = instantiate();
    default_airdrop(&mut gov, TEST_TOKEN, 1000);
    allocate(&mut gov, &TEST_CREATOR.to_string(), 0, TEST_VOTER.to_string(), 1234).unwrap();
    match deallocate(&mut gov, &TEST_VOTER.to_string(), 0, TEST_VOTER.to_string(), 34) {
        Ok(_) => panic!("Must return error"),
        Err(ContractError::Unauthorized) => (),
        Err(e) => panic!("Unexpected error: {:?}", e),
    }
}

#[test]
fn airdrop_update_success() {
    let mut gov = instantiate();
    default_airdrop(&mut gov, TEST_TOKEN, 86400);

    let resp = update(&mut gov, MOCK_TIME, Some(account(TEST_VOTER))).unwrap();
    assert_eq!(attrs(&resp), pairs(&[("action", "airdrop_update"), ("updated", "[0]")]));
    assert_eq!(Reward::load(&gov, &TEST_VOTER.to_string(), 0).reward_per_token_paid, Decimal::zero());

    stake(&mut gov, TEST_VOTER, 100, 100);

    let resp = update(&mut gov, MOCK_TIME + 100, Some(account(TEST_VOTER))).unwrap();
    assert_eq!(attrs(&resp), pairs(&[("action", "airdrop_update"), ("updated", "[0]")]));
    let airdrop = gov.airdrops.get(&0).unwrap();
    assert_eq!(airdrop.state.last_update_time, MOCK_TIME + 100);
    assert_eq!(airdrop.state.reward_per_token_stored, one());
    let reward = Reward::load(&gov, &TEST_VOTER.to_string(), 0);
    assert_eq!(reward.reward, 100);
    assert_eq!(reward.reward_per_token_paid, one());

    let period = gov.airdrops.get(&0).unwrap().config.period;
    let resp = update(&mut gov, MOCK_TIME + period * 2, Some(account(TEST_VOTER))).unwrap();
    assert_eq!(attrs(&resp), pairs(&[("action", "airdrop_update"), ("updated", "[0]")]));
    let airdrop = gov.airdrops.get(&0).unwrap();
    assert_eq!(airdrop.state.last_update_time, MOCK_TIME + period);
    assert_eq!(airdrop.state.reward_per_token_stored, Decimal::from_ratio(86400, 100));
    let reward = Reward::load(&gov, &TEST_VOTER.to_string(), 0);
    assert_eq!(reward.reward, 86400);
    assert_eq!(reward.reward_per_token_paid, Decimal::from_ratio(86400, 100));
}

#[test]
fn airdrop_claim_success() {
    let mut gov = instantiate();
    default_airdrop(&mut gov, TEST_TOKEN, 86400);
    stake(&mut gov, TEST_VOTER, 100, 100);
    update(&mut gov, MOCK_TIME + 86400 * 2, Some(account(TEST_VOTER))).unwrap();

    let resp = claim_internal(&mut gov, &CONTRACT.to_string(), &CONTRACT.to_string(), TEST_VOTER.to_string(), 0).unwrap();
    assert_eq!(
        attrs(&resp),
        pairs(&[("action", "airdrop_claim"), ("target", TEST_VOTER), ("token", TEST_TOKEN), ("amount", "86400")])
    );
    match &resp.messages[0].msg {
        Msg::Transfer { token, recipient, amount } => {
            assert_eq!(token, TEST_TOKEN);
            assert_eq!(recipient, TEST_VOTER);
            assert_eq!(*amount, 86400);
        },
        other => panic!("unexpected message {:?}", other),
    }
    assert_eq!(Reward::load(&gov, &TEST_VOTER.to_string(), 0).reward, 0);
}

#[test]
fn stakers_filter_zero_reward() {
    let mut gov = instantiate();
    default_airdrop(&mut gov, TEST_TOKEN, 86400);
    stake(&mut gov, TEST_VOTER, 100, 100);
    update(&mut gov, MOCK_TIME, Some(account(TEST_VOTER))).unwrap();

    let resp = query_staker(&gov, &account(TEST_VOTER), MOCK_TIME, 100).unwrap();
    assert!(resp.claimable_airdrop.is_empty());

    let resp = query_staker(&gov, &account(TEST_VOTER), MOCK_TIME + 86400 * 2, 100).unwrap();
    assert_eq!(resp.claimable_airdrop.len(), 1);
    assert_eq!(resp.claimable_airdrop[0].0, 0);
    assert_eq!(resp.claimable_airdrop[0].1.token, TEST_TOKEN);
    assert_eq!(resp.claimable_airdrop[0].1.amount, 86400);
}

// ----- further cases -----

#[test]
fn deallocate_more_than_reward_is_refused() {
    let mut gov = instantiate();
    default_airdrop(&mut gov, TEST_TOKEN, 1000);
    allocate(&mut gov, &TEST_CREATOR.to_string(), 0, TEST_VOTER.to_string(), 10).unwrap();
    let err = deallocate(&mut gov, &TEST_CREATOR.to_string(), 0, TEST_VOTER.to_string(), 11).unwrap_err();
    assert_eq!(err, ContractError::InsufficientReward);
    assert_eq!(Reward::load(&gov, &TEST_VOTER.to_string(), 0).reward, 10);
    let err = allocate(&mut gov, &TEST_VOTER.to_string(), 0, TEST_VOTER.to_string(), 1).unwrap_err();
    assert_eq!(err, ContractError::Unauthorized);
}

#[test]
fn allocate_then_deallocate_restores_reward() {
    let mut gov = instantiate();
    default_airdrop(&mut gov, TEST_TOKEN, 1000);
    allocate(&mut gov, &TEST_CREATOR.to_string(), 0, TEST_VOTER.to_string(), 7).unwrap();
    let before = Reward::load(&gov, &TEST_VOTER.to_string(), 0);
    allocate(&mut gov, &TEST_CREATOR.to_string(), 0, TEST_VOTER.to_string(), 500).unwrap();
    deallocate(&mut gov, &TEST_CREATOR.to_string(), 0, TEST_VOTER.to_string(), 500).unwrap();
    assert_eq!(Reward::load(&gov, &TEST_VOTER.to_string(), 0), before);
}

#[test]
fn update_twice_at_same_time_changes_nothing() {
    let mut gov = instantiate();
    default_airdrop(&mut gov, TEST_TOKEN, 86400);
    default_airdrop(&mut gov, TEST_TOKEN, 1000);
    stake(&mut gov, TEST_VOTER, 100, 100);
    update(&mut gov, MOCK_TIME + 500, Some(account(TEST_VOTER))).unwrap();
    let state0 = gov.airdrops.get(&0).unwrap().state;
    let state1 = gov.airdrops.get(&1).unwrap().state;
    let reward0 = Reward::load(&gov, &TEST_VOTER.to_string(), 0);
    assert_eq!(reward0.reward, 500);
    let resp = update(&mut gov, MOCK_TIME + 500, Some(account(TEST_VOTER))).unwrap();
    assert_eq!(attrs(&resp), pairs(&[("action", "airdrop_update"), ("updated", "[0, 1]")]));
    assert_eq!(gov.airdrops.get(&0).unwrap().state, state0);
    assert_eq!(gov.airdrops.get(&1).unwrap().state, state1);
    assert_eq!(Reward::load(&gov, &TEST_VOTER.to_string(), 0), reward0);
}

#[test]
fn update_with_missing_candidate_fails() {
    let mut gov = instantiate();
    default_airdrop(&mut gov, TEST_TOKEN, 86400);
    gov.state.airdrop_update_candidates.push(5);
    let err = update(&mut gov, MOCK_TIME + 10, None).unwrap_err();
    assert_eq!(err, ContractError::AirdropNotFound);
    assert_eq!(gov.airdrops.get(&0).unwrap().state.last_update_time, MOCK_TIME);
}

#[test]
fn claim_asks_for_nonzero_rewards_only() {
    let mut gov = instantiate();
    default_airdrop(&mut gov, TEST_TOKEN, 86400);
    default_airdrop(&mut gov, "other_token", 1000);
    stake(&mut gov, TEST_VOTER, 100, 100);
    // a reward record in both airdrops, none of them accrued yet
    update(&mut gov, MOCK_TIME, Some(account(TEST_VOTER))).unwrap();
    // by then both rewards have accrued
    let resp = claim(&gov, MOCK_TIME + 86400 * 2, account(TEST_VOTER), None).unwrap();
    assert_eq!(resp.messages.len(), 3);
    assert!(matches!(&resp.messages[0].msg, Msg::ToSelf(SelfMsg::AirdropUpdate { target: Some(t) }) if t == TEST_VOTER));
    // the latest airdrop first
    assert!(matches!(&resp.messages[1].msg, Msg::ToSelf(SelfMsg::ClaimInternal { sender, airdrop_id: 1 }) if sender == TEST_VOTER));
    assert!(matches!(&resp.messages[2].msg, Msg::ToSelf(SelfMsg::ClaimInternal { sender, airdrop_id: 0 }) if sender == TEST_VOTER));

    // a staker without rewards asks only for the update
    let resp = claim(&gov, MOCK_TIME + 86400 * 2, account(TEST_VOTER), Some(account(TEST_VOTER_2))).unwrap();
    assert_eq!(resp.messages.len(), 1);
    assert!(matches!(&resp.messages[0].msg, Msg::ToSelf(SelfMsg::AirdropUpdate { target: Some(t) }) if t == TEST_VOTER_2));
}

#[test]
fn claim_internal_only_from_contract() {
    let mut gov = instantiate();
    default_airdrop(&mut gov, TEST_TOKEN, 86400);
    let err = claim_internal(&mut gov, &CONTRACT.to_string(), &TEST_VOTER.to_string(), TEST_VOTER.to_string(), 0).unwrap_err();
    assert_eq!(err, ContractError::Unauthorized);
}

#[test]
fn reward_formulas() {
    // nothing staked: nothing accrues
    assert_eq!(calculate_reward_per_token(200, 0, one(), 100).unwrap(), Decimal::zero());
    // 100 seconds at 1 token per second over 50 shares: 2 per share
    assert_eq!(calculate_reward_per_token(200, 50, one(), 100).unwrap(), Decimal::from_ratio(2, 1));
    // a timestamp before the last update accrues nothing
    assert_eq!(calculate_reward_per_token(50, 50, one(), 100).unwrap(), Decimal::zero());

    let airdrop = Airdrop {
        config: AirdropConfig { start: 0, period: 1000, reward_token: TEST_TOKEN.to_string(), reward_rate: one() },
        state: AirdropState { last_update_time: 100, reward_per_token_stored: Decimal::from_ratio(3, 1) },
    };
    let paid = Reward { reward: 5, reward_per_token_paid: one() };
    // stored 3, paid 1, plus 100 seconds over 50 shares: 4 per share, times 10 shares, plus 5
    assert_eq!(calculate_rewards(200, 50, 10, &airdrop, &paid).unwrap(), 45);
    assert_eq!(calculate_rewards(100, 50, 10, &airdrop, &paid).unwrap(), 25);
}

#[test]
fn airdrop_time_window() {
    let airdrop = Airdrop {
        config: AirdropConfig { start: 100, period: 50, reward_token: TEST_TOKEN.to_string(), reward_rate: one() },
        state: AirdropState { last_update_time: 100, reward_per_token_stored: Decimal::zero() },
    };
    assert_eq!(airdrop.finish(), 150);
    assert_eq!(airdrop.applicable_time(10), 100);
    assert_eq!(airdrop.applicable_time(120), 120);
    assert_eq!(airdrop.applicable_time(500), 150);
    let d = Airdrop::default();
    assert_eq!(d.config.period, 0);
    assert_eq!(d.config.reward_token, "");
}

#[test]
fn airdrop_and_staker_queries() {
    let mut gov = instantiate();
    default_airdrop(&mut gov, TEST_TOKEN, 86400);
    default_airdrop(&mut gov, "other_token", 1000);
    let a = query_airdrop(&gov, 1);
    assert_eq!(a.reward_token, "other_token");
    assert_eq!(a.period, 86400);
    let all = query_airdrops(&gov, None, None, Some(OrderBy::Asc));
    assert_eq!(all.iter().map(|(id, _)| *id).collect::<Vec<u64>>(), vec![0, 1]);
    let desc = query_airdrops(&gov, Some(1), None, None);
    assert_eq!(desc.iter().map(|(id, _)| *id).collect::<Vec<u64>>(), vec![0]);

    stake(&mut gov, TEST_VOTER, 100, 100);
    stake(&mut gov, TEST_VOTER_2, 300, 400);
    let stakers = query_stakers(&gov, None, None, Some(OrderBy::Asc), MOCK_TIME, 400).unwrap();
    assert_eq!(stakers.len(), 2);
    assert_eq!(stakers[0].0, TEST_VOTER);
    assert_eq!(stakers[0].1.balance, 100);
    assert_eq!(stakers[1].0, TEST_VOTER_2);
    assert_eq!(stakers[1].1.share, 300);
    gov.state.total_deposit = 10;
    let err = query_stakers(&gov, None, None, None, MOCK_TIME, 5).err();
    assert!(err.is_some());
    let err = query_staker(&gov, &account(TEST_VOTER), MOCK_TIME, 5).err().unwrap();
    assert_eq!(
        err,
        ContractError::Std(pylon_gov::state::StdError::SubOverflow { minuend: 5, subtrahend: 10 })
    );
}

#[test]
fn overflow_checks_before_airdrop_actions() {
    let mut gov = instantiate();
    let owner = TEST_CREATOR.to_string();
    // only the owner's requests are looked at
    assert!(gov.airdrop_instantiate_fits(&TEST_VOTER.to_string(), 0, 100));
    // a zero period divides by zero
    assert!(!gov.airdrop_instantiate_fits(&owner, 0, 100));
    assert!(gov.airdrop_instantiate_fits(&owner, 86400, 100));
    // the reward rate would not fit
    assert!(!gov.airdrop_instantiate_fits(&owner, 1, u128::MAX));

    default_airdrop(&mut gov, TEST_TOKEN, 86400);
    stake(&mut gov, TEST_VOTER, 100, 100);
    let a = gov.airdrops.get(&0).unwrap();
    assert!(accrual_fits_check(a, MOCK_TIME + 100, 100));
    assert!(update_fits(&gov, MOCK_TIME + 100, &None));
    assert!(claim_fits(&gov, &account(TEST_VOTER), MOCK_TIME + 100));
    assert!(staker_fits_check(&gov, &account(TEST_VOTER), MOCK_TIME + 100, 100));
    assert!(staker_fits_check(&gov, &account(TEST_VOTER), MOCK_TIME + 100, u128::MAX));
    // with a share above the total, the tokens it stands for would not fit
    gov.state.total_share = 50;
    assert!(!staker_fits_check(&gov, &account(TEST_VOTER), MOCK_TIME + 100, u128::MAX));
    gov.state.total_share = 100;

    assert!(gov.allocate_fits(&owner, 0, &TEST_VOTER.to_string(), 10));
    allocate(&mut gov, &owner, 0, TEST_VOTER.to_string(), u128::MAX - 5).unwrap();
    assert!(!gov.allocate_fits(&owner, 0, &TEST_VOTER.to_string(), 10));
    assert!(gov.allocate_fits(&owner, 0, &TEST_VOTER.to_string(), 5));
}

#[test]
fn reward_per_token_grows_with_time() {
    let mut last = Decimal::zero();
    for t in [50u64, 100, 101, 150, 200, 1000] {
        let r = calculate_reward_per_token(t, 50, one(), 100).unwrap();
        assert!(r.atomics >= last.atomics);
        last = r;
    }
    assert_eq!(last, Decimal::from_ratio(18, 1));
}
