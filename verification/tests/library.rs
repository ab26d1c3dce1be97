use pylon_gov::entry::{migrate_state, LegacyPoll, LegacyState, MIGRATE_POLL_LIMIT};
use pylon_gov::gov::{Gov, InstantiateMsg};
use pylon_gov::math::{mul_decimal, mul_high, multiply_ratio, ratio_fits, Decimal};
use pylon_gov::queries::query_limit;
use pylon_gov::range::{calc_range_end, calc_range_end_addr, calc_range_start, calc_range_start_addr, to_be_bytes};
use pylon_gov::sort::sort_execute_data;
use pylon_gov::staking;
use pylon_gov::state::{ExecuteData, Poll, PollCategory, PollStatus, StdError};
use pylon_gov::store::OrdMap;
use pylon_gov::strategy;

fn instantiate() -> Gov {
    let msg = InstantiateMsg {
        voting_token: "voting_token".to_string(),
        quorum: Decimal::percent(30),
        threshold: Decimal::percent(50),
        voting_period: 20_000,
        timelock_period: 10_000,
        proposal_deposit: 100,
        snapshot_period: 10,
    };
    Gov::instantiate("creator".to_string(), msg).unwrap().0
}

#[test]
fn range_bounds_of_ids() {
    assert_eq!(calc_range_start(None), None);
    assert_eq!(calc_range_end(None), None);
    assert_eq!(calc_range_start(Some(1)), Some(vec![0, 0, 0, 0, 0, 0, 0, 1, 1]));
    assert_eq!(calc_range_end(Some(258)), Some(vec![0, 0, 0, 0, 0, 0, 1, 2]));
    assert_eq!(to_be_bytes(0x0102_0304_0506_0708), vec![1, 2, 3, 4, 5, 6, 7, 8]);
    assert_eq!(to_be_bytes(u64::MAX), vec![255; 8]);
    // byte order on the keys is the order of the ids
    assert!(to_be_bytes(255) < to_be_bytes(256));
    assert!(calc_range_start(Some(255)).unwrap() < to_be_bytes(256));
    assert!(to_be_bytes(255) < calc_range_start(Some(255)).unwrap());
}

#[test]
fn range_bounds_of_addresses() {
    assert_eq!(calc_range_start_addr(None), None);
    assert_eq!(calc_range_start_addr(Some(vec![7, 8])), Some(vec![7, 8, 1]));
    assert_eq!(calc_range_end_addr(Some(vec![7, 8])), Some(vec![7, 8]));
}

#[test]
fn store_reads_in_key_order() {
    let mut m: OrdMap<u64, u32> = OrdMap::new();
    for k in [5u64, 1, 9, 3, 7] {
        m.insert(k, (k * 10) as u32);
    }
    assert_eq!(m.len(), 5);
    assert_eq!(m.get(&3), Some(&30));
    assert_eq!(m.get(&4), None);
    m.insert(3, 33);
    assert_eq!(m.get(&3), Some(&33));
    let up: Vec<u64> = m.range(&Some(3), 2, true).iter().map(|e| e.0).collect();
    assert_eq!(up, vec![5, 7]);
    let down: Vec<u64> = m.range(&Some(7), 10, false).iter().map(|e| e.0).collect();
    assert_eq!(down, vec![5, 3, 1]);
    let all: Vec<u64> = m.range(&None, 10, true).iter().map(|e| e.0).collect();
    assert_eq!(all, vec![1, 3, 5, 7, 9]);
    assert_eq!(m.take(&5), Some(50));
    assert_eq!(m.take(&5), None);
    assert!(!m.contains_key(&5));

    let mut names: OrdMap<String, u8> = OrdMap::new();
    names.insert("b".to_string(), 2);
    names.insert("ab".to_string(), 1);
    names.insert("c".to_string(), 3);
    let after: Vec<String> = names.range(&Some("ab".to_string()), 10, true).iter().map(|e| e.0.clone()).collect();
    assert_eq!(after, vec!["b".to_string(), "c".to_string()]);
}

#[test]
fn query_limit_defaults_and_caps() {
    assert_eq!(query_limit(None), 10);
    assert_eq!(query_limit(Some(3)), 3);
    assert_eq!(query_limit(Some(1000)), 30);
}

#[test]
fn fixed_point_arithmetic() {
    // floor(10 * 3 / 4)
    assert_eq!(multiply_ratio(10, 3, 4), 7);
    assert_eq!(multiply_ratio(u128::MAX, 2, 4), u128::MAX / 2);
    assert_eq!(Decimal::from_ratio(1, 3).atomics, 333_333_333_333_333_333);
    assert_eq!(Decimal::percent(30).atomics, 300_000_000_000_000_000);
    assert_eq!(mul_decimal(1000, Decimal::percent(30)), 300);
    assert_eq!(mul_decimal(7, Decimal::from_ratio(1, 2)), 3);
    assert_eq!(mul_decimal(0, Decimal::one()), 0);
    assert!(Decimal::one().gt(&Decimal::percent(99)));
    assert!(Decimal::zero().is_zero());
    assert_eq!(Decimal::one().sub(Decimal::percent(25)), Decimal::percent(75));
    assert_eq!(Decimal::percent(25).add(Decimal::percent(25)), Decimal::percent(50));
}

#[test]
fn execute_data_sorts_stably_by_order() {
    let data = vec![
        ExecuteData { order: 2, contract: "b".to_string(), msg: vec![1] },
        ExecuteData { order: 1, contract: "a".to_string(), msg: vec![2] },
        ExecuteData { order: 2, contract: "c".to_string(), msg: vec![3] },
        ExecuteData { order: 0, contract: "d".to_string(), msg: vec![4] },
    ];
    let sorted = sort_execute_data(&data);
    let names: Vec<&str> = sorted.iter().map(|d| d.contract.as_str()).collect();
    assert_eq!(names, vec!["d", "a", "b", "c"]);
}

fn poll_with(title: &str, description: &str, link: Option<&str>) -> Poll {
    Poll {
        id: 1,
        creator: "creator".to_string(),
        status: PollStatus::InProgress,
        yes_votes: 0,
        no_votes: 0,
        end_height: 10,
        title: title.to_string(),
        category: PollCategory::Core,
        description: description.to_string(),
        link: link.map(|l| l.to_string()),
        execute_data: None,
        deposit_amount: 0,
        total_balance_at_end_poll: None,
        staked_amount: None,
    }
}

#[test]
fn poll_validation_bounds() {
    assert_eq!(poll_with("abcd", "abcd", None).validate(), Ok(()));
    assert_eq!(poll_with("abc", "abcd", None).validate(), Err(StdError::GenericErr { msg: "Title too short" }));
    assert_eq!(poll_with(&"t".repeat(64), "abcd", None).validate(), Ok(()));
    assert_eq!(poll_with(&"t".repeat(65), "abcd", None).validate(), Err(StdError::GenericErr { msg: "Title too long" }));
    assert_eq!(poll_with("abcd", &"d".repeat(1025), None).validate(), Err(StdError::GenericErr { msg: "Description too long" }));
    assert_eq!(poll_with("abcd", "abcd", Some("http://a.com")).validate(), Ok(()));
    // lengths count bytes: four two-byte characters make a valid title
    assert_eq!(poll_with("éééé", "abcd", None).validate(), Ok(()));
    assert_eq!(poll_with("éé", "abcd", None).validate(), Ok(()));
    assert_eq!(poll_with("é", "abcd", None).validate(), Err(StdError::GenericErr { msg: "Title too short" }));
}

fn legacy(id: u64, title: &str) -> LegacyPoll {
    LegacyPoll {
        id,
        creator: "creator".to_string(),
        status: PollStatus::Passed,
        yes_votes: 5,
        no_votes: 1,
        end_height: 99,
        title: title.to_string(),
        description: "desc".to_string(),
        link: None,
        execute_data: None,
        deposit_amount: 7,
        total_balance_at_end_poll: Some(6),
        staked_amount: None,
    }
}

#[test]
fn migration_converts_state_and_latest_polls() {
    let mut gov = instantiate();
    let polls: Vec<LegacyPoll> = (0..(MIGRATE_POLL_LIMIT as u64 + 5)).rev().map(|i| legacy(i + 1, "old poll")).collect();
    let resp = migrate_state(&mut gov, LegacyState { poll_count: 105, total_share: 40, total_deposit: 14 }, polls).unwrap();
    assert!(resp.messages.is_empty());
    assert_eq!(gov.state.poll_count, 105);
    assert_eq!(gov.state.total_share, 40);
    assert_eq!(gov.state.total_deposit, 14);
    assert_eq!(gov.state.total_airdrop_count, 0);
    assert_eq!(gov.polls.len(), MIGRATE_POLL_LIMIT);
    let p = gov.polls.get(&105).unwrap();
    assert_eq!(p.category, PollCategory::Uncategorized);
    assert_eq!(p.status, PollStatus::Passed);
    assert_eq!(p.total_balance_at_end_poll, Some(6));
    assert!(gov.polls.get(&5).is_none());
    assert!(gov.polls.get(&6).is_some());
}

#[test]
fn staking_pool_setup_and_deposits() {
    let rate = cosmwasm_bignumber::Decimal256::percent(5);
    let msg = staking::InitMsg {
        start_time: 100,
        period: 50,
        open_deposit: false,
        open_withdraw: true,
        open_claim: true,
        reward_rate: rate,
        dp_token: "dp".to_string(),
        reward_token: "rw".to_string(),
    };
    let (config, reward) = staking::init("owner".to_string(), msg);
    assert_eq!(config.finish_time, 150);
    assert_eq!(config.owner, "owner");
    assert_eq!(config.reward_rate, rate);
    assert_eq!(reward.total_deposit, 0);
    assert_eq!(reward.reward_per_token_stored, cosmwasm_bignumber::Decimal256::zero());

    let dp = "dp".to_string();
    assert_eq!(staking::receive(&config, &dp, 90, Some(staking::Cw20HookMsg::Deposit)), Ok(()));
    assert_eq!(staking::receive(&config, &dp, 101, Some(staking::Cw20HookMsg::Deposit)), Err(staking::StakingError::Unauthorized));
    assert_eq!(
        staking::receive(&config, &"other".to_string(), 90, Some(staking::Cw20HookMsg::Deposit)),
        Err(staking::StakingError::Unauthorized)
    );
    assert_eq!(staking::receive(&config, &dp, 90, None), Err(staking::StakingError::UnsupportedMessage));

    let config = staking::configure(&config, 200, 10, true, false, false, rate);
    assert_eq!(config.finish_time, 210);
    assert_eq!(config.dp_token, "dp");
    assert_eq!(staking::receive(&config, &dp, 500, Some(staking::Cw20HookMsg::Deposit)), Ok(()));

    let mut users: OrdMap<String, staking::User> = OrdMap::new();
    let none = staking::read_user(&users, &"a".to_string());
    assert_eq!((none.amount, none.reward), (0, 0));
    assert_eq!(none.reward_per_token_paid, cosmwasm_bignumber::Decimal256::zero());
    users.insert("a".to_string(), staking::User { amount: 3, reward: 4, reward_per_token_paid: rate });
    let some = staking::read_user(&users, &"a".to_string());
    assert_eq!((some.amount, some.reward), (3, 4));
    let _ = staking::MigrateMsg {};
}

#[test]
fn strategy_deposits_and_registration() {
    let mut config = strategy::Config {
        stable_denom: "uusd".to_string(),
        dp_token: String::new(),
        strategy: "s".to_string(),
        beneficiary: "b".to_string(),
    };
    let funds = vec![
        strategy::Coin { denom: "uluna".to_string(), amount: 5 },
        strategy::Coin { denom: "uusd".to_string(), amount: 7 },
        strategy::Coin { denom: "uusd".to_string(), amount: 9 },
    ];
    assert_eq!(strategy::deposit_amount(&funds, &"uusd".to_string()), 7);
    assert!(strategy::handle_deposit(&config, &funds).is_ok());
    match strategy::handle_deposit(&config, &vec![strategy::Coin { denom: "uluna".to_string(), amount: 5 }]) {
        Err(strategy::StrategyError::InsufficientTokenAmount { denom }) => assert_eq!(denom, "uusd"),
        _ => panic!("Must return error"),
    }

    let resp = strategy::handle_register_dp_token(&mut config, "dp_token".to_string()).unwrap();
    assert_eq!(resp.attributes.len(), 1);
    assert_eq!(config.dp_token, "dp_token");
    assert!(matches!(
        strategy::handle_register_dp_token(&mut config, "again".to_string()),
        Err(strategy::StrategyError::Unauthorized)
    ));
    assert_eq!(config.dp_token, "dp_token");
}

#[test]
fn wide_products_and_ratio_bounds() {
    // the high 128 bits of a 256-bit product
    assert_eq!(mul_high(1u128 << 127, 4), 2);
    assert_eq!(mul_high(u128::MAX, u128::MAX), u128::MAX - 1);
    assert_eq!(mul_high(u128::MAX, 1), 0);
    assert_eq!(mul_high(1u128 << 64, 1u128 << 64), 1);
    // floor(v * n / d) fits in 128 bits exactly when ratio_fits says so
    assert!(ratio_fits(u128::MAX, 1, 1));
    assert!(!ratio_fits(u128::MAX, 2, 1));
    assert!(ratio_fits(u128::MAX, 2, 2));
    assert!(ratio_fits(u128::MAX, 3, 4));
    assert!(!ratio_fits(u128::MAX / 2 + 1, 2, 1));
    assert!(ratio_fits(u128::MAX / 2, 2, 1));
}
