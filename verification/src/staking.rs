//! The reward staking pool: its configuration, accrual record and stakers,
//! and the checks on deposits sent to it.

use vstd::prelude::*;
use crate::store::OrdMap;

verus! {

/// The 256-bit fixed-point decimal of the pool's reward rate; the pool only
/// carries it.
#[verifier::external_type_specification]
#[verifier::external_body]
pub struct ExDecimal256(cosmwasm_bignumber::Decimal256);

/// What a token deposit to the pool asks for.
#[derive(Clone, Copy, Debug, PartialEq, Eq, Structural)]
pub enum Cw20HookMsg {
    /// Deposit the tokens sent.
    Deposit,
}

/// A migration takes no arguments.
#[derive(Clone, Copy, Debug, PartialEq, Eq, Structural)]
pub struct MigrateMsg {}

/// The message that sets the pool up.
pub struct InitMsg {
    pub start_time: u64,
    pub period: u64,
    pub open_deposit: bool,
    pub open_withdraw: bool,
    pub open_claim: bool,
    pub reward_rate: cosmwasm_bignumber::Decimal256,
    pub dp_token: String,
    pub reward_token: String,
}

/// The pool's configuration.
pub struct Config {
    pub owner: String,
    pub dp_token: String,
    pub reward_token: String,
    pub start_time: u64,
    pub finish_time: u64,
    pub open_deposit: bool,
    pub open_withdraw: bool,
    pub open_claim: bool,
    pub reward_rate: cosmwasm_bignumber::Decimal256,
}

/// The pool's accrual record.
pub struct Reward {
    pub total_deposit: u128,
    pub last_update_time: u64,
    pub reward_per_token_stored: cosmwasm_bignumber::Decimal256,
}

/// A staker in the pool.
#[derive(Clone, Copy)]
pub struct User {
    pub amount: u128,
    pub reward: u128,
    pub reward_per_token_paid: cosmwasm_bignumber::Decimal256,
}

/// The errors the pool answers with.
#[derive(Clone, Copy, Debug, PartialEq, Eq, Structural)]
pub enum StakingError {
    Unauthorized,
    /// The deposit came without a message.
    UnsupportedMessage,
}

/// `Decimal256::zero()`, the decimal 0; the value is opaque here, so no
/// clause states it.
#[verifier::external_body]
fn decimal256_zero() -> cosmwasm_bignumber::Decimal256 {
    cosmwasm_bignumber::Decimal256::zero()
}

/// Sets the pool up: `sender` owns it, the period ends `period` seconds after
/// `start_time`, and nothing is deposited or accrued yet.
pub fn init(sender: String, msg: InitMsg) -> (r: (Config, Reward))
    requires
        // left out: a period that would end past the last second
        msg.start_time + msg.period <= u64::MAX,
    ensures
        r.0.owner == sender,
        r.0.dp_token == msg.dp_token,
        r.0.reward_token == msg.reward_token,
        r.0.start_time == msg.start_time,
        r.0.finish_time == msg.start_time + msg.period,
        r.0.open_deposit == msg.open_deposit,
        r.0.open_withdraw == msg.open_withdraw,
        r.0.open_claim == msg.open_claim,
        r.0.reward_rate == msg.reward_rate,
        r.1.total_deposit == 0,
        r.1.last_update_time == 0,
{
    let config = Config {
        owner: sender,
        dp_token: msg.dp_token,
        reward_token: msg.reward_token,
        start_time: msg.start_time,
        finish_time: msg.start_time + msg.period,
        open_deposit: msg.open_deposit,
        open_withdraw: msg.open_withdraw,
        open_claim: msg.open_claim,
        reward_rate: msg.reward_rate,
    };
    let reward = Reward { total_deposit: 0, last_update_time: 0, reward_per_token_stored: decimal256_zero() };
    (config, reward)
}

/// Accepts a deposit of tokens sent through `token` at `now`: only the
/// deposit token is taken, and after the start only while deposits are open.
/// A deposit without a message is refused.
pub fn receive(config: &Config, token: &String, now: u64, hook: Option<Cw20HookMsg>) -> (r: Result<(), StakingError>)
    ensures
        hook is None ==> r == Err::<(), StakingError>(StakingError::UnsupportedMessage),
        hook is Some ==> (r is Err <==> token@ != config.dp_token@ || (now > config.start_time && !config.open_deposit)),
        hook is Some && r is Err ==> r == Err::<(), StakingError>(StakingError::Unauthorized),
{
    match hook {
        Some(Cw20HookMsg::Deposit) => {
            if *token != config.dp_token {
                return Err(StakingError::Unauthorized);
            }
            if now > config.start_time && !config.open_deposit {
                return Err(StakingError::Unauthorized);
            }
            Ok(())
        },
        None => Err(StakingError::UnsupportedMessage),
    }
}

/// Sets a new period and flags, keeping the owner and the tokens.
pub fn configure(
    config: &Config,
    start_time: u64,
    period: u64,
    open_deposit: bool,
    open_withdraw: bool,
    open_claim: bool,
    reward_rate: cosmwasm_bignumber::Decimal256,
) -> (r: Config)
    requires
        // left out: a period that would end past the last second
        start_time + period <= u64::MAX,
    ensures
        r.owner == config.owner,
        r.dp_token == config.dp_token,
        r.reward_token == config.reward_token,
        r.start_time == start_time,
        r.finish_time == start_time + period,
        r.open_deposit == open_deposit,
        r.open_withdraw == open_withdraw,
        r.open_claim == open_claim,
        r.reward_rate == reward_rate,
{
    Config {
        owner: config.owner.clone(),
        dp_token: config.dp_token.clone(),
        reward_token: config.reward_token.clone(),
        start_time,
        finish_time: start_time + period,
        open_deposit,
        open_withdraw,
        open_claim,
        reward_rate,
    }
}

/// A staker's record, or an empty one (no amount, no reward, nothing paid)
/// where there is none.
pub fn read_user(users: &OrdMap<String, User>, owner: &String) -> (u: User)
    requires
        users.wf(),
    ensures
        users@.contains_key(owner@) ==> u == users@[owner@],
        !users@.contains_key(owner@) ==> u.amount == 0 && u.reward == 0,
{
    match users.get(owner) {
        Some(u) => *u,
        None => User { amount: 0, reward: 0, reward_per_token_paid: decimal256_zero() },
    }
}

} // verus!
