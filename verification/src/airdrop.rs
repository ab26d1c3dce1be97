//! Airdrops: rewards that accrue to stakers in proportion to their share over
//! an airdrop's period, and their allocation, accrual and payout.

use vstd::prelude::*;
use crate::gov::{lemma_indexed_frame, Gov};
use crate::math::{mul_decimal, spec_from_ratio, spec_mul_decimal, Decimal};
use crate::response::{number, text, word, AttrValue, Attribute, Msg, Response, SelfMsg, SubMsg};
use crate::state::{MAX_QUERY_LIMIT, Airdrop, AirdropConfig, AirdropState, ContractError, Reward, TokenManager};
use crate::keys::{opt_address, Address};
use crate::store::{inner, nested_insert};

verus! {

pub open spec fn spec_max(a: int, b: int) -> int {
    if a >= b { a } else { b }
}

pub open spec fn spec_min(a: int, b: int) -> int {
    if a <= b { a } else { b }
}

/// The end of an airdrop's period.
pub open spec fn finish_time(c: AirdropConfig) -> int {
    c.start + c.period
}

/// The time up to which an airdrop accrues at `now`: `now` held within the
/// airdrop's period.
pub open spec fn applicable(c: AirdropConfig, now: u64) -> int {
    spec_min(finish_time(c), spec_max(c.start as int, now as int))
}

/// The reward per share that accrues from `last_update_time` to `timestamp`
/// (nothing when `timestamp` is earlier) at `reward_rate` per second, spread
/// over `total_share`; nothing when nothing is staked.
pub open spec fn reward_per_token(timestamp: int, total_share: u128, reward_rate: Decimal, last_update_time: int) -> int {
    if total_share == 0 {
        0
    } else {
        spec_from_ratio(
            spec_mul_decimal(spec_max(timestamp, last_update_time) - last_update_time, reward_rate.atomics as int),
            total_share as int,
        )
    }
}

/// An airdrop's accrual brought up to `now`: the reward per share grows by
/// what accrued since the last update (unless the last update was already at
/// the end of the period), and the last update moves to the applicable time.
pub open spec fn updated_state(c: AirdropConfig, s: AirdropState, now: u64, total_share: u128) -> AirdropState {
    let t = applicable(c, now);
    AirdropState {
        last_update_time: t as u64,
        reward_per_token_stored: if finish_time(c) == s.last_update_time {
            s.reward_per_token_stored
        } else {
            Decimal {
                atomics: (s.reward_per_token_stored.atomics + reward_per_token(
                    t,
                    total_share,
                    c.reward_rate,
                    s.last_update_time as int,
                )) as u128,
            }
        },
    }
}

/// The reward of a staker with `user_share`, brought up to `timestamp` against
/// an airdrop's accrual state: what was recorded plus the share's part of the
/// reward per share accrued since it was last paid.
pub open spec fn accrued_reward(
    timestamp: u64,
    total_share: u128,
    user_share: u128,
    c: AirdropConfig,
    s: AirdropState,
    r: Reward,
) -> int {
    let rpt = s.reward_per_token_stored.atomics - r.reward_per_token_paid.atomics + if s.last_update_time != timestamp {
        reward_per_token(timestamp as int, total_share, c.reward_rate, s.last_update_time as int)
    } else {
        0
    };
    r.reward + spec_mul_decimal(user_share as int, rpt)
}

/// Whether the accrual of an airdrop up to `now` stays within the ranges its
/// arithmetic allows.
pub open spec fn accrual_fits(c: AirdropConfig, s: AirdropState, now: u64, total_share: u128) -> bool {
    let t = applicable(c, now);
    &&& finish_time(c) <= u64::MAX
    &&& finish_time(c) != s.last_update_time ==> {
        &&& total_share != 0 ==> spec_mul_decimal(spec_max(t, s.last_update_time as int) - s.last_update_time, c.reward_rate.atomics as int) <= u128::MAX
        &&& s.reward_per_token_stored.atomics + reward_per_token(t, total_share, c.reward_rate, s.last_update_time as int) <= u128::MAX
    }
}

/// Whether bringing a reward up to `timestamp` stays within the ranges its
/// arithmetic allows.
pub open spec fn reward_fits(timestamp: u64, total_share: u128, user_share: u128, c: AirdropConfig, s: AirdropState, r: Reward) -> bool {
    let extra = reward_per_token(timestamp as int, total_share, c.reward_rate, s.last_update_time as int);
    let rpt = s.reward_per_token_stored.atomics - r.reward_per_token_paid.atomics + if s.last_update_time != timestamp {
        extra
    } else {
        0
    };
    &&& s.reward_per_token_stored.atomics >= r.reward_per_token_paid.atomics
    &&& s.last_update_time != timestamp ==> {
        &&& total_share != 0 ==> spec_mul_decimal(spec_max(timestamp as int, s.last_update_time as int) - s.last_update_time, c.reward_rate.atomics as int) <= u128::MAX
        &&& rpt <= u128::MAX
    }
    &&& spec_mul_decimal(user_share as int, rpt) <= u128::MAX
    &&& accrued_reward(timestamp, total_share, user_share, c, s, r) <= u128::MAX
}

impl Airdrop {
    /// The end of the airdrop's period.
    pub fn finish(&self) -> (t: u64)
        requires
            finish_time(self.config) <= u64::MAX,
        ensures
            t == finish_time(self.config),
    {
        self.config.start + self.config.period
    }

    /// The time up to which the airdrop accrues at `block_time`.
    pub fn applicable_time(&self, block_time: u64) -> (t: u64)
        requires
            finish_time(self.config) <= u64::MAX,
        ensures
            t == applicable(self.config, block_time),
    {
        let f = self.finish();
        let m = if self.config.start >= block_time { self.config.start } else { block_time };
        if f <= m { f } else { m }
    }

    /// An airdrop with every field zero and an empty reward token.
    pub fn default() -> (a: Airdrop)
        ensures
            a.config.start == 0,
            a.config.period == 0,
            a.config.reward_token@ == Seq::<char>::empty(),
            a.config.reward_rate == Decimal::spec_zero(),
            a.state.last_update_time == 0,
            a.state.reward_per_token_stored == Decimal::spec_zero(),
    {
        Airdrop {
            config: AirdropConfig { start: 0, period: 0, reward_token: String::new(), reward_rate: Decimal::zero() },
            state: AirdropState { last_update_time: 0, reward_per_token_stored: Decimal::zero() },
        }
    }
}

/// The reward per share accrued from `last_update_time` to `timestamp`.
pub fn calculate_reward_per_token(timestamp: u64, total_share: u128, reward_rate: Decimal, last_update_time: u64) -> (r: Result<Decimal, ContractError>)
    requires
        total_share != 0 ==> spec_mul_decimal(spec_max(timestamp as int, last_update_time as int) - last_update_time, reward_rate.atomics as int) <= u128::MAX,
        reward_per_token(timestamp as int, total_share, reward_rate, last_update_time as int) <= u128::MAX,
    ensures
        r == Ok::<Decimal, ContractError>(Decimal {
            atomics: reward_per_token(timestamp as int, total_share, reward_rate, last_update_time as int) as u128,
        }),
{
    if total_share == 0 {
        Ok(Decimal::zero())
    } else {
        let m = if timestamp >= last_update_time { timestamp } else { last_update_time };
        let accrued = mul_decimal((m - last_update_time) as u128, reward_rate);
        Ok(Decimal::from_ratio(accrued, total_share))
    }
}

/// The reward of a staker with `user_share` brought up to `timestamp`.
pub fn calculate_rewards(timestamp: u64, total_share: u128, user_share: u128, airdrop: &Airdrop, airdrop_reward: &Reward) -> (r: Result<u128, ContractError>)
    requires
        reward_fits(timestamp, total_share, user_share, airdrop.config, airdrop.state, *airdrop_reward),
    ensures
        r == Ok::<u128, ContractError>(
            accrued_reward(timestamp, total_share, user_share, airdrop.config, airdrop.state, *airdrop_reward) as u128,
        ),
{
    let mut rpt = airdrop.state.reward_per_token_stored.sub(airdrop_reward.reward_per_token_paid);
    if airdrop.state.last_update_time != timestamp {
        let extra = calculate_reward_per_token(timestamp, total_share, airdrop.config.reward_rate, airdrop.state.last_update_time)?;
        rpt = rpt.add(extra);
    }
    Ok(airdrop_reward.reward + mul_decimal(user_share, rpt))
}

/// The accrual state of an airdrop brought up to `now`.
pub fn accrued_state(a: &Airdrop, now: u64, total_share: u128) -> (s: AirdropState)
    requires
        accrual_fits(a.config, a.state, now, total_share),
    ensures
        s == updated_state(a.config, a.state, now, total_share),
{
    let t = a.applicable_time(now);
    let stored = if a.finish() == a.state.last_update_time {
        a.state.reward_per_token_stored
    } else {
        let extra = match calculate_reward_per_token(t, total_share, a.config.reward_rate, a.state.last_update_time) {
            Ok(d) => d,
            Err(_) => Decimal::zero(),
        };
        a.state.reward_per_token_stored.add(extra)
    };
    AirdropState { last_update_time: t, reward_per_token_stored: stored }
}

/// The store's rewards of one staker, as a map from airdrop id.
pub open spec fn rewards_of(g: &Gov, addr: Seq<char>) -> Map<u64, Reward> {
    inner(&g.rewards, addr)
}

/// `g1`'s rewards are `g0`'s with the reward of `addr` in airdrop `id` set to `r`.
pub open spec fn reward_set(g0: &Gov, g1: &Gov, addr: Seq<char>, id: u64, r: Reward) -> bool {
    forall|a: Seq<char>| #[trigger] inner(&g1.rewards, a) == if a == addr {
        inner(&g0.rewards, a).insert(id, r)
    } else {
        inner(&g0.rewards, a)
    }
}

impl Reward {
    /// Stores a staker's reward in an airdrop.
    pub fn save(g: &mut Gov, addr: String, airdrop_id: u64, r: Reward)
        requires
            old(g).wf(),
        ensures
            final(g).wf(),
            forall|a: Seq<char>| #[trigger] inner(&final(g).rewards, a) == if a == addr@ {
                inner(&old(g).rewards, a).insert(airdrop_id, r)
            } else {
                inner(&old(g).rewards, a)
            },
            final(g).config == old(g).config,
            final(g).state == old(g).state,
            final(g).polls == old(g).polls,
            final(g).status_index == old(g).status_index,
            final(g).category_index == old(g).category_index,
            final(g).voters == old(g).voters,
            final(g).bank == old(g).bank,
            final(g).airdrops == old(g).airdrops,
            final(g).tmp_poll_id == old(g).tmp_poll_id,
    {
        nested_insert(&mut g.rewards, addr, airdrop_id, r);
    }
}

/// Starts an airdrop of `reward_amount` tokens of `reward_token` paid out
/// evenly over `period` seconds from `start`; only the owner may. The airdrop
/// takes the next airdrop id and joins the airdrops that updates bring up to
/// date.
pub fn instantiate(
    gov: &mut Gov,
    sender: &String,
    start: u64,
    period: u64,
    reward_token: String,
    reward_amount: u128,
) -> (r: Result<Response, ContractError>)
    requires
        old(gov).wf(),
        // left out: a zero period, a rate beyond `Decimal::MAX` or an id overflow, which have no result
        sender@ == old(gov).config.owner@ ==> {
            &&& period > 0
            &&& spec_from_ratio(reward_amount as int, period as int) <= u128::MAX
            &&& old(gov).state.total_airdrop_count < u64::MAX
        },
    ensures
        final(gov).wf(),
        old(gov).polls_indexed() ==> final(gov).polls_indexed(),
        r is Err <==> sender@ != old(gov).config.owner@,
        r matches Err(e) ==> e == ContractError::Unauthorized && *final(gov) == *old(gov),
        r matches Ok(resp) ==> {
            let id = old(gov).state.total_airdrop_count;
            &&& final(gov).airdrops@ == old(gov).airdrops@.insert(
                id,
                Airdrop {
                    config: AirdropConfig {
                        start,
                        period,
                        reward_token,
                        reward_rate: Decimal { atomics: spec_from_ratio(reward_amount as int, period as int) as u128 },
                    },
                    state: AirdropState { last_update_time: start, reward_per_token_stored: Decimal::spec_zero() },
                },
            )
            &&& final(gov).state.total_airdrop_count == id + 1
            &&& final(gov).state.airdrop_update_candidates@ == old(gov).state.airdrop_update_candidates@.push(id)
            &&& final(gov).state.poll_count == old(gov).state.poll_count
            &&& final(gov).state.total_share == old(gov).state.total_share
            &&& final(gov).state.total_deposit == old(gov).state.total_deposit
            &&& final(gov).config == old(gov).config
            &&& final(gov).polls == old(gov).polls
            &&& final(gov).status_index == old(gov).status_index
            &&& final(gov).category_index == old(gov).category_index
            &&& final(gov).voters == old(gov).voters
            &&& final(gov).bank == old(gov).bank
            &&& final(gov).rewards == old(gov).rewards
            &&& final(gov).tmp_poll_id == old(gov).tmp_poll_id
            &&& resp.messages@.len() == 0
            &&& resp.attributes@ == seq![
                word("action", "airdrop_instantiate"),
                number("airdrop_id", id as u128),
                text("reward_token", reward_token),
                number("reward_amount", reward_amount),
            ]
        },
{
    let mut response = Response::new();
    response.add_attribute("action", AttrValue::Word("airdrop_instantiate"));
    if *sender != gov.config.owner {
        return Err(ContractError::Unauthorized);
    }
    let airdrop_id = gov.state.total_airdrop_count;
    let airdrop = Airdrop {
        config: AirdropConfig {
            start,
            period,
            reward_token: reward_token.clone(),
            reward_rate: Decimal::from_ratio(reward_amount, period as u128),
        },
        state: AirdropState { last_update_time: start, reward_per_token_stored: Decimal::zero() },
    };
    gov.airdrops.insert(airdrop_id, airdrop);
    gov.state.total_airdrop_count = airdrop_id + 1;
    gov.state.airdrop_update_candidates.push(airdrop_id);
    response.add_attribute("airdrop_id", AttrValue::Number(airdrop_id as u128));
    response.add_attribute("reward_token", AttrValue::Text(reward_token));
    response.add_attribute("reward_amount", AttrValue::Number(reward_amount));
    proof {
        if old(gov).polls_indexed() {
            lemma_indexed_frame(old(gov), gov);
        }
    }
    Ok(response)
}

/// Adds `allocate_amount` to `recipient`'s reward in an airdrop; only the
/// owner may.
pub fn allocate(
    gov: &mut Gov,
    sender: &String,
    airdrop_id: u64,
    recipient: String,
    allocate_amount: u128,
) -> (r: Result<Response, ContractError>)
    requires
        old(gov).wf(),
        // left out: an owner's allocation whose reward would overflow
        sender@ == old(gov).config.owner@ ==> old(gov).reward(recipient@, airdrop_id).reward + allocate_amount <= u128::MAX,
    ensures
        final(gov).wf(),
        old(gov).polls_indexed() ==> final(gov).polls_indexed(),
        r is Err <==> sender@ != old(gov).config.owner@,
        r matches Err(e) ==> e == ContractError::Unauthorized && *final(gov) == *old(gov),
        r matches Ok(resp) ==> {
            let old_r = old(gov).reward(recipient@, airdrop_id);
            &&& reward_set(old(gov), final(gov), recipient@, airdrop_id, Reward { reward: (old_r.reward + allocate_amount) as u128, ..old_r })
            &&& final(gov).config == old(gov).config
            &&& final(gov).state == old(gov).state
            &&& final(gov).polls == old(gov).polls
            &&& final(gov).status_index == old(gov).status_index
            &&& final(gov).category_index == old(gov).category_index
            &&& final(gov).voters == old(gov).voters
            &&& final(gov).bank == old(gov).bank
            &&& final(gov).airdrops == old(gov).airdrops
            &&& final(gov).tmp_poll_id == old(gov).tmp_poll_id
            &&& resp.messages@.len() == 0
            &&& resp.attributes@ == seq![
                word("action", "airdrop_allocate"),
                number("airdrop_id", airdrop_id as u128),
                text("recipient", recipient),
                number("amount", allocate_amount),
            ]
        },
{
    let mut response = Response::new();
    response.add_attribute("action", AttrValue::Word("airdrop_allocate"));
    if *sender != gov.config.owner {
        return Err(ContractError::Unauthorized);
    }
    let mut reward = Reward::load(gov, &recipient, airdrop_id);
    reward.reward = reward.reward + allocate_amount;
    Reward::save(gov, recipient.clone(), airdrop_id, reward);
    response.add_attribute("airdrop_id", AttrValue::Number(airdrop_id as u128));
    response.add_attribute("recipient", AttrValue::Text(recipient));
    response.add_attribute("amount", AttrValue::Number(allocate_amount));
    proof {
        if old(gov).polls_indexed() {
            lemma_indexed_frame(old(gov), gov);
        }
    }
    Ok(response)
}

/// Takes `deallocate_amount` off `recipient`'s reward in an airdrop; only the
/// owner may, and not more than the reward.
pub fn deallocate(
    gov: &mut Gov,
    sender: &String,
    airdrop_id: u64,
    recipient: String,
    deallocate_amount: u128,
) -> (r: Result<Response, ContractError>)
    requires
        old(gov).wf(),
    ensures
        final(gov).wf(),
        old(gov).polls_indexed() ==> final(gov).polls_indexed(),
        sender@ != old(gov).config.owner@ ==> r == Err::<Response, ContractError>(ContractError::Unauthorized),
        sender@ == old(gov).config.owner@ ==> (r is Err <==> old(gov).reward(recipient@, airdrop_id).reward < deallocate_amount),
        sender@ == old(gov).config.owner@ && r is Err ==> r == Err::<Response, ContractError>(ContractError::InsufficientReward),
        r is Err ==> *final(gov) == *old(gov),
        r matches Ok(resp) ==> {
            let old_r = old(gov).reward(recipient@, airdrop_id);
            &&& reward_set(old(gov), final(gov), recipient@, airdrop_id, Reward { reward: (old_r.reward - deallocate_amount) as u128, ..old_r })
            &&& final(gov).config == old(gov).config
            &&& final(gov).state == old(gov).state
            &&& final(gov).polls == old(gov).polls
            &&& final(gov).status_index == old(gov).status_index
            &&& final(gov).category_index == old(gov).category_index
            &&& final(gov).voters == old(gov).voters
            &&& final(gov).bank == old(gov).bank
            &&& final(gov).airdrops == old(gov).airdrops
            &&& final(gov).tmp_poll_id == old(gov).tmp_poll_id
            &&& resp.messages@.len() == 0
            &&& resp.attributes@ == seq![
                word("action", "airdrop_deallocate"),
                number("airdrop_id", airdrop_id as u128),
                text("recipient", recipient),
                number("amount", deallocate_amount),
            ]
        },
{
    let mut response = Response::new();
    response.add_attribute("action", AttrValue::Word("airdrop_deallocate"));
    if *sender != gov.config.owner {
        return Err(ContractError::Unauthorized);
    }
    let mut reward = Reward::load(gov, &recipient, airdrop_id);
    if reward.reward < deallocate_amount {
        return Err(ContractError::InsufficientReward);
    }
    reward.reward = reward.reward - deallocate_amount;
    Reward::save(gov, recipient.clone(), airdrop_id, reward);
    response.add_attribute("airdrop_id", AttrValue::Number(airdrop_id as u128));
    response.add_attribute("recipient", AttrValue::Text(recipient));
    response.add_attribute("amount", AttrValue::Number(deallocate_amount));
    proof {
        if old(gov).polls_indexed() {
            lemma_indexed_frame(old(gov), gov);
        }
    }
    Ok(response)
}

/// Pays out `sender`'s reward of one airdrop and sets it to zero; only the
/// contract itself may call this.
pub fn claim_internal(
    gov: &mut Gov,
    contract_addr: &String,
    info_sender: &String,
    sender: String,
    airdrop_id: u64,
) -> (r: Result<Response, ContractError>)
    requires
        old(gov).wf(),
        // left out: a contract's call on an airdrop that is not stored
        info_sender@ == contract_addr@ ==> old(gov).airdrops@.contains_key(airdrop_id),
    ensures
        final(gov).wf(),
        old(gov).polls_indexed() ==> final(gov).polls_indexed(),
        r is Err <==> info_sender@ != contract_addr@,
        r matches Err(e) ==> e == ContractError::Unauthorized && *final(gov) == *old(gov),
        r matches Ok(resp) ==> {
            let old_r = old(gov).reward(sender@, airdrop_id);
            let token = old(gov).airdrops@[airdrop_id].config.reward_token;
            &&& reward_set(old(gov), final(gov), sender@, airdrop_id, Reward { reward: 0, ..old_r })
            &&& final(gov).config == old(gov).config
            &&& final(gov).state == old(gov).state
            &&& final(gov).polls == old(gov).polls
            &&& final(gov).status_index == old(gov).status_index
            &&& final(gov).category_index == old(gov).category_index
            &&& final(gov).voters == old(gov).voters
            &&& final(gov).bank == old(gov).bank
            &&& final(gov).airdrops == old(gov).airdrops
            &&& final(gov).tmp_poll_id == old(gov).tmp_poll_id
            &&& resp.messages@ == seq![SubMsg {
                msg: Msg::Transfer { token, recipient: sender, amount: old_r.reward },
                reply_on_error: None,
            }]
            &&& resp.attributes@ == seq![
                word("action", "airdrop_claim"),
                text("target", sender),
                text("token", token),
                number("amount", old_r.reward),
            ]
        },
{
    let mut response = Response::new();
    response.add_attribute("action", AttrValue::Word("airdrop_claim"));
    response.add_attribute("target", AttrValue::Text(sender.clone()));
    if *contract_addr != *info_sender {
        return Err(ContractError::Unauthorized);
    }
    let reward = Reward::load(gov, &sender, airdrop_id);
    let token = match gov.airdrops.get(&airdrop_id) {
        Some(a) => a.config.reward_token.clone(),
        None => return Err(ContractError::AirdropNotFound),
    };
    let claim_amount = reward.reward;
    Reward::save(gov, sender.clone(), airdrop_id, Reward { reward: 0, reward_per_token_paid: reward.reward_per_token_paid });
    response.add_message(Msg::Transfer { token: token.clone(), recipient: sender, amount: claim_amount });
    response.add_attribute("token", AttrValue::Text(token));
    response.add_attribute("amount", AttrValue::Number(claim_amount));
    proof {
        if old(gov).polls_indexed() {
            lemma_indexed_frame(old(gov), gov);
        }
    }
    Ok(response)
}


/// An airdrop brought up to date at `now`.
pub open spec fn updated_airdrop(a: Airdrop, now: u64, total_share: u128) -> Airdrop {
    Airdrop { config: a.config, state: updated_state(a.config, a.state, now, total_share) }
}

/// The airdrops after an update at `now`: each candidate brought up to date,
/// the others as they were.
pub open spec fn updated_airdrops(m: Map<u64, Airdrop>, candidates: Seq<u64>, now: u64, total_share: u128) -> Map<u64, Airdrop> {
    Map::new(
        |id: u64| m.contains_key(id),
        |id: u64| if candidates.contains(id) { updated_airdrop(m[id], now, total_share) } else { m[id] },
    )
}

/// A staker's reward brought up to an airdrop's accrual at `now`: what accrued
/// is added, and the reward per share is marked as paid.
pub open spec fn updated_reward(a: Airdrop, r: Reward, now: u64, total_share: u128, share: u128) -> Reward {
    let s = updated_state(a.config, a.state, now, total_share);
    Reward {
        reward: accrued_reward(s.last_update_time, total_share, share, a.config, s, r) as u128,
        reward_per_token_paid: s.reward_per_token_stored,
    }
}

/// A staker's rewards after an update at `now`: one for each candidate,
/// brought up to date from what was recorded (nothing where nothing was).
pub open spec fn updated_rewards(
    rs: Map<u64, Reward>,
    airdrops: Map<u64, Airdrop>,
    candidates: Seq<u64>,
    now: u64,
    total_share: u128,
    share: u128,
) -> Map<u64, Reward> {
    Map::new(
        |id: u64| rs.contains_key(id) || candidates.contains(id),
        |id: u64| if candidates.contains(id) {
            updated_reward(
                airdrops[id],
                if rs.contains_key(id) { rs[id] } else { Reward::spec_default() },
                now,
                total_share,
                share,
            )
        } else {
            rs[id]
        },
    )
}

/// Whether the first `n` update candidates are stored airdrops.
pub open spec fn candidates_present(g: &Gov, n: int) -> bool {
    forall|i: int| 0 <= i < n ==> g.airdrops@.contains_key(#[trigger] g.state.airdrop_update_candidates@[i])
}

/// Whether bringing candidate `j` (and the reward of `target` in it) up to date
/// at `now` stays within the ranges its arithmetic allows.
pub open spec fn update_step_fits(g: &Gov, j: int, now: u64, target: Option<(Seq<u8>, Seq<char>)>) -> bool {
    let id = g.state.airdrop_update_candidates@[j];
    let a = g.airdrops@[id];
    let s = updated_state(a.config, a.state, now, g.state.total_share);
    &&& accrual_fits(a.config, a.state, now, g.state.total_share)
    &&& (target matches Some(t) ==> reward_fits(
        s.last_update_time,
        g.state.total_share,
        g.manager(t).share,
        a.config,
        s,
        g.reward(t.1, id),
    ))
}

/// What an update at `now` leaves behind: every candidate airdrop brought up
/// to date, and where a `target` is given, its rewards in them too; nothing
/// else changes.
pub open spec fn update_outcome(g0: &Gov, g1: &Gov, now: u64, target: Option<(Seq<u8>, Seq<char>)>) -> bool {
    let cands = g0.state.airdrop_update_candidates@;
    let ts = g0.state.total_share;
    &&& candidates_present(g0, cands.len() as int)
    &&& g1.airdrops@ == updated_airdrops(g0.airdrops@, cands, now, ts)
    &&& (target matches Some(t) ==> forall|a: Seq<char>| #[trigger] inner(&g1.rewards, a) == if a == t.1 {
        updated_rewards(inner(&g0.rewards, a), g0.airdrops@, cands, now, ts, g0.manager(t).share)
    } else {
        inner(&g0.rewards, a)
    })
    &&& (target is None ==> g1.rewards == g0.rewards)
    &&& g1.config == g0.config
    &&& g1.state == g0.state
    &&& g1.polls == g0.polls
    &&& g1.status_index == g0.status_index
    &&& g1.category_index == g0.category_index
    &&& g1.voters == g0.voters
    &&& g1.bank == g0.bank
    &&& g1.tmp_poll_id == g0.tmp_poll_id
}

/// Whether an attribute is `key` with a list of ids as its value.
pub open spec fn is_ids_attr(a: Attribute, key: &'static str, ids: Seq<u64>) -> bool {
    &&& a.key == key
    &&& a.value matches AttrValue::Ids(v) && v@ == ids
}

/// Bringing an airdrop up to date a second time at the same moment changes
/// nothing.
pub proof fn lemma_update_idempotent_at(c: AirdropConfig, s: AirdropState, now: u64, total_share: u128)
    ensures
        updated_state(c, updated_state(c, s, now, total_share), now, total_share) == updated_state(c, s, now, total_share),
{
    let t = applicable(c, now);
    assert(spec_mul_decimal(0, c.reward_rate.atomics as int) == 0);
    if total_share != 0 {
        assert(spec_from_ratio(0, total_share as int) == 0);
    }
    assert(reward_per_token(t, total_share, c.reward_rate, t) == 0);
}

/// Bringing an airdrop up to date a second time at the same moment changes
/// nothing, and stays in range.
pub proof fn lemma_update_idempotent(c: AirdropConfig, s: AirdropState, now: u64, total_share: u128)
    requires
        finish_time(c) <= u64::MAX,
    ensures
        updated_state(c, updated_state(c, s, now, total_share), now, total_share) == updated_state(c, s, now, total_share),
        accrual_fits(c, updated_state(c, s, now, total_share), now, total_share),
{
    lemma_update_idempotent_at(c, s, now, total_share);
    let t = applicable(c, now);
    assert(spec_mul_decimal(0, c.reward_rate.atomics as int) == 0);
    if total_share != 0 {
        assert(spec_from_ratio(0, total_share as int) == 0);
    }
    assert(reward_per_token(t, total_share, c.reward_rate, t) == 0);
}

/// Bringing a reward up to date a second time at the same moment changes
/// nothing.
pub proof fn lemma_reward_update_idempotent_at(a: Airdrop, r: Reward, now: u64, total_share: u128, share: u128)
    ensures
        updated_reward(updated_airdrop(a, now, total_share), updated_reward(a, r, now, total_share, share), now, total_share, share)
            == updated_reward(a, r, now, total_share, share),
{
    lemma_update_idempotent_at(a.config, a.state, now, total_share);
    assert(spec_mul_decimal(share as int, 0) == 0);
}

/// Bringing a reward up to date a second time at the same moment changes
/// nothing, and stays in range.
pub proof fn lemma_reward_update_idempotent(a: Airdrop, r: Reward, now: u64, total_share: u128, share: u128)
    requires
        finish_time(a.config) <= u64::MAX,
    ensures
        updated_reward(updated_airdrop(a, now, total_share), updated_reward(a, r, now, total_share, share), now, total_share, share)
            == updated_reward(a, r, now, total_share, share),
        ({
            let a1 = updated_airdrop(a, now, total_share);
            let s2 = updated_state(a1.config, a1.state, now, total_share);
            reward_fits(
                s2.last_update_time,
                total_share,
                share,
                a1.config,
                s2,
                updated_reward(a, r, now, total_share, share),
            )
        }),
{
    lemma_reward_update_idempotent_at(a, r, now, total_share, share);
    lemma_update_idempotent(a.config, a.state, now, total_share);
    assert(spec_mul_decimal(share as int, 0) == 0);
}

/// Brings every airdrop among the update candidates up to `now`, and where a
/// `target` is given, that staker's rewards in them too. Fails, changing
/// nothing, when a candidate is not a stored airdrop.
pub fn update(gov: &mut Gov, now: u64, target: Option<Address>) -> (r: Result<Response, ContractError>)
    requires
        old(gov).wf(),
        // left out: updates whose accruals leave the 128-bit range
        forall|j: int|
            0 <= j < old(gov).state.airdrop_update_candidates@.len() && candidates_present(old(gov), j + 1)
                ==> #[trigger] update_step_fits(old(gov), j, now, opt_address(target)),
    ensures
        final(gov).wf(),
        old(gov).polls_indexed() ==> final(gov).polls_indexed(),
        r is Err <==> !candidates_present(old(gov), old(gov).state.airdrop_update_candidates@.len() as int),
        r is Err ==> r == Err::<Response, ContractError>(ContractError::AirdropNotFound) && *final(gov) == *old(gov),
        r matches Ok(resp) ==> {
            let cands = old(gov).state.airdrop_update_candidates@;
            &&& update_outcome(old(gov), final(gov), now, opt_address(target))
            &&& resp.messages@.len() == 0
            &&& resp.attributes@.len() == 2
            &&& resp.attributes@[0] == word("action", "airdrop_update")
            &&& is_ids_attr(resp.attributes@[1], "updated", cands)
        },
{
    let mut response = Response::new();
    response.add_attribute("action", AttrValue::Word("airdrop_update"));
    let n = gov.state.airdrop_update_candidates.len();
    let mut k: usize = 0;
    while k < n
        invariant
            gov.wf(),
            n == gov.state.airdrop_update_candidates@.len(),
            k <= n,
            candidates_present(gov, k as int),
        decreases n - k,
    {
        if !gov.airdrops.contains_key(&gov.state.airdrop_update_candidates[k]) {
            return Err(ContractError::AirdropNotFound);
        }
        k = k + 1;
    }
    let ghost g0 = *gov;
    let ghost cands = gov.state.airdrop_update_candidates@;
    let total_share = gov.state.total_share;
    let share = match &target {
        Some(t) => TokenManager::load(gov, t).share,
        None => 0,
    };
    let mut i: usize = 0;
    while i < n
        invariant
            gov.wf(),
            g0.wf(),
            n == cands.len(),
            i <= n,
            candidates_present(&g0, n as int),
            cands == g0.state.airdrop_update_candidates@,
            total_share == g0.state.total_share,
            target matches Some(t) ==> share == g0.manager(t@).share,
            forall|j: int| 0 <= j < n && candidates_present(&g0, j + 1) ==> #[trigger] update_step_fits(&g0, j, now, opt_address(target)),
            gov.airdrops@ == updated_airdrops(g0.airdrops@, cands.take(i as int), now, total_share),
            target matches Some(t) ==> forall|a: Seq<char>| #[trigger] inner(&gov.rewards, a) == if a == t.human@ {
                updated_rewards(inner(&g0.rewards, a), g0.airdrops@, cands.take(i as int), now, total_share, share)
            } else {
                inner(&g0.rewards, a)
            },
            target is None ==> gov.rewards == g0.rewards,
            gov.config == g0.config,
            gov.state == g0.state,
            gov.polls == g0.polls,
            gov.status_index == g0.status_index,
            gov.category_index == g0.category_index,
            gov.voters == g0.voters,
            gov.bank == g0.bank,
            gov.tmp_poll_id == g0.tmp_poll_id,
            response.messages@.len() == 0,
            response.attributes@ == seq![word("action", "airdrop_update")],
        decreases n - i,
    {
        let id = gov.state.airdrop_update_candidates[i];
        let ghost a0 = g0.airdrops@[id];
        let ghost done = cands.take(i as int).contains(id);
        assert(g0.airdrops@.contains_key(id));
        assert(update_step_fits(&g0, i as int, now, opt_address(target)));
        let mut a = gov.airdrops.take(&id).unwrap();
        proof {
            if done {
                lemma_update_idempotent(a0.config, a0.state, now, total_share);
            }
        }
        a.state = accrued_state(&a, now, total_share);
        let t = a.state.last_update_time;
        assert(a == updated_airdrop(a0, now, total_share));
        match &target {
            Some(tgt) => {
                let reward = Reward::load(gov, &tgt.human, id);
                proof {
                    let r0 = if inner(&g0.rewards, tgt.human@).contains_key(id) { inner(&g0.rewards, tgt.human@)[id] } else { Reward::spec_default() };
                    if done {
                        lemma_reward_update_idempotent(a0, r0, now, total_share, share);
                    }
                }
                let paid = calculate_rewards(t, total_share, share, &a, &reward)?;
                Reward::save(gov, tgt.human.clone(), id, Reward { reward: paid, reward_per_token_paid: a.state.reward_per_token_stored });
            },
            None => {},
        }
        gov.airdrops.insert(id, a);
        proof {
            let c1 = cands.take(i as int + 1);
            assert(c1 =~= cands.take(i as int).push(id));
            assert forall|x: u64| #[trigger] c1.contains(x) <==> (cands.take(i as int).contains(x) || x == id) by {
                if c1.contains(x) {
                    let w = choose|w: int| 0 <= w < c1.len() && c1[w] == x;
                    if w < i {
                        assert(cands.take(i as int)[w] == x);
                    }
                }
                if cands.take(i as int).contains(x) {
                    let w = choose|w: int| 0 <= w < i && cands.take(i as int)[w] == x;
                    assert(c1[w] == x);
                }
                if x == id {
                    assert(c1[i as int] == x);
                }
            }
            assert(gov.airdrops@ =~= updated_airdrops(g0.airdrops@, c1, now, total_share));
            if let Some(tg) = &target {
                assert forall|a: Seq<char>| #[trigger] inner(&gov.rewards, a) == if a == tg.human@ {
                    updated_rewards(inner(&g0.rewards, a), g0.airdrops@, c1, now, total_share, share)
                } else {
                    inner(&g0.rewards, a)
                } by {
                    if a == tg.human@ {
                        assert(inner(&gov.rewards, a) =~= updated_rewards(inner(&g0.rewards, a), g0.airdrops@, c1, now, total_share, share));
                    }
                }
            }
        }
        i = i + 1;
    }
    proof {
        assert(cands.take(n as int) =~= cands);
    }
    let updated = copy_ids(&gov.state.airdrop_update_candidates);
    response.add_attribute("updated", AttrValue::Ids(updated));
    proof {
        if old(gov).polls_indexed() {
            lemma_indexed_frame(old(gov), gov);
        }
    }
    Ok(response)
}

/// A copy of a list of ids.
pub fn copy_ids(v: &Vec<u64>) -> (r: Vec<u64>)
    ensures
        r@ == v@,
{
    let mut r: Vec<u64> = Vec::new();
    let mut i: usize = 0;
    while i < v.len()
        invariant
            i <= v@.len(),
            r@ == v@.subrange(0, i as int),
        decreases v@.len() - i,
    {
        r.push(v[i]);
        i = i + 1;
    }
    assert(v@.subrange(0, v@.len() as int) =~= v@);
    r
}


/// The rewards of a staker that a claim looks at: the latest
/// `MAX_QUERY_LIMIT` of them, by descending airdrop id.
pub open spec fn claim_range(g: &Gov, addr: Seq<char>) -> Seq<u64> {
    if g.rewards@.contains_key(addr) {
        g.rewards@[addr].range_keys(None, MAX_QUERY_LIMIT as nat, false)
    } else {
        Seq::empty()
    }
}

/// Whether `addr`'s reward in airdrop `id`, brought up to `now`, is nonzero.
pub open spec fn has_claimable(g: &Gov, addr: (Seq<u8>, Seq<char>), id: u64, now: u64) -> bool {
    updated_reward(g.airdrops@[id], inner(&g.rewards, addr.1)[id], now, g.state.total_share, g.manager(addr).share).reward != 0
}

/// The airdrops whose rewards a claim pays out, in the order it asks for them.
pub open spec fn claimed_ids(g: &Gov, addr: (Seq<u8>, Seq<char>), now: u64) -> Seq<u64> {
    claim_range(g, addr.1).filter(|id: u64| has_claimable(g, addr, id, now))
}

/// Whether a claim can bring `addr`'s reward in airdrop `id` up to `now`
/// within the ranges its arithmetic allows.
pub open spec fn claim_step_fits(g: &Gov, addr: (Seq<u8>, Seq<char>), id: u64, now: u64) -> bool {
    let a = g.airdrops@[id];
    let s = updated_state(a.config, a.state, now, g.state.total_share);
    &&& g.airdrops@.contains_key(id)
    &&& accrual_fits(a.config, a.state, now, g.state.total_share)
    &&& reward_fits(s.last_update_time, g.state.total_share, g.manager(addr).share, a.config, s, inner(&g.rewards, addr.1)[id])
}

/// The staker that a claim pays: the one named, else the sender.
pub open spec fn claim_target(info_sender: Address, sender: Option<Address>) -> Address {
    match sender {
        Some(s) => s,
        None => info_sender,
    }
}

/// The message that pays out one reward.
pub open spec fn claim_msg(sender: String, airdrop_id: u64) -> SubMsg {
    SubMsg { msg: Msg::ToSelf(SelfMsg::ClaimInternal { sender, airdrop_id }), reply_on_error: None }
}

/// The message that brings the airdrops and `target`'s rewards up to date.
pub open spec fn update_msg(target: String) -> SubMsg {
    SubMsg { msg: Msg::ToSelf(SelfMsg::AirdropUpdate { target: Some(target) }), reply_on_error: None }
}

/// Claims the rewards of `sender` (else of the caller): asks the contract to
/// bring that staker's rewards up to date, then to pay out each of its latest
/// rewards that would be nonzero by now. Changes nothing itself.
pub fn claim(gov: &Gov, now: u64, info_sender: Address, sender: Option<Address>) -> (r: Result<Response, ContractError>)
    requires
        gov.wf(),
        // left out: claims on rewards of unstored airdrops, or whose accruals leave the range
        forall|j: int| 0 <= j < claim_range(gov, claim_target(info_sender, sender).human@).len() ==> claim_step_fits(
            gov,
            claim_target(info_sender, sender)@,
            #[trigger] claim_range(gov, claim_target(info_sender, sender).human@)[j],
            now,
        ),
    ensures
        r matches Ok(resp) && {
            let addr = claim_target(info_sender, sender);
            &&& resp.messages@ == seq![update_msg(addr.human)] + claimed_ids(gov, addr@, now).map_values(|id: u64| claim_msg(addr.human, id))
            &&& resp.attributes@.len() == 0
        },
{
    let addr = match sender {
        Some(s) => s,
        None => info_sender,
    };
    let ghost rk = claim_range(gov, addr.human@);
    let ghost pred = |id: u64| has_claimable(gov, addr@, id, now);
    let total_share = gov.state.total_share;
    let share = TokenManager::load(gov, &addr).share;
    let rewards: Vec<&(u64, Reward)> = match gov.rewards.get(&addr.human) {
        Some(m) => m.range(&None, MAX_QUERY_LIMIT as usize, false),
        None => Vec::new(),
    };
    let mut response = Response::new();
    response.add_message(Msg::ToSelf(SelfMsg::AirdropUpdate { target: Some(addr.human.clone()) }));
    let mut j: usize = 0;
    while j < rewards.len()
        invariant
            gov.wf(),
            rewards@.len() == rk.len(),
            rk == claim_range(gov, addr.human@),
            pred == (|id: u64| has_claimable(gov, addr@, id, now)),
            j <= rk.len(),
            total_share == gov.state.total_share,
            share == gov.manager(addr@).share,
            forall|k: int| 0 <= k < rk.len() ==> (#[trigger] rewards@[k]).0 == rk[k] && inner(&gov.rewards, addr.human@).contains_key(rk[k])
                && rewards@[k].1 == inner(&gov.rewards, addr.human@)[rk[k]],
            forall|k: int| 0 <= k < rk.len() ==> claim_step_fits(gov, addr@, #[trigger] rk[k], now),
            response.messages@ == seq![update_msg(addr.human)] + rk.take(j as int).filter(pred).map_values(|id: u64| claim_msg(addr.human, id)),
            response.attributes@.len() == 0,
        decreases rk.len() - j,
    {
        let entry = rewards[j];
        let id = entry.0;
        assert(claim_step_fits(gov, addr@, rk[j as int], now));
        let a = gov.airdrops.get(&id).unwrap();
        let s = accrued_state(a, now, total_share);
        let current = Airdrop {
            config: AirdropConfig {
                start: a.config.start,
                period: a.config.period,
                reward_token: a.config.reward_token.clone(),
                reward_rate: a.config.reward_rate,
            },
            state: s,
        };
        let paid = calculate_rewards(s.last_update_time, total_share, share, &current, &entry.1)?;
        proof {
            reveal(Seq::filter);
            let t1 = rk.take(j as int + 1);
            assert(t1.drop_last() =~= rk.take(j as int));
            assert(t1.last() == id);
            assert(current.config == a.config);
            assert(pred(id) == (paid != 0));
        }
        if paid != 0 {
            response.add_message(Msg::ToSelf(SelfMsg::ClaimInternal { sender: addr.human.clone(), airdrop_id: id }));
            proof {
                let f = |id: u64| claim_msg(addr.human, id);
                let p0 = rk.take(j as int).filter(pred);
                assert(p0.push(id).map_values(f) =~= p0.map_values(f).push(f(id)));
            }
        }
        j = j + 1;
    }
    proof {
        assert(rk.take(rk.len() as int) =~= rk);
    }
    Ok(response)
}

} // verus!
