//! Whether a request stays within the ranges in which the contract's
//! arithmetic is defined. The executions leave out, by their preconditions,
//! the inputs on which their amounts would overflow or divide by zero; these
//! checks decide those preconditions, so that a caller can refuse such a
//! request before making it.

use vstd::prelude::*;
use crate::airdrop::{accrual_fits, accrued_state, candidates_present, claim_range, claim_step_fits, reward_fits, update_step_fits};
use crate::gov::Gov;
use crate::math::{mul_decimal, ratio_fits, spec_from_ratio, Decimal, DECIMAL_FRACTIONAL};
use crate::poll::{end_weight, share_value};
use crate::queries::{staker_airdrops, staker_fits, staker_page, OrderBy, query_limit};
use crate::state::{opt_str, Airdrop, AirdropConfig, PollStatus, Reward, TokenManager, DEFAULT_QUERY_LIMIT, MAX_QUERY_LIMIT};
use crate::keys::{opt_address, Address};
use crate::store::{inner, nested_get};

verus! {

/// Whether an airdrop can be brought up to `now` (see `accrual_fits`).
pub fn accrual_fits_check(a: &Airdrop, now: u64, total_share: u128) -> (b: bool)
    ensures
        b == accrual_fits(a.config, a.state, now, total_share),
{
    if a.config.start > u64::MAX - a.config.period {
        return false;
    }
    if a.finish() == a.state.last_update_time {
        return true;
    }
    let t = a.applicable_time(now);
    let last = a.state.last_update_time;
    let elapsed: u128 = if t >= last { (t - last) as u128 } else { 0 };
    if total_share == 0 {
        return true;
    }
    if !ratio_fits(elapsed, a.config.reward_rate.atomics, DECIMAL_FRACTIONAL) {
        return false;
    }
    let m = mul_decimal(elapsed, a.config.reward_rate);
    if !ratio_fits(m, DECIMAL_FRACTIONAL, total_share) {
        return false;
    }
    let extra = Decimal::from_ratio(m, total_share);
    extra.atomics <= u128::MAX - a.state.reward_per_token_stored.atomics
}

/// Whether a reward can be brought up to `timestamp` (see `reward_fits`).
pub fn reward_fits_check(timestamp: u64, total_share: u128, user_share: u128, a: &Airdrop, r: &Reward) -> (b: bool)
    ensures
        b == reward_fits(timestamp, total_share, user_share, a.config, a.state, *r),
{
    let stored = a.state.reward_per_token_stored.atomics;
    let paid = r.reward_per_token_paid.atomics;
    if stored < paid {
        return false;
    }
    let mut rpt: u128 = stored - paid;
    if a.state.last_update_time != timestamp && total_share != 0 {
        let last = a.state.last_update_time;
        let elapsed: u128 = if timestamp >= last { (timestamp - last) as u128 } else { 0 };
        if !ratio_fits(elapsed, a.config.reward_rate.atomics, DECIMAL_FRACTIONAL) {
            return false;
        }
        let m = mul_decimal(elapsed, a.config.reward_rate);
        if !ratio_fits(m, DECIMAL_FRACTIONAL, total_share) {
            return false;
        }
        let extra = Decimal::from_ratio(m, total_share);
        if extra.atomics > u128::MAX - rpt {
            return false;
        }
        rpt = rpt + extra.atomics;
    }
    if !ratio_fits(user_share, rpt, DECIMAL_FRACTIONAL) {
        return false;
    }
    let accrued = mul_decimal(user_share, Decimal { atomics: rpt });
    accrued <= u128::MAX - r.reward
}

/// Whether candidate `j` of an update can be brought up to date (see
/// `update_step_fits`).
fn update_step_check(gov: &Gov, j: usize, now: u64, target: &Option<Address>) -> (b: bool)
    requires
        gov.wf(),
        j < gov.state.airdrop_update_candidates@.len(),
        gov.airdrops@.contains_key(gov.state.airdrop_update_candidates@[j as int]),
    ensures
        b == update_step_fits(gov, j as int, now, opt_address(*target)),
{
    let id = gov.state.airdrop_update_candidates[j];
    let a = gov.airdrops.get(&id).unwrap();
    let total_share = gov.state.total_share;
    if !accrual_fits_check(a, now, total_share) {
        return false;
    }
    match target {
        Some(t) => {
            let s = accrued_state(a, now, total_share);
            let current = Airdrop {
                config: AirdropConfig {
                    start: a.config.start,
                    period: a.config.period,
                    reward_token: a.config.reward_token.clone(),
                    reward_rate: a.config.reward_rate,
                },
                state: s,
            };
            let share = TokenManager::load(gov, t).share;
            let r = Reward::load(gov, &t.human, id);
            reward_fits_check(s.last_update_time, total_share, share, &current, &r)
        },
        None => true,
    }
}

/// Whether an airdrop update at `now` stays in range: the precondition of
/// `airdrop::update`.
pub fn update_fits(gov: &Gov, now: u64, target: &Option<Address>) -> (b: bool)
    requires
        gov.wf(),
    ensures
        b == forall|j: int|
            0 <= j < gov.state.airdrop_update_candidates@.len() && candidates_present(gov, j + 1)
                ==> #[trigger] update_step_fits(gov, j, now, opt_address(*target)),
{
    let n = gov.state.airdrop_update_candidates.len();
    let mut j: usize = 0;
    while j < n
        invariant
            gov.wf(),
            n == gov.state.airdrop_update_candidates@.len(),
            j <= n,
            candidates_present(gov, j as int),
            forall|k: int| 0 <= k < j && candidates_present(gov, k + 1) ==> #[trigger] update_step_fits(gov, k, now, opt_address(*target)),
        decreases n - j,
    {
        let id = gov.state.airdrop_update_candidates[j];
        if !gov.airdrops.contains_key(&id) {
            assert forall|k: int| 0 <= k < n && candidates_present(gov, k + 1) implies #[trigger] update_step_fits(gov, k, now, opt_address(*target)) by {
                if k >= j {
                    assert(gov.airdrops@.contains_key(gov.state.airdrop_update_candidates@[j as int]));
                }
            }
            return true;
        }
        if !update_step_check(gov, j, now, target) {
            assert(candidates_present(gov, j + 1));
            return false;
        }
        j = j + 1;
    }
    true
}

/// Whether `addr`'s reward in airdrop `id` can be brought up to `now` (see
/// `claim_step_fits`).
fn claim_step_check(gov: &Gov, addr: &Address, id: u64, now: u64) -> (b: bool)
    requires
        gov.wf(),
        inner(&gov.rewards, addr.human@).contains_key(id),
    ensures
        b == claim_step_fits(gov, addr@, id, now),
{
    let a = match gov.airdrops.get(&id) {
        Some(a) => a,
        None => return false,
    };
    let total_share = gov.state.total_share;
    if !accrual_fits_check(a, now, total_share) {
        return false;
    }
    let s = accrued_state(a, now, total_share);
    let current = Airdrop {
        config: AirdropConfig {
            start: a.config.start,
            period: a.config.period,
            reward_token: a.config.reward_token.clone(),
            reward_rate: a.config.reward_rate,
        },
        state: s,
    };
    let share = TokenManager::load(gov, addr).share;
    let r = *nested_get(&gov.rewards, &addr.human, &id).unwrap();
    reward_fits_check(s.last_update_time, total_share, share, &current, &r)
}

/// Whether every reward that a list of stored rewards names can be brought up
/// to `now`.
fn rewards_check(gov: &Gov, addr: &Address, entries: &Vec<&(u64, Reward)>, Ghost(ks): Ghost<Seq<u64>>, now: u64) -> (b: bool)
    requires
        gov.wf(),
        entries@.len() == ks.len(),
        forall|k: int| 0 <= k < ks.len() ==> (#[trigger] entries@[k]).0 == ks[k],
        forall|k: int| 0 <= k < ks.len() ==> inner(&gov.rewards, addr.human@).contains_key(#[trigger] ks[k]),
    ensures
        b == forall|k: int| 0 <= k < ks.len() ==> claim_step_fits(gov, addr@, #[trigger] ks[k], now),
{
    let mut i: usize = 0;
    while i < entries.len()
        invariant
            gov.wf(),
            entries@.len() == ks.len(),
            forall|k: int| 0 <= k < ks.len() ==> (#[trigger] entries@[k]).0 == ks[k],
        forall|k: int| 0 <= k < ks.len() ==> inner(&gov.rewards, addr.human@).contains_key(#[trigger] ks[k]),
            i <= ks.len(),
            forall|k: int| 0 <= k < i ==> claim_step_fits(gov, addr@, #[trigger] ks[k], now),
        decreases ks.len() - i,
    {
        if !claim_step_check(gov, addr, entries[i].0, now) {
            assert(!claim_step_fits(gov, addr@, ks[i as int], now));
            return false;
        }
        i = i + 1;
    }
    true
}

/// Whether a claim at `now` for `addr` stays in range: the precondition of
/// `airdrop::claim` for that staker.
pub fn claim_fits(gov: &Gov, addr: &Address, now: u64) -> (b: bool)
    requires
        gov.wf(),
    ensures
        b == forall|j: int| 0 <= j < claim_range(gov, addr.human@).len() ==> claim_step_fits(gov, addr@, #[trigger] claim_range(gov, addr.human@)[j], now),
{
    let entries: Vec<&(u64, Reward)> = match gov.rewards.get(&addr.human) {
        Some(m) => m.range(&None, MAX_QUERY_LIMIT as usize, false),
        None => Vec::new(),
    };
    rewards_check(gov, addr, &entries, Ghost(claim_range(gov, addr.human@)), now)
}

/// Whether answering for a staker at `now`, with `total_balance` tokens
/// staked, stays in range (see `staker_fits`).
pub fn staker_fits_check(gov: &Gov, addr: &Address, now: u64, total_balance: u128) -> (b: bool)
    requires
        gov.wf(),
    ensures
        b == staker_fits(gov, addr@, now, total_balance),
{
    let manager = TokenManager::load(gov, addr);
    let total_share = gov.state.total_share;
    if total_share != 0 && !ratio_fits(manager.share, total_balance, total_share) {
        return false;
    }
    let ghost votes = manager.locked_balance@;
    let mut i: usize = 0;
    while i < manager.locked_balance.len()
        invariant
            gov.wf(),
            votes == manager.locked_balance@,
            votes == gov.manager(addr@).locked_balance,
            i <= votes.len(),
            forall|k: int| 0 <= k < i ==> gov.polls@.contains_key(#[trigger] votes[k].0),
        decreases votes.len() - i,
    {
        if !gov.polls.contains_key(&manager.locked_balance[i].0) {
            return false;
        }
        i = i + 1;
    }
    let entries: Vec<&(u64, Reward)> = match gov.rewards.get(&addr.human) {
        Some(m) => m.range(&None, DEFAULT_QUERY_LIMIT as usize, false),
        None => Vec::new(),
    };
    assert(addr@.1 == addr.human@);
    rewards_check(gov, addr, &entries, Ghost(staker_airdrops(gov, addr.human@)), now)
}

/// Whether a page of stakers at `now` stays in range: the precondition of
/// `queries::query_stakers` once the balance covers the deposits.
pub fn stakers_fit(
    gov: &Gov,
    start_after: &Option<Address>,
    limit: Option<u32>,
    order_by: Option<OrderBy>,
    now: u64,
    total_balance: u128,
) -> (b: bool)
    requires
        gov.wf(),
    ensures
        b == forall|j: int| 0 <= j < staker_page(gov, *start_after, limit, order_by).len()
            ==> staker_fits(gov, #[trigger] staker_page(gov, *start_after, limit, order_by)[j], now, total_balance),
{
    let ascending_order = match order_by {
        Some(OrderBy::Asc) => true,
        _ => false,
    };
    let entries = gov.bank.range(start_after, query_limit(limit) as usize, ascending_order);
    let ghost ks = staker_page(gov, *start_after, limit, order_by);
    let mut i: usize = 0;
    while i < entries.len()
        invariant
            gov.wf(),
            ks == staker_page(gov, *start_after, limit, order_by),
            entries@.len() == ks.len(),
            forall|k: int| 0 <= k < entries@.len() ==> (#[trigger] entries@[k]).0@ == ks[k],
            i <= ks.len(),
            forall|k: int| 0 <= k < i ==> staker_fits(gov, #[trigger] ks[k], now, total_balance),
        decreases ks.len() - i,
    {
        if !staker_fits_check(gov, &entries[i].0, now, total_balance) {
            assert(!staker_fits(gov, ks[i as int], now, total_balance));
            return false;
        }
        i = i + 1;
    }
    true
}

impl Gov {
    /// Whether a vote stays in range: the precondition of `cast_vote`.
    pub fn cast_vote_fits(&self, sender: &Address, poll_id: u64, vote: crate::state::VoteOption, amount: u128, block_height: u64, balance: u128) -> (b: bool)
        requires
            self.wf(),
        ensures
            b == ((self.vote_precheck(sender@, poll_id, block_height, balance) is None ==> {
                &&& self.state.total_share > 0
                &&& share_value(self.manager(sender@).share, (balance - self.state.total_deposit) as u128, self.state.total_share) <= u128::MAX
            }) && (self.vote_error(sender@, poll_id, block_height, balance, amount) is None ==> {
                let p = self.polls@[poll_id];
                if vote == crate::state::VoteOption::Yes {
                    p.yes_votes + amount <= u128::MAX
                } else {
                    p.no_votes + amount <= u128::MAX
                }
            })),
    {
        if poll_id == 0 || self.state.poll_count < poll_id {
            return true;
        }
        let p = match self.polls.get(&poll_id) {
            Some(p) => p,
            None => return true,
        };
        if p.status != PollStatus::InProgress || block_height > p.end_height {
            return true;
        }
        if nested_get(&self.voters, &poll_id, sender).is_some() {
            return true;
        }
        if balance < self.state.total_deposit {
            return true;
        }
        let total_share = self.state.total_share;
        if total_share == 0 {
            return false;
        }
        let share = TokenManager::load(self, sender).share;
        let staked = balance - self.state.total_deposit;
        if !ratio_fits(share, staked, total_share) {
            return false;
        }
        let value = crate::math::multiply_ratio(share, staked, total_share);
        if value < amount {
            return true;
        }
        if vote == crate::state::VoteOption::Yes {
            amount <= u128::MAX - p.yes_votes
        } else {
            amount <= u128::MAX - p.no_votes
        }
    }

    /// Whether a stake stays in range: the precondition of `stake`.
    pub fn stake_fits_check(&self, sender: &Address, amount: u128, balance: u128) -> (b: bool)
        requires
            self.wf(),
        ensures
            b == self.stake_fits(sender@, amount, balance),
    {
        if self.state.total_deposit > u128::MAX - amount {
            return false;
        }
        let needed = self.state.total_deposit + amount;
        if balance < needed {
            return true;
        }
        let staked = balance - needed;
        let share = if staked == 0 || self.state.total_share == 0 {
            amount
        } else {
            if !ratio_fits(amount, self.state.total_share, staked) {
                return false;
            }
            crate::math::multiply_ratio(amount, self.state.total_share, staked)
        };
        let current = TokenManager::load(self, sender).share;
        current <= u128::MAX - share && self.state.total_share <= u128::MAX - share
    }

    /// Whether ending a poll stays in range: the precondition of `end`.
    pub fn end_fits(&self, poll_id: u64, block_height: u64, balance: u128) -> (b: bool)
        requires
            self.wf(),
        ensures
            b == (self.end_precheck(poll_id, block_height) is None ==> {
                let p = self.polls@[poll_id];
                &&& p.yes_votes + p.no_votes <= u128::MAX
                &&& self.state.total_share != 0 ==> match end_weight(self.state.total_share, p.staked_amount, balance, self.state.total_deposit) {
                    Ok(w) => w > 0 && spec_from_ratio(p.yes_votes + p.no_votes, w as int) <= u128::MAX,
                    Err(_) => true,
                }
            }),
    {
        let p = match self.polls.get(&poll_id) {
            Some(p) => p,
            None => return true,
        };
        if p.status != PollStatus::InProgress || p.end_height > block_height {
            return true;
        }
        if p.yes_votes > u128::MAX - p.no_votes {
            return false;
        }
        if self.state.total_share == 0 {
            return true;
        }
        let tallied = p.yes_votes + p.no_votes;
        let w = match p.staked_amount {
            Some(s) => s,
            None => {
                if balance < self.state.total_deposit {
                    return true;
                }
                balance - self.state.total_deposit
            },
        };
        w > 0 && ratio_fits(tallied, DECIMAL_FRACTIONAL, w)
    }

    /// Whether executing a poll stays in range: the precondition of `execute`.
    pub fn execute_fits(&self, poll_id: u64) -> (b: bool)
        requires
            self.wf(),
        ensures
            b == (self.polls@.contains_key(poll_id) && self.polls@[poll_id].status == PollStatus::Passed
                ==> self.polls@[poll_id].end_height + self.config.timelock_period <= u64::MAX),
    {
        match self.polls.get(&poll_id) {
            Some(p) => p.status != PollStatus::Passed || p.end_height <= u64::MAX - self.config.timelock_period,
            None => true,
        }
    }

    /// Whether a snapshot stays in range: the precondition of `snapshot`.
    pub fn snapshot_fits(&self, poll_id: u64, block_height: u64, balance: u128) -> (b: bool)
        requires
            self.wf(),
        ensures
            b == (balance >= self.state.total_deposit && self.polls@.contains_key(poll_id)
                && self.polls@[poll_id].status == PollStatus::InProgress
                && self.polls@[poll_id].staked_amount is None
                ==> block_height <= self.polls@[poll_id].end_height),
    {
        match self.polls.get(&poll_id) {
            Some(p) => balance < self.state.total_deposit || p.status != PollStatus::InProgress || p.staked_amount.is_some()
                || block_height <= p.end_height,
            None => true,
        }
    }

    /// Whether creating a poll stays in range: the precondition of `create`.
    pub fn create_fits_check(&self, deposit_amount: u128, block_height: u64) -> (b: bool)
        ensures
            b == self.create_fits(deposit_amount, block_height),
    {
        deposit_amount < self.config.proposal_deposit || (self.state.poll_count < u64::MAX
            && deposit_amount <= u128::MAX - self.state.total_deposit
            && block_height <= u64::MAX - self.config.voting_period)
    }

    /// Whether starting an airdrop stays in range: the precondition of
    /// `airdrop::instantiate`.
    pub fn airdrop_instantiate_fits(&self, sender: &String, period: u64, reward_amount: u128) -> (b: bool)
        ensures
            b == (sender@ == self.config.owner@ ==> {
                &&& period > 0
                &&& spec_from_ratio(reward_amount as int, period as int) <= u128::MAX
                &&& self.state.total_airdrop_count < u64::MAX
            }),
    {
        if *sender != self.config.owner {
            return true;
        }
        period > 0 && ratio_fits(reward_amount, DECIMAL_FRACTIONAL, period as u128) && self.state.total_airdrop_count < u64::MAX
    }

    /// Whether an allocation stays in range: the precondition of
    /// `airdrop::allocate`.
    pub fn allocate_fits(&self, sender: &String, airdrop_id: u64, recipient: &String, allocate_amount: u128) -> (b: bool)
        requires
            self.wf(),
        ensures
            b == (sender@ == self.config.owner@ ==> self.reward(recipient@, airdrop_id).reward + allocate_amount <= u128::MAX),
    {
        if *sender != self.config.owner {
            return true;
        }
        allocate_amount <= u128::MAX - Reward::load(self, recipient, airdrop_id).reward
    }
}

} // verus!
