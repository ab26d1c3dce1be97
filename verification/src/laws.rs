//! Properties that span several executions of the contract.

use vstd::prelude::*;
use vstd::arithmetic::div_mod::{lemma_div_is_ordered, lemma_div_pos_is_pos};
use vstd::arithmetic::mul::{lemma_mul_inequality, lemma_mul_nonnegative};
use crate::math::{spec_mul_decimal, Decimal, DECIMAL_FRACTIONAL};
use crate::airdrop::{candidates_present, reward_fits, update_step_fits, updated_state, claim_msg, claim_range, claimed_ids, has_claimable, update_msg, reward_per_token, spec_max, lemma_reward_update_idempotent_at, lemma_update_idempotent_at, reward_set, update_outcome, updated_airdrop, updated_reward};
use crate::gov::{deposits_up_to, held_deposit, lemma_deposits_cover, lemma_deposits_insert_above, lemma_deposits_insert_at, lemma_indexed_after_update, Gov};
use crate::poll::{end_weight, share_value};
use crate::keys::Address;
use crate::response::{Msg, Response, SelfMsg};
use crate::state::{ContractError, ExecuteData, Poll, PollCategory, PollStatus, Reward, VoterInfo, DEFAULT_QUERY_LIMIT, MAX_QUERY_LIMIT};
use crate::queries::{claimable_entry, staker_airdrops, staker_response_of, StakerResponse, ascending, category_of_filter, filtered_page, index_page, limit_of, same_poll, status_of_filter, OrderBy};
use crate::store::inner;

verus! {

/// One vote per voter: once `sender` has voted on a poll, every further vote
/// of theirs on it is refused, and while the poll is still open the answer is
/// `AlreadyVoted`.
pub proof fn law_one_vote_per_voter(g: &Gov, sender: (Seq<u8>, Seq<char>), poll_id: u64, height: u64, balance: u128, amount: u128)
    requires
        g.voter(poll_id, sender) is Some,
    ensures
        g.vote_error(sender, poll_id, height, balance, amount) is Some,
        1 <= poll_id <= g.state.poll_count && g.polls@.contains_key(poll_id)
            && g.polls@[poll_id].status == PollStatus::InProgress && height <= g.polls@[poll_id].end_height
            ==> g.vote_error(sender, poll_id, height, balance, amount) == Some(ContractError::AlreadyVoted),
{
}

/// A poll that was created reads back as created: it is stored under the new
/// poll count, in progress, with the proposer, texts, messages and deposit it
/// was created with, no votes and its voting period ahead, and both indexes
/// list it.
pub proof fn law_created_poll_reads_back(
    g0: &Gov,
    g1: &Gov,
    created: Response,
    proposer: String,
    deposit_amount: u128,
    title: String,
    category: PollCategory,
    description: String,
    link: Option<String>,
    execute_msgs: Option<Vec<ExecuteData>>,
    block_height: u64,
)
    requires
        Gov::create_outcome(
            g0,
            g1,
            Ok(created),
            proposer,
            deposit_amount,
            title,
            category,
            description,
            link,
            execute_msgs,
            block_height,
        ),
    ensures
        ({
            let id = g1.state.poll_count;
            &&& id == (g0.state.poll_count + 1) as u64
            &&& g1.polls@.contains_key(id)
            &&& g1.polls@[id] == Poll {
                id,
                creator: proposer,
                status: PollStatus::InProgress,
                yes_votes: 0,
                no_votes: 0,
                end_height: (block_height + g0.config.voting_period) as u64,
                title,
                category,
                description,
                link,
                execute_data: execute_msgs,
                deposit_amount,
                total_balance_at_end_poll: None,
                staked_amount: None,
            }
            &&& g1.status_index.ids(PollStatus::InProgress).contains_key(id)
            &&& g1.category_index.ids(category).contains_key(id)
            &&& forall|other: u64| other != id && #[trigger] g0.polls@.contains_key(other) ==> g1.polls@[other] == g0.polls@[other]
        }),
{
}

/// A proposal deposit is held from the poll's creation until it ends: a
/// creation that succeeds adds the deposit to the total, and ending that poll
/// takes the deposit off again, so the total is back where it was; the poll
/// keeps the deposit it was created with.
pub proof fn law_deposit_held_until_end(
    g0: &Gov,
    g1: &Gov,
    g2: &Gov,
    created: Response,
    ended: Response,
    proposer: String,
    deposit_amount: u128,
    title: String,
    category: PollCategory,
    description: String,
    link: Option<String>,
    execute_msgs: Option<Vec<ExecuteData>>,
    block_height: u64,
    end_height: u64,
    balance: u128,
)
    requires
        Gov::create_outcome(
            g0,
            g1,
            Ok(created),
            proposer,
            deposit_amount,
            title,
            category,
            description,
            link,
            execute_msgs,
            block_height,
        ),
        Gov::end_outcome(g1, g2, Ok(ended), g1.state.poll_count, end_height, balance),
    ensures
        g1.state.total_deposit == g0.state.total_deposit + deposit_amount,
        g2.polls@[g1.state.poll_count].deposit_amount == deposit_amount,
        g2.state.total_deposit == g0.state.total_deposit,
{
}

/// The deposit total is what the polls in progress hold, and creating a poll
/// keeps it so: the new poll, in progress under the next id, holds its
/// deposit, and the total grows by exactly that deposit.
pub proof fn law_create_keeps_deposits_held(
    g0: &Gov,
    g1: &Gov,
    created: Response,
    proposer: String,
    deposit_amount: u128,
    title: String,
    category: PollCategory,
    description: String,
    link: Option<String>,
    execute_msgs: Option<Vec<ExecuteData>>,
    block_height: u64,
)
    requires
        g0.polls_indexed(),
        g0.deposits_held(),
        g0.create_fits(deposit_amount, block_height),
        Gov::create_outcome(
            g0,
            g1,
            Ok(created),
            proposer,
            deposit_amount,
            title,
            category,
            description,
            link,
            execute_msgs,
            block_height,
        ),
    ensures
        g1.deposits_held(),
        g1.state.total_deposit == g0.state.total_deposit + deposit_amount,
        held_deposit(g1.polls@, g1.state.poll_count) == deposit_amount,
{
    let n = g0.state.poll_count;
    let id = g1.state.poll_count;
    assert(id == n + 1);
    let p = g1.polls@[id];
    assert(g1.polls@ == g0.polls@.insert(id, p));
    lemma_deposits_insert_above(g0.polls@, id, p, n);
    assert(deposits_up_to(g1.polls@, id) == deposits_up_to(g1.polls@, n) + held_deposit(g1.polls@, id));
}

/// Ending a poll keeps the deposit total equal to what the polls in progress
/// hold: the ended poll is no longer in progress, and the total drops by
/// exactly its deposit.
pub proof fn law_end_keeps_deposits_held(
    g0: &Gov,
    g1: &Gov,
    ended: Response,
    poll_id: u64,
    block_height: u64,
    balance: u128,
)
    requires
        g0.polls_indexed(),
        g0.deposits_held(),
        Gov::end_outcome(g0, g1, Ok(ended), poll_id, block_height, balance),
    ensures
        g1.deposits_held(),
        g1.state.total_deposit == g0.state.total_deposit - g0.polls@[poll_id].deposit_amount,
        held_deposit(g1.polls@, poll_id) == 0,
{
    assert(g0.end_precheck(poll_id, block_height) is None);
    let p = g0.polls@[poll_id];
    let q = g1.polls@[poll_id];
    assert(g1.polls@ == g0.polls@.insert(poll_id, q));
    assert(g0.polls@.contains_key(poll_id));
    lemma_deposits_insert_at(g0.polls@, poll_id, q, g0.state.poll_count);
}

/// Ending a poll in progress whose voting period is over succeeds whenever
/// the deposit total is what the polls in progress hold and the staked
/// weight can be measured; and afterwards the polls and their indexes still
/// agree, the ended poll is out of progress, and the deposit total is again
/// what the polls in progress hold, less exactly the ended poll's deposit.
pub proof fn law_end_succeeds_and_keeps_invariants(
    g0: &Gov,
    g1: &Gov,
    r: Result<Response, ContractError>,
    poll_id: u64,
    block_height: u64,
    balance: u128,
)
    requires
        g0.polls_indexed(),
        g0.deposits_held(),
        g0.polls@.contains_key(poll_id),
        g0.polls@[poll_id].status == PollStatus::InProgress,
        g0.polls@[poll_id].end_height <= block_height,
        end_weight(
            g0.state.total_share,
            g0.polls@[poll_id].staked_amount,
            balance,
            g0.state.total_deposit,
        ) is Ok,
        Gov::end_outcome(g0, g1, r, poll_id, block_height, balance),
    ensures
        r is Ok,
        g1.polls_indexed(),
        g1.deposits_held(),
        g1.polls@[poll_id].status != PollStatus::InProgress,
        g1.state.total_deposit == g0.state.total_deposit - g0.polls@[poll_id].deposit_amount,
{
    let p = g0.polls@[poll_id];
    assert(1 <= poll_id <= g0.state.poll_count);
    lemma_deposits_cover(g0.polls@, poll_id, g0.state.poll_count);
    assert(held_deposit(g0.polls@, poll_id) == p.deposit_amount);
    assert(g0.end_precheck(poll_id, block_height) is None);
    assert(r is Ok);
    let resp = r->Ok_0;
    law_end_keeps_deposits_held(g0, g1, resp, poll_id, block_height, balance);
    let q = g1.polls@[poll_id];
    assert(g1.polls@ == g0.polls@.insert(poll_id, q));
    assert forall|st: PollStatus, x: u64| #[trigger] g1.status_index.ids(st).contains_key(x)
        <==> if x == poll_id { st == q.status } else { g0.status_index.ids(st).contains_key(x) } by {
        assert(g0.status_index.ids(st).contains_key(x) <==> g0.polls@.contains_key(x) && g0.polls@[x].status == st);
    }
    lemma_indexed_after_update(g0, g1, poll_id, q);
}

/// The reward per share accrued since the last update (what
/// `calculate_reward_per_token` returns) never shrinks as time
/// goes on: with the total share, the rate and the last update fixed, a later
/// timestamp gives at least as much.
pub proof fn law_reward_per_token_grows(
    t1: int,
    t2: int,
    total_share: u128,
    reward_rate: Decimal,
    last_update_time: int,
)
    requires
        t1 <= t2,
    ensures
        reward_per_token(t1, total_share, reward_rate, last_update_time)
            <= reward_per_token(t2, total_share, reward_rate, last_update_time),
{
    if total_share != 0 {
        let e1 = spec_max(t1, last_update_time) - last_update_time;
        let e2 = spec_max(t2, last_update_time) - last_update_time;
        let rate = reward_rate.atomics as int;
        let f = DECIMAL_FRACTIONAL as int;
        lemma_mul_inequality(e1, e2, rate);
        lemma_div_is_ordered(e1 * rate, e2 * rate, f);
        let a1 = spec_mul_decimal(e1, rate);
        let a2 = spec_mul_decimal(e2, rate);
        lemma_mul_inequality(a1, a2, f);
        lemma_div_is_ordered(a1 * f, a2 * f, total_share as int);
    }
}

/// Updating the airdrops twice at the same moment changes nothing the second
/// time: the airdrops and the target's rewards stay as the first update left
/// them.
pub proof fn law_update_idempotent(g0: &Gov, g1: &Gov, g2: &Gov, now: u64, target: Option<(Seq<u8>, Seq<char>)>)
    requires
        update_outcome(g0, g1, now, target),
        update_outcome(g1, g2, now, target),
    ensures
        g2.airdrops@ == g1.airdrops@,
        forall|a: Seq<char>| #[trigger] inner(&g2.rewards, a) == inner(&g1.rewards, a),
{
    let cands = g0.state.airdrop_update_candidates@;
    let ts = g0.state.total_share;
    assert forall|id: u64| g1.airdrops@.contains_key(id) && cands.contains(id) implies
        #[trigger] updated_airdrop(g1.airdrops@[id], now, ts) == g1.airdrops@[id] by {
        lemma_update_idempotent_at(g0.airdrops@[id].config, g0.airdrops@[id].state, now, ts);
    }
    assert(g2.airdrops@ =~= g1.airdrops@);
    if let Some(t) = target {
        let share = g0.manager(t).share;
        assert(g1.manager(t).share == share);
        let r0 = inner(&g0.rewards, t.1);
        let r1 = inner(&g1.rewards, t.1);
        assert forall|id: u64| r1.contains_key(id) && cands.contains(id) implies
            #[trigger] updated_reward(g1.airdrops@[id], r1[id], now, ts, share) == r1[id] by {
            let a0 = g0.airdrops@[id];
            let rr = if r0.contains_key(id) { r0[id] } else { Reward::spec_default() };
            let k = choose|k: int| 0 <= k < cands.len() && cands[k] == id;
            assert(g0.airdrops@.contains_key(cands[k]));
            assert(g1.airdrops@[id] == updated_airdrop(a0, now, ts));
            assert(r1[id] == updated_reward(a0, rr, now, ts, share));
            lemma_reward_update_idempotent_at(a0, rr, now, ts, share);
        }
        assert forall|a: Seq<char>| #[trigger] inner(&g2.rewards, a) == inner(&g1.rewards, a) by {
            if a == t.1 {
                assert(inner(&g2.rewards, a) =~= inner(&g1.rewards, a));
            }
        }
    }
}

/// Allocating an amount to a staker's reward and then deallocating the same
/// amount leaves that reward as it was, and every other reward too.
pub proof fn law_allocate_then_deallocate(g0: &Gov, g1: &Gov, g2: &Gov, addr: Seq<char>, airdrop_id: u64, amount: u128)
    requires
        reward_set(g0, g1, addr, airdrop_id, Reward {
            reward: (g0.reward(addr, airdrop_id).reward + amount) as u128,
            ..g0.reward(addr, airdrop_id)
        }),
        g0.reward(addr, airdrop_id).reward + amount <= u128::MAX,
        reward_set(g1, g2, addr, airdrop_id, Reward {
            reward: (g1.reward(addr, airdrop_id).reward - amount) as u128,
            ..g1.reward(addr, airdrop_id)
        }),
    ensures
        g2.reward(addr, airdrop_id) == g0.reward(addr, airdrop_id),
        forall|a: Seq<char>, id: u64| !(a == addr && id == airdrop_id) ==> #[trigger] g2.reward(a, id) == g0.reward(a, id),
{
    assert(inner(&g1.rewards, addr) == inner(&g0.rewards, addr).insert(airdrop_id, Reward {
        reward: (g0.reward(addr, airdrop_id).reward + amount) as u128,
        ..g0.reward(addr, airdrop_id)
    }));
    assert(inner(&g2.rewards, addr) == inner(&g1.rewards, addr).insert(airdrop_id, Reward {
        reward: (g1.reward(addr, airdrop_id).reward - amount) as u128,
        ..g1.reward(addr, airdrop_id)
    }));
    assert forall|a: Seq<char>, id: u64| !(a == addr && id == airdrop_id) implies #[trigger] g2.reward(a, id) == g0.reward(a, id) by {
        assert(inner(&g2.rewards, a) == if a == addr { inner(&g1.rewards, a).insert(airdrop_id, Reward {
            reward: (g1.reward(addr, airdrop_id).reward - amount) as u128,
            ..g1.reward(addr, airdrop_id)
        }) } else { inner(&g1.rewards, a) });
        assert(inner(&g1.rewards, a) == if a == addr { inner(&g0.rewards, a).insert(airdrop_id, Reward {
            reward: (g0.reward(addr, airdrop_id).reward + amount) as u128,
            ..g0.reward(addr, airdrop_id)
        }) } else { inner(&g0.rewards, a) });
    }
}

/// A vote never weighs more than the tokens its share stands for: a vote
/// that gets past every check is worth at most the voter's staked value.
pub proof fn law_vote_within_stake(g: &Gov, sender: (Seq<u8>, Seq<char>), poll_id: u64, height: u64, balance: u128, amount: u128)
    requires
        g.vote_error(sender, poll_id, height, balance, amount) is None,
    ensures
        amount <= share_value(g.manager(sender).share, (balance - g.state.total_deposit) as u128, g.state.total_share),
        g.voter(poll_id, sender) is None,
{
}

/// A page of polls filtered by status holds at most the limit asked for
/// (ten when none is given, never more than thirty), only polls with the
/// status asked for (in progress when none is), ordered by id as asked
/// (descending unless ascending is asked) and all beyond `start_after` in
/// that direction.
pub proof fn law_status_page(
    gov: &Gov,
    status_filter: Option<PollStatus>,
    start_after: Option<u64>,
    limit: Option<u32>,
    order_by: Option<OrderBy>,
    r: Result<Vec<Poll>, ContractError>,
)
    requires
        gov.wf(),
        gov.polls_indexed(),
        filtered_page(gov, index_page(gov.status_index.bucket(status_of_filter(status_filter)), start_after, limit, order_by), r),
    ensures
        r matches Ok(ps) ==> {
            &&& (limit matches Some(l) ==> ps@.len() <= l && ps@.len() <= MAX_QUERY_LIMIT)
            &&& (limit is None ==> ps@.len() <= DEFAULT_QUERY_LIMIT)
            &&& forall|j: int| 0 <= j < ps@.len() ==> (#[trigger] ps@[j]).status == match status_filter {
                Some(s) => s,
                None => PollStatus::InProgress,
            }
            &&& order_by == Some(OrderBy::Asc) ==> forall|i: int, j: int| 0 <= i < j < ps@.len() ==> (#[trigger] ps@[i]).id < (#[trigger] ps@[j]).id
            &&& order_by != Some(OrderBy::Asc) ==> forall|i: int, j: int| 0 <= i < j < ps@.len() ==> (#[trigger] ps@[i]).id > (#[trigger] ps@[j]).id
            &&& (start_after is Some && order_by == Some(OrderBy::Asc)) ==> forall|j: int| 0 <= j < ps@.len() ==> (#[trigger] ps@[j]).id > start_after->0
            &&& (start_after is Some && order_by != Some(OrderBy::Asc)) ==> forall|j: int| 0 <= j < ps@.len() ==> (#[trigger] ps@[j]).id < start_after->0
        },
{
    let st = status_of_filter(status_filter);
    let b = gov.status_index.bucket(st);
    assert(b.wf());
    b.lemma_range_keys(start_after, limit_of(limit), ascending(order_by));
    let ks = index_page(b, start_after, limit, order_by);
    if let Ok(ps) = r {
        assert forall|j: int| 0 <= j < ks.len() implies gov.polls@.contains_key(#[trigger] ks[j])
            && gov.polls@[ks[j]].id == ks[j] && gov.polls@[ks[j]].status == st by {
            assert(gov.status_index.ids(st).contains_key(ks[j]));
        }
        assert forall|j: int| 0 <= j < ps@.len() implies (#[trigger] ps@[j]).id == ks[j] && ps@[j].status == st by {
            assert(same_poll(ps@[j], gov.polls@[ks[j]]));
        }
    }
}

/// A page of polls filtered by category holds at most the limit asked for
/// (ten when none is given, never more than thirty), only polls in the
/// category asked for (uncategorized when none is), ordered by id as asked
/// and all beyond `start_after` in that direction.
pub proof fn law_category_page(
    gov: &Gov,
    category_filter: Option<PollCategory>,
    start_after: Option<u64>,
    limit: Option<u32>,
    order_by: Option<OrderBy>,
    r: Result<Vec<Poll>, ContractError>,
)
    requires
        gov.wf(),
        gov.polls_indexed(),
        filtered_page(gov, index_page(gov.category_index.bucket(category_of_filter(category_filter)), start_after, limit, order_by), r),
    ensures
        r matches Ok(ps) ==> {
            &&& (limit matches Some(l) ==> ps@.len() <= l && ps@.len() <= MAX_QUERY_LIMIT)
            &&& (limit is None ==> ps@.len() <= DEFAULT_QUERY_LIMIT)
            &&& forall|j: int| 0 <= j < ps@.len() ==> (#[trigger] ps@[j]).category == match category_filter {
                Some(c) => c,
                None => PollCategory::Uncategorized,
            }
            &&& order_by == Some(OrderBy::Asc) ==> forall|i: int, j: int| 0 <= i < j < ps@.len() ==> (#[trigger] ps@[i]).id < (#[trigger] ps@[j]).id
            &&& order_by != Some(OrderBy::Asc) ==> forall|i: int, j: int| 0 <= i < j < ps@.len() ==> (#[trigger] ps@[i]).id > (#[trigger] ps@[j]).id
            &&& (start_after is Some && order_by == Some(OrderBy::Asc)) ==> forall|j: int| 0 <= j < ps@.len() ==> (#[trigger] ps@[j]).id > start_after->0
            &&& (start_after is Some && order_by != Some(OrderBy::Asc)) ==> forall|j: int| 0 <= j < ps@.len() ==> (#[trigger] ps@[j]).id < start_after->0
        },
{
    let c = category_of_filter(category_filter);
    let b = gov.category_index.bucket(c);
    assert(b.wf());
    b.lemma_range_keys(start_after, limit_of(limit), ascending(order_by));
    let ks = index_page(b, start_after, limit, order_by);
    if let Ok(ps) = r {
        assert forall|j: int| 0 <= j < ks.len() implies gov.polls@.contains_key(#[trigger] ks[j])
            && gov.polls@[ks[j]].id == ks[j] && gov.polls@[ks[j]].category == c by {
            assert(gov.category_index.ids(c).contains_key(ks[j]));
        }
        assert forall|j: int| 0 <= j < ps@.len() implies (#[trigger] ps@[j]).id == ks[j] && ps@[j].category == c by {
            assert(same_poll(ps@[j], gov.polls@[ks[j]]));
        }
    }
}

/// A claim asks first for an update of the claimant's rewards, then for a
/// payout only of rewards that are nonzero once brought up to now with the
/// claimant's share, each of an airdrop the claimant holds a reward in; and
/// it asks for every such nonzero reward among the latest ones it looks at.
pub proof fn law_claim_pays_nonzero_rewards(g: &Gov, addr: Address, now: u64, resp: Response)
    requires
        g.wf(),
        resp.messages@ == seq![update_msg(addr.human)] + claimed_ids(g, addr@, now).map_values(|id: u64| claim_msg(addr.human, id)),
    ensures
        resp.messages@.len() >= 1,
        resp.messages@[0].msg == Msg::ToSelf(SelfMsg::AirdropUpdate { target: Some(addr.human) }),
        forall|j: int| 1 <= j < resp.messages@.len() ==> {
            &&& (#[trigger] resp.messages@[j]).msg matches Msg::ToSelf(SelfMsg::ClaimInternal { sender, airdrop_id })
            &&& sender == addr.human
            &&& inner(&g.rewards, addr.human@).contains_key(airdrop_id)
            &&& updated_reward(
                g.airdrops@[airdrop_id],
                inner(&g.rewards, addr.human@)[airdrop_id],
                now,
                g.state.total_share,
                g.manager(addr@).share,
            ).reward != 0
        },
        forall|k: int| 0 <= k < claim_range(g, addr.human@).len() ==> {
            let id = #[trigger] claim_range(g, addr.human@)[k];
            updated_reward(
                g.airdrops@[id],
                inner(&g.rewards, addr.human@)[id],
                now,
                g.state.total_share,
                g.manager(addr@).share,
            ).reward != 0 ==> resp.messages@.contains(claim_msg(addr.human, id))
        },
{
    let rk = claim_range(g, addr.human@);
    let pred = |id: u64| has_claimable(g, addr@, id, now);
    let f = |id: u64| claim_msg(addr.human, id);
    let ids = rk.filter(pred);
    assert(addr@.1 == addr.human@);
    assert(claimed_ids(g, addr@, now) == ids);
    let tail = ids.map_values(f);
    if g.rewards@.contains_key(addr.human@) {
        let m = g.rewards@[addr.human@];
        assert(m.wf());
        m.lemma_range_keys(None, MAX_QUERY_LIMIT as nat, false);
    }
    assert forall|j: int| 1 <= j < resp.messages@.len() implies {
        &&& (#[trigger] resp.messages@[j]).msg matches Msg::ToSelf(SelfMsg::ClaimInternal { sender, airdrop_id })
        &&& sender == addr.human
        &&& inner(&g.rewards, addr.human@).contains_key(airdrop_id)
        &&& updated_reward(
            g.airdrops@[airdrop_id],
            inner(&g.rewards, addr.human@)[airdrop_id],
            now,
            g.state.total_share,
            g.manager(addr@).share,
        ).reward != 0
    } by {
        assert(resp.messages@[j] == tail[j - 1]);
        let id = ids[j - 1];
        rk.lemma_filter_pred(pred, j - 1);
        rk.lemma_filter_contains_rev(pred, id);
        assert(ids.contains(id));
        let w = choose|w: int| 0 <= w < rk.len() && rk[w] == id;
        assert(rk[w] == id);
    }
    assert forall|k: int| 0 <= k < rk.len() implies {
        let id = #[trigger] rk[k];
        updated_reward(
            g.airdrops@[id],
            inner(&g.rewards, addr.human@)[id],
            now,
            g.state.total_share,
            g.manager(addr@).share,
        ).reward != 0 ==> resp.messages@.contains(claim_msg(addr.human, id))
    } by {
        let id = rk[k];
        if pred(id) {
            rk.lemma_filter_contains(pred, k);
            let w = choose|w: int| 0 <= w < ids.len() && ids[w] == id;
            assert(resp.messages@[w + 1] == f(ids[w]));
        }
    }
}

/// A staker query answers with the staker's share, the tokens that share
/// stands for (`share * balance / total_share`, nothing while nothing is
/// staked), exactly those of its votes that lock tokens because their poll is
/// still in progress, and only nonzero claimable rewards, each of an airdrop
/// the staker holds a reward in and worth what that reward comes to by now.
pub proof fn law_staker_answer(r: StakerResponse, g: &Gov, addr: (Seq<u8>, Seq<char>), now: u64, total_balance: u128)
    requires
        g.wf(),
        staker_response_of(r, g, addr, now, total_balance),
    ensures
        r.share == g.manager(addr).share,
        g.state.total_share != 0 ==> r.balance == g.manager(addr).share * total_balance / (g.state.total_share as int),
        g.state.total_share == 0 ==> r.balance == 0,
        forall|j: int| 0 <= j < r.locked_balance@.len() ==> {
            &&& g.polls@[(#[trigger] r.locked_balance@[j]).0].status == PollStatus::InProgress
            &&& g.manager(addr).locked_balance.contains(r.locked_balance@[j])
        },
        forall|i: int| 0 <= i < g.manager(addr).locked_balance.len()
            && g.polls@[(#[trigger] g.manager(addr).locked_balance[i]).0].status == PollStatus::InProgress
            ==> r.locked_balance@.contains(g.manager(addr).locked_balance[i]),
        forall|j: int| 0 <= j < r.claimable_airdrop@.len() ==> {
            let (id, c) = #[trigger] r.claimable_airdrop@[j];
            &&& inner(&g.rewards, addr.1).contains_key(id)
            &&& c.token == g.airdrops@[id].config.reward_token
            &&& c.amount == updated_reward(
                g.airdrops@[id],
                inner(&g.rewards, addr.1)[id],
                now,
                g.state.total_share,
                g.manager(addr).share,
            ).reward
            &&& c.amount != 0
        },
{
    let m = g.manager(addr);
    let votes = m.locked_balance;
    let vpred = |e: (u64, VoterInfo)| g.polls@[e.0].status == PollStatus::InProgress;
    assert(r.locked_balance@ == votes.filter(vpred));
    assert forall|j: int| 0 <= j < r.locked_balance@.len() implies {
        &&& g.polls@[(#[trigger] r.locked_balance@[j]).0].status == PollStatus::InProgress
        &&& m.locked_balance.contains(r.locked_balance@[j])
    } by {
        votes.lemma_filter_pred(vpred, j);
        votes.lemma_filter_contains_rev(vpred, r.locked_balance@[j]);
    }
    assert forall|i: int| 0 <= i < votes.len() && g.polls@[(#[trigger] votes[i]).0].status == PollStatus::InProgress
        implies r.locked_balance@.contains(votes[i]) by {
        votes.lemma_filter_contains(vpred, i);
    }
    let rk = staker_airdrops(g, addr.1);
    let pred = |id: u64| has_claimable(g, addr, id, now);
    let f = |id: u64| claimable_entry(g, addr, now, id);
    let ids = rk.filter(pred);
    if g.rewards@.contains_key(addr.1) {
        let mm = g.rewards@[addr.1];
        assert(mm.wf());
        mm.lemma_range_keys(None, DEFAULT_QUERY_LIMIT as nat, false);
    }
    assert forall|j: int| 0 <= j < r.claimable_airdrop@.len() implies {
        let (id, c) = #[trigger] r.claimable_airdrop@[j];
        &&& inner(&g.rewards, addr.1).contains_key(id)
        &&& c.token == g.airdrops@[id].config.reward_token
        &&& c.amount == updated_reward(
            g.airdrops@[id],
            inner(&g.rewards, addr.1)[id],
            now,
            g.state.total_share,
            g.manager(addr).share,
        ).reward
        &&& c.amount != 0
    } by {
        assert(r.claimable_airdrop@[j] == f(ids[j]));
        let id = ids[j];
        rk.lemma_filter_pred(pred, j);
        rk.lemma_filter_contains_rev(pred, id);
        let w = choose|w: int| 0 <= w < rk.len() && rk[w] == id;
        assert(rk[w] == id);
    }
}

/// An update with a target brings the target's reward in every candidate
/// airdrop up to date with the target's own staked share: the reward grows by
/// `share * (new reward per share - reward per share already paid) / 10^18`,
/// and the reward per share is then marked as paid.
pub proof fn law_update_pays_target_share(g0: &Gov, g1: &Gov, now: u64, t: (Seq<u8>, Seq<char>))
    requires
        g0.wf(),
        update_outcome(g0, g1, now, Some(t)),
        forall|j: int|
            0 <= j < g0.state.airdrop_update_candidates@.len() && candidates_present(g0, j + 1)
                ==> #[trigger] update_step_fits(g0, j, now, Some(t)),
    ensures
        forall|id: u64| #[trigger] g0.state.airdrop_update_candidates@.contains(id) ==> {
            let share = g0.manager(t).share;
            let stored = g1.airdrops@[id].state.reward_per_token_stored;
            let r0 = g0.reward(t.1, id);
            let r1 = g1.reward(t.1, id);
            &&& r1.reward_per_token_paid == stored
            &&& r1.reward == r0.reward + share * (stored.atomics - r0.reward_per_token_paid.atomics) / (DECIMAL_FRACTIONAL as int)
        },
{
    let cands = g0.state.airdrop_update_candidates@;
    let ts = g0.state.total_share;
    let share = g0.manager(t).share;
    assert forall|id: u64| #[trigger] cands.contains(id) implies {
        let stored = g1.airdrops@[id].state.reward_per_token_stored;
        let r0 = g0.reward(t.1, id);
        let r1 = g1.reward(t.1, id);
        &&& r1.reward_per_token_paid == stored
        &&& r1.reward == r0.reward + share * (stored.atomics - r0.reward_per_token_paid.atomics) / (DECIMAL_FRACTIONAL as int)
    } by {
        let k = choose|k: int| 0 <= k < cands.len() && cands[k] == id;
        assert(g0.airdrops@.contains_key(cands[k]));
        assert(candidates_present(g0, k + 1));
        assert(update_step_fits(g0, k, now, Some(t)));
        let a0 = g0.airdrops@[id];
        let s = updated_state(a0.config, a0.state, now, ts);
        let r0 = g0.reward(t.1, id);
        assert(g1.airdrops@[id] == updated_airdrop(a0, now, ts));
        assert(inner(&g1.rewards, t.1).contains_key(id));
        assert(g1.reward(t.1, id) == updated_reward(a0, r0, now, ts, share));
        let rpt = s.reward_per_token_stored.atomics - r0.reward_per_token_paid.atomics;
        assert(reward_fits(s.last_update_time, ts, share, a0.config, s, r0));
        assert(rpt >= 0);
        lemma_mul_nonnegative(share as int, rpt);
        lemma_div_pos_is_pos(share * rpt, DECIMAL_FRACTIONAL as int);
    }
}

} // verus!




