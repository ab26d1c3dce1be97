//! Read-only queries of the store: configuration, totals, polls and their
//! voters, stakers and airdrops, with the paging of range reads.

use vstd::prelude::*;
use crate::airdrop::{accrued_state, calculate_rewards, claim_step_fits, has_claimable, updated_reward};
use crate::gov::Gov;
use crate::math::{multiply_ratio, spec_multiply_ratio, Decimal};
use crate::sort::{copy_data, data_views, ExecuteDataView};
use crate::state::{
    Airdrop, AirdropConfig, ContractError, ExecuteData, Poll, PollCategory, PollStatus, Record, Reward,
    StdError, TokenManager, VoterInfo,
    DEFAULT_QUERY_LIMIT, MAX_QUERY_LIMIT,
};
use crate::keys::Address;
use crate::store::{inner, opt_kv, OrdMap};

verus! {

/// The order of a range read.
#[derive(Clone, Copy, Debug, PartialEq, Eq, Structural)]
pub enum OrderBy {
    Asc,
    Desc,
}

/// Whether a range read with this order goes up; it goes down unless told otherwise.
pub open spec fn ascending(order_by: Option<OrderBy>) -> bool {
    order_by == Some(OrderBy::Asc)
}

/// The number of entries a range read returns at most: the limit given (else
/// `DEFAULT_QUERY_LIMIT`), capped at `MAX_QUERY_LIMIT`.
pub open spec fn limit_of(limit: Option<u32>) -> nat {
    let l = match limit {
        Some(l) => l,
        None => DEFAULT_QUERY_LIMIT,
    };
    (if l < MAX_QUERY_LIMIT { l } else { MAX_QUERY_LIMIT }) as nat
}

/// `limit.unwrap_or(DEFAULT_QUERY_LIMIT).min(MAX_QUERY_LIMIT)`.
pub fn query_limit(limit: Option<u32>) -> (n: u32)
    ensures
        n == limit_of(limit),
{
    let l = match limit {
        Some(l) => l,
        None => DEFAULT_QUERY_LIMIT,
    };
    if l < MAX_QUERY_LIMIT { l } else { MAX_QUERY_LIMIT }
}

fn is_ascending(order_by: Option<OrderBy>) -> (b: bool)
    ensures
        b == ascending(order_by),
{
    match order_by {
        Some(OrderBy::Asc) => true,
        _ => false,
    }
}

/// The views of an optional list of execute messages.
pub open spec fn opt_data_views(d: Option<Vec<ExecuteData>>) -> Option<Seq<ExecuteDataView>> {
    match d {
        Some(v) => Some(data_views(v@)),
        None => None,
    }
}

/// Whether two polls hold the same data.
pub open spec fn same_poll(a: Poll, b: Poll) -> bool {
    &&& a.id == b.id
    &&& a.creator == b.creator
    &&& a.status == b.status
    &&& a.yes_votes == b.yes_votes
    &&& a.no_votes == b.no_votes
    &&& a.end_height == b.end_height
    &&& a.title == b.title
    &&& a.category == b.category
    &&& a.description == b.description
    &&& a.link == b.link
    &&& opt_data_views(a.execute_data) == opt_data_views(b.execute_data)
    &&& a.deposit_amount == b.deposit_amount
    &&& a.total_balance_at_end_poll == b.total_balance_at_end_poll
    &&& a.staked_amount == b.staked_amount
}

/// A copy of a poll, as a query hands it out.
pub fn copy_poll(p: &Poll) -> (r: Poll)
    ensures
        same_poll(r, *p),
{
    let execute_data = match &p.execute_data {
        Some(v) => {
            let mut out: Vec<ExecuteData> = Vec::new();
            let mut i: usize = 0;
            while i < v.len()
                invariant
                    i <= v@.len(),
                    out@.len() == i,
                    forall|k: int| 0 <= k < i ==> (#[trigger] out@[k])@ == v@[k]@,
                decreases v@.len() - i,
            {
                out.push(copy_data(&v[i]));
                i = i + 1;
            }
            proof {
                assert(data_views(out@) =~= data_views(v@));
            }
            Some(out)
        },
        None => None,
    };
    let link = match &p.link {
        Some(l) => Some(l.clone()),
        None => None,
    };
    Poll {
        id: p.id,
        creator: p.creator.clone(),
        status: p.status,
        yes_votes: p.yes_votes,
        no_votes: p.no_votes,
        end_height: p.end_height,
        title: p.title.clone(),
        category: p.category,
        description: p.description.clone(),
        link,
        execute_data,
        deposit_amount: p.deposit_amount,
        total_balance_at_end_poll: p.total_balance_at_end_poll,
        staked_amount: p.staked_amount,
    }
}

/// The contract's configuration, as a query returns it.
pub struct ConfigResponse {
    pub owner: String,
    pub pylon_token: String,
    pub quorum: Decimal,
    pub threshold: Decimal,
    pub voting_period: u64,
    pub timelock_period: u64,
    pub proposal_deposit: u128,
    pub snapshot_period: u64,
}

/// The configuration.
pub fn query_config(gov: &Gov) -> (r: ConfigResponse)
    ensures
        r.owner == gov.config.owner,
        r.pylon_token == gov.config.pylon_token,
        r.quorum == gov.config.quorum,
        r.threshold == gov.config.threshold,
        r.voting_period == gov.config.voting_period,
        r.timelock_period == gov.config.timelock_period,
        r.proposal_deposit == gov.config.proposal_deposit,
        r.snapshot_period == gov.config.snapshot_period,
{
    ConfigResponse {
        owner: gov.config.owner.clone(),
        pylon_token: gov.config.pylon_token.clone(),
        quorum: gov.config.quorum,
        threshold: gov.config.threshold,
        voting_period: gov.config.voting_period,
        timelock_period: gov.config.timelock_period,
        proposal_deposit: gov.config.proposal_deposit,
        snapshot_period: gov.config.snapshot_period,
    }
}

/// The running totals, as a query returns them.
pub struct StateResponse {
    pub poll_count: u64,
    pub total_share: u128,
    pub total_deposit: u128,
    pub total_airdrop_count: u64,
    pub airdrop_update_candidates: Vec<u64>,
}

/// The running totals.
pub fn query_state(gov: &Gov) -> (r: StateResponse)
    ensures
        r.poll_count == gov.state.poll_count,
        r.total_share == gov.state.total_share,
        r.total_deposit == gov.state.total_deposit,
        r.total_airdrop_count == gov.state.total_airdrop_count,
        r.airdrop_update_candidates@ == gov.state.airdrop_update_candidates@,
{
    let mut candidates: Vec<u64> = Vec::new();
    let mut i: usize = 0;
    while i < gov.state.airdrop_update_candidates.len()
        invariant
            i <= gov.state.airdrop_update_candidates@.len(),
            candidates@ == gov.state.airdrop_update_candidates@.take(i as int),
        decreases gov.state.airdrop_update_candidates@.len() - i,
    {
        candidates.push(gov.state.airdrop_update_candidates[i]);
        proof {
            assert(candidates@ =~= gov.state.airdrop_update_candidates@.take(i as int + 1));
        }
        i = i + 1;
    }
    proof {
        assert(candidates@ =~= gov.state.airdrop_update_candidates@);
    }
    StateResponse {
        poll_count: gov.state.poll_count,
        total_share: gov.state.total_share,
        total_deposit: gov.state.total_deposit,
        total_airdrop_count: gov.state.total_airdrop_count,
        airdrop_update_candidates: candidates,
    }
}

impl Poll {
    /// A copy of the stored poll with this id, if there is one.
    pub fn may_load(gov: &Gov, poll_id: u64) -> (r: Option<Poll>)
        requires
            gov.wf(),
        ensures
            r is Some <==> gov.polls@.contains_key(poll_id),
            r matches Some(p) ==> same_poll(p, gov.polls@[poll_id]),
    {
        match gov.polls.get(&poll_id) {
            Some(p) => Some(copy_poll(p)),
            None => None,
        }
    }

    /// A copy of the stored poll with this id; `PollNotFound` where there is none.
    pub fn load(gov: &Gov, poll_id: u64) -> (r: Result<Poll, ContractError>)
        requires
            gov.wf(),
        ensures
            r is Err <==> !gov.polls@.contains_key(poll_id),
            r matches Err(e) ==> e == ContractError::PollNotFound,
            r matches Ok(p) ==> same_poll(p, gov.polls@[poll_id]),
    {
        match Poll::may_load(gov, poll_id) {
            Some(p) => Ok(p),
            None => Err(ContractError::PollNotFound),
        }
    }
}

/// A poll by id; `PollNotFound` where there is none.
pub fn query_poll(gov: &Gov, poll_id: u64) -> (r: Result<Poll, ContractError>)
    requires
        gov.wf(),
    ensures
        r is Err <==> !gov.polls@.contains_key(poll_id),
        r matches Err(e) ==> e == ContractError::PollNotFound,
        r matches Ok(p) ==> same_poll(p, gov.polls@[poll_id]),
{
    Poll::load(gov, poll_id)
}

/// A page of the polls, by id: ascending from after `start_after` when asked,
/// else descending from before it.
pub fn query_polls(gov: &Gov, start_after: Option<u64>, limit: Option<u32>, order_by: Option<OrderBy>) -> (r: Vec<Poll>)
    requires
        gov.wf(),
    ensures
        ({
            let ks = gov.polls.range_keys(start_after, limit_of(limit), ascending(order_by));
            &&& r@.len() == ks.len()
            &&& forall|j: int| 0 <= j < ks.len() ==> #[trigger] same_poll(r@[j], gov.polls@[ks[j]])
        }),
{
    let entries = gov.polls.range(&start_after, query_limit(limit) as usize, is_ascending(order_by));
    let ghost ks = gov.polls.range_keys(start_after, limit_of(limit), ascending(order_by));
    let mut out: Vec<Poll> = Vec::new();
    let mut i: usize = 0;
    while i < entries.len()
        invariant
            gov.wf(),
            ks == gov.polls.range_keys(start_after, limit_of(limit), ascending(order_by)),
            entries@.len() == ks.len(),
            forall|j: int| 0 <= j < entries@.len() ==> (#[trigger] entries@[j]).0 == ks[j]
                && entries@[j].1 == gov.polls@[ks[j]],
            i <= entries@.len(),
            out@.len() == i,
            forall|j: int| 0 <= j < i ==> #[trigger] same_poll(out@[j], gov.polls@[ks[j]]),
        decreases entries@.len() - i,
    {
        let entry = entries[i];
        out.push(copy_poll(&entry.1));
        i = i + 1;
    }
    out
}

/// The ids that a filtered page of polls looks at.
pub open spec fn index_page(bucket: OrdMap<u64, bool>, start_after: Option<u64>, limit: Option<u32>, order_by: Option<OrderBy>) -> Seq<u64> {
    bucket.range_keys(start_after, limit_of(limit), ascending(order_by))
}

/// The polls with the ids of an index page; an error where one is not stored.
fn polls_of_page(gov: &Gov, entries: &Vec<&(u64, bool)>, Ghost(ks): Ghost<Seq<u64>>) -> (r: Result<Vec<Poll>, ContractError>)
    requires
        gov.wf(),
        entries@.len() == ks.len(),
        forall|j: int| 0 <= j < entries@.len() ==> (#[trigger] entries@[j]).0 == ks[j],
    ensures
        filtered_page(gov, ks, r),
{
    let mut out: Vec<Poll> = Vec::new();
    let mut i: usize = 0;
    while i < entries.len()
        invariant
            gov.wf(),
            entries@.len() == ks.len(),
            forall|j: int| 0 <= j < entries@.len() ==> (#[trigger] entries@[j]).0 == ks[j],
            i <= entries@.len(),
            out@.len() == i,
            forall|j: int| 0 <= j < i ==> gov.polls@.contains_key(#[trigger] ks[j]),
            forall|j: int| 0 <= j < i ==> #[trigger] same_poll(out@[j], gov.polls@[ks[j]]),
        decreases entries@.len() - i,
    {
        let id = entries[i].0;
        match gov.polls.get(&id) {
            Some(p) => out.push(copy_poll(p)),
            None => {
                assert(!gov.polls@.contains_key(ks[i as int]));
                return Err(ContractError::Std(StdError::NotFound { kind: Record::Poll }));
            },
        }
        i = i + 1;
    }
    Ok(out)
}

/// The status a filtered page of polls asks for: in progress where none is given.
pub open spec fn status_of_filter(f: Option<PollStatus>) -> PollStatus {
    match f {
        Some(s) => s,
        None => PollStatus::InProgress,
    }
}

/// The category a filtered page of polls asks for: uncategorized where none is given.
pub open spec fn category_of_filter(f: Option<PollCategory>) -> PollCategory {
    match f {
        Some(c) => c,
        None => PollCategory::Uncategorized,
    }
}

/// Whether `r` is the answer to a filtered page of polls over the ids `ks`:
/// the polls with those ids, or an error where one of them is not stored.
pub open spec fn filtered_page(gov: &Gov, ks: Seq<u64>, r: Result<Vec<Poll>, ContractError>) -> bool {
    &&& (r is Err <==> exists|j: int| 0 <= j < ks.len() && !gov.polls@.contains_key(#[trigger] ks[j]))
    &&& (r matches Err(e) ==> e == ContractError::Std(StdError::NotFound { kind: Record::Poll }))
    &&& (r matches Ok(ps) ==> ps@.len() == ks.len() && forall|j: int| 0 <= j < ks.len() ==> #[trigger] same_poll(ps@[j], gov.polls@[ks[j]]))
}

/// A page of the polls with a status (in progress where none is given), by
/// id; an error where the index names a poll that is not stored.
pub fn query_polls_with_status_filter(
    gov: &Gov,
    status_filter: Option<PollStatus>,
    start_after: Option<u64>,
    limit: Option<u32>,
    order_by: Option<OrderBy>,
) -> (r: Result<Vec<Poll>, ContractError>)
    requires
        gov.wf(),
    ensures
        filtered_page(gov, index_page(gov.status_index.bucket(status_of_filter(status_filter)), start_after, limit, order_by), r),
{
    let s = match status_filter {
        Some(s) => s,
        None => PollStatus::InProgress,
    };
    let bucket = gov.status_index.bucket_ref(s);
    let entries = bucket.range(&start_after, query_limit(limit) as usize, is_ascending(order_by));
    polls_of_page(gov, &entries, Ghost(index_page(gov.status_index.bucket(s), start_after, limit, order_by)))
}

/// A page of the polls in a category (uncategorized where none is given), by
/// id; an error where the index names a poll that is not stored.
pub fn query_polls_with_category_filter(
    gov: &Gov,
    category_filter: Option<PollCategory>,
    start_after: Option<u64>,
    limit: Option<u32>,
    order_by: Option<OrderBy>,
) -> (r: Result<Vec<Poll>, ContractError>)
    requires
        gov.wf(),
    ensures
        filtered_page(gov, index_page(gov.category_index.bucket(category_of_filter(category_filter)), start_after, limit, order_by), r),
{
    let c = match category_filter {
        Some(c) => c,
        None => PollCategory::Uncategorized,
    };
    let bucket = gov.category_index.bucket_ref(c);
    let entries = bucket.range(&start_after, query_limit(limit) as usize, is_ascending(order_by));
    polls_of_page(gov, &entries, Ghost(index_page(gov.category_index.bucket(c), start_after, limit, order_by)))
}

/// A voter on a poll, as a query returns it.
pub struct VotersResponseItem {
    pub voter: String,
    pub vote: crate::state::VoteOption,
    pub balance: u128,
}

/// The voters that a page of a poll's votes looks at.
pub open spec fn voter_page(gov: &Gov, poll_id: u64, start_after: Option<Address>, limit: Option<u32>, order_by: Option<OrderBy>) -> Seq<(Seq<u8>, Seq<char>)> {
    if gov.voters@.contains_key(poll_id) {
        gov.voters@[poll_id].range_keys(opt_kv(&start_after), limit_of(limit), ascending(order_by))
    } else {
        Seq::empty()
    }
}

/// A page of the votes on a poll, by voter; none once the poll is no longer in
/// progress. `PollNotFound` where the poll is not stored.
pub fn query_voters(
    gov: &Gov,
    poll_id: u64,
    start_after: Option<Address>,
    limit: Option<u32>,
    order_by: Option<OrderBy>,
) -> (r: Result<Vec<VotersResponseItem>, ContractError>)
    requires
        gov.wf(),
    ensures
        r is Err <==> !gov.polls@.contains_key(poll_id),
        r matches Err(e) ==> e == ContractError::PollNotFound,
        r matches Ok(vs) ==> {
            let ks = voter_page(gov, poll_id, start_after, limit, order_by);
            &&& gov.polls@[poll_id].status != PollStatus::InProgress ==> vs@.len() == 0
            &&& gov.polls@[poll_id].status == PollStatus::InProgress ==> {
                &&& vs@.len() == ks.len()
                &&& forall|j: int| 0 <= j < ks.len() ==> {
                    let v = gov.voter(poll_id, ks[j]);
                    &&& (#[trigger] vs@[j]).voter@ == ks[j].1
                    &&& v is Some
                    &&& vs@[j].vote == v->0.vote
                    &&& vs@[j].balance == v->0.balance
                }
            }
        },
{
    let poll = match gov.polls.get(&poll_id) {
        Some(p) => p,
        None => return Err(ContractError::PollNotFound),
    };
    let mut out: Vec<VotersResponseItem> = Vec::new();
    if poll.status != PollStatus::InProgress {
        return Ok(out);
    }
    let ghost ks = voter_page(gov, poll_id, start_after, limit, order_by);
    let entries: Vec<&(Address, VoterInfo)> = match gov.voters.get(&poll_id) {
        Some(m) => m.range(&start_after, query_limit(limit) as usize, is_ascending(order_by)),
        None => Vec::new(),
    };
    let mut i: usize = 0;
    while i < entries.len()
        invariant
            gov.wf(),
            ks == voter_page(gov, poll_id, start_after, limit, order_by),
            entries@.len() == ks.len(),
            forall|j: int| 0 <= j < entries@.len() ==> (#[trigger] entries@[j]).0@ == ks[j]
                && gov.voter(poll_id, ks[j]) == Some(entries@[j].1),
            i <= entries@.len(),
            out@.len() == i,
            forall|j: int| 0 <= j < i ==> {
                let v = gov.voter(poll_id, ks[j]);
                &&& (#[trigger] out@[j]).voter@ == ks[j].1
                &&& v is Some
                &&& out@[j].vote == v->0.vote
                &&& out@[j].balance == v->0.balance
            },
        decreases entries@.len() - i,
    {
        let entry = entries[i];
        out.push(VotersResponseItem { voter: entry.0.human.clone(), vote: entry.1.vote, balance: entry.1.balance });
        i = i + 1;
    }
    Ok(out)
}

/// An airdrop's terms, as a query returns them.
pub struct AirdropResponse {
    pub start: u64,
    pub period: u64,
    pub reward_token: String,
    pub reward_rate: Decimal,
}

/// Whether a response gives an airdrop's terms.
pub open spec fn airdrop_response_of(r: AirdropResponse, a: crate::state::Airdrop) -> bool {
    &&& r.start == a.config.start
    &&& r.period == a.config.period
    &&& r.reward_token == a.config.reward_token
    &&& r.reward_rate == a.config.reward_rate
}

/// An airdrop's terms by id.
pub fn query_airdrop(gov: &Gov, airdrop_id: u64) -> (r: AirdropResponse)
    requires
        gov.wf(),
        // left out: an airdrop that is not stored
        gov.airdrops@.contains_key(airdrop_id),
    ensures
        airdrop_response_of(r, gov.airdrops@[airdrop_id]),
{
    let a = gov.airdrops.get(&airdrop_id).unwrap();
    AirdropResponse {
        start: a.config.start,
        period: a.config.period,
        reward_token: a.config.reward_token.clone(),
        reward_rate: a.config.reward_rate,
    }
}

/// A page of the airdrops' terms, by id.
pub fn query_airdrops(gov: &Gov, start_after: Option<u64>, limit: Option<u32>, order_by: Option<OrderBy>) -> (r: Vec<(u64, AirdropResponse)>)
    requires
        gov.wf(),
    ensures
        ({
            let ks = gov.airdrops.range_keys(start_after, limit_of(limit), ascending(order_by));
            &&& r@.len() == ks.len()
            &&& forall|j: int| 0 <= j < ks.len() ==> (#[trigger] r@[j]).0 == ks[j] && airdrop_response_of(r@[j].1, gov.airdrops@[ks[j]])
        }),
{
    let entries = gov.airdrops.range(&start_after, query_limit(limit) as usize, is_ascending(order_by));
    let ghost ks = gov.airdrops.range_keys(start_after, limit_of(limit), ascending(order_by));
    let mut out: Vec<(u64, AirdropResponse)> = Vec::new();
    let mut i: usize = 0;
    while i < entries.len()
        invariant
            gov.wf(),
            ks == gov.airdrops.range_keys(start_after, limit_of(limit), ascending(order_by)),
            entries@.len() == ks.len(),
            forall|j: int| 0 <= j < entries@.len() ==> (#[trigger] entries@[j]).0 == ks[j]
                && entries@[j].1 == gov.airdrops@[ks[j]],
            i <= entries@.len(),
            out@.len() == i,
            forall|j: int| 0 <= j < i ==> (#[trigger] out@[j]).0 == ks[j] && airdrop_response_of(out@[j].1, gov.airdrops@[ks[j]]),
        decreases entries@.len() - i,
    {
        let entry = entries[i];
        let a = &entry.1;
        out.push((entry.0, AirdropResponse {
            start: a.config.start,
            period: a.config.period,
            reward_token: a.config.reward_token.clone(),
            reward_rate: a.config.reward_rate,
        }));
        i = i + 1;
    }
    out
}


/// An airdrop reward that a staker can claim, as a query returns it.
pub struct ClaimableAirdrop {
    pub token: String,
    pub amount: u128,
}

/// A staker, as a query returns it.
pub struct StakerResponse {
    pub balance: u128,
    pub share: u128,
    pub locked_balance: Vec<(u64, VoterInfo)>,
    pub claimable_airdrop: Vec<(u64, ClaimableAirdrop)>,
}

/// The tokens that a share stands for out of `total_balance` staked tokens;
/// nothing when nothing is staked.
pub open spec fn staker_balance(share: u128, total_balance: u128, total_share: u128) -> int {
    if total_share != 0 {
        spec_multiply_ratio(share as int, total_balance as int, total_share as int)
    } else {
        0
    }
}

/// The votes of a staker on polls still in progress, in the order cast.
pub open spec fn in_progress_votes(g: &Gov, votes: Seq<(u64, VoterInfo)>) -> Seq<(u64, VoterInfo)> {
    votes.filter(|e: (u64, VoterInfo)| g.polls@[e.0].status == PollStatus::InProgress)
}

/// The rewards of a staker that a staker query looks at: the latest
/// `DEFAULT_QUERY_LIMIT` of them, by descending airdrop id.
pub open spec fn staker_airdrops(g: &Gov, addr: Seq<char>) -> Seq<u64> {
    if g.rewards@.contains_key(addr) {
        g.rewards@[addr].range_keys(None, DEFAULT_QUERY_LIMIT as nat, false)
    } else {
        Seq::empty()
    }
}

/// The airdrops among those in which a staker has a nonzero reward by `now`.
pub open spec fn claimable_airdrops(g: &Gov, addr: (Seq<u8>, Seq<char>), now: u64) -> Seq<u64> {
    staker_airdrops(g, addr.1).filter(|id: u64| has_claimable(g, addr, id, now))
}

/// What a staker can claim of an airdrop by `now`.
pub open spec fn claimable_entry(g: &Gov, addr: (Seq<u8>, Seq<char>), now: u64, id: u64) -> (u64, ClaimableAirdrop) {
    (id, ClaimableAirdrop {
        token: g.airdrops@[id].config.reward_token,
        amount: updated_reward(g.airdrops@[id], inner(&g.rewards, addr.1)[id], now, g.state.total_share, g.manager(addr).share).reward,
    })
}

/// Whether answering for a staker stays within the ranges its arithmetic
/// allows: the balance fits, the polls voted on and the airdrops rewarded
/// are stored, and the rewards brought up to `now` fit.
pub open spec fn staker_fits(g: &Gov, addr: (Seq<u8>, Seq<char>), now: u64, total_balance: u128) -> bool {
    let m = g.manager(addr);
    &&& staker_balance(m.share, total_balance, g.state.total_share) <= u128::MAX
    &&& forall|i: int| 0 <= i < m.locked_balance.len() ==> g.polls@.contains_key(#[trigger] m.locked_balance[i].0)
    &&& forall|j: int| 0 <= j < staker_airdrops(g, addr.1).len() ==> claim_step_fits(g, addr, #[trigger] staker_airdrops(g, addr.1)[j], now)
}

/// Whether `r` answers for a staker: the tokens its share stands for, the
/// share, its votes on polls in progress and its nonzero airdrop rewards.
pub open spec fn staker_response_of(r: StakerResponse, g: &Gov, addr: (Seq<u8>, Seq<char>), now: u64, total_balance: u128) -> bool {
    let m = g.manager(addr);
    &&& r.balance == staker_balance(m.share, total_balance, g.state.total_share)
    &&& r.share == m.share
    &&& r.locked_balance@ == in_progress_votes(g, m.locked_balance)
    &&& r.claimable_airdrop@ == claimable_airdrops(g, addr, now).map_values(|id: u64| claimable_entry(g, addr, now, id))
}

fn staker_response(gov: &Gov, staker: &Address, manager: &TokenManager, total_balance: u128, now: u64) -> (r: StakerResponse)
    requires
        gov.wf(),
        manager@ == gov.manager(staker@),
        staker_fits(gov, staker@, now, total_balance),
    ensures
        staker_response_of(r, gov, staker@, now, total_balance),
{
    let total_share = gov.state.total_share;
    let balance = if total_share != 0 {
        multiply_ratio(manager.share, total_balance, total_share)
    } else {
        0
    };
    let ghost votes = manager.locked_balance@;
    let ghost vpred = |e: (u64, VoterInfo)| gov.polls@[e.0].status == PollStatus::InProgress;
    assert forall|k: int| 0 <= k < votes.len() implies gov.polls@.contains_key(#[trigger] votes[k].0) by {
        assert(gov.manager(staker@).locked_balance[k] == votes[k]);
    }
    let mut locked: Vec<(u64, VoterInfo)> = Vec::new();
    let mut i: usize = 0;
    while i < manager.locked_balance.len()
        invariant
            gov.wf(),
            votes == manager.locked_balance@,
            vpred == (|e: (u64, VoterInfo)| gov.polls@[e.0].status == PollStatus::InProgress),
            forall|k: int| 0 <= k < votes.len() ==> gov.polls@.contains_key(#[trigger] votes[k].0),
            i <= votes.len(),
            locked@ == votes.take(i as int).filter(vpred),
        decreases votes.len() - i,
    {
        let e = manager.locked_balance[i];
        let p = gov.polls.get(&e.0).unwrap();
        let keep = p.status == PollStatus::InProgress;
        proof {
            reveal(Seq::filter);
            let t1 = votes.take(i as int + 1);
            assert(t1.drop_last() =~= votes.take(i as int));
            assert(t1.last() == e);
            assert(vpred(e) == keep);
        }
        if keep {
            locked.push(e);
        }
        i = i + 1;
    }
    proof {
        assert(votes.take(votes.len() as int) =~= votes);
    }
    assert(staker@.1 == staker.human@);
    let ghost rk = staker_airdrops(gov, staker.human@);
    let ghost pred = |id: u64| has_claimable(gov, staker@, id, now);
    let ghost f = |id: u64| claimable_entry(gov, staker@, now, id);
    let rewards: Vec<&(u64, Reward)> = match gov.rewards.get(&staker.human) {
        Some(m) => m.range(&None, DEFAULT_QUERY_LIMIT as usize, false),
        None => Vec::new(),
    };
    let mut claimable: Vec<(u64, ClaimableAirdrop)> = Vec::new();
    let mut j: usize = 0;
    while j < rewards.len()
        invariant
            gov.wf(),
            rewards@.len() == rk.len(),
            rk == staker_airdrops(gov, staker.human@),
            pred == (|id: u64| has_claimable(gov, staker@, id, now)),
            f == (|id: u64| claimable_entry(gov, staker@, now, id)),
            j <= rk.len(),
            total_share == gov.state.total_share,
            manager.share == gov.manager(staker@).share,
            forall|k: int| 0 <= k < rk.len() ==> (#[trigger] rewards@[k]).0 == rk[k] && inner(&gov.rewards, staker.human@).contains_key(rk[k])
                && rewards@[k].1 == inner(&gov.rewards, staker.human@)[rk[k]],
            forall|k: int| 0 <= k < rk.len() ==> claim_step_fits(gov, staker@, #[trigger] rk[k], now),
            claimable@ == rk.take(j as int).filter(pred).map_values(f),
        decreases rk.len() - j,
    {
        let entry = rewards[j];
        let id = entry.0;
        assert(claim_step_fits(gov, staker@, rk[j as int], now));
        let a = gov.airdrops.get(&id).unwrap();
        let s = accrued_state(a, now, total_share);
        let current = Airdrop {
            config: AirdropConfig {
                start: a.config.start,
                period: a.config.period,
                reward_token: a.config.reward_token.clone(),
                reward_rate: a.config.reward_rate,
            },
            state: s,
        };
        let amount = match calculate_rewards(s.last_update_time, total_share, manager.share, &current, &entry.1) {
            Ok(x) => x,
            Err(_) => 0,
        };
        proof {
            reveal(Seq::filter);
            let t1 = rk.take(j as int + 1);
            assert(t1.drop_last() =~= rk.take(j as int));
            assert(t1.last() == id);
            assert(current.config == a.config);
            assert(pred(id) == (amount != 0));
        }
        if amount != 0 {
            claimable.push((id, ClaimableAirdrop { token: a.config.reward_token.clone(), amount }));
            proof {
                let p0 = rk.take(j as int).filter(pred);
                assert(p0.push(id).map_values(f) =~= p0.map_values(f).push(f(id)));
            }
        }
        j = j + 1;
    }
    proof {
        assert(rk.take(rk.len() as int) =~= rk);
    }
    StakerResponse { balance, share: manager.share, locked_balance: locked, claimable_airdrop: claimable }
}

/// A staker by address at `now`, given the voting tokens that the contract
/// holds (`token_balance`): the staked tokens are that balance less the
/// proposal deposits, an error where the deposits exceed it.
pub fn query_staker(gov: &Gov, address: &Address, now: u64, token_balance: u128) -> (r: Result<StakerResponse, ContractError>)
    requires
        gov.wf(),
        // left out: stakers with votes on unstored polls, rewards of unstored airdrops, or values out of range
        token_balance >= gov.state.total_deposit ==> staker_fits(gov, address@, now, (token_balance - gov.state.total_deposit) as u128),
    ensures
        r is Err <==> token_balance < gov.state.total_deposit,
        r matches Err(e) ==> e == ContractError::Std(StdError::SubOverflow { minuend: token_balance, subtrahend: gov.state.total_deposit }),
        r matches Ok(resp) ==> staker_response_of(resp, gov, address@, now, (token_balance - gov.state.total_deposit) as u128),
{
    let manager = TokenManager::load(gov, address);
    if token_balance < gov.state.total_deposit {
        return Err(ContractError::Std(StdError::SubOverflow { minuend: token_balance, subtrahend: gov.state.total_deposit }));
    }
    let total_balance = token_balance - gov.state.total_deposit;
    Ok(staker_response(gov, address, &manager, total_balance, now))
}

/// The stakers that a page of stakers looks at.
pub open spec fn staker_page(gov: &Gov, start_after: Option<Address>, limit: Option<u32>, order_by: Option<OrderBy>) -> Seq<(Seq<u8>, Seq<char>)> {
    gov.bank.range_keys(opt_kv(&start_after), limit_of(limit), ascending(order_by))
}

/// A page of the stakers, by address, at `now`, given the voting tokens that
/// the contract holds; an error where the proposal deposits exceed them.
pub fn query_stakers(
    gov: &Gov,
    start_after: Option<Address>,
    limit: Option<u32>,
    order_by: Option<OrderBy>,
    now: u64,
    token_balance: u128,
) -> (r: Result<Vec<(String, StakerResponse)>, ContractError>)
    requires
        gov.wf(),
        // left out: stakers with votes on unstored polls, rewards of unstored airdrops, or values out of range
        token_balance >= gov.state.total_deposit ==> forall|j: int| 0 <= j < staker_page(gov, start_after, limit, order_by).len()
            ==> staker_fits(gov, #[trigger] staker_page(gov, start_after, limit, order_by)[j], now, (token_balance - gov.state.total_deposit) as u128),
    ensures
        r is Err <==> token_balance < gov.state.total_deposit,
        r matches Err(e) ==> e == ContractError::Std(StdError::SubOverflow { minuend: token_balance, subtrahend: gov.state.total_deposit }),
        r matches Ok(stakers) ==> {
            let ks = staker_page(gov, start_after, limit, order_by);
            &&& stakers@.len() == ks.len()
            &&& forall|j: int| 0 <= j < ks.len() ==> (#[trigger] stakers@[j]).0@ == ks[j].1
                && staker_response_of(stakers@[j].1, gov, ks[j], now, (token_balance - gov.state.total_deposit) as u128)
        },
{
    let entries = gov.bank.range(&start_after, query_limit(limit) as usize, is_ascending(order_by));
    if token_balance < gov.state.total_deposit {
        return Err(ContractError::Std(StdError::SubOverflow { minuend: token_balance, subtrahend: gov.state.total_deposit }));
    }
    let total_balance = token_balance - gov.state.total_deposit;
    let ghost ks = staker_page(gov, start_after, limit, order_by);
    let mut out: Vec<(String, StakerResponse)> = Vec::new();
    let mut i: usize = 0;
    while i < entries.len()
        invariant
            gov.wf(),
            ks == staker_page(gov, start_after, limit, order_by),
            entries@.len() == ks.len(),
            forall|j: int| 0 <= j < entries@.len() ==> (#[trigger] entries@[j]).0@ == ks[j]
                && gov.bank@.contains_key(ks[j]) && entries@[j].1 == gov.bank@[ks[j]],
            forall|j: int| 0 <= j < ks.len() ==> staker_fits(gov, #[trigger] ks[j], now, total_balance),
            i <= entries@.len(),
            out@.len() == i,
            forall|j: int| 0 <= j < i ==> (#[trigger] out@[j]).0@ == ks[j].1
                && staker_response_of(out@[j].1, gov, ks[j], now, total_balance),
        decreases entries@.len() - i,
    {
        let entry = entries[i];
        assert(staker_fits(gov, ks[i as int], now, total_balance));
        let resp = staker_response(gov, &entry.0, &entry.1, total_balance, now);
        out.push((entry.0.human.clone(), resp));
        i = i + 1;
    }
    Ok(out)
}

} // verus!
