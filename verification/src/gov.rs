//! The contract's store and the executions that set it up and configure it.

use vstd::prelude::*;
use crate::math::Decimal;
use crate::response::{word, AttrValue, Response};
use crate::state::{
    default_manager, Airdrop, Config, ContractError, Poll, PollCategory, PollStatus, Reward, State,
    StdError, TokenManager, TokenManagerView, VoterInfo,
};
use crate::keys::Address;
use crate::store::{inner, nested_get, nested_wf, OrdMap};

verus! {

/// The polls indexed by status: one id set per status.
pub struct StatusIndex {
    pub in_progress: OrdMap<u64, bool>,
    pub passed: OrdMap<u64, bool>,
    pub rejected: OrdMap<u64, bool>,
    pub executed: OrdMap<u64, bool>,
    pub failed: OrdMap<u64, bool>,
}

impl StatusIndex {
    pub open spec fn wf(&self) -> bool {
        &&& self.in_progress.wf()
        &&& self.passed.wf()
        &&& self.rejected.wf()
        &&& self.executed.wf()
        &&& self.failed.wf()
    }

    /// The index bucket of a status.
    pub open spec fn bucket(&self, s: PollStatus) -> OrdMap<u64, bool> {
        match s {
            PollStatus::InProgress => self.in_progress,
            PollStatus::Passed => self.passed,
            PollStatus::Rejected => self.rejected,
            PollStatus::Executed => self.executed,
            PollStatus::Failed => self.failed,
        }
    }

    /// The ids indexed under a status.
    pub open spec fn ids(&self, s: PollStatus) -> Map<u64, bool> {
        self.bucket(s)@
    }

    pub fn new() -> (r: StatusIndex)
        ensures
            r.wf(),
            forall|s: PollStatus| #[trigger] r.ids(s) == Map::<u64, bool>::empty(),
    {
        StatusIndex {
            in_progress: OrdMap::new(),
            passed: OrdMap::new(),
            rejected: OrdMap::new(),
            executed: OrdMap::new(),
            failed: OrdMap::new(),
        }
    }

    pub fn bucket_ref(&self, s: PollStatus) -> (r: &OrdMap<u64, bool>)
        ensures
            *r == self.bucket(s),
    {
        match s {
            PollStatus::InProgress => &self.in_progress,
            PollStatus::Passed => &self.passed,
            PollStatus::Rejected => &self.rejected,
            PollStatus::Executed => &self.executed,
            PollStatus::Failed => &self.failed,
        }
    }

    /// `Poll::index_status`: records `id` under `s`.
    pub fn index(&mut self, id: u64, s: PollStatus)
        requires
            old(self).wf(),
        ensures
            final(self).wf(),
            forall|t: PollStatus| #[trigger] final(self).ids(t) == if t == s {
                old(self).ids(t).insert(id, true)
            } else {
                old(self).ids(t)
            },
    {
        match s {
            PollStatus::InProgress => self.in_progress.insert(id, true),
            PollStatus::Passed => self.passed.insert(id, true),
            PollStatus::Rejected => self.rejected.insert(id, true),
            PollStatus::Executed => self.executed.insert(id, true),
            PollStatus::Failed => self.failed.insert(id, true),
        }
    }

    /// `Poll::deindex_status`: removes `id` from under `s`.
    pub fn deindex(&mut self, id: u64, s: PollStatus)
        requires
            old(self).wf(),
        ensures
            final(self).wf(),
            forall|t: PollStatus| #[trigger] final(self).ids(t) == if t == s {
                old(self).ids(t).remove(id)
            } else {
                old(self).ids(t)
            },
    {
        match s {
            PollStatus::InProgress => { let _ = self.in_progress.take(&id); },
            PollStatus::Passed => { let _ = self.passed.take(&id); },
            PollStatus::Rejected => { let _ = self.rejected.take(&id); },
            PollStatus::Executed => { let _ = self.executed.take(&id); },
            PollStatus::Failed => { let _ = self.failed.take(&id); },
        }
    }
}

/// The polls indexed by category: one id set per category.
pub struct CategoryIndex {
    pub core: OrdMap<u64, bool>,
    pub gateway: OrdMap<u64, bool>,
    pub uncategorized: OrdMap<u64, bool>,
}

impl CategoryIndex {
    pub open spec fn wf(&self) -> bool {
        &&& self.core.wf()
        &&& self.gateway.wf()
        &&& self.uncategorized.wf()
    }

    pub open spec fn bucket(&self, c: PollCategory) -> OrdMap<u64, bool> {
        match c {
            PollCategory::Core => self.core,
            PollCategory::Gateway => self.gateway,
            PollCategory::Uncategorized => self.uncategorized,
        }
    }

    pub open spec fn ids(&self, c: PollCategory) -> Map<u64, bool> {
        self.bucket(c)@
    }

    pub fn new() -> (r: CategoryIndex)
        ensures
            r.wf(),
            forall|c: PollCategory| #[trigger] r.ids(c) == Map::<u64, bool>::empty(),
    {
        CategoryIndex { core: OrdMap::new(), gateway: OrdMap::new(), uncategorized: OrdMap::new() }
    }

    pub fn bucket_ref(&self, c: PollCategory) -> (r: &OrdMap<u64, bool>)
        ensures
            *r == self.bucket(c),
    {
        match c {
            PollCategory::Core => &self.core,
            PollCategory::Gateway => &self.gateway,
            PollCategory::Uncategorized => &self.uncategorized,
        }
    }

    /// `Poll::index_category`: records `id` under `c`.
    pub fn index(&mut self, id: u64, c: PollCategory)
        requires
            old(self).wf(),
        ensures
            final(self).wf(),
            forall|t: PollCategory| #[trigger] final(self).ids(t) == if t == c {
                old(self).ids(t).insert(id, true)
            } else {
                old(self).ids(t)
            },
    {
        match c {
            PollCategory::Core => self.core.insert(id, true),
            PollCategory::Gateway => self.gateway.insert(id, true),
            PollCategory::Uncategorized => self.uncategorized.insert(id, true),
        }
    }

    /// `Poll::deindex_category`: removes `id` from under `c`.
    pub fn deindex(&mut self, id: u64, c: PollCategory)
        requires
            old(self).wf(),
        ensures
            final(self).wf(),
            forall|t: PollCategory| #[trigger] final(self).ids(t) == if t == c {
                old(self).ids(t).remove(id)
            } else {
                old(self).ids(t)
            },
    {
        match c {
            PollCategory::Core => { let _ = self.core.take(&id); },
            PollCategory::Gateway => { let _ = self.gateway.take(&id); },
            PollCategory::Uncategorized => { let _ = self.uncategorized.take(&id); },
        }
    }
}

/// A copy of a list of votes.
pub fn copy_votes(v: &Vec<(u64, VoterInfo)>) -> (r: Vec<(u64, VoterInfo)>)
    ensures
        r@ == v@,
{
    let mut r: Vec<(u64, VoterInfo)> = Vec::new();
    let mut i: usize = 0;
    while i < v.len()
        invariant
            i <= v@.len(),
            r@ == v@.subrange(0, i as int),
        decreases v@.len() - i,
    {
        r.push(v[i]);
        i = i + 1;
    }
    assert(v@.subrange(0, v@.len() as int) =~= v@);
    r
}

/// Everything the contract keeps in storage.
pub struct Gov {
    pub config: Config,
    pub state: State,
    /// Polls by id.
    pub polls: OrdMap<u64, Poll>,
    pub status_index: StatusIndex,
    pub category_index: CategoryIndex,
    /// Votes by poll id, then by voter.
    pub voters: OrdMap<u64, OrdMap<Address, VoterInfo>>,
    /// Stakers by address.
    pub bank: OrdMap<Address, TokenManager>,
    /// Airdrops by id.
    pub airdrops: OrdMap<u64, Airdrop>,
    /// Airdrop rewards by staker, then by airdrop id.
    pub rewards: OrdMap<String, OrdMap<u64, Reward>>,
    /// The poll whose messages are being executed.
    pub tmp_poll_id: Option<u64>,
}

/// The message that instantiates the contract.
pub struct InstantiateMsg {
    pub voting_token: String,
    pub quorum: Decimal,
    pub threshold: Decimal,
    pub voting_period: u64,
    pub timelock_period: u64,
    pub proposal_deposit: u128,
    pub snapshot_period: u64,
}

impl Gov {
    pub open spec fn wf(&self) -> bool {
        &&& self.polls.wf()
        &&& self.status_index.wf()
        &&& self.category_index.wf()
        &&& nested_wf(&self.voters)
        &&& self.bank.wf()
        &&& self.airdrops.wf()
        &&& nested_wf(&self.rewards)
    }

    /// The polls and their indexes agree: every stored poll is kept under its
    /// own id, none above the poll count, and each index lists exactly the
    /// stored polls with its status or category.
    pub open spec fn polls_indexed(&self) -> bool {
        &&& forall|id: u64| #[trigger] self.polls@.contains_key(id) ==> self.polls@[id].id == id && 1 <= id <= self.state.poll_count
        &&& forall|s: PollStatus, id: u64| #[trigger] self.status_index.ids(s).contains_key(id)
            <==> self.polls@.contains_key(id) && self.polls@[id].status == s
        &&& forall|c: PollCategory, id: u64| #[trigger] self.category_index.ids(c).contains_key(id)
            <==> self.polls@.contains_key(id) && self.polls@[id].category == c
    }

    /// The vote of `voter` on a poll, if any.
    pub open spec fn voter(&self, poll_id: u64, voter: (Seq<u8>, Seq<char>)) -> Option<VoterInfo> {
        if inner(&self.voters, poll_id).contains_key(voter) {
            Some(inner(&self.voters, poll_id)[voter])
        } else {
            None
        }
    }

    /// A staker's record, or the empty one where there is none.
    pub open spec fn manager(&self, addr: (Seq<u8>, Seq<char>)) -> TokenManagerView {
        if self.bank@.contains_key(addr) {
            self.bank@[addr]@
        } else {
            default_manager()
        }
    }

    /// A staker's reward in an airdrop, or the empty one where there is none.
    pub open spec fn reward(&self, addr: Seq<char>, airdrop_id: u64) -> Reward {
        if inner(&self.rewards, addr).contains_key(airdrop_id) {
            inner(&self.rewards, addr)[airdrop_id]
        } else {
            Reward::spec_default()
        }
    }

    /// Sets up the store: the configuration from the message, with `sender` as
    /// owner, zero totals and empty stores. Fails unless quorum and threshold
    /// are at most 1.
    pub fn instantiate(sender: String, msg: InstantiateMsg) -> (r: Result<(Gov, Response), ContractError>)
        ensures
            r matches Err(e) ==> (msg.quorum.atomics > Decimal::spec_one().atomics
                && e == ContractError::Std(StdError::GenericErr { msg: "quorum must be 0 to 1" }))
                || (msg.quorum.atomics <= Decimal::spec_one().atomics
                && msg.threshold.atomics > Decimal::spec_one().atomics
                && e == ContractError::Std(StdError::GenericErr { msg: "threshold must be 0 to 1" })),
            r is Ok <==> msg.quorum.atomics <= Decimal::spec_one().atomics
                && msg.threshold.atomics <= Decimal::spec_one().atomics,
            r matches Ok((g, resp)) ==> {
                &&& g.wf()
                &&& g.polls_indexed()
                &&& g.config.owner == sender
                &&& g.config.pylon_token == msg.voting_token
                &&& g.config.quorum == msg.quorum
                &&& g.config.threshold == msg.threshold
                &&& g.config.voting_period == msg.voting_period
                &&& g.config.timelock_period == msg.timelock_period
                &&& g.config.expiration_period == 0
                &&& g.config.proposal_deposit == msg.proposal_deposit
                &&& g.config.snapshot_period == msg.snapshot_period
                &&& g.state.poll_count == 0
                &&& g.state.total_share == 0
                &&& g.state.total_deposit == 0
                &&& g.state.total_airdrop_count == 0
                &&& g.state.airdrop_update_candidates@ == Seq::<u64>::empty()
                &&& g.polls@ == Map::<u64, Poll>::empty()
                &&& forall|s: PollStatus| #[trigger] g.status_index.ids(s) == Map::<u64, bool>::empty()
                &&& forall|c: PollCategory| #[trigger] g.category_index.ids(c) == Map::<u64, bool>::empty()
                &&& g.voters@ == Map::<u64, OrdMap<Address, VoterInfo>>::empty()
                &&& g.bank@ == Map::<(Seq<u8>, Seq<char>), TokenManager>::empty()
                &&& g.airdrops@ == Map::<u64, Airdrop>::empty()
                &&& g.rewards@ == Map::<Seq<char>, OrdMap<u64, Reward>>::empty()
                &&& g.tmp_poll_id is None
                &&& resp.messages@.len() == 0
                &&& resp.attributes@ == seq![word("action", "instantiate")]
            },
    {
        let mut response = Response::new();
        response.add_attribute("action", AttrValue::Word("instantiate"));
        let config = Config {
            pylon_token: msg.voting_token,
            owner: sender,
            quorum: msg.quorum,
            threshold: msg.threshold,
            voting_period: msg.voting_period,
            timelock_period: msg.timelock_period,
            expiration_period: 0,
            proposal_deposit: msg.proposal_deposit,
            snapshot_period: msg.snapshot_period,
        };
        match config.validate() {
            Err(e) => return Err(ContractError::Std(e)),
            Ok(()) => {},
        }
        let state = State {
            poll_count: 0,
            total_share: 0,
            total_deposit: 0,
            total_airdrop_count: 0,
            airdrop_update_candidates: Vec::new(),
        };
        let g = Gov {
            config,
            state,
            polls: OrdMap::new(),
            status_index: StatusIndex::new(),
            category_index: CategoryIndex::new(),
            voters: OrdMap::new(),
            bank: OrdMap::new(),
            airdrops: OrdMap::new(),
            rewards: OrdMap::new(),
            tmp_poll_id: None,
        };
        Ok((g, response))
    }

    /// Registers the voting token, once: refused while one is registered.
    pub fn register_contracts(&mut self, pylon_token: String) -> (r: Result<Response, ContractError>)
        ensures
            r is Err <==> old(self).config.pylon_token@.len() != 0,
            r is Err ==> r == Err::<Response, ContractError>(ContractError::Unauthorized) && *final(self) == *old(self),
            r matches Ok(resp) ==> {
                &&& final(self).config.pylon_token == pylon_token
                &&& final(self).config.owner == old(self).config.owner
                &&& final(self).config.quorum == old(self).config.quorum
                &&& final(self).config.threshold == old(self).config.threshold
                &&& final(self).config.voting_period == old(self).config.voting_period
                &&& final(self).config.timelock_period == old(self).config.timelock_period
                &&& final(self).config.expiration_period == old(self).config.expiration_period
                &&& final(self).config.proposal_deposit == old(self).config.proposal_deposit
                &&& final(self).config.snapshot_period == old(self).config.snapshot_period
                &&& final(self).state == old(self).state
                &&& final(self).polls == old(self).polls
                &&& final(self).status_index == old(self).status_index
                &&& final(self).category_index == old(self).category_index
                &&& final(self).voters == old(self).voters
                &&& final(self).bank == old(self).bank
                &&& final(self).airdrops == old(self).airdrops
                &&& final(self).rewards == old(self).rewards
                &&& final(self).tmp_poll_id == old(self).tmp_poll_id
                &&& resp.messages@.len() == 0
                &&& resp.attributes@.len() == 0
            },
    {
        if self.config.pylon_token.as_str().unicode_len() != 0 {
            return Err(ContractError::Unauthorized);
        }
        self.config.pylon_token = pylon_token;
        Ok(Response::new())
    }

    /// Changes the fields given; only the owner may.
    pub fn update_config(
        &mut self,
        sender: &String,
        owner: Option<String>,
        quorum: Option<Decimal>,
        threshold: Option<Decimal>,
        voting_period: Option<u64>,
        timelock_period: Option<u64>,
        proposal_deposit: Option<u128>,
        snapshot_period: Option<u64>,
    ) -> (r: Result<Response, ContractError>)
        ensures
            old(self).polls_indexed() ==> final(self).polls_indexed(),
            r is Err <==> sender@ != old(self).config.owner@,
            r matches Err(e) ==> e == ContractError::Unauthorized && *final(self) == *old(self),
            r matches Ok(resp) ==> {
                &&& final(self).config.owner == (match owner { Some(o) => o, None => old(self).config.owner })
                &&& final(self).config.pylon_token == old(self).config.pylon_token
                &&& final(self).config.quorum == (match quorum { Some(q) => q, None => old(self).config.quorum })
                &&& final(self).config.threshold == (match threshold { Some(t) => t, None => old(self).config.threshold })
                &&& final(self).config.voting_period == (match voting_period { Some(v) => v, None => old(self).config.voting_period })
                &&& final(self).config.timelock_period == (match timelock_period { Some(v) => v, None => old(self).config.timelock_period })
                &&& final(self).config.expiration_period == old(self).config.expiration_period
                &&& final(self).config.proposal_deposit == (match proposal_deposit { Some(v) => v, None => old(self).config.proposal_deposit })
                &&& final(self).config.snapshot_period == (match snapshot_period { Some(v) => v, None => old(self).config.snapshot_period })
                &&& final(self).state == old(self).state
                &&& final(self).polls == old(self).polls
                &&& final(self).status_index == old(self).status_index
                &&& final(self).category_index == old(self).category_index
                &&& final(self).voters == old(self).voters
                &&& final(self).bank == old(self).bank
                &&& final(self).airdrops == old(self).airdrops
                &&& final(self).rewards == old(self).rewards
                &&& final(self).tmp_poll_id == old(self).tmp_poll_id
                &&& resp.messages@.len() == 0
                &&& resp.attributes@ == seq![word("action", "update_config")]
            },
    {
        let mut response = Response::new();
        response.add_attribute("action", AttrValue::Word("update_config"));
        if *sender != self.config.owner {
            return Err(ContractError::Unauthorized);
        }
        if let Some(owner) = owner {
            self.config.owner = owner;
        }
        if let Some(quorum) = quorum {
            self.config.quorum = quorum;
        }
        if let Some(threshold) = threshold {
            self.config.threshold = threshold;
        }
        if let Some(voting_period) = voting_period {
            self.config.voting_period = voting_period;
        }
        if let Some(timelock_period) = timelock_period {
            self.config.timelock_period = timelock_period;
        }
        if let Some(proposal_deposit) = proposal_deposit {
            self.config.proposal_deposit = proposal_deposit;
        }
        if let Some(period) = snapshot_period {
            self.config.snapshot_period = period;
        }
        proof {
            if old(self).polls_indexed() {
                lemma_indexed_frame(old(self), self);
            }
        }
        Ok(response)
    }
}


impl TokenManager {
    /// A staker's record, the empty one where there is none.
    pub fn load(gov: &Gov, addr: &Address) -> (r: TokenManager)
        requires
            gov.wf(),
        ensures
            r@ == gov.manager(addr@),
    {
        match gov.bank.get(addr) {
            Some(t) => TokenManager { share: t.share, locked_balance: copy_votes(&t.locked_balance) },
            None => TokenManager::default(),
        }
    }
}

impl Reward {
    /// A staker's reward in an airdrop, the empty one where there is none.
    pub fn load(gov: &Gov, addr: &String, airdrop_id: u64) -> (r: Reward)
        requires
            gov.wf(),
        ensures
            r == gov.reward(addr@, airdrop_id),
    {
        match nested_get(&gov.rewards, addr, &airdrop_id) {
            Some(r) => *r,
            None => Reward::default(),
        }
    }
}

/// A store whose polls, indexes and poll count are untouched keeps its polls
/// and indexes in agreement.
pub proof fn lemma_indexed_frame(g0: &Gov, g1: &Gov)
    requires
        g0.polls_indexed(),
        g1.polls == g0.polls,
        g1.status_index == g0.status_index,
        g1.category_index == g0.category_index,
        g1.state.poll_count == g0.state.poll_count,
    ensures
        g1.polls_indexed(),
{
}

/// Replacing a stored poll by one with the same id and category, with the
/// status index moved to its new status, keeps polls and indexes in agreement.
pub proof fn lemma_indexed_after_update(g0: &Gov, g1: &Gov, id: u64, p: Poll)
    requires
        g0.polls_indexed(),
        g0.polls@.contains_key(id),
        p.id == id,
        p.category == g0.polls@[id].category,
        g1.polls@ == g0.polls@.insert(id, p),
        g1.state.poll_count == g0.state.poll_count,
        forall|c: PollCategory| #[trigger] g1.category_index.ids(c) == g0.category_index.ids(c),
        forall|s: PollStatus, x: u64| #[trigger] g1.status_index.ids(s).contains_key(x)
            <==> if x == id { s == p.status } else { g0.status_index.ids(s).contains_key(x) },
    ensures
        g1.polls_indexed(),
{
    assert forall|c: PollCategory, x: u64| #[trigger] g1.category_index.ids(c).contains_key(x)
        <==> g1.polls@.contains_key(x) && g1.polls@[x].category == c by {
        assert(g0.category_index.ids(c).contains_key(x) <==> g0.polls@.contains_key(x) && g0.polls@[x].category == c);
    }
    assert forall|s: PollStatus, x: u64| #[trigger] g1.status_index.ids(s).contains_key(x)
        <==> g1.polls@.contains_key(x) && g1.polls@[x].status == s by {
        if x != id {
            assert(g0.status_index.ids(s).contains_key(x) <==> g0.polls@.contains_key(x) && g0.polls@[x].status == s);
        }
    }
    assert forall|x: u64| #[trigger] g1.polls@.contains_key(x) implies g1.polls@[x].id == x && 1 <= x <= g1.state.poll_count by {
        assert(g0.polls@.contains_key(x));
    }
}

/// Adding a poll under the next id, indexed under its status and category,
/// keeps polls and indexes in agreement.
pub proof fn lemma_indexed_after_insert(g0: &Gov, g1: &Gov, p: Poll)
    requires
        g0.polls_indexed(),
        g0.state.poll_count < u64::MAX,
        p.id == g0.state.poll_count + 1,
        g1.polls@ == g0.polls@.insert(p.id, p),
        g1.state.poll_count == p.id,
        forall|s: PollStatus| #[trigger] g1.status_index.ids(s) == if s == p.status {
            g0.status_index.ids(s).insert(p.id, true)
        } else {
            g0.status_index.ids(s)
        },
        forall|c: PollCategory| #[trigger] g1.category_index.ids(c) == if c == p.category {
            g0.category_index.ids(c).insert(p.id, true)
        } else {
            g0.category_index.ids(c)
        },
    ensures
        g1.polls_indexed(),
{
    assert(!g0.polls@.contains_key(p.id));
    assert forall|c: PollCategory, x: u64| #[trigger] g1.category_index.ids(c).contains_key(x)
        <==> g1.polls@.contains_key(x) && g1.polls@[x].category == c by {
        assert(g0.category_index.ids(c).contains_key(x) <==> g0.polls@.contains_key(x) && g0.polls@[x].category == c);
    }
    assert forall|s: PollStatus, x: u64| #[trigger] g1.status_index.ids(s).contains_key(x)
        <==> g1.polls@.contains_key(x) && g1.polls@[x].status == s by {
        assert(g0.status_index.ids(s).contains_key(x) <==> g0.polls@.contains_key(x) && g0.polls@[x].status == s);
    }
    assert forall|x: u64| #[trigger] g1.polls@.contains_key(x) implies g1.polls@[x].id == x && 1 <= x <= g1.state.poll_count by {
        if x != p.id {
            assert(g0.polls@.contains_key(x));
        }
    }
}

/// The deposit that poll `id` holds: its deposit while it is in progress,
/// nothing otherwise.
pub open spec fn held_deposit(polls: Map<u64, Poll>, id: u64) -> int {
    if polls.contains_key(id) && polls[id].status == PollStatus::InProgress {
        polls[id].deposit_amount as int
    } else {
        0
    }
}

/// The deposits held by the polls with ids `1..=n`.
pub open spec fn deposits_up_to(polls: Map<u64, Poll>, n: u64) -> int
    decreases n,
{
    if n == 0 {
        0
    } else {
        deposits_up_to(polls, (n - 1) as u64) + held_deposit(polls, n)
    }
}

impl Gov {
    /// The deposit total is what the polls in progress hold.
    pub open spec fn deposits_held(&self) -> bool {
        self.state.total_deposit == deposits_up_to(self.polls@, self.state.poll_count)
    }
}

/// Storing a poll under an id above `n` leaves the deposits of `1..=n` alone.
pub proof fn lemma_deposits_insert_above(polls: Map<u64, Poll>, k: u64, p: Poll, n: u64)
    requires
        k > n,
    ensures
        deposits_up_to(polls.insert(k, p), n) == deposits_up_to(polls, n),
    decreases n,
{
    if n > 0 {
        lemma_deposits_insert_above(polls, k, p, (n - 1) as u64);
        assert(held_deposit(polls.insert(k, p), n) == held_deposit(polls, n));
    }
}

/// Storing a poll under an id within `1..=n` replaces that id's held deposit
/// by the new poll's.
pub proof fn lemma_deposits_insert_at(polls: Map<u64, Poll>, k: u64, p: Poll, n: u64)
    requires
        1 <= k <= n,
    ensures
        deposits_up_to(polls.insert(k, p), n)
            == deposits_up_to(polls, n) - held_deposit(polls, k) + held_deposit(polls.insert(k, p), k),
    decreases n,
{
    if n == k {
        lemma_deposits_insert_above(polls, k, p, (n - 1) as u64);
    } else {
        lemma_deposits_insert_at(polls, k, p, (n - 1) as u64);
        assert(held_deposit(polls.insert(k, p), n) == held_deposit(polls, n));
    }
}

/// The deposits of `1..=n` are never negative and cover the deposit of any
/// one of those polls.
pub proof fn lemma_deposits_cover(polls: Map<u64, Poll>, k: u64, n: u64)
    requires
        1 <= k <= n,
    ensures
        deposits_up_to(polls, n) >= held_deposit(polls, k),
    decreases n,
{
    lemma_deposits_nonnegative(polls, (n - 1) as u64);
    if n != k {
        lemma_deposits_cover(polls, k, (n - 1) as u64);
    }
}

/// The deposits of `1..=n` are never negative.
pub proof fn lemma_deposits_nonnegative(polls: Map<u64, Poll>, n: u64)
    ensures
        deposits_up_to(polls, n) >= 0,
    decreases n,
{
    if n > 0 {
        lemma_deposits_nonnegative(polls, (n - 1) as u64);
    }
}

} // verus!


