//! The executions that route a request: token deposits, unstaking, the reply
//! to a failed poll execution, and the migration of stored records.

use vstd::prelude::*;
use crate::airdrop::update_msg;
use crate::gov::{lemma_indexed_frame, Gov};
use crate::keys::Address;
use crate::math::{multiply_ratio, spec_multiply_ratio};
use crate::response::{number, text, word, AttrValue, Msg, Response, SelfMsg, SubMsg, POLL_EXECUTE_REPLY_ID};
use crate::state::{ContractError, ExecuteData, Poll, PollCategory, PollStatus, Record, State, StdError, TokenManager, TokenManagerView};

verus! {

/// What a token deposit asks for, read from the message that comes with it.
pub enum Cw20HookMsg {
    /// Stake the tokens sent.
    Stake,
    /// Create a poll with the tokens sent as its deposit.
    CreatePoll {
        title: String,
        category: PollCategory,
        description: String,
        link: Option<String>,
        execute_msgs: Option<Vec<ExecuteData>>,
    },
}

/// The message that stakes `amount` tokens for `sender`.
pub open spec fn stake_msg(sender: String, amount: u128) -> SubMsg {
    SubMsg { msg: Msg::ToSelf(SelfMsg::StakeInternal { sender, amount }), reply_on_error: None }
}

/// The message that unstakes `amount` (everything where none is given) for `sender`.
pub open spec fn unstake_msg(sender: String, amount: Option<u128>) -> SubMsg {
    SubMsg { msg: Msg::ToSelf(SelfMsg::UnstakeInternal { sender, amount }), reply_on_error: None }
}

impl Gov {
    /// Handles `amount` voting tokens sent by `sender` through the token
    /// contract `token`, with `hook` the request that came with them (`None`
    /// where it could not be read). Only the voting token is accepted. Staking
    /// asks the contract to bring `sender`'s airdrop rewards up to date, then
    /// to stake; a poll request creates the poll with the tokens as deposit.
    pub fn receive(
        &mut self,
        token: &String,
        sender: String,
        amount: u128,
        hook: Option<Cw20HookMsg>,
        block_height: u64,
    ) -> (r: Result<Response, ContractError>)
        requires
            old(self).wf(),
            token@ == old(self).config.pylon_token@ && (hook matches Some(Cw20HookMsg::CreatePoll { .. }))
                ==> old(self).create_fits(amount, block_height),
        ensures
            final(self).wf(),
            old(self).polls_indexed() ==> final(self).polls_indexed(),
            token@ != old(self).config.pylon_token@ ==> r == Err::<Response, ContractError>(ContractError::Unauthorized)
                && *final(self) == *old(self),
            token@ == old(self).config.pylon_token@ ==> match hook {
                None => r == Err::<Response, ContractError>(ContractError::DataShouldBeGiven) && *final(self) == *old(self),
                Some(Cw20HookMsg::Stake) => *final(self) == *old(self) && (r matches Ok(resp) && {
                    &&& resp.messages@ == seq![update_msg(sender), stake_msg(sender, amount)]
                    &&& resp.attributes@.len() == 0
                }),
                Some(Cw20HookMsg::CreatePoll { title, category, description, link, execute_msgs }) => Gov::create_outcome(
                    old(self),
                    final(self),
                    r,
                    sender,
                    amount,
                    title,
                    category,
                    description,
                    link,
                    execute_msgs,
                    block_height,
                ),
            },
    {
        if *token != self.config.pylon_token {
            return Err(ContractError::Unauthorized);
        }
        match hook {
            Some(Cw20HookMsg::Stake) => {
                let mut response = Response::new();
                response.add_message(Msg::ToSelf(SelfMsg::AirdropUpdate { target: Some(sender.clone()) }));
                response.add_message(Msg::ToSelf(SelfMsg::StakeInternal { sender, amount }));
                proof {
                    if old(self).polls_indexed() {
                        lemma_indexed_frame(old(self), self);
                    }
                }
                Ok(response)
            },
            Some(Cw20HookMsg::CreatePoll { title, category, description, link, execute_msgs }) => {
                self.create(sender, amount, title, category, description, link, execute_msgs, block_height)
            },
            None => Err(ContractError::DataShouldBeGiven),
        }
    }

    /// Answers the reply to a failed message: under the poll execution reply
    /// id, the poll whose messages were being executed is marked failed; any
    /// other id is refused.
    pub fn reply(&mut self, id: u64) -> (r: Result<Response, ContractError>)
        requires
            old(self).wf(),
        ensures
            final(self).wf(),
            old(self).polls_indexed() && (old(self).tmp_poll_id matches Some(t) ==> (old(self).polls@.contains_key(t)
                ==> old(self).polls@[t].status == PollStatus::Passed)) ==> final(self).polls_indexed(),
            id != POLL_EXECUTE_REPLY_ID ==> r == Err::<Response, ContractError>(ContractError::InvalidReplyId)
                && *final(self) == *old(self),
            id == POLL_EXECUTE_REPLY_ID ==> match old(self).tmp_poll_id {
                None => r == Err::<Response, ContractError>(ContractError::Std(StdError::NotFound { kind: Record::TempPollId }))
                    && *final(self) == *old(self),
                Some(poll_id) => Gov::fail_outcome(old(self), final(self), r, poll_id),
            },
    {
        if id == POLL_EXECUTE_REPLY_ID {
            match self.tmp_poll_id {
                Some(poll_id) => self.fail(poll_id),
                None => Err(ContractError::Std(StdError::NotFound { kind: Record::TempPollId })),
            }
        } else {
            Err(ContractError::InvalidReplyId)
        }
    }
}

/// Asks to unstake `amount` (everything where none is given) for `sender`:
/// first the contract brings `sender`'s airdrop rewards up to date, then it
/// unstakes.
pub fn unstake(sender: String, amount: Option<u128>) -> (r: Result<Response, ContractError>)
    ensures
        r matches Ok(resp) && {
            &&& resp.messages@ == seq![update_msg(sender), unstake_msg(sender, amount)]
            &&& resp.attributes@.len() == 0
        },
{
    let mut response = Response::new();
    response.add_message(Msg::ToSelf(SelfMsg::AirdropUpdate { target: Some(sender.clone()) }));
    response.add_message(Msg::ToSelf(SelfMsg::UnstakeInternal { sender, amount }));
    Ok(response)
}

/// The running totals as an earlier version of the contract stored them.
pub struct LegacyState {
    pub poll_count: u64,
    pub total_share: u128,
    pub total_deposit: u128,
}

/// A poll as an earlier version of the contract stored it: without a category.
pub struct LegacyPoll {
    pub id: u64,
    pub creator: String,
    pub status: PollStatus,
    pub yes_votes: u128,
    pub no_votes: u128,
    pub end_height: u64,
    pub title: String,
    pub description: String,
    pub link: Option<String>,
    pub execute_data: Option<Vec<ExecuteData>>,
    pub deposit_amount: u128,
    pub total_balance_at_end_poll: Option<u128>,
    pub staked_amount: Option<u128>,
}

/// How many of the stored polls a migration converts.
pub const MIGRATE_POLL_LIMIT: usize = 100;

/// A poll of the earlier version, uncategorized.
pub open spec fn migrated_poll(p: LegacyPoll) -> Poll {
    Poll {
        id: p.id,
        creator: p.creator,
        status: p.status,
        yes_votes: p.yes_votes,
        no_votes: p.no_votes,
        end_height: p.end_height,
        title: p.title,
        category: PollCategory::Uncategorized,
        description: p.description,
        link: p.link,
        execute_data: p.execute_data,
        deposit_amount: p.deposit_amount,
        total_balance_at_end_poll: p.total_balance_at_end_poll,
        staked_amount: p.staked_amount,
    }
}

/// The polls after saving each of `ps` in turn under its id.
pub open spec fn with_migrated(m: Map<u64, Poll>, ps: Seq<LegacyPoll>) -> Map<u64, Poll>
    decreases ps.len(),
{
    if ps.len() == 0 {
        m
    } else {
        with_migrated(m, ps.drop_last()).insert(ps.last().id, migrated_poll(ps.last()))
    }
}

/// Converts the records of the earlier version: the running totals, with no
/// airdrops yet, and the latest `MIGRATE_POLL_LIMIT` of `legacy_polls` (given
/// by descending key), each saved under its id without a category. The poll
/// indexes are left as they are.
pub fn migrate_state(gov: &mut Gov, legacy_state: LegacyState, legacy_polls: Vec<LegacyPoll>) -> (r: Result<Response, ContractError>)
    requires
        old(gov).wf(),
    ensures
        final(gov).wf(),
        r matches Ok(resp) && resp.messages@.len() == 0 && resp.attributes@.len() == 0,
        final(gov).state.poll_count == legacy_state.poll_count,
        final(gov).state.total_share == legacy_state.total_share,
        final(gov).state.total_deposit == legacy_state.total_deposit,
        final(gov).state.total_airdrop_count == 0,
        final(gov).state.airdrop_update_candidates@ == Seq::<u64>::empty(),
        final(gov).polls@ == with_migrated(
            old(gov).polls@,
            legacy_polls@.take(if legacy_polls@.len() < MIGRATE_POLL_LIMIT { legacy_polls@.len() as int } else { MIGRATE_POLL_LIMIT as int }),
        ),
        final(gov).config == old(gov).config,
        final(gov).status_index == old(gov).status_index,
        final(gov).category_index == old(gov).category_index,
        final(gov).voters == old(gov).voters,
        final(gov).bank == old(gov).bank,
        final(gov).airdrops == old(gov).airdrops,
        final(gov).rewards == old(gov).rewards,
        final(gov).tmp_poll_id == old(gov).tmp_poll_id,
{
    gov.state = State {
        poll_count: legacy_state.poll_count,
        total_share: legacy_state.total_share,
        total_deposit: legacy_state.total_deposit,
        total_airdrop_count: 0,
        airdrop_update_candidates: Vec::new(),
    };
    let ghost g0 = *gov;
    let ghost ps = legacy_polls@;
    let n = if legacy_polls.len() < MIGRATE_POLL_LIMIT { legacy_polls.len() } else { MIGRATE_POLL_LIMIT };
    let mut rest = legacy_polls;
    rest.truncate(n);
    let mut taken: Vec<LegacyPoll> = Vec::new();
    while rest.len() > 0
        invariant
            rest@.len() + taken@.len() == n,
            n <= ps.len(),
            rest@ + taken@.reverse() == ps.take(n as int),
        decreases rest@.len(),
    {
        let p = rest.pop().unwrap();
        taken.push(p);
        proof {
            assert(rest@ + taken@.reverse() =~= ps.take(n as int));
        }
    }
    proof {
        assert(taken@.reverse() =~= ps.take(n as int));
    }
    let mut i: usize = 0;
    let count = taken.len();
    while taken.len() > 0
        invariant
            gov.wf(),
            g0.wf(),
            count == n,
            i + taken@.len() == n,
            taken@.reverse() == ps.take(n as int).skip(i as int),
            gov.polls@ == with_migrated(g0.polls@, ps.take(i as int)),
            n <= ps.len(),
            gov.state == g0.state,
            gov.config == g0.config,
            gov.status_index == g0.status_index,
            gov.category_index == g0.category_index,
            gov.voters == g0.voters,
            gov.bank == g0.bank,
            gov.airdrops == g0.airdrops,
            gov.rewards == g0.rewards,
            gov.tmp_poll_id == g0.tmp_poll_id,
        decreases taken@.len(),
    {
        let ghost old_taken = taken;
        let p = taken.pop().unwrap();
        let ghost lp = p;
        proof {
            let t0 = ps.take(n as int).skip(i as int);
            assert(t0[0] == ps[i as int]);
            assert(old_taken@.reverse()[0] == old_taken@[old_taken@.len() - 1]);
            assert(lp == ps[i as int]);
        }
        let poll = Poll {
            id: p.id,
            creator: p.creator,
            status: p.status,
            yes_votes: p.yes_votes,
            no_votes: p.no_votes,
            end_height: p.end_height,
            title: p.title,
            category: PollCategory::Uncategorized,
            description: p.description,
            link: p.link,
            execute_data: p.execute_data,
            deposit_amount: p.deposit_amount,
            total_balance_at_end_poll: p.total_balance_at_end_poll,
            staked_amount: p.staked_amount,
        };
        gov.polls.insert(p.id, poll);
        proof {
            assert(ps.take(i as int + 1).drop_last() =~= ps.take(i as int));
            assert(taken@ =~= old_taken@.drop_last());
            assert forall|k: int| 0 <= k < taken@.len() implies #[trigger] taken@.reverse()[k] == ps.take(n as int).skip(i as int + 1)[k] by {
                assert(taken@.reverse()[k] == old_taken@.reverse()[k + 1]);
                assert(ps.take(n as int).skip(i as int)[k + 1] == ps[i as int + 1 + k]);
            }
            assert(taken@.reverse() =~= ps.take(n as int).skip(i as int + 1));
        }
        i = i + 1;
    }
    Ok(Response::new())
}

/// The share that staking `amount` tokens gives when `staked` tokens are
/// already staked for `total_share` shares: the amount itself while nothing
/// is staked, else `amount * total_share / staked`.
pub open spec fn stake_share(amount: u128, total_share: u128, staked: int) -> int {
    if staked == 0 || total_share == 0 {
        amount as int
    } else {
        spec_multiply_ratio(amount as int, total_share as int, staked)
    }
}

impl Gov {
    /// Whether a stake's share and the totals it grows stay in range.
    pub open spec fn stake_fits(&self, sender: (Seq<u8>, Seq<char>), amount: u128, balance: u128) -> bool {
        let staked = balance - (self.state.total_deposit + amount);
        &&& self.state.total_deposit + amount <= u128::MAX
        &&& staked >= 0 ==> {
            let share = stake_share(amount, self.state.total_share, staked);
            &&& self.manager(sender).share + share <= u128::MAX
            &&& self.state.total_share + share <= u128::MAX
        }
    }

    /// Stakes `amount` voting tokens for `sender`, once they arrived and the
    /// contract holds `balance` of them; only the contract itself may ask.
    /// The staker's share, and the total share, grow by the share that the
    /// amount is worth against the tokens already staked (the balance less
    /// the deposits and the amount).
    pub fn stake(
        &mut self,
        contract_addr: &String,
        info_sender: &String,
        sender: Address,
        amount: u128,
        balance: u128,
    ) -> (r: Result<Response, ContractError>)
        requires
            old(self).wf(),
            // left out: stakes whose share or totals would overflow
            info_sender@ == contract_addr@ && amount != 0 ==> old(self).stake_fits(sender@, amount, balance),
        ensures
            final(self).wf(),
            old(self).polls_indexed() ==> final(self).polls_indexed(),
            info_sender@ != contract_addr@ ==> r == Err::<Response, ContractError>(ContractError::Unauthorized),
            info_sender@ == contract_addr@ && amount == 0 ==> r == Err::<Response, ContractError>(ContractError::InsufficientFunds),
            info_sender@ == contract_addr@ && amount != 0 ==> {
                let needed = (old(self).state.total_deposit + amount) as u128;
                (balance < needed <==> r is Err)
                    && (balance < needed ==> r == Err::<Response, ContractError>(
                        ContractError::Std(StdError::SubOverflow { minuend: balance, subtrahend: needed }),
                    ))
            },
            r is Err ==> *final(self) == *old(self),
            r matches Ok(resp) ==> {
                let m = old(self).manager(sender@);
                let share = stake_share(
                    amount,
                    old(self).state.total_share,
                    balance - (old(self).state.total_deposit + amount),
                );
                &&& final(self).manager(sender@) == TokenManagerView {
                    share: (m.share + share) as u128,
                    locked_balance: m.locked_balance,
                }
                &&& final(self).bank@.dom() == old(self).bank@.dom().insert(sender@)
                &&& forall|a: (Seq<u8>, Seq<char>)| a != sender@ ==> #[trigger] final(self).bank@[a] == old(self).bank@[a]
                &&& final(self).state == State { total_share: (old(self).state.total_share + share) as u128, ..old(self).state }
                &&& final(self).config == old(self).config
                &&& final(self).polls == old(self).polls
                &&& final(self).status_index == old(self).status_index
                &&& final(self).category_index == old(self).category_index
                &&& final(self).voters == old(self).voters
                &&& final(self).airdrops == old(self).airdrops
                &&& final(self).rewards == old(self).rewards
                &&& final(self).tmp_poll_id == old(self).tmp_poll_id
                &&& resp.messages@.len() == 0
                &&& resp.attributes@ == seq![
                    word("action", "staking"),
                    text("sender", sender.human),
                    number("share", share as u128),
                    number("amount", amount),
                ]
            },
    {
        if *info_sender != *contract_addr {
            return Err(ContractError::Unauthorized);
        }
        if amount == 0 {
            return Err(ContractError::InsufficientFunds);
        }
        let needed = self.state.total_deposit + amount;
        if balance < needed {
            return Err(ContractError::Std(StdError::SubOverflow { minuend: balance, subtrahend: needed }));
        }
        let staked = balance - needed;
        let share = if staked == 0 || self.state.total_share == 0 {
            amount
        } else {
            multiply_ratio(amount, self.state.total_share, staked)
        };
        let mut manager = match self.bank.take(&sender) {
            Some(t) => t,
            None => TokenManager::default(),
        };
        manager.share = manager.share + share;
        self.bank.insert(sender.copy(), manager);
        self.state.total_share = self.state.total_share + share;
        proof {
            assert(self.bank@.dom() =~= old(self).bank@.dom().insert(sender@));
            if old(self).polls_indexed() {
                lemma_indexed_frame(old(self), self);
            }
        }
        let mut response = Response::new();
        response.add_attribute("action", AttrValue::Word("staking"));
        response.add_attribute("sender", AttrValue::Text(sender.human));
        response.add_attribute("share", AttrValue::Number(share));
        response.add_attribute("amount", AttrValue::Number(amount));
        Ok(response)
    }
}

} // verus!

