//! The poll lifecycle: create, vote, snapshot, end, execute, fail.

use vstd::prelude::*;
use crate::gov::{lemma_indexed_after_insert, lemma_indexed_after_update, lemma_indexed_frame, Gov};
use crate::math::{multiply_ratio, spec_from_ratio, spec_multiply_ratio, Decimal};
use crate::response::{word, number, text, AttrValue, Msg, Response, SelfMsg, SubMsg, Attribute, POLL_EXECUTE_REPLY_ID};
use crate::state::{opt_str, poll_validation_error, vote_name, ContractError, ExecuteData, Poll, PollCategory, PollStatus, Record, StdError, TokenManager, TokenManagerView, VoteOption, VoterInfo};
use crate::keys::Address;
use crate::store::{inner, nested_get, nested_insert};
use crate::sort::{data_views, sort_by_order, sort_execute_data, ExecuteDataView};

verus! {

/// The poll after a vote: the tally grows by `amount` on the side voted, and
/// the staked amount is fixed at `staked` when the vote falls within the
/// snapshot period before the end and none is fixed yet.
pub open spec fn voted_poll(p: Poll, vote: VoteOption, amount: u128, height: u64, snapshot_period: u64, staked: u128) -> Poll {
    Poll {
        yes_votes: if vote == VoteOption::Yes { (p.yes_votes + amount) as u128 } else { p.yes_votes },
        no_votes: if vote == VoteOption::Yes { p.no_votes } else { (p.no_votes + amount) as u128 },
        staked_amount: if p.end_height - height < snapshot_period && p.staked_amount is None {
            Some(staked)
        } else {
            p.staked_amount
        },
        ..p
    }
}

/// The balance of staked tokens: the contract's token balance less the
/// proposal deposits it holds; an error where the deposits exceed the balance.
pub open spec fn staked_balance(balance: u128, total_deposit: u128) -> Result<u128, ContractError> {
    if balance < total_deposit {
        Err(ContractError::Std(StdError::SubOverflow { minuend: balance, subtrahend: total_deposit }))
    } else {
        Ok((balance - total_deposit) as u128)
    }
}

/// The tokens that a share stands for: `share * staked / total_share`.
pub open spec fn share_value(share: u128, staked: u128, total_share: u128) -> int {
    spec_multiply_ratio(share as int, staked as int, total_share as int)
}

impl Gov {
    /// The first check that a vote fails before its stake is weighed, if any.
    pub open spec fn vote_precheck(&self, sender: (Seq<u8>, Seq<char>), poll_id: u64, height: u64, balance: u128) -> Option<ContractError> {
        if poll_id == 0 || self.state.poll_count < poll_id {
            Some(ContractError::PollNotFound)
        } else if !self.polls@.contains_key(poll_id) {
            Some(ContractError::Std(StdError::NotFound { kind: Record::Poll }))
        } else if self.polls@[poll_id].status != PollStatus::InProgress || height > self.polls@[poll_id].end_height {
            Some(ContractError::PollNotInProgress)
        } else if self.voter(poll_id, sender) is Some {
            Some(ContractError::AlreadyVoted)
        } else if balance < self.state.total_deposit {
            Some(ContractError::Std(StdError::SubOverflow { minuend: balance, subtrahend: self.state.total_deposit }))
        } else {
            None
        }
    }

    /// The error a vote ends in, if any: a failed check, or a stake worth
    /// less than the amount voted.
    pub open spec fn vote_error(&self, sender: (Seq<u8>, Seq<char>), poll_id: u64, height: u64, balance: u128, amount: u128) -> Option<ContractError> {
        match self.vote_precheck(sender, poll_id, height, balance) {
            Some(e) => Some(e),
            None => if share_value(self.manager(sender).share, (balance - self.state.total_deposit) as u128, self.state.total_share) < amount {
                Some(ContractError::InsufficientStaked)
            } else {
                None
            },
        }
    }

    /// Whether creating a poll stays within the ranges its arithmetic
    /// allows: once the deposit suffices, the poll count, the deposit total and
    /// the end height.
    pub open spec fn create_fits(&self, deposit_amount: u128, block_height: u64) -> bool {
        &&& deposit_amount >= self.config.proposal_deposit ==> {
            &&& self.state.poll_count < u64::MAX
            &&& self.state.total_deposit + deposit_amount <= u128::MAX
            &&& block_height + self.config.voting_period <= u64::MAX
        }
    }

    /// What creating a poll leaves behind: the error and an untouched store, or
    /// the new poll, indexed, with the deposit counted.
    pub open spec fn create_outcome(
        g0: &Gov,
        g1: &Gov,
        r: Result<Response, ContractError>,
        proposer: String,
        deposit_amount: u128,
        title: String,
        category: PollCategory,
        description: String,
        link: Option<String>,
        execute_msgs: Option<Vec<ExecuteData>>,
        block_height: u64,
    ) -> bool {
        &&& (deposit_amount < g0.config.proposal_deposit ==> r == Err::<Response, ContractError>(
            ContractError::InsufficientProposalDeposit(g0.config.proposal_deposit),
        ))
        &&& (deposit_amount >= g0.config.proposal_deposit ==> (match poll_validation_error(
            title@,
            category,
            description@,
            opt_str(link),
        ) {
            Some(msg) => r == Err::<Response, ContractError>(ContractError::Std(StdError::GenericErr { msg })),
            None => r is Ok,
        }))
        &&& (r is Err ==> *g1 == *g0)
        &&& (r matches Ok(resp) ==> {
            let id = (g0.state.poll_count + 1) as u64;
            let end_height = (block_height + g0.config.voting_period) as u64;
            &&& g1.polls@ == g0.polls@.insert(
                id,
                Poll {
                    id,
                    creator: proposer,
                    status: PollStatus::InProgress,
                    yes_votes: 0,
                    no_votes: 0,
                    end_height,
                    title,
                    category,
                    description,
                    link,
                    execute_data: execute_msgs,
                    deposit_amount,
                    total_balance_at_end_poll: None,
                    staked_amount: None,
                },
            )
            &&& g1.state.poll_count == id
            &&& g1.state.total_deposit == g0.state.total_deposit + deposit_amount
            &&& g1.state.total_share == g0.state.total_share
            &&& g1.state.total_airdrop_count == g0.state.total_airdrop_count
            &&& g1.state.airdrop_update_candidates == g0.state.airdrop_update_candidates
            &&& forall|s: PollStatus| #[trigger] g1.status_index.ids(s) == if s == PollStatus::InProgress {
                g0.status_index.ids(s).insert(id, true)
            } else {
                g0.status_index.ids(s)
            }
            &&& forall|c: PollCategory| #[trigger] g1.category_index.ids(c) == if c == category {
                g0.category_index.ids(c).insert(id, true)
            } else {
                g0.category_index.ids(c)
            }
            &&& g1.config == g0.config
            &&& g1.voters == g0.voters
            &&& g1.bank == g0.bank
            &&& g1.airdrops == g0.airdrops
            &&& g1.rewards == g0.rewards
            &&& g1.tmp_poll_id == g0.tmp_poll_id
            &&& resp.messages@.len() == 0
            &&& resp.attributes@ == seq![
                word("action", "create_poll"),
                text("creator", proposer),
                number("poll_id", id as u128),
                number("end_height", end_height as u128),
            ]
        })
    }

    /// Creates a poll from a proposal deposit of `deposit_amount` sent by
    /// `proposer`: it gets the next id, ends `voting_period` blocks after
    /// `block_height`, and is indexed as in progress and by its category.
    pub fn create(
        &mut self,
        proposer: String,
        deposit_amount: u128,
        title: String,
        category: PollCategory,
        description: String,
        link: Option<String>,
        execute_msgs: Option<Vec<ExecuteData>>,
        block_height: u64,
    ) -> (r: Result<Response, ContractError>)
        requires
            old(self).wf(),
            old(self).create_fits(deposit_amount, block_height),
        ensures
            final(self).wf(),
            old(self).polls_indexed() ==> final(self).polls_indexed(),
            Gov::create_outcome(
                old(self),
                final(self),
                r,
                proposer,
                deposit_amount,
                title,
                category,
                description,
                link,
                execute_msgs,
                block_height,
            ),
    {
        let mut response = Response::new();
        response.add_attribute("action", AttrValue::Word("create_poll"));
        if deposit_amount < self.config.proposal_deposit {
            return Err(ContractError::InsufficientProposalDeposit(self.config.proposal_deposit));
        }
        let poll_id = self.state.poll_count + 1;
        let end_height = block_height + self.config.voting_period;
        let creator = proposer.clone();
        let new_poll = Poll {
            id: poll_id,
            creator,
            status: PollStatus::InProgress,
            yes_votes: 0,
            no_votes: 0,
            end_height,
            title,
            category,
            description,
            link,
            execute_data: execute_msgs,
            deposit_amount,
            total_balance_at_end_poll: None,
            staked_amount: None,
        };
        match new_poll.validate() {
            Err(e) => return Err(ContractError::Std(e)),
            Ok(()) => {},
        }
        let ghost np = new_poll;
        self.state.poll_count = poll_id;
        self.state.total_deposit = self.state.total_deposit + deposit_amount;
        self.polls.insert(poll_id, new_poll);
        self.status_index.index(poll_id, PollStatus::InProgress);
        self.category_index.index(poll_id, category);
        response.add_attribute("creator", AttrValue::Text(proposer));
        response.add_attribute("poll_id", AttrValue::Number(poll_id as u128));
        response.add_attribute("end_height", AttrValue::Number(end_height as u128));
        assert(response.attributes@ =~= seq![
            word("action", "create_poll"),
            text("creator", proposer),
            number("poll_id", poll_id as u128),
            number("end_height", end_height as u128),
        ]);
        proof {
            if old(self).polls_indexed() {
                lemma_indexed_after_insert(old(self), self, np);
            }
        }
        Ok(response)
    }
    /// Casts `sender`'s vote of `amount` tokens on a poll in progress, at
    /// `block_height`, with the contract holding `balance` voting tokens.
    /// The vote is recorded for the poll and locked in the staker's record;
    /// within the snapshot period before the end, the first vote fixes the
    /// poll's staked amount.
    pub fn cast_vote(
        &mut self,
        sender: Address,
        poll_id: u64,
        vote: VoteOption,
        amount: u128,
        block_height: u64,
        balance: u128,
    ) -> (r: Result<Response, ContractError>)
        requires
            old(self).wf(),
            // left out: votes that pass the checks while nothing is staked, or whose share value or
            // tally would overflow
            old(self).vote_precheck(sender@, poll_id, block_height, balance) is None ==> {
                &&& old(self).state.total_share > 0
                &&& share_value(
                    old(self).manager(sender@).share,
                    (balance - old(self).state.total_deposit) as u128,
                    old(self).state.total_share,
                ) <= u128::MAX
            },
            old(self).vote_error(sender@, poll_id, block_height, balance, amount) is None ==> {
                let p = old(self).polls@[poll_id];
                if vote == VoteOption::Yes {
                    p.yes_votes + amount <= u128::MAX
                } else {
                    p.no_votes + amount <= u128::MAX
                }
            },
        ensures
            final(self).wf(),
            old(self).polls_indexed() ==> final(self).polls_indexed(),
            r is Err <==> old(self).vote_error(sender@, poll_id, block_height, balance, amount) is Some,
            r matches Err(e) ==> old(self).vote_error(sender@, poll_id, block_height, balance, amount) == Some(e)
                && *final(self) == *old(self),
            r matches Ok(resp) ==> {
                let info = VoterInfo { vote, balance: amount };
                let m = old(self).manager(sender@);
                &&& final(self).polls@ == old(self).polls@.insert(
                    poll_id,
                    voted_poll(
                        old(self).polls@[poll_id],
                        vote,
                        amount,
                        block_height,
                        old(self).config.snapshot_period,
                        (balance - old(self).state.total_deposit) as u128,
                    ),
                )
                &&& forall|p: u64| #[trigger] inner(&final(self).voters, p) == if p == poll_id {
                    inner(&old(self).voters, p).insert(sender@, info)
                } else {
                    inner(&old(self).voters, p)
                }
                &&& final(self).voter(poll_id, sender@) == Some(info)
                &&& final(self).manager(sender@) == TokenManagerView {
                    share: m.share,
                    locked_balance: m.locked_balance.push((poll_id, info)),
                }
                &&& final(self).bank@.dom() == old(self).bank@.dom().insert(sender@)
                &&& forall|a: (Seq<u8>, Seq<char>)| a != sender@ ==> #[trigger] final(self).bank@[a] == old(self).bank@[a]
                &&& final(self).config == old(self).config
                &&& final(self).state == old(self).state
                &&& final(self).status_index == old(self).status_index
                &&& final(self).category_index == old(self).category_index
                &&& final(self).airdrops == old(self).airdrops
                &&& final(self).rewards == old(self).rewards
                &&& final(self).tmp_poll_id == old(self).tmp_poll_id
                &&& resp.messages@.len() == 0
                &&& resp.attributes@.len() == 5
                &&& resp.attributes@[0] == word("action", "cast_vote")
                &&& resp.attributes@[1] == number("poll_id", poll_id as u128)
                &&& resp.attributes@[2] == number("amount", amount)
                &&& resp.attributes@[3] == text("voter", sender.human)
                &&& resp.attributes@[4].key == "vote_option"
                &&& resp.attributes@[4].value matches AttrValue::Text(v) && v@ == vote_name(vote)
            },
    {
        let mut response = Response::new();
        response.add_attribute("action", AttrValue::Word("cast_vote"));
        if poll_id == 0 || self.state.poll_count < poll_id {
            return Err(ContractError::PollNotFound);
        }
        let (status, end_height) = match self.polls.get(&poll_id) {
            Some(p) => (p.status, p.end_height),
            None => return Err(ContractError::Std(StdError::NotFound { kind: Record::Poll })),
        };
        if status != PollStatus::InProgress || block_height > end_height {
            return Err(ContractError::PollNotInProgress);
        }
        if nested_get(&self.voters, &poll_id, &sender).is_some() {
            return Err(ContractError::AlreadyVoted);
        }
        if balance < self.state.total_deposit {
            return Err(ContractError::Std(StdError::SubOverflow {
                minuend: balance,
                subtrahend: self.state.total_deposit,
            }));
        }
        let total_balance = balance - self.state.total_deposit;
        let share = match self.bank.get(&sender) {
            Some(t) => t.share,
            None => 0,
        };
        if multiply_ratio(share, total_balance, self.state.total_share) < amount {
            return Err(ContractError::InsufficientStaked);
        }
        let ghost old_poll = self.polls@[poll_id];
        let mut poll = match self.polls.take(&poll_id) {
            Some(p) => p,
            None => return Err(ContractError::Std(StdError::NotFound { kind: Record::Poll })),
        };
        if vote == VoteOption::Yes {
            poll.yes_votes = poll.yes_votes + amount;
        } else {
            poll.no_votes = poll.no_votes + amount;
        }
        let info = VoterInfo { vote, balance: amount };
        let mut manager = match self.bank.take(&sender) {
            Some(t) => t,
            None => TokenManager::default(),
        };
        manager.locked_balance.push((poll_id, info));
        self.bank.insert(sender.copy(), manager);
        nested_insert(&mut self.voters, poll_id, sender.copy(), info);
        let time_to_end = poll.end_height - block_height;
        if time_to_end < self.config.snapshot_period && poll.staked_amount.is_none() {
            poll.staked_amount = Some(total_balance);
        }
        self.polls.insert(poll_id, poll);
        proof {
            assert(self.polls@ =~= old(self).polls@.insert(
                poll_id,
                voted_poll(old_poll, vote, amount, block_height, old(self).config.snapshot_period, total_balance),
            ));
            assert(self.bank@.dom() =~= old(self).bank@.dom().insert(sender@));
        }
        response.add_attribute("poll_id", AttrValue::Number(poll_id as u128));
        response.add_attribute("amount", AttrValue::Number(amount));
        response.add_attribute("voter", AttrValue::Text(sender.human));
        response.add_attribute("vote_option", AttrValue::Text(vote.to_string()));
        proof {
            if old(self).polls_indexed() {
                let np = voted_poll(old_poll, vote, amount, block_height, old(self).config.snapshot_period, total_balance);
                assert forall|st: PollStatus, x: u64| #[trigger] self.status_index.ids(st).contains_key(x)
                    <==> if x == poll_id { st == np.status } else { old(self).status_index.ids(st).contains_key(x) } by {
                    assert(old(self).status_index.ids(st).contains_key(x) <==> old(self).polls@.contains_key(x) && old(self).polls@[x].status == st);
                }
                lemma_indexed_after_update(old(self), self, poll_id, np);
            }
        }
        Ok(response)
    }
}

/// The stored messages of a poll, in the order a poll's execution sends them.
pub open spec fn execution_order(p: Poll) -> Seq<ExecuteDataView> {
    match p.execute_data {
        Some(v) => sort_by_order(data_views(v@)),
        None => Seq::empty(),
    }
}

/// The poll with a new status.
pub open spec fn with_status(p: Poll, status: PollStatus) -> Poll {
    Poll { status, ..p }
}

impl Gov {
    /// Starts the execution of a passed poll once its timelock is over: the
    /// poll's messages go out in one call of this contract, whose failure
    /// comes back as a reply.
    pub fn execute(&mut self, poll_id: u64, block_height: u64) -> (r: Result<Response, ContractError>)
        requires
            old(self).wf(),
            // left out: passed polls whose timelock would end past the last height
            old(self).polls@.contains_key(poll_id) && old(self).polls@[poll_id].status == PollStatus::Passed
                ==> old(self).polls@[poll_id].end_height + old(self).config.timelock_period <= u64::MAX,
        ensures
            final(self).wf(),
            old(self).polls_indexed() ==> final(self).polls_indexed(),
            !old(self).polls@.contains_key(poll_id) ==> r == Err::<Response, ContractError>(
                ContractError::Std(StdError::NotFound { kind: Record::Poll }),
            ),
            old(self).polls@.contains_key(poll_id) ==> {
                let p = old(self).polls@[poll_id];
                if p.status != PollStatus::Passed {
                    r == Err::<Response, ContractError>(ContractError::PollNotPassed)
                } else if p.end_height + old(self).config.timelock_period > block_height {
                    r == Err::<Response, ContractError>(ContractError::TimelockNotExpired)
                } else {
                    r is Ok
                }
            },
            r is Err ==> *final(self) == *old(self),
            r matches Ok(resp) ==> {
                &&& final(self).tmp_poll_id == Some(old(self).polls@[poll_id].id)
                &&& final(self).config == old(self).config
                &&& final(self).state == old(self).state
                &&& final(self).polls == old(self).polls
                &&& final(self).status_index == old(self).status_index
                &&& final(self).category_index == old(self).category_index
                &&& final(self).voters == old(self).voters
                &&& final(self).bank == old(self).bank
                &&& final(self).airdrops == old(self).airdrops
                &&& final(self).rewards == old(self).rewards
                &&& resp.attributes@.len() == 0
                &&& resp.messages@.len() == 1
                &&& resp.messages@[0] == SubMsg {
                    msg: Msg::ToSelf(SelfMsg::ExecuteMsgs { poll_id }),
                    reply_on_error: Some(POLL_EXECUTE_REPLY_ID),
                }
            },
    {
        let (status, end_height, id) = match self.polls.get(&poll_id) {
            Some(p) => (p.status, p.end_height, p.id),
            None => return Err(ContractError::Std(StdError::NotFound { kind: Record::Poll })),
        };
        if status != PollStatus::Passed {
            return Err(ContractError::PollNotPassed);
        }
        if end_height + self.config.timelock_period > block_height {
            return Err(ContractError::TimelockNotExpired);
        }
        self.tmp_poll_id = Some(id);
        let mut response = Response::new();
        response.messages.push(SubMsg {
            msg: Msg::ToSelf(SelfMsg::ExecuteMsgs { poll_id }),
            reply_on_error: Some(POLL_EXECUTE_REPLY_ID),
        });
        proof {
            if old(self).polls_indexed() {
                lemma_indexed_frame(old(self), self);
            }
        }
        Ok(response)
    }

    /// Marks a poll executed and sends its stored messages, sorted by their
    /// order; only the contract itself may call this.
    pub fn execute_messages(&mut self, contract_addr: &String, sender: &String, poll_id: u64) -> (r: Result<Response, ContractError>)
        requires
            old(self).wf(),
        ensures
            final(self).wf(),
            old(self).polls_indexed() && (old(self).polls@.contains_key(poll_id) ==> old(self).polls@[poll_id].status == PollStatus::Passed)
                ==> final(self).polls_indexed(),
            sender@ != contract_addr@ ==> r == Err::<Response, ContractError>(ContractError::Unauthorized),
            sender@ == contract_addr@ && !old(self).polls@.contains_key(poll_id) ==> r == Err::<Response, ContractError>(
                ContractError::Std(StdError::NotFound { kind: Record::Poll }),
            ),
            sender@ == contract_addr@ && old(self).polls@.contains_key(poll_id) ==> r is Ok,
            r is Err ==> *final(self) == *old(self),
            r matches Ok(resp) ==> {
                let p = old(self).polls@[poll_id];
                let sorted = execution_order(p);
                &&& final(self).polls@ == old(self).polls@.insert(poll_id, with_status(p, PollStatus::Executed))
                &&& forall|s: PollStatus| #[trigger] final(self).status_index.ids(s) == if s == PollStatus::Executed {
                    old(self).status_index.ids(s).insert(poll_id, true)
                } else if s == PollStatus::Passed {
                    old(self).status_index.ids(s).remove(poll_id)
                } else {
                    old(self).status_index.ids(s)
                }
                &&& final(self).config == old(self).config
                &&& final(self).state == old(self).state
                &&& final(self).category_index == old(self).category_index
                &&& final(self).voters == old(self).voters
                &&& final(self).bank == old(self).bank
                &&& final(self).airdrops == old(self).airdrops
                &&& final(self).rewards == old(self).rewards
                &&& final(self).tmp_poll_id == old(self).tmp_poll_id
                &&& resp.messages@.len() == sorted.len()
                &&& forall|i: int| 0 <= i < sorted.len() ==> {
                    &&& (#[trigger] resp.messages@[i]).reply_on_error is None
                    &&& resp.messages@[i].msg matches Msg::Wasm { contract, msg }
                    &&& contract@ == sorted[i].contract
                    &&& msg@ == sorted[i].msg
                }
                &&& resp.attributes@ == seq![word("action", "execute_poll"), number("poll_id", poll_id as u128)]
            },
    {
        let mut response = Response::new();
        response.add_attribute("action", AttrValue::Word("execute_poll"));
        if *contract_addr != *sender {
            return Err(ContractError::Unauthorized);
        }
        let mut poll = match self.polls.take(&poll_id) {
            Some(p) => p,
            None => return Err(ContractError::Std(StdError::NotFound { kind: Record::Poll })),
        };
        let ghost old_poll = poll;
        poll.status = PollStatus::Executed;
        self.status_index.deindex(poll_id, PollStatus::Passed);
        self.status_index.index(poll_id, PollStatus::Executed);
        let sorted = match &poll.execute_data {
            Some(v) => sort_execute_data(v),
            None => Vec::new(),
        };
        self.polls.insert(poll_id, poll);
        proof {
            assert(self.polls@ =~= old(self).polls@.insert(poll_id, with_status(old_poll, PollStatus::Executed)));
            if old_poll.execute_data is None {
                assert(data_views(sorted@) =~= execution_order(old_poll));
            }
            assert forall|s: PollStatus| #[trigger] self.status_index.ids(s) == if s == PollStatus::Executed {
                old(self).status_index.ids(s).insert(poll_id, true)
            } else if s == PollStatus::Passed {
                old(self).status_index.ids(s).remove(poll_id)
            } else {
                old(self).status_index.ids(s)
            } by {}
        }
        let ghost order = data_views(sorted@);
        let mut i: usize = 0;
        let n = sorted.len();
        let mut sorted = sorted;
        let mut msgs: Vec<ExecuteData> = Vec::new();
        // send in ascending order: take from the back, then reverse
        while sorted.len() > 0
            invariant
                sorted@.len() + msgs@.len() == n,
                n == order.len(),
                data_views(sorted@) == order.subrange(0, sorted@.len() as int),
                forall|k: int| 0 <= k < msgs@.len() ==> (#[trigger] msgs@[k])@ == order[n - 1 - k],
            decreases sorted@.len(),
        {
            let ghost before = sorted@;
            proof {
                assert(data_views(before)[before.len() - 1] == before[before.len() - 1]@);
                assert(order[before.len() - 1] == data_views(before)[before.len() - 1]);
            }
            let d = sorted.pop().unwrap();
            proof {
                assert(data_views(sorted@) =~= order.subrange(0, sorted@.len() as int));
            }
            msgs.push(d);
        }
        while msgs.len() > 0
            invariant
                response.messages@.len() + msgs@.len() == n,
                n == order.len(),
                forall|k: int| 0 <= k < msgs@.len() ==> (#[trigger] msgs@[k])@ == order[n - 1 - k],
                forall|k: int| 0 <= k < response.messages@.len() ==> {
                    &&& (#[trigger] response.messages@[k]).reply_on_error is None
                    &&& response.messages@[k].msg matches Msg::Wasm { contract, msg }
                    &&& contract@ == order[k].contract
                    &&& msg@ == order[k].msg
                },
                response.attributes@ == seq![word("action", "execute_poll")],
            decreases msgs@.len(),
        {
            let d = msgs.pop().unwrap();
            response.add_message(Msg::Wasm { contract: d.contract, msg: d.msg });
        }
        response.add_attribute("poll_id", AttrValue::Number(poll_id as u128));
        proof {
            if old(self).polls_indexed() && old(self).polls@[poll_id].status == PollStatus::Passed {
                let np = with_status(old(self).polls@[poll_id], PollStatus::Executed);
                assert forall|st: PollStatus, x: u64| #[trigger] self.status_index.ids(st).contains_key(x)
                    <==> if x == poll_id { st == np.status } else { old(self).status_index.ids(st).contains_key(x) } by {
                    assert(old(self).status_index.ids(st).contains_key(x) <==> old(self).polls@.contains_key(x) && old(self).polls@[x].status == st);
                }
                lemma_indexed_after_update(old(self), self, poll_id, np);
            }
        }
        Ok(response)
    }
}

/// The staked weight against which a poll's quorum is measured: none when
/// nothing is staked, else the snapshot where one was taken, else the
/// current staked balance.
pub open spec fn end_weight(total_share: u128, snapshot: Option<u128>, balance: u128, total_deposit: u128) -> Result<u128, ContractError> {
    if total_share == 0 {
        Ok(0)
    } else {
        match snapshot {
            Some(s) => Ok(s),
            None => staked_balance(balance, total_deposit),
        }
    }
}

/// The participation of a poll, `(yes + no) / weight`, as a decimal; zero when
/// nothing is staked.
pub open spec fn participation(total_share: u128, tallied: int, weight: u128) -> int {
    if total_share == 0 {
        0
    } else {
        spec_from_ratio(tallied, weight as int)
    }
}

/// Whether a poll reaches its quorum: some votes, and a participation not
/// below the quorum.
pub open spec fn quorum_reached(quorum: Decimal, total_share: u128, yes: u128, no: u128, weight: u128) -> bool {
    yes + no != 0 && participation(total_share, yes + no, weight) >= quorum.atomics
}

/// Whether a poll passes: quorum reached, and the yes share of the votes
/// above the threshold.
pub open spec fn poll_passes(quorum: Decimal, threshold: Decimal, total_share: u128, yes: u128, no: u128, weight: u128) -> bool {
    quorum_reached(quorum, total_share, yes, no, weight) && spec_from_ratio(yes as int, yes + no) > threshold.atomics
}

impl Gov {
    /// Takes a snapshot of the staked balance for a poll in progress, within
    /// the snapshot period before its end; the contract holds `balance`
    /// voting tokens.
    pub fn snapshot(&mut self, poll_id: u64, block_height: u64, balance: u128) -> (r: Result<Response, ContractError>)
        requires
            old(self).wf(),
            // left out: snapshots of a poll in progress after its end height, which would underflow
            balance >= old(self).state.total_deposit && old(self).polls@.contains_key(poll_id)
                && old(self).polls@[poll_id].status == PollStatus::InProgress
                && old(self).polls@[poll_id].staked_amount is None
                ==> block_height <= old(self).polls@[poll_id].end_height,
        ensures
            final(self).wf(),
            old(self).polls_indexed() ==> final(self).polls_indexed(),
            balance < old(self).state.total_deposit ==> r == Err::<Response, ContractError>(ContractError::Std(
                StdError::SubOverflow { minuend: balance, subtrahend: old(self).state.total_deposit },
            )),
            balance >= old(self).state.total_deposit ==> if !old(self).polls@.contains_key(poll_id) {
                r == Err::<Response, ContractError>(ContractError::Std(StdError::NotFound { kind: Record::Poll }))
            } else {
                let p = old(self).polls@[poll_id];
                if p.status != PollStatus::InProgress {
                    r == Err::<Response, ContractError>(ContractError::PollNotInProgress)
                } else if p.staked_amount is Some {
                    r == Err::<Response, ContractError>(ContractError::SnapshotAlreadyOccurred)
                } else if p.end_height - block_height > old(self).config.snapshot_period {
                    r == Err::<Response, ContractError>(ContractError::SnapshotHeight)
                } else {
                    r is Ok
                }
            },
            r is Err ==> *final(self) == *old(self),
            r matches Ok(resp) ==> {
                let staked = (balance - old(self).state.total_deposit) as u128;
                &&& final(self).polls@ == old(self).polls@.insert(
                    poll_id,
                    Poll { staked_amount: Some(staked), ..old(self).polls@[poll_id] },
                )
                &&& final(self).config == old(self).config
                &&& final(self).state == old(self).state
                &&& final(self).status_index == old(self).status_index
                &&& final(self).category_index == old(self).category_index
                &&& final(self).voters == old(self).voters
                &&& final(self).bank == old(self).bank
                &&& final(self).airdrops == old(self).airdrops
                &&& final(self).rewards == old(self).rewards
                &&& final(self).tmp_poll_id == old(self).tmp_poll_id
                &&& resp.messages@.len() == 0
                &&& resp.attributes@ == seq![
                    word("action", "snapshot_poll"),
                    number("poll_id", poll_id as u128),
                    number("staked_amount", staked),
                ]
            },
    {
        let mut response = Response::new();
        response.add_attribute("action", AttrValue::Word("snapshot_poll"));
        if balance < self.state.total_deposit {
            return Err(ContractError::Std(StdError::SubOverflow {
                minuend: balance,
                subtrahend: self.state.total_deposit,
            }));
        }
        let staked_amount = balance - self.state.total_deposit;
        let (status, snapshot, end_height) = match self.polls.get(&poll_id) {
            Some(p) => (p.status, p.staked_amount, p.end_height),
            None => return Err(ContractError::Std(StdError::NotFound { kind: Record::Poll })),
        };
        if status != PollStatus::InProgress {
            return Err(ContractError::PollNotInProgress);
        }
        if snapshot.is_some() {
            return Err(ContractError::SnapshotAlreadyOccurred);
        }
        let time_to_end = end_height - block_height;
        if time_to_end > self.config.snapshot_period {
            return Err(ContractError::SnapshotHeight);
        }
        let ghost old_poll = self.polls@[poll_id];
        let mut poll = match self.polls.take(&poll_id) {
            Some(p) => p,
            None => return Err(ContractError::Std(StdError::NotFound { kind: Record::Poll })),
        };
        poll.staked_amount = Some(staked_amount);
        self.polls.insert(poll_id, poll);
        proof {
            assert(self.polls@ =~= old(self).polls@.insert(poll_id, Poll { staked_amount: Some(staked_amount), ..old_poll }));
        }
        response.add_attribute("poll_id", AttrValue::Number(poll_id as u128));
        response.add_attribute("staked_amount", AttrValue::Number(staked_amount));
        proof {
            if old(self).polls_indexed() {
                let np = Poll { staked_amount: Some(staked_amount), ..old_poll };
                assert forall|st: PollStatus, x: u64| #[trigger] self.status_index.ids(st).contains_key(x)
                    <==> if x == poll_id { st == np.status } else { old(self).status_index.ids(st).contains_key(x) } by {
                    assert(old(self).status_index.ids(st).contains_key(x) <==> old(self).polls@.contains_key(x) && old(self).polls@[x].status == st);
                }
                lemma_indexed_after_update(old(self), self, poll_id, np);
            }
        }
        Ok(response)
    }

    /// What failing a poll leaves behind: an error and an untouched store where
    /// the poll is missing, else the poll marked failed and moved from the
    /// passed to the failed index.
    pub open spec fn fail_outcome(g0: &Gov, g1: &Gov, r: Result<Response, ContractError>, poll_id: u64) -> bool {
        &&& (r is Err <==> !g0.polls@.contains_key(poll_id))
        &&& (r matches Err(e) ==> e == ContractError::Std(StdError::NotFound { kind: Record::Poll })
            && *g1 == *g0)
        &&& (r matches Ok(resp) ==> {
            &&& g1.polls@ == g0.polls@.insert(
                poll_id,
                with_status(g0.polls@[poll_id], PollStatus::Failed),
            )
            &&& forall|s: PollStatus| #[trigger] g1.status_index.ids(s) == if s == PollStatus::Failed {
                g0.status_index.ids(s).insert(poll_id, true)
            } else if s == PollStatus::Passed {
                g0.status_index.ids(s).remove(poll_id)
            } else {
                g0.status_index.ids(s)
            }
            &&& g1.config == g0.config
            &&& g1.state == g0.state
            &&& g1.category_index == g0.category_index
            &&& g1.voters == g0.voters
            &&& g1.bank == g0.bank
            &&& g1.airdrops == g0.airdrops
            &&& g1.rewards == g0.rewards
            &&& g1.tmp_poll_id == g0.tmp_poll_id
            &&& resp.messages@.len() == 0
            &&& resp.attributes@ == seq![word("action", "fail_poll"), number("poll_id", poll_id as u128)]
        })
    }

    /// Marks a poll failed after its execution failed.
    pub fn fail(&mut self, poll_id: u64) -> (r: Result<Response, ContractError>)
        requires
            old(self).wf(),
        ensures
            final(self).wf(),
            old(self).polls_indexed() && (old(self).polls@.contains_key(poll_id) ==> old(self).polls@[poll_id].status == PollStatus::Passed)
                ==> final(self).polls_indexed(),
            Gov::fail_outcome(old(self), final(self), r, poll_id),
    {
        let mut response = Response::new();
        response.add_attribute("action", AttrValue::Word("fail_poll"));
        let mut poll = match self.polls.take(&poll_id) {
            Some(p) => p,
            None => return Err(ContractError::Std(StdError::NotFound { kind: Record::Poll })),
        };
        let ghost old_poll = poll;
        poll.status = PollStatus::Failed;
        self.status_index.deindex(poll_id, PollStatus::Passed);
        self.status_index.index(poll_id, PollStatus::Failed);
        self.polls.insert(poll_id, poll);
        proof {
            assert(self.polls@ =~= old(self).polls@.insert(poll_id, with_status(old_poll, PollStatus::Failed)));
            assert forall|s: PollStatus| #[trigger] self.status_index.ids(s) == if s == PollStatus::Failed {
                old(self).status_index.ids(s).insert(poll_id, true)
            } else if s == PollStatus::Passed {
                old(self).status_index.ids(s).remove(poll_id)
            } else {
                old(self).status_index.ids(s)
            } by {}
        }
        response.add_attribute("poll_id", AttrValue::Number(poll_id as u128));
        assert(response.attributes@ =~= seq![word("action", "fail_poll"), number("poll_id", poll_id as u128)]);
        proof {
            if old(self).polls_indexed() && old_poll.status == PollStatus::Passed {
                let np = with_status(old_poll, PollStatus::Failed);
                assert forall|st: PollStatus, x: u64| #[trigger] self.status_index.ids(st).contains_key(x)
                    <==> if x == poll_id { st == np.status } else { old(self).status_index.ids(st).contains_key(x) } by {
                    assert(old(self).status_index.ids(st).contains_key(x) <==> old(self).polls@.contains_key(x) && old(self).polls@[x].status == st);
                }
                lemma_indexed_after_update(old(self), self, poll_id, np);
            }
        }
        Ok(response)
    }

    /// The first check that ending a poll fails before its votes are weighed.
    pub open spec fn end_precheck(&self, poll_id: u64, block_height: u64) -> Option<ContractError> {
        if !self.polls@.contains_key(poll_id) {
            Some(ContractError::Std(StdError::NotFound { kind: Record::Poll }))
        } else if self.polls@[poll_id].status != PollStatus::InProgress {
            Some(ContractError::PollNotInProgress)
        } else if self.polls@[poll_id].end_height > block_height {
            Some(ContractError::PollVotingPeriod)
        } else {
            None
        }
    }

    /// What ending poll `poll_id` at `block_height`, with the contract holding
    /// `balance` voting tokens, does: the error of the first failing check, or
    /// the poll's new status and balance, the deposit leaving the total, the
    /// refund when the quorum was reached, and the attributes.
    pub open spec fn end_outcome(
        g0: &Gov,
        g1: &Gov,
        r: Result<Response, ContractError>,
        poll_id: u64,
        block_height: u64,
        balance: u128,
    ) -> bool {
        &&& (g0.end_precheck(poll_id, block_height) matches Some(e) ==> r == Err::<Response, ContractError>(e))
        &&& (g0.end_precheck(poll_id, block_height) is None ==> {
            let p = g0.polls@[poll_id];
            match end_weight(g0.state.total_share, p.staked_amount, balance, g0.state.total_deposit) {
                Err(e) => r == Err::<Response, ContractError>(e),
                Ok(w) => if g0.state.total_deposit < p.deposit_amount {
                    r == Err::<Response, ContractError>(ContractError::Std(StdError::SubOverflow {
                        minuend: g0.state.total_deposit,
                        subtrahend: p.deposit_amount,
                    }))
                } else {
                    r is Ok
                },
            }
        })
        &&& (r is Err ==> *g1 == *g0)
        &&& (r matches Ok(resp) ==> {
            let p = g0.polls@[poll_id];
            let c = g0.config;
            let ts = g0.state.total_share;
            let w = end_weight(ts, p.staked_amount, balance, g0.state.total_deposit)->Ok_0;
            let reached = quorum_reached(c.quorum, ts, p.yes_votes, p.no_votes, w);
            let passed = poll_passes(c.quorum, c.threshold, ts, p.yes_votes, p.no_votes, w);
            let status = if passed { PollStatus::Passed } else { PollStatus::Rejected };
            &&& g1.polls@ == g0.polls@.insert(
                poll_id,
                Poll { status, total_balance_at_end_poll: Some(w), ..p },
            )
            &&& forall|s: PollStatus| #[trigger] g1.status_index.ids(s) == if s == status {
                g0.status_index.ids(s).insert(p.id, true)
            } else if s == PollStatus::InProgress {
                g0.status_index.ids(s).remove(p.id)
            } else {
                g0.status_index.ids(s)
            }
            &&& g1.state.total_deposit == g0.state.total_deposit - p.deposit_amount
            &&& g1.state.poll_count == g0.state.poll_count
            &&& g1.state.total_share == g0.state.total_share
            &&& g1.state.total_airdrop_count == g0.state.total_airdrop_count
            &&& g1.state.airdrop_update_candidates == g0.state.airdrop_update_candidates
            &&& g1.config == g0.config
            &&& g1.category_index == g0.category_index
            &&& g1.voters == g0.voters
            &&& g1.bank == g0.bank
            &&& g1.airdrops == g0.airdrops
            &&& g1.rewards == g0.rewards
            &&& g1.tmp_poll_id == g0.tmp_poll_id
            &&& resp.messages@.len() == (if reached && p.deposit_amount != 0 { 1int } else { 0int })
            &&& resp.messages@.len() == 1 ==> resp.messages@[0] == SubMsg {
                msg: Msg::Transfer { token: c.pylon_token, recipient: p.creator, amount: p.deposit_amount },
                reply_on_error: None,
            }
            &&& resp.attributes@ == seq![
                word("action", "end_poll"),
                number("poll_id", poll_id as u128),
                word("rejected_reason", if !reached {
                    "Quorum not reached"
                } else if !passed {
                    "Threshold not reached"
                } else {
                    ""
                }),
                Attribute { key: "passed", value: AttrValue::Flag(passed) },
            ]
        })
    }

    /// Ends a poll once its voting period is over, with the contract holding
    /// `balance` voting tokens. It passes when the votes reach the quorum of
    /// the staked weight and the yes votes exceed the threshold of them, and is
    /// rejected otherwise; the proposal deposit goes back to the creator when
    /// the quorum was reached, and leaves the deposit total either way.
    pub fn end(&mut self, poll_id: u64, block_height: u64, balance: u128) -> (r: Result<Response, ContractError>)
        requires
            old(self).wf(),
            // left out: ends whose tally would overflow, or whose participation would be measured
            // against a zero weight or beyond `Decimal::MAX`
            old(self).end_precheck(poll_id, block_height) is None ==> {
                let p = old(self).polls@[poll_id];
                &&& p.yes_votes + p.no_votes <= u128::MAX
                &&& old(self).state.total_share != 0 ==> match end_weight(
                    old(self).state.total_share,
                    p.staked_amount,
                    balance,
                    old(self).state.total_deposit,
                ) {
                    Ok(w) => w > 0 && spec_from_ratio(p.yes_votes + p.no_votes, w as int) <= u128::MAX,
                    Err(_) => true,
                }
            },
        ensures
            final(self).wf(),
            old(self).polls_indexed() ==> final(self).polls_indexed(),
            Gov::end_outcome(old(self), final(self), r, poll_id, block_height, balance),
    {
        let mut response = Response::new();
        response.add_attribute("action", AttrValue::Word("end_poll"));
        let (status, end_height, yes, no, snapshot, deposit, id) = match self.polls.get(&poll_id) {
            Some(p) => (p.status, p.end_height, p.yes_votes, p.no_votes, p.staked_amount, p.deposit_amount, p.id),
            None => return Err(ContractError::Std(StdError::NotFound { kind: Record::Poll })),
        };
        if status != PollStatus::InProgress {
            return Err(ContractError::PollNotInProgress);
        }
        if end_height > block_height {
            return Err(ContractError::PollVotingPeriod);
        }
        let tallied_weight = yes + no;
        let (quorum, staked_weight) = if self.state.total_share == 0 {
            (Decimal::zero(), 0u128)
        } else if let Some(staked_amount) = snapshot {
            (Decimal::from_ratio(tallied_weight, staked_amount), staked_amount)
        } else {
            if balance < self.state.total_deposit {
                return Err(ContractError::Std(StdError::SubOverflow {
                    minuend: balance,
                    subtrahend: self.state.total_deposit,
                }));
            }
            let staked_weight = balance - self.state.total_deposit;
            (Decimal::from_ratio(tallied_weight, staked_weight), staked_weight)
        };
        let mut poll_status = PollStatus::Rejected;
        let mut rejected_reason: &'static str = "";
        let mut passed = false;
        let mut refund = false;
        if tallied_weight == 0 || quorum.lt(&self.config.quorum) {
            rejected_reason = "Quorum not reached";
        } else {
            assert(spec_from_ratio(yes as int, tallied_weight as int) <= 1_000_000_000_000_000_000) by (nonlinear_arith)
                requires
                    yes <= tallied_weight,
                    tallied_weight > 0,
            {
                assert(yes * 1_000_000_000_000_000_000 <= tallied_weight * 1_000_000_000_000_000_000);
            }
            if Decimal::from_ratio(yes, tallied_weight).gt(&self.config.threshold) {
                poll_status = PollStatus::Passed;
                passed = true;
            } else {
                rejected_reason = "Threshold not reached";
            }
            refund = deposit != 0;
        }
        if self.state.total_deposit < deposit {
            return Err(ContractError::Std(StdError::SubOverflow {
                minuend: self.state.total_deposit,
                subtrahend: deposit,
            }));
        }
        self.state.total_deposit = self.state.total_deposit - deposit;
        let ghost old_poll = self.polls@[poll_id];
        let mut poll = match self.polls.take(&poll_id) {
            Some(p) => p,
            None => return Err(ContractError::Std(StdError::NotFound { kind: Record::Poll })),
        };
        if refund {
            response.add_message(Msg::Transfer {
                token: self.config.pylon_token.clone(),
                recipient: poll.creator.clone(),
                amount: deposit,
            });
        }
        self.status_index.deindex(id, PollStatus::InProgress);
        self.status_index.index(id, poll_status);
        poll.status = poll_status;
        poll.total_balance_at_end_poll = Some(staked_weight);
        self.polls.insert(poll_id, poll);
        proof {
            assert(self.polls@ =~= old(self).polls@.insert(
                poll_id,
                Poll { status: poll_status, total_balance_at_end_poll: Some(staked_weight), ..old_poll },
            ));
            assert forall|s: PollStatus| #[trigger] self.status_index.ids(s) == if s == poll_status {
                old(self).status_index.ids(s).insert(id, true)
            } else if s == PollStatus::InProgress {
                old(self).status_index.ids(s).remove(id)
            } else {
                old(self).status_index.ids(s)
            } by {}
        }
        response.add_attribute("poll_id", AttrValue::Number(poll_id as u128));
        response.add_attribute("rejected_reason", AttrValue::Word(rejected_reason));
        response.add_attribute("passed", AttrValue::Flag(passed));
        assert(response.attributes@ =~= seq![
            word("action", "end_poll"),
            number("poll_id", poll_id as u128),
            word("rejected_reason", rejected_reason),
            Attribute { key: "passed", value: AttrValue::Flag(passed) },
        ]);
        proof {
            if old(self).polls_indexed() {
                let np = Poll { status: poll_status, total_balance_at_end_poll: Some(staked_weight), ..old_poll };
                assert forall|st: PollStatus, x: u64| #[trigger] self.status_index.ids(st).contains_key(x)
                    <==> if x == poll_id { st == np.status } else { old(self).status_index.ids(st).contains_key(x) } by {
                    assert(old(self).status_index.ids(st).contains_key(x) <==> old(self).polls@.contains_key(x) && old(self).polls@[x].status == st);
                }
                lemma_indexed_after_update(old(self), self, poll_id, np);
            }
        }
        Ok(response)
    }
}

} // verus!
