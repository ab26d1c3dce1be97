//! The records that the governance contract stores: its configuration and
//! running totals, polls and votes, stakers' shares, airdrops and rewards.

use vstd::prelude::*;
use vstd::utf8::encode_utf8;
use crate::math::Decimal;

verus! {

pub const MIN_TITLE_LENGTH: usize = 4;
pub const MAX_TITLE_LENGTH: usize = 64;
pub const MIN_CATEGORY_LENGTH: usize = 4;
pub const MAX_CATEGORY_LENGTH: usize = 64;
pub const MIN_DESC_LENGTH: usize = 4;
pub const MAX_DESC_LENGTH: usize = 1024;
pub const MIN_LINK_LENGTH: usize = 12;
pub const MAX_LINK_LENGTH: usize = 128;

/// How many entries a range read returns when no limit is given.
pub const DEFAULT_QUERY_LIMIT: u32 = 10;
/// The most entries a range read returns.
pub const MAX_QUERY_LIMIT: u32 = 30;

/// Length in bytes of the UTF-8 encoding of a string (what `str::len` gives).
pub open spec fn byte_len(s: Seq<char>) -> nat {
    encode_utf8(s).len()
}

/// Errors of the storage and arithmetic layer.
#[derive(Clone, Copy, Debug, PartialEq, Eq)]
pub enum StdError {
    /// A generic error with a message.
    GenericErr { msg: &'static str },
    /// A record that must be in storage is not.
    NotFound { kind: Record },
    /// `minuend - subtrahend` would be negative.
    SubOverflow { minuend: u128, subtrahend: u128 },
}

/// The kinds of stored record.
#[derive(Clone, Copy, Debug, PartialEq, Eq, Structural)]
pub enum Record {
    Config,
    State,
    Poll,
    TempPollId,
}

/// The errors the contract answers with.
#[derive(Clone, Copy, Debug, PartialEq, Eq)]
pub enum ContractError {
    Std(StdError),
    Unauthorized,
    DataShouldBeGiven,
    InsufficientProposalDeposit(u128),
    PollNotFound,
    PollNotInProgress,
    PollNotPassed,
    PollVotingPeriod,
    AlreadyVoted,
    InsufficientStaked,
    TimelockNotExpired,
    SnapshotHeight,
    SnapshotAlreadyOccurred,
    AirdropNotFound,
    InsufficientReward,
    InvalidReplyId,
    /// A stake of nothing.
    InsufficientFunds,
}

#[derive(Clone, Copy, Debug, PartialEq, Eq, Structural)]
pub enum PollStatus {
    InProgress,
    Passed,
    Rejected,
    Executed,
    Failed,
}

/// The display name of a poll status (its variant name).
pub open spec fn status_name(s: PollStatus) -> Seq<char> {
    match s {
        PollStatus::InProgress => "InProgress"@,
        PollStatus::Passed => "Passed"@,
        PollStatus::Rejected => "Rejected"@,
        PollStatus::Executed => "Executed"@,
        PollStatus::Failed => "Failed"@,
    }
}

impl PollStatus {
    /// The display name of the status.
    pub fn to_string(&self) -> (s: String)
        ensures
            s@ == status_name(*self),
    {
        match self {
            PollStatus::InProgress => "InProgress".to_owned(),
            PollStatus::Passed => "Passed".to_owned(),
            PollStatus::Rejected => "Rejected".to_owned(),
            PollStatus::Executed => "Executed".to_owned(),
            PollStatus::Failed => "Failed".to_owned(),
        }
    }
}

#[derive(Clone, Copy, Debug, PartialEq, Eq, Structural)]
pub enum PollCategory {
    Core,
    Gateway,
    /// No category; its display name is `None`.
    Uncategorized,
}

/// The display name of a poll category (its variant name).
pub open spec fn category_name(c: PollCategory) -> Seq<char> {
    match c {
        PollCategory::Core => "Core"@,
        PollCategory::Gateway => "Gateway"@,
        PollCategory::Uncategorized => "None"@,
    }
}

impl PollCategory {
    /// The display name of the category.
    pub fn to_string(&self) -> (s: String)
        ensures
            s@ == category_name(*self),
    {
        match self {
            PollCategory::Core => "Core".to_owned(),
            PollCategory::Gateway => "Gateway".to_owned(),
            PollCategory::Uncategorized => "None".to_owned(),
        }
    }
}

#[derive(Clone, Copy, Debug, PartialEq, Eq, Structural)]
pub enum VoteOption {
    Yes,
    No,
}

/// The display form of a vote: `yes` or `no`.
pub open spec fn vote_name(v: VoteOption) -> Seq<char> {
    match v {
        VoteOption::Yes => "yes"@,
        VoteOption::No => "no"@,
    }
}

impl VoteOption {
    /// The display form of the vote.
    pub fn to_string(&self) -> (s: String)
        ensures
            s@ == vote_name(*self),
    {
        if *self == VoteOption::Yes {
            "yes".to_owned()
        } else {
            "no".to_owned()
        }
    }
}

/// A vote on a poll and the amount it weighs.
#[derive(Clone, Copy, Debug, PartialEq, Eq, Structural)]
pub struct VoterInfo {
    pub vote: VoteOption,
    pub balance: u128,
}

/// A message that a passed poll sends when it is executed, with its place in
/// the sending order.
#[derive(Debug)]
pub struct ExecuteData {
    pub order: u64,
    pub contract: String,
    pub msg: Vec<u8>,
}

/// A governance poll.
#[derive(Debug)]
pub struct Poll {
    pub id: u64,
    pub creator: String,
    pub status: PollStatus,
    pub yes_votes: u128,
    pub no_votes: u128,
    pub end_height: u64,
    pub title: String,
    pub category: PollCategory,
    pub description: String,
    pub link: Option<String>,
    pub execute_data: Option<Vec<ExecuteData>>,
    pub deposit_amount: u128,
    /// Total balance at the end of the poll
    pub total_balance_at_end_poll: Option<u128>,
    pub staked_amount: Option<u128>,
}

/// The error that `validate` gives on a poll with these fields, if any: the
/// title, category, description and link are checked in that order.
pub open spec fn poll_validation_error(
    title: Seq<char>,
    category: PollCategory,
    description: Seq<char>,
    link: Option<Seq<char>>,
) -> Option<&'static str> {
    if byte_len(title) < MIN_TITLE_LENGTH {
        Some("Title too short")
    } else if byte_len(title) > MAX_TITLE_LENGTH {
        Some("Title too long")
    } else if byte_len(category_name(category)) < MIN_CATEGORY_LENGTH {
        Some("Category too short")
    } else if byte_len(category_name(category)) > MAX_CATEGORY_LENGTH {
        Some("Category too long")
    } else if byte_len(description) < MIN_DESC_LENGTH {
        Some("Description too short")
    } else if byte_len(description) > MAX_DESC_LENGTH {
        Some("Description too long")
    } else {
        match link {
            Some(l) => if byte_len(l) < MIN_LINK_LENGTH {
                Some("Link too short")
            } else if byte_len(l) > MAX_LINK_LENGTH {
                Some("Link too long")
            } else {
                None
            },
            None => None,
        }
    }
}

/// The view of an optional string.
pub open spec fn opt_str(o: Option<String>) -> Option<Seq<char>> {
    match o {
        Some(s) => Some(s@),
        None => None,
    }
}

/// Every category's display name is 4 to 7 bytes long.
pub proof fn lemma_category_name_len(c: PollCategory)
    ensures
        4 <= byte_len(category_name(c)) <= 7,
{
    reveal_with_fuel(encode_utf8, 8);
    match c {
        PollCategory::Core => {
            reveal_strlit("Core");
            assert(byte_len("Core"@) == 4);
        },
        PollCategory::Gateway => {
            reveal_strlit("Gateway");
            assert(byte_len("Gateway"@) == 7);
        },
        PollCategory::Uncategorized => {
            reveal_strlit("None");
            assert(byte_len("None"@) == 4);
        },
    }
}

impl Poll {
    /// Checks the lengths of the title, category, description and link.
    pub fn validate(&self) -> (r: Result<(), StdError>)
        ensures
            r == (match poll_validation_error(self.title@, self.category, self.description@, opt_str(self.link)) {
                Some(msg) => Err(StdError::GenericErr { msg }),
                None => Ok(()),
            }),
    {
        let t = self.title.as_str().as_bytes().len();
        if t < MIN_TITLE_LENGTH {
            return Err(StdError::GenericErr { msg: "Title too short" });
        } else if t > MAX_TITLE_LENGTH {
            return Err(StdError::GenericErr { msg: "Title too long" });
        }
        let c = self.category.to_string();
        proof {
            lemma_category_name_len(self.category);
        }
        let cl = c.as_str().as_bytes().len();
        if cl < MIN_CATEGORY_LENGTH {
            return Err(StdError::GenericErr { msg: "Category too short" });
        } else if cl > MAX_CATEGORY_LENGTH {
            return Err(StdError::GenericErr { msg: "Category too long" });
        }
        let d = self.description.as_str().as_bytes().len();
        if d < MIN_DESC_LENGTH {
            return Err(StdError::GenericErr { msg: "Description too short" });
        } else if d > MAX_DESC_LENGTH {
            return Err(StdError::GenericErr { msg: "Description too long" });
        }
        match &self.link {
            Some(link) => {
                let l = link.as_str().as_bytes().len();
                if l < MIN_LINK_LENGTH {
                    Err(StdError::GenericErr { msg: "Link too short" })
                } else if l > MAX_LINK_LENGTH {
                    Err(StdError::GenericErr { msg: "Link too long" })
                } else {
                    Ok(())
                }
            },
            None => Ok(()),
        }
    }
}

/// The contract's configuration.
#[derive(Debug)]
pub struct Config {
    pub owner: String,
    pub pylon_token: String,
    pub quorum: Decimal,
    pub threshold: Decimal,
    pub voting_period: u64,
    pub timelock_period: u64,
    pub expiration_period: u64,
    pub proposal_deposit: u128,
    pub snapshot_period: u64,
}

impl Config {
    /// Accepts a quorum of at most 1.
    pub fn validate_quorum(quorum: Decimal) -> (r: Result<(), StdError>)
        ensures
            r == (if quorum.atomics > Decimal::spec_one().atomics {
                Err(StdError::GenericErr { msg: "quorum must be 0 to 1" })
            } else {
                Ok(())
            }),
    {
        if quorum.gt(&Decimal::one()) {
            Err(StdError::GenericErr { msg: "quorum must be 0 to 1" })
        } else {
            Ok(())
        }
    }

    /// Accepts a threshold of at most 1.
    pub fn validate_threshold(threshold: Decimal) -> (r: Result<(), StdError>)
        ensures
            r == (if threshold.atomics > Decimal::spec_one().atomics {
                Err(StdError::GenericErr { msg: "threshold must be 0 to 1" })
            } else {
                Ok(())
            }),
    {
        if threshold.gt(&Decimal::one()) {
            Err(StdError::GenericErr { msg: "threshold must be 0 to 1" })
        } else {
            Ok(())
        }
    }

    /// Checks the quorum, then the threshold.
    pub fn validate(&self) -> (r: Result<(), StdError>)
        ensures
            r == (if self.quorum.atomics > Decimal::spec_one().atomics {
                Err(StdError::GenericErr { msg: "quorum must be 0 to 1" })
            } else if self.threshold.atomics > Decimal::spec_one().atomics {
                Err(StdError::GenericErr { msg: "threshold must be 0 to 1" })
            } else {
                Ok(())
            }),
    {
        Config::validate_quorum(self.quorum)?;
        Config::validate_threshold(self.threshold)?;
        Ok(())
    }
}

/// The contract's running totals.
#[derive(Debug)]
pub struct State {
    pub poll_count: u64,
    pub total_share: u128,
    pub total_deposit: u128,
    pub total_airdrop_count: u64,
    pub airdrop_update_candidates: Vec<u64>,
}

/// A staker's share and the votes it has cast.
#[derive(Debug)]
pub struct TokenManager {
    /// total staked balance
    pub share: u128,
    /// maps poll_id to weight voted
    pub locked_balance: Vec<(u64, VoterInfo)>,
}

/// A staker's share and votes as the contracts see them.
pub struct TokenManagerView {
    pub share: u128,
    pub locked_balance: Seq<(u64, VoterInfo)>,
}

impl View for TokenManager {
    type V = TokenManagerView;

    open spec fn view(&self) -> TokenManagerView {
        TokenManagerView { share: self.share, locked_balance: self.locked_balance@ }
    }
}

/// A staker with no share and no votes, as a missing record reads.
pub open spec fn default_manager() -> TokenManagerView {
    TokenManagerView { share: 0, locked_balance: Seq::empty() }
}

impl TokenManager {
    pub fn default() -> (t: TokenManager)
        ensures
            t@ == default_manager(),
    {
        TokenManager { share: 0, locked_balance: Vec::new() }
    }
}

/// The fixed terms of an airdrop.
#[derive(Debug)]
pub struct AirdropConfig {
    pub start: u64,
    pub period: u64,
    pub reward_token: String,
    pub reward_rate: Decimal,
}

/// The accrual state of an airdrop.
#[derive(Clone, Copy, Debug, PartialEq, Eq, Structural)]
pub struct AirdropState {
    pub last_update_time: u64,
    pub reward_per_token_stored: Decimal,
}

#[derive(Debug)]
pub struct Airdrop {
    pub config: AirdropConfig,
    pub state: AirdropState,
}

/// A staker's reward in one airdrop.
#[derive(Clone, Copy, Debug, PartialEq, Eq, Structural)]
pub struct Reward {
    pub reward: u128,
    pub reward_per_token_paid: Decimal,
}

impl Reward {
    pub open spec fn spec_default() -> Reward {
        Reward { reward: 0, reward_per_token_paid: Decimal::spec_zero() }
    }

    pub fn default() -> (r: Reward)
        ensures
            r == Reward::spec_default(),
    {
        Reward { reward: 0, reward_per_token_paid: Decimal::zero() }
    }
}

} // verus!
