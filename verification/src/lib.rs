//! Governance contract logic: polls, voting, staking shares and airdrop rewards,
//! held in a verified in-memory store.

pub mod airdrop;
pub mod entry;
pub mod fits;
pub mod gov;
pub mod keys;
pub mod laws;
pub mod math;
pub mod poll;
pub mod queries;
pub mod range;
pub mod response;
pub mod sort;
pub mod staking;
pub mod state;
pub mod store;
pub mod strategy;
