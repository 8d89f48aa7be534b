//! Verified state-transition core of a club staking ledger.
//!
//! Clubs can be bought, released and resold; stakers place and withdraw
//! stakes (immediately or through a bonding delay); a global reward pool is
//! periodically split across the owner and the stakers of the top-ranked
//! club and, pro rata, across all stakers. The ledgers live in a plain
//! in-memory [`state::ClubStakingState`]; a host embeds this core, supplies
//! the clock and the caller identity, and persists the state between
//! operations.

pub mod arith;
pub mod contract;
pub mod error;
pub mod keyed;
pub mod msg;
pub mod ownership;
pub mod rewards;
pub mod staking;
pub mod state;
