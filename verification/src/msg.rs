//! Requests a host hands to the core.
//!
//! The variants carry plain values only; the host parses its transport
//! format into these and dispatches through [`crate::contract::execute`].
//! Allowance and token-transfer requests are delegated wholesale to the
//! fungible-token module and are not represented here.

use vstd::prelude::*;

verus! {

/// Bootstrap configuration: the token module's address and the admin.
pub struct InstantiateMsg {
    pub cw20_token_address: String,
    pub admin_address: String,
}

/// A mutating request against the ledgers.
pub enum ExecuteMsg {
    BuyAClub { buyer: String, seller: String, club_name: String },
    ReleaseClub { owner: String, club_name: String },
    ClaimOwnerRewards { owner: String, club_name: String, amount: u128 },
    ClaimPreviousOwnerRewards { previous_owner: String, club_name: String, amount: u128 },
    StakeOnAClub { staker: String, club_name: String, amount: u128 },
    StakeWithdrawFromAClub {
        staker: String,
        club_name: String,
        amount: u128,
        immediate_withdrawal: bool,
    },
    PeriodicallyRefundStakeouts {},
    SetRewardAmount { amount: u128 },
    CalculateAndDistributeRewards {},
    ClaimRewards { staker: String, club_name: String, amount: u128 },
}

/// A read-only request against the ledgers.
pub enum QueryMsg {
    /// How much a spender may use from an owner's account; answered by the
    /// delegated allowance module.
    Allowance { owner: String, spender: String },
    /// All allowances an owner has approved; answered by the delegated
    /// allowance module.
    AllAllowances { owner: String, start_after: Option<String>, limit: Option<u32> },
    /// The stake entries of one club.
    ClubStakingDetails { club_name: String },
    /// The pending bonded withdrawals of one club.
    ClubBondingDetails { club_name: String },
    /// The ownership record of one club.
    ClubOwnershipDetails { club_name: String },
    /// Every stake entry of every club.
    AllStakes {},
    /// Clubs with their aggregate stakes, best first.
    GetClubRankingByStakes {},
    /// The reward pool available for the next distribution round.
    RewardAmount {},
}

} // verus!
