//! One entry point for every mutating request.
//!
//! A host parses its transport format into an [`ExecuteMsg`], hands it
//! here with the clock and the sender's address, and persists the state
//! afterwards; the reply carries whatever the operation owes the
//! settlement boundary. Allowance and token-transfer requests are the
//! delegated token module's business and never reach this dispatcher.

use vstd::prelude::*;

use crate::error::ContractError;
use crate::msg::ExecuteMsg;
use crate::ownership::{buy_a_club, claim_owner_rewards, claim_previous_owner_rewards, release_club};
use crate::ownership::{buy_outcome, claim_owner_outcome, claim_previous_owner_outcome, release_outcome};
use crate::rewards::{calculate_and_distribute_rewards, set_reward_amount};
use crate::rewards::{distribute_outcome, grand_total, set_reward_outcome};
use crate::staking::{claim_rewards, periodically_refund_stakeouts, stake_on_a_club, withdraw_stake_from_a_club};
use crate::staking::{claim_rewards_outcome, stake_outcome, staked_amount_of, sweep_outcome, withdraw_outcome};
use crate::state::{ClubBondingDetails, ClubStakingState, wallet_amount, CLUB_PRICE};

verus! {

/// What a successful request hands back for settlement.
pub enum ExecuteReply {
    /// Plain acknowledgement; the request's effects live in the ledgers.
    Ack,
    /// The 90% refund owed on an immediate withdrawal, absent on a
    /// deferred one.
    Refund(Option<u128>),
    /// The matured bonds the sweep dropped, owed back to their bonders.
    Refunds(Vec<ClubBondingDetails>),
}

/// What a request demands of the state before it can run without
/// overflowing: the coarse safe bounds of the operation it names.
pub open spec fn execute_requires(pre: ClubStakingState, msg: ExecuteMsg) -> bool {
    match msg {
        ExecuteMsg::BuyAClub { buyer, .. } => wallet_amount(pre.wallet@, buyer@) + CLUB_PRICE
            <= u128::MAX,
        ExecuteMsg::StakeOnAClub { staker, club_name, amount } => wallet_amount(
            pre.wallet@,
            staker@,
        ) + amount <= u128::MAX && staked_amount_of(pre.stakes@, club_name@, staker@) + amount
            <= u128::MAX,
        ExecuteMsg::CalculateAndDistributeRewards {} => {
            &&& grand_total(pre.stakes@) <= u128::MAX
            &&& forall|j: int, k: int|
                0 <= j < pre.stakes@.len() && 0 <= k < pre.stakes@[j].stakes@.len() ==> (
                #[trigger] pre.stakes@[j].stakes@[k]).reward_amount + pre.reward <= u128::MAX
            &&& forall|i: int|
                0 <= i < pre.ownerships@.len() ==> (#[trigger] pre.ownerships@[i]).reward_amount
                    + pre.reward / 100 <= u128::MAX
        },
        _ => true,
    }
}

/// Everything `execute` promises: each request behaves exactly as the
/// operation it names.
pub open spec fn execute_outcome(
    pre: ClubStakingState,
    post: ClubStakingState,
    r: Result<ExecuteReply, ContractError>,
    now: u64,
    sender: String,
    msg: ExecuteMsg,
) -> bool {
    match msg {
        ExecuteMsg::BuyAClub { buyer, seller, club_name } => match r {
            Ok(rep) => rep == ExecuteReply::Ack && buy_outcome(
                pre,
                post,
                Ok(()),
                now,
                sender,
                buyer,
                seller,
                club_name,
                CLUB_PRICE,
            ),
            Err(e) => buy_outcome(pre, post, Err(e), now, sender, buyer, seller, club_name, CLUB_PRICE),
        },
        ExecuteMsg::ReleaseClub { owner, club_name } => match r {
            Ok(rep) => rep == ExecuteReply::Ack && release_outcome(
                pre,
                post,
                Ok(()),
                now,
                sender,
                owner,
                club_name,
            ),
            Err(e) => release_outcome(pre, post, Err(e), now, sender, owner, club_name),
        },
        ExecuteMsg::ClaimOwnerRewards { owner, club_name, amount } => match r {
            Ok(rep) => rep == ExecuteReply::Ack && claim_owner_outcome(
                pre,
                post,
                Ok(()),
                sender,
                owner,
                club_name,
                amount,
            ),
            Err(e) => claim_owner_outcome(pre, post, Err(e), sender, owner, club_name, amount),
        },
        ExecuteMsg::ClaimPreviousOwnerRewards { previous_owner, club_name, amount } => match r {
            Ok(rep) => rep == ExecuteReply::Ack && claim_previous_owner_outcome(
                pre,
                post,
                Ok(()),
                sender,
                previous_owner,
                club_name,
                amount,
            ),
            Err(e) => claim_previous_owner_outcome(
                pre,
                post,
                Err(e),
                sender,
                previous_owner,
                club_name,
                amount,
            ),
        },
        ExecuteMsg::StakeOnAClub { staker, club_name, amount } => match r {
            Ok(rep) => rep == ExecuteReply::Ack && stake_outcome(
                pre,
                post,
                Ok(()),
                now,
                sender,
                staker,
                club_name,
                amount,
            ),
            Err(e) => stake_outcome(pre, post, Err(e), now, sender, staker, club_name, amount),
        },
        ExecuteMsg::StakeWithdrawFromAClub { staker, club_name, amount, immediate_withdrawal } => match r {
            Ok(rep) => rep matches ExecuteReply::Refund(x) && withdraw_outcome(
                pre,
                post,
                Ok(x),
                now,
                sender,
                staker,
                club_name,
                amount,
                immediate_withdrawal,
            ),
            Err(e) => withdraw_outcome(
                pre,
                post,
                Err(e),
                now,
                sender,
                staker,
                club_name,
                amount,
                immediate_withdrawal,
            ),
        },
        ExecuteMsg::PeriodicallyRefundStakeouts {} => match r {
            Ok(rep) => rep matches ExecuteReply::Refunds(v) && sweep_outcome(
                pre,
                post,
                Ok(v),
                now,
                sender,
            ),
            Err(e) => sweep_outcome(pre, post, Err(e), now, sender),
        },
        ExecuteMsg::SetRewardAmount { amount } => match r {
            Ok(rep) => rep == ExecuteReply::Ack && set_reward_outcome(
                pre,
                post,
                Ok(()),
                sender,
                amount,
            ),
            Err(e) => set_reward_outcome(pre, post, Err(e), sender, amount),
        },
        ExecuteMsg::CalculateAndDistributeRewards {} => match r {
            Ok(rep) => rep == ExecuteReply::Ack && distribute_outcome(pre, post, Ok(()), sender),
            Err(e) => distribute_outcome(pre, post, Err(e), sender),
        },
        ExecuteMsg::ClaimRewards { staker, club_name, amount } => match r {
            Ok(rep) => rep == ExecuteReply::Ack && claim_rewards_outcome(
                pre,
                post,
                Ok(()),
                sender,
                staker,
                club_name,
                amount,
            ),
            Err(e) => claim_rewards_outcome(pre, post, Err(e), sender, staker, club_name, amount),
        },
    }
}

/// Dispatch one mutating request against the ledgers at time `now`.
pub fn execute(
    state: &mut ClubStakingState,
    now: u64,
    sender: &String,
    msg: ExecuteMsg,
) -> (r: Result<ExecuteReply, ContractError>)
    requires
        old(state).wf(),
        execute_requires(*old(state), msg),
    ensures
        final(state).wf(),
        execute_outcome(*old(state), *final(state), r, now, *sender, msg),
{
    match msg {
        ExecuteMsg::BuyAClub { buyer, seller, club_name } => {
            match buy_a_club(state, now, sender, buyer, seller, club_name, CLUB_PRICE) {
                Ok(_) => Ok(ExecuteReply::Ack),
                Err(e) => Err(e),
            }
        },
        ExecuteMsg::ReleaseClub { owner, club_name } => {
            match release_club(state, now, sender, owner, club_name) {
                Ok(_) => Ok(ExecuteReply::Ack),
                Err(e) => Err(e),
            }
        },
        ExecuteMsg::ClaimOwnerRewards { owner, club_name, amount } => {
            match claim_owner_rewards(state, sender, owner, club_name, amount) {
                Ok(_) => Ok(ExecuteReply::Ack),
                Err(e) => Err(e),
            }
        },
        ExecuteMsg::ClaimPreviousOwnerRewards { previous_owner, club_name, amount } => {
            match claim_previous_owner_rewards(state, sender, previous_owner, club_name, amount) {
                Ok(_) => Ok(ExecuteReply::Ack),
                Err(e) => Err(e),
            }
        },
        ExecuteMsg::StakeOnAClub { staker, club_name, amount } => {
            match stake_on_a_club(state, now, sender, staker, club_name, amount) {
                Ok(_) => Ok(ExecuteReply::Ack),
                Err(e) => Err(e),
            }
        },
        ExecuteMsg::StakeWithdrawFromAClub { staker, club_name, amount, immediate_withdrawal } => {
            match withdraw_stake_from_a_club(
                state,
                now,
                sender,
                staker,
                club_name,
                amount,
                immediate_withdrawal,
            ) {
                Ok(x) => Ok(ExecuteReply::Refund(x)),
                Err(e) => Err(e),
            }
        },
        ExecuteMsg::PeriodicallyRefundStakeouts {} => {
            match periodically_refund_stakeouts(state, now, sender) {
                Ok(v) => Ok(ExecuteReply::Refunds(v)),
                Err(e) => Err(e),
            }
        },
        ExecuteMsg::SetRewardAmount { amount } => {
            match set_reward_amount(state, sender, amount) {
                Ok(_) => Ok(ExecuteReply::Ack),
                Err(e) => Err(e),
            }
        },
        ExecuteMsg::CalculateAndDistributeRewards {} => {
            match calculate_and_distribute_rewards(state, sender) {
                Ok(_) => Ok(ExecuteReply::Ack),
                Err(e) => Err(e),
            }
        },
        ExecuteMsg::ClaimRewards { staker, club_name, amount } => {
            match claim_rewards(state, sender, staker, club_name, amount) {
                Ok(_) => Ok(ExecuteReply::Ack),
                Err(e) => Err(e),
            }
        },
    }
}

} // verus!
