//! The staking and bonding ledgers.
//!
//! A staker's repeated stakes on one club merge into a single entry; a
//! withdrawal shrinks that entry (clamped at zero) and drops it once empty.
//! An immediate withdrawal hands 90% of the amount to the settlement
//! boundary at once; a deferred one parks the amount in a bond entry until
//! the periodic sweep finds its bonding period elapsed.

use vstd::prelude::*;

use crate::arith::mul_div_floor;
use crate::error::{ContractError, StateFault};
use crate::keyed::{key_idx, Keyed};
use crate::keyed::{
    find_by_key, lemma_key_idx, lemma_remove_keeps_unique_keys, lemma_update_same_key_unique,
    lemma_upsert_keeps_unique_keys,
};
use crate::state::{BondRow, ClubBondingDetails, ClubStakingDetails, ClubStakingState, StakeRow};
use crate::state::{bond_rows_wf, stake_rows_wf, wallet_amount, wallet_credited, wallet_debited};
use crate::state::{wallet_credit, wallet_debit};
use crate::state::{CLUB_BONDING_DURATION, CLUB_STAKING_DURATION, CLUB_STAKING_REWARD_AMOUNT};

verus! {

/// The stake entry a first stake writes.
pub open spec fn new_stake_entry(
    club_name: String,
    staker: String,
    now: u64,
    amount: u128,
) -> ClubStakingDetails {
    ClubStakingDetails {
        club_name: club_name,
        staker_address: staker,
        staking_start_timestamp: now,
        staked_amount: amount,
        staking_duration: CLUB_STAKING_DURATION,
        reward_amount: CLUB_STAKING_REWARD_AMOUNT,
    }
}

/// The bond entry a deferred withdrawal writes.
pub open spec fn new_bond_entry(
    club_name: String,
    bonder: String,
    now: u64,
    amount: u128,
    duration: u64,
) -> ClubBondingDetails {
    ClubBondingDetails {
        club_name: club_name,
        bonder_address: bonder,
        bonding_start_timestamp: now,
        bonded_amount: amount,
        bonding_duration: duration,
    }
}

/// `staker`'s current stake on `club`, zero if there is none.
pub open spec fn staked_amount_of(rows: Seq<StakeRow>, club: Seq<char>, staker: Seq<char>) -> int {
    let si = key_idx(rows, club);
    if si == -1 {
        0
    } else {
        let ei = key_idx(rows[si].stakes@, staker);
        if ei == -1 {
            0
        } else {
            rows[si].stakes@[ei].staked_amount as int
        }
    }
}

/// The staking ledger after merging a stake of `amount` by `staker` on
/// `club_name`: an existing entry grows by `amount`, otherwise a fresh
/// entry (and the club's row, if missing) is appended; a zero stake by a
/// fresh staker writes nothing, so entries always stake a positive
/// amount.
pub open spec fn stakes_increased(
    pre: Seq<StakeRow>,
    post: Seq<StakeRow>,
    club_name: String,
    staker: String,
    now: u64,
    amount: u128,
) -> bool {
    let si = key_idx(pre, club_name@);
    if si == -1 {
        if amount == 0 {
            post == pre
        } else {
            &&& post.len() == pre.len() + 1
            &&& forall|i: int| 0 <= i < pre.len() ==> post[i] == pre[i]
            &&& post.last().club_name == club_name
            &&& post.last().stakes@ == seq![new_stake_entry(club_name, staker, now, amount)]
        }
    } else {
        let row = pre[si];
        let ei = key_idx(row.stakes@, staker@);
        &&& post.len() == pre.len()
        &&& forall|i: int| 0 <= i < pre.len() && i != si ==> post[i] == pre[i]
        &&& post[si].club_name == row.club_name
        &&& (if ei == -1 && amount == 0 {
            post[si] == row
        } else if ei == -1 {
            post[si].stakes@ == row.stakes@.push(new_stake_entry(club_name, staker, now, amount))
        } else {
            post[si].stakes@ == row.stakes@.update(
                ei,
                ClubStakingDetails {
                    staked_amount: (row.stakes@[ei].staked_amount + amount) as u128,
                    ..row.stakes@[ei]
                },
            )
        })
    }
}

/// The staking ledger after withdrawing `amount` by `staker` from
/// `club_name`: the matching entry shrinks, clamped at zero, and is
/// dropped once empty; without a matching entry nothing changes.
pub open spec fn stakes_decreased(
    pre: Seq<StakeRow>,
    post: Seq<StakeRow>,
    club_name: String,
    staker: String,
    amount: u128,
) -> bool {
    let si = key_idx(pre, club_name@);
    if si == -1 {
        post == pre
    } else {
        let row = pre[si];
        let ei = key_idx(row.stakes@, staker@);
        if ei == -1 {
            post == pre
        } else {
            let left: u128 = if row.stakes@[ei].staked_amount >= amount {
                (row.stakes@[ei].staked_amount - amount) as u128
            } else {
                0
            };
            &&& post.len() == pre.len()
            &&& forall|i: int| 0 <= i < pre.len() && i != si ==> post[i] == pre[i]
            &&& post[si].club_name == row.club_name
            &&& (if left > 0 {
                post[si].stakes@ == row.stakes@.update(
                    ei,
                    ClubStakingDetails { staked_amount: left, ..row.stakes@[ei] },
                )
            } else {
                post[si].stakes@ == row.stakes@.remove(ei)
            })
        }
    }
}

/// The bonding ledger after recording a deferred withdrawal: a fresh bond
/// entry is appended to the club's row (created if missing); entries are
/// never merged.
pub open spec fn bonds_appended(
    pre: Seq<BondRow>,
    post: Seq<BondRow>,
    club_name: String,
    bonder: String,
    now: u64,
    amount: u128,
    duration: u64,
) -> bool {
    let bi = key_idx(pre, club_name@);
    if bi == -1 {
        &&& post.len() == pre.len() + 1
        &&& forall|i: int| 0 <= i < pre.len() ==> post[i] == pre[i]
        &&& post.last().club_name == club_name
        &&& post.last().bonds@ == seq![new_bond_entry(club_name, bonder, now, amount, duration)]
    } else {
        &&& post.len() == pre.len()
        &&& forall|i: int| 0 <= i < pre.len() && i != bi ==> post[i] == pre[i]
        &&& post[bi].club_name == pre[bi].club_name
        &&& post[bi].bonds@ == pre[bi].bonds@.push(
            new_bond_entry(club_name, bonder, now, amount, duration),
        )
    }
}

/// Merge a stake (`increase_stake`) or a withdrawal (otherwise) of
/// `amount` by `staker` into `club_name`'s row.
///
/// On an increase, an existing entry of the staker grows by `amount`,
/// otherwise a fresh entry is appended with the fixed staking bonus; on a
/// decrease, the matching entry shrinks clamped at zero and is dropped
/// once empty, and a missing row or entry leaves the ledger unchanged.
pub fn save_staking_details(
    rows: &mut Vec<StakeRow>,
    now: u64,
    staker: String,
    club_name: String,
    amount: u128,
    increase_stake: bool,
)
    requires
        stake_rows_wf(old(rows)@),
        increase_stake ==> staked_amount_of(old(rows)@, club_name@, staker@) + amount
            <= u128::MAX,
    ensures
        increase_stake ==> stakes_increased(old(rows)@, final(rows)@, club_name, staker, now, amount),
        !increase_stake ==> stakes_decreased(old(rows)@, final(rows)@, club_name, staker, amount),
        stake_rows_wf(final(rows)@),
{
    let rfound = find_by_key(rows, &club_name);
    match rfound {
        None => {
            if increase_stake && amount > 0 {
                let entry = ClubStakingDetails {
                    club_name: club_name.clone(),
                    staker_address: staker,
                    staking_start_timestamp: now,
                    staked_amount: amount,
                    staking_duration: CLUB_STAKING_DURATION,
                    reward_amount: CLUB_STAKING_REWARD_AMOUNT,
                };
                let mut entries: Vec<ClubStakingDetails> = Vec::new();
                entries.push(entry);
                let row = StakeRow { club_name: club_name, stakes: entries };
                proof {
                    lemma_upsert_keeps_unique_keys(rows@, row);
                }
                rows.push(row);
            }
        },
        Some(si) => {
            let efound = find_by_key(&rows[si].stakes, &staker);
            match efound {
                None => {
                    if increase_stake && amount > 0 {
                        let entry = ClubStakingDetails {
                            club_name: club_name.clone(),
                            staker_address: staker,
                            staking_start_timestamp: now,
                            staked_amount: amount,
                            staking_duration: CLUB_STAKING_DURATION,
                            reward_amount: CLUB_STAKING_REWARD_AMOUNT,
                        };
                        let ghost pre = rows@;
                        let mut row = rows.remove(si);
                        proof {
                            lemma_key_idx(pre[si as int].stakes@, staker@);
                        }
                        row.stakes.push(entry);
                        rows.insert(si, row);
                        proof {
                            assert(rows@ =~= pre.update(si as int, rows@[si as int]));
                        }
                    }
                },
                Some(ei) => {
                    let cur = rows[si].stakes[ei].staked_amount;
                    let ghost pre = rows@;
                    let mut row = rows.remove(si);
                    if increase_stake {
                        let mut rec = row.stakes[ei].clone();
                        rec.staked_amount = cur + amount;
                        proof {
                            lemma_update_same_key_unique(row.stakes@, ei as int, rec);
                        }
                        row.stakes[ei] = rec;
                    } else {
                        let left: u128 = if cur >= amount {
                            cur - amount
                        } else {
                            0
                        };
                        if left > 0 {
                            let mut rec = row.stakes[ei].clone();
                            rec.staked_amount = left;
                            proof {
                                lemma_update_same_key_unique(row.stakes@, ei as int, rec);
                            }
                            row.stakes[ei] = rec;
                        } else {
                            proof {
                                lemma_remove_keeps_unique_keys(row.stakes@, ei as int);
                            }
                            row.stakes.remove(ei);
                        }
                    }
                    rows.insert(si, row);
                    proof {
                        assert(rows@ =~= pre.update(si as int, rows@[si as int]));
                    }
                },
            }
        },
    }
}

/// Record a deferred withdrawal of `bonded_amount` by `bonder` as a fresh
/// bond entry on `club_name`'s row, creating the row if missing.
pub fn save_bonding_details(
    rows: &mut Vec<BondRow>,
    now: u64,
    bonder: String,
    club_name: String,
    bonded_amount: u128,
    duration: u64,
)
    requires
        bond_rows_wf(old(rows)@),
    ensures
        bond_rows_wf(final(rows)@),
        bonds_appended(old(rows)@, final(rows)@, club_name, bonder, now, bonded_amount, duration),
{
    let entry = ClubBondingDetails {
        club_name: club_name.clone(),
        bonder_address: bonder,
        bonding_start_timestamp: now,
        bonded_amount: bonded_amount,
        bonding_duration: duration,
    };
    let rfound = find_by_key(rows, &club_name);
    match rfound {
        Some(bi) => {
            let ghost pre = rows@;
            let mut row = rows.remove(bi);
            row.bonds.push(entry);
            rows.insert(bi, row);
            proof {
                assert(rows@ =~= pre.update(bi as int, rows@[bi as int]));
            }
        },
        None => {
            let mut bonds: Vec<ClubBondingDetails> = Vec::new();
            bonds.push(entry);
            let row = BondRow { club_name: club_name, bonds: bonds };
            proof {
                lemma_upsert_keeps_unique_keys(rows@, row);
            }
            rows.push(row);
        },
    }
}

/// Everything `stake_on_a_club` promises.
pub open spec fn stake_outcome(
    pre: ClubStakingState,
    post: ClubStakingState,
    r: Result<(), ContractError>,
    now: u64,
    sender: String,
    staker: String,
    club_name: String,
    amount: u128,
) -> bool {
    if sender@ != staker@ {
        r == Err::<(), ContractError>(ContractError::Unauthorized) && post == pre
    } else if key_idx(pre.ownerships@, club_name@) == -1 {
        r == Err::<(), ContractError>(ContractError::NotAvailable) && post == pre
    } else {
        &&& r == Ok::<(), ContractError>(())
        &&& stakes_increased(pre.stakes@, post.stakes@, club_name, staker, now, amount)
        &&& post.wallet@ == wallet_credited(pre.wallet@, staker, amount as int)
        &&& post.ownerships == pre.ownerships
        &&& post.previous_owners == pre.previous_owners
        &&& post.bonds == pre.bonds
        &&& post.reward == pre.reward
        &&& post.config == pre.config
    }
}

/// Stake `amount` on `club_name` for `staker`.
///
/// Only a club with an ownership record can be staked on; whether it has
/// been released does not matter. A repeated stake by the same staker
/// merges into the existing entry; the staker's escrow entry grows by
/// `amount`. Debiting the staker's real tokens is the token module's
/// business.
pub fn stake_on_a_club(
    state: &mut ClubStakingState,
    now: u64,
    sender: &String,
    staker: String,
    club_name: String,
    amount: u128,
) -> (r: Result<(), ContractError>)
    requires
        old(state).wf(),
        wallet_amount(old(state).wallet@, staker@) + amount <= u128::MAX,
        staked_amount_of(old(state).stakes@, club_name@, staker@) + amount <= u128::MAX,
    ensures
        final(state).wf(),
        stake_outcome(*old(state), *final(state), r, now, *sender, staker, club_name, amount),
{
    if !(*sender == staker) {
        return Err(ContractError::Unauthorized);
    }
    let found = find_by_key(&state.ownerships, &club_name);
    if found.is_none() {
        return Err(ContractError::NotAvailable);
    }
    save_staking_details(&mut state.stakes, now, staker.clone(), club_name, amount, true);
    wallet_credit(&mut state.wallet, &staker, amount);
    Ok(())
}

/// The 90% immediate refund on a withdrawal, floored; the missing tenth
/// is designated for burning by the token module.
pub open spec fn refund_of(amount: u128) -> u128 {
    (amount * 90 / 100) as u128
}

/// Everything `withdraw_stake_from_a_club` promises. A successful
/// immediate withdrawal reports the refund owed to the staker; a deferred
/// one reports nothing and parks the amount in a bond entry instead.
pub open spec fn withdraw_outcome(
    pre: ClubStakingState,
    post: ClubStakingState,
    r: Result<Option<u128>, ContractError>,
    now: u64,
    sender: String,
    staker: String,
    club_name: String,
    amount: u128,
    immediate_withdrawal: bool,
) -> bool {
    if sender@ != staker@ {
        r == Err::<Option<u128>, ContractError>(ContractError::Unauthorized) && post == pre
    } else if key_idx(pre.ownerships@, club_name@) == -1 {
        r == Err::<Option<u128>, ContractError>(ContractError::NotAvailable) && post == pre
    } else {
        &&& stakes_decreased(pre.stakes@, post.stakes@, club_name, staker, amount)
        &&& post.wallet@ == wallet_debited(pre.wallet@, staker, amount as int)
        &&& (if immediate_withdrawal {
            r == Ok::<Option<u128>, ContractError>(Some(refund_of(amount))) && post.bonds
                == pre.bonds
        } else {
            r == Ok::<Option<u128>, ContractError>(None) && bonds_appended(
                pre.bonds@,
                post.bonds@,
                club_name,
                staker,
                now,
                amount,
                CLUB_BONDING_DURATION,
            )
        })
        &&& post.ownerships == pre.ownerships
        &&& post.previous_owners == pre.previous_owners
        &&& post.reward == pre.reward
        &&& post.config == pre.config
    }
}

/// Withdraw `amount` of `staker`'s stake on `club_name`.
///
/// The staker's escrow entry shrinks by `amount`, saturating at zero, and
/// the stake entry shrinks clamped at zero — withdrawing more than is
/// staked is not an error, the stake simply empties and the entry is
/// dropped. An immediate withdrawal returns the 90% refund to hand to the
/// settlement boundary; a deferred one writes a bond entry that the
/// periodic sweep pays out after the bonding period.
pub fn withdraw_stake_from_a_club(
    state: &mut ClubStakingState,
    now: u64,
    sender: &String,
    staker: String,
    club_name: String,
    amount: u128,
    immediate_withdrawal: bool,
) -> (r: Result<Option<u128>, ContractError>)
    requires
        old(state).wf(),
    ensures
        final(state).wf(),
        withdraw_outcome(
            *old(state),
            *final(state),
            r,
            now,
            *sender,
            staker,
            club_name,
            amount,
            immediate_withdrawal,
        ),
{
    if !(*sender == staker) {
        return Err(ContractError::Unauthorized);
    }
    let found = find_by_key(&state.ownerships, &club_name);
    if found.is_none() {
        return Err(ContractError::NotAvailable);
    }
    wallet_debit(&mut state.wallet, &staker, amount);
    if immediate_withdrawal {
        save_staking_details(&mut state.stakes, now, staker.clone(), club_name, amount, false);
        let refund = mul_div_floor(amount, 90, 100);
        Ok(Some(refund))
    } else {
        save_staking_details(
            &mut state.stakes,
            now,
            staker.clone(),
            club_name.clone(),
            amount,
            false,
        );
        save_bonding_details(
            &mut state.bonds,
            now,
            staker,
            club_name,
            amount,
            CLUB_BONDING_DURATION,
        );
        Ok(None)
    }
}

/// Everything `claim_rewards` promises. A claim by a staker with no entry
/// on the club succeeds without any effect, unlike the owner claims,
/// which fail when no record matches.
pub open spec fn claim_rewards_outcome(
    pre: ClubStakingState,
    post: ClubStakingState,
    r: Result<(), ContractError>,
    sender: String,
    staker: String,
    club_name: String,
    amount: u128,
) -> bool {
    let si = key_idx(pre.stakes@, club_name@);
    if sender@ != staker@ {
        r == Err::<(), ContractError>(ContractError::Unauthorized) && post == pre
    } else if si == -1 {
        r == Ok::<(), ContractError>(()) && post == pre
    } else {
        let row = pre.stakes@[si];
        let ei = key_idx(row.stakes@, staker@);
        if ei == -1 {
            r == Ok::<(), ContractError>(()) && post == pre
        } else if amount > row.stakes@[ei].reward_amount {
            r == Err::<(), ContractError>(ContractError::InvalidState(
                StateFault::InsufficientRewards,
            )) && post == pre
        } else {
            &&& r == Ok::<(), ContractError>(())
            &&& post.stakes@.len() == pre.stakes@.len()
            &&& forall|i: int|
                0 <= i < pre.stakes@.len() && i != si ==> post.stakes@[i] == pre.stakes@[i]
            &&& post.stakes@[si].club_name == row.club_name
            &&& post.stakes@[si].stakes@ == row.stakes@.update(
                ei,
                ClubStakingDetails {
                    reward_amount: (row.stakes@[ei].reward_amount - amount) as u128,
                    ..row.stakes@[ei]
                },
            )
            &&& post.ownerships == pre.ownerships
            &&& post.previous_owners == pre.previous_owners
            &&& post.bonds == pre.bonds
            &&& post.wallet == pre.wallet
            &&& post.reward == pre.reward
            &&& post.config == pre.config
        }
    }
}

/// Claim `amount` from the reward accrued to `staker`'s stake entry on
/// `club_name`.
///
/// The claim must not exceed the entry's accrued reward; the entry's
/// reward shrinks by `amount`. Paying the claim out in real tokens is the
/// token module's business.
pub fn claim_rewards(
    state: &mut ClubStakingState,
    sender: &String,
    staker: String,
    club_name: String,
    amount: u128,
) -> (r: Result<(), ContractError>)
    requires
        old(state).wf(),
    ensures
        final(state).wf(),
        claim_rewards_outcome(*old(state), *final(state), r, *sender, staker, club_name, amount),
{
    if !(*sender == staker) {
        return Err(ContractError::Unauthorized);
    }
    let sfound = find_by_key(&state.stakes, &club_name);
    match sfound {
        None => Ok(()),
        Some(si) => {
            let efound = find_by_key(&state.stakes[si].stakes, &staker);
            match efound {
                None => Ok(()),
                Some(ei) => {
                    let cur = state.stakes[si].stakes[ei].reward_amount;
                    if amount > cur {
                        return Err(ContractError::InvalidState(StateFault::InsufficientRewards));
                    }
                    let ghost pre = state.stakes@;
                    let mut row = state.stakes.remove(si);
                    let mut rec = row.stakes[ei].clone();
                    rec.reward_amount = cur - amount;
                    proof {
                        lemma_update_same_key_unique(row.stakes@, ei as int, rec);
                    }
                    row.stakes[ei] = rec;
                    state.stakes.insert(si, row);
                    proof {
                        assert(state.stakes@ =~= pre.update(si as int, state.stakes@[si as int]));
                    }
                    Ok(())
                },
            }
        },
    }
}

/// Is the bond still within its bonding period at `now`? A bond matures
/// once `now - bonding_duration >= bonding_start_timestamp`.
pub open spec fn bond_pending(b: ClubBondingDetails, now: u64) -> bool {
    now - b.bonding_duration < b.bonding_start_timestamp
}

/// The bond entries of one row still pending at `now`, in their order.
pub open spec fn retained_of(s: Seq<ClubBondingDetails>, now: u64) -> Seq<ClubBondingDetails>
    decreases s.len(),
{
    if s.len() == 0 {
        Seq::empty()
    } else if bond_pending(s.last(), now) {
        retained_of(s.drop_last(), now).push(s.last())
    } else {
        retained_of(s.drop_last(), now)
    }
}

/// The bond entries of one row matured at `now`, in their order.
pub open spec fn matured_of(s: Seq<ClubBondingDetails>, now: u64) -> Seq<ClubBondingDetails>
    decreases s.len(),
{
    if s.len() == 0 {
        Seq::empty()
    } else if bond_pending(s.last(), now) {
        matured_of(s.drop_last(), now)
    } else {
        matured_of(s.drop_last(), now).push(s.last())
    }
}

/// All matured bond entries across the whole bonding ledger, row by row.
pub open spec fn matured_all(rows: Seq<BondRow>, now: u64) -> Seq<ClubBondingDetails>
    decreases rows.len(),
{
    if rows.len() == 0 {
        Seq::empty()
    } else {
        matured_all(rows.drop_last(), now) + matured_of(rows.last().bonds@, now)
    }
}

/// Everything `periodically_refund_stakeouts` promises: every row keeps
/// exactly its pending bonds (an emptied row stays), and the matured
/// bonds come back to the caller for settlement.
pub open spec fn sweep_outcome(
    pre: ClubStakingState,
    post: ClubStakingState,
    r: Result<Vec<ClubBondingDetails>, ContractError>,
    now: u64,
    sender: String,
) -> bool {
    if sender@ != crate::state::operator_address() {
        r == Err::<Vec<ClubBondingDetails>, ContractError>(ContractError::Unauthorized) && post
            == pre
    } else {
        &&& r matches Ok(m) && m@ == matured_all(pre.bonds@, now)
        &&& post.bonds@.len() == pre.bonds@.len()
        &&& forall|i: int|
            0 <= i < pre.bonds@.len() ==> (#[trigger] post.bonds@[i]).club_name
                == pre.bonds@[i].club_name
        &&& forall|i: int|
            0 <= i < pre.bonds@.len() ==> (#[trigger] post.bonds@[i]).bonds@ == retained_of(
                pre.bonds@[i].bonds@,
                now,
            )
        &&& post.ownerships == pre.ownerships
        &&& post.previous_owners == pre.previous_owners
        &&& post.stakes == pre.stakes
        &&& post.wallet == pre.wallet
        &&& post.reward == pre.reward
        &&& post.config == pre.config
    }
}

/// Sweep the bonding ledger at `now`: drop every matured bond and return
/// the dropped entries so the caller can refund their bonders.
///
/// Restricted to the designated operator address. Rows are kept even when
/// the sweep empties them.
pub fn periodically_refund_stakeouts(
    state: &mut ClubStakingState,
    now: u64,
    sender: &String,
) -> (r: Result<Vec<ClubBondingDetails>, ContractError>)
    requires
        old(state).wf(),
    ensures
        final(state).wf(),
        sweep_outcome(*old(state), *final(state), r, now, *sender),
{
    if !crate::state::is_operator(sender) {
        return Err(ContractError::Unauthorized);
    }
    let mut matured: Vec<ClubBondingDetails> = Vec::new();
    let mut i: usize = 0;
    proof {
        assert(old(state).bonds@.subrange(0, 0) =~= Seq::<BondRow>::empty());
    }
    while i < state.bonds.len()
        invariant
            old(state).wf(),
            i <= state.bonds@.len(),
            state.bonds@.len() == old(state).bonds@.len(),
            forall|j: int|
                0 <= j < i ==> (#[trigger] state.bonds@[j]).club_name
                    == old(state).bonds@[j].club_name,
            forall|j: int|
                0 <= j < i ==> (#[trigger] state.bonds@[j]).bonds@ == retained_of(
                    old(state).bonds@[j].bonds@,
                    now,
                ),
            forall|j: int| 0 <= j < i ==> (#[trigger] state.bonds@[j]).wf_row(),
            forall|j: int|
                i <= j < state.bonds@.len() ==> state.bonds@[j] == old(state).bonds@[j],
            matured@ == matured_all(old(state).bonds@.subrange(0, i as int), now),
            state.ownerships == old(state).ownerships,
            state.previous_owners == old(state).previous_owners,
            state.stakes == old(state).stakes,
            state.wallet == old(state).wallet,
            state.reward == old(state).reward,
            state.config == old(state).config,
        decreases state.bonds@.len() - i,
    {
        let ghost row0 = state.bonds@[i as int];
        let mut kept: Vec<ClubBondingDetails> = Vec::new();
        let mut k: usize = 0;
        proof {
            assert(row0.bonds@.subrange(0, 0) =~= Seq::<ClubBondingDetails>::empty());
        }
        while k < state.bonds[i].bonds.len()
            invariant
                old(state).wf(),
                i < state.bonds@.len(),
                state.bonds@.len() == old(state).bonds@.len(),
                state.bonds@[i as int] == row0,
                old(state).bonds@[i as int] == row0,
                k <= row0.bonds@.len(),
                kept@ == retained_of(row0.bonds@.subrange(0, k as int), now),
                matured@ == matured_all(old(state).bonds@.subrange(0, i as int), now) + matured_of(
                    row0.bonds@.subrange(0, k as int),
                    now,
                ),
                forall|m: int|
                    0 <= m < kept@.len() ==> (#[trigger] kept@[m]).club_name@ == row0.club_name@,
            decreases row0.bonds@.len() - k,
        {
            let b = state.bonds[i].bonds[k].clone();
            proof {
                assert(old(state).bonds@[i as int].wf_row());
                assert(row0.bonds@[k as int].club_name@ == row0.club_name@);
            }
            if now < b.bonding_duration || now - b.bonding_duration < b.bonding_start_timestamp {
                kept.push(b);
            } else {
                matured.push(b);
            }
            k = k + 1;
            proof {
                assert(row0.bonds@.subrange(0, k as int).drop_last() =~= row0.bonds@.subrange(
                    0,
                    k as int - 1,
                ));
                assert(row0.bonds@.subrange(0, k as int).last() == row0.bonds@[k as int - 1]);
            }
        }
        proof {
            assert(row0.bonds@.subrange(0, row0.bonds@.len() as int) =~= row0.bonds@);
        }
        let name = state.bonds[i].club_name.clone();
        state.bonds[i] = BondRow { club_name: name, bonds: kept };
        proof {
            assert(state.bonds@[i as int].wf_row());
        }
        i = i + 1;
        proof {
            assert(old(state).bonds@.subrange(0, i as int).drop_last() =~= old(
                state,
            ).bonds@.subrange(0, i as int - 1));
            assert(old(state).bonds@.subrange(0, i as int).last() == old(state).bonds@[i as int
                - 1]);
        }
    }
    proof {
        assert(old(state).bonds@.subrange(0, old(state).bonds@.len() as int) =~= old(
            state,
        ).bonds@);
        assert forall|a: int, b: int|
            0 <= a < b < state.bonds@.len() implies (#[trigger] state.bonds@[a]).key() != (
        #[trigger] state.bonds@[b]).key() by {
            assert(state.bonds@[a].club_name == old(state).bonds@[a].club_name);
            assert(state.bonds@[b].club_name == old(state).bonds@[b].club_name);
            assert(old(state).bonds@[a].key() != old(state).bonds@[b].key());
        }
    }
    Ok(matured)
}

/// The stake entries of `club_name`'s row, or `None` if the club was
/// never staked on; a row emptied by withdrawals yields an empty list.
pub fn query_club_staking_details(
    state: &ClubStakingState,
    club_name: String,
) -> (r: Option<Vec<ClubStakingDetails>>)
    ensures
        ({
            let si = key_idx(state.stakes@, club_name@);
            match r {
                Some(v) => si != -1 && v@ == state.stakes@[si].stakes@,
                None => si == -1,
            }
        }),
{
    let found = find_by_key(&state.stakes, &club_name);
    match found {
        Some(si) => {
            let v = state.stakes[si].stakes.clone();
            proof {
                assert forall|j: int|
                    0 <= j < v@.len() implies v@[j] == state.stakes@[si as int].stakes@[j] by {
                    assert(cloned::<ClubStakingDetails>(
                        state.stakes@[si as int].stakes@[j],
                        v@[j],
                    ));
                }
                assert(v@ =~= state.stakes@[si as int].stakes@);
            }
            Some(v)
        },
        None => None,
    }
}

/// The bond entries of `club_name`'s row, or `None` if the club never had
/// a deferred withdrawal; a row emptied by the sweep yields an empty list.
pub fn query_club_bonding_details(
    state: &ClubStakingState,
    club_name: String,
) -> (r: Option<Vec<ClubBondingDetails>>)
    ensures
        ({
            let bi = key_idx(state.bonds@, club_name@);
            match r {
                Some(v) => bi != -1 && v@ == state.bonds@[bi].bonds@,
                None => bi == -1,
            }
        }),
{
    let found = find_by_key(&state.bonds, &club_name);
    match found {
        Some(bi) => {
            let v = state.bonds[bi].bonds.clone();
            proof {
                assert forall|j: int|
                    0 <= j < v@.len() implies v@[j] == state.bonds@[bi as int].bonds@[j] by {
                    assert(cloned::<ClubBondingDetails>(state.bonds@[bi as int].bonds@[j], v@[j]));
                }
                assert(v@ =~= state.bonds@[bi as int].bonds@);
            }
            Some(v)
        },
        None => None,
    }
}

/// Every stake entry of every club, rows in ledger order.
pub open spec fn all_stakes_of(rows: Seq<StakeRow>) -> Seq<ClubStakingDetails>
    decreases rows.len(),
{
    if rows.len() == 0 {
        Seq::empty()
    } else {
        all_stakes_of(rows.drop_last()) + rows.last().stakes@
    }
}

/// Every bond entry of every club, rows in ledger order.
pub open spec fn all_bonds_of(rows: Seq<BondRow>) -> Seq<ClubBondingDetails>
    decreases rows.len(),
{
    if rows.len() == 0 {
        Seq::empty()
    } else {
        all_bonds_of(rows.drop_last()) + rows.last().bonds@
    }
}

/// Every stake entry of every club, flattened in ledger order.
pub fn query_all_stakes(state: &ClubStakingState) -> (r: Vec<ClubStakingDetails>)
    ensures
        r@ == all_stakes_of(state.stakes@),
{
    let mut out: Vec<ClubStakingDetails> = Vec::new();
    let mut i: usize = 0;
    proof {
        assert(state.stakes@.subrange(0, 0) =~= Seq::<StakeRow>::empty());
    }
    while i < state.stakes.len()
        invariant
            i <= state.stakes@.len(),
            out@ == all_stakes_of(state.stakes@.subrange(0, i as int)),
        decreases state.stakes@.len() - i,
    {
        let ghost row0 = state.stakes@[i as int];
        let mut k: usize = 0;
        proof {
            assert(row0.stakes@.subrange(0, 0) =~= Seq::<ClubStakingDetails>::empty());
        }
        while k < state.stakes[i].stakes.len()
            invariant
                i < state.stakes@.len(),
                state.stakes@[i as int] == row0,
                k <= row0.stakes@.len(),
                out@ == all_stakes_of(state.stakes@.subrange(0, i as int)) + row0.stakes@.subrange(
                    0,
                    k as int,
                ),
            decreases row0.stakes@.len() - k,
        {
            let e = state.stakes[i].stakes[k].clone();
            out.push(e);
            k = k + 1;
            proof {
                assert(row0.stakes@.subrange(0, k as int) =~= row0.stakes@.subrange(
                    0,
                    k as int - 1,
                ).push(row0.stakes@[k as int - 1]));
            }
        }
        i = i + 1;
        proof {
            assert(row0.stakes@.subrange(0, row0.stakes@.len() as int) =~= row0.stakes@);
            assert(state.stakes@.subrange(0, i as int).drop_last() =~= state.stakes@.subrange(
                0,
                i as int - 1,
            ));
            assert(state.stakes@.subrange(0, i as int).last() == state.stakes@[i as int - 1]);
        }
    }
    proof {
        assert(state.stakes@.subrange(0, state.stakes@.len() as int) =~= state.stakes@);
    }
    out
}

/// Every bond entry of every club, flattened in ledger order.
pub fn query_all_bonds(state: &ClubStakingState) -> (r: Vec<ClubBondingDetails>)
    ensures
        r@ == all_bonds_of(state.bonds@),
{
    let mut out: Vec<ClubBondingDetails> = Vec::new();
    let mut i: usize = 0;
    proof {
        assert(state.bonds@.subrange(0, 0) =~= Seq::<BondRow>::empty());
    }
    while i < state.bonds.len()
        invariant
            i <= state.bonds@.len(),
            out@ == all_bonds_of(state.bonds@.subrange(0, i as int)),
        decreases state.bonds@.len() - i,
    {
        let ghost row0 = state.bonds@[i as int];
        let mut k: usize = 0;
        proof {
            assert(row0.bonds@.subrange(0, 0) =~= Seq::<ClubBondingDetails>::empty());
        }
        while k < state.bonds[i].bonds.len()
            invariant
                i < state.bonds@.len(),
                state.bonds@[i as int] == row0,
                k <= row0.bonds@.len(),
                out@ == all_bonds_of(state.bonds@.subrange(0, i as int)) + row0.bonds@.subrange(
                    0,
                    k as int,
                ),
            decreases row0.bonds@.len() - k,
        {
            let e = state.bonds[i].bonds[k].clone();
            out.push(e);
            k = k + 1;
            proof {
                assert(row0.bonds@.subrange(0, k as int) =~= row0.bonds@.subrange(
                    0,
                    k as int - 1,
                ).push(row0.bonds@[k as int - 1]));
            }
        }
        i = i + 1;
        proof {
            assert(row0.bonds@.subrange(0, row0.bonds@.len() as int) =~= row0.bonds@);
            assert(state.bonds@.subrange(0, i as int).drop_last() =~= state.bonds@.subrange(
                0,
                i as int - 1,
            ));
            assert(state.bonds@.subrange(0, i as int).last() == state.bonds@[i as int - 1]);
        }
    }
    proof {
        assert(state.bonds@.subrange(0, state.bonds@.len() as int) =~= state.bonds@);
    }
    out
}

} // verus!
