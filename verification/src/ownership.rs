//! The ownership and previous-owner ledgers.
//!
//! A club is bought at a price, locked for a fixed period, released by its
//! owner, and may then be resold; a resale with a named seller moves the
//! seller's accrued reward into a previous-owner record. Owners and previous
//! owners claim their accrued rewards here; paying claimed amounts out in
//! real tokens is the token module's business.

use vstd::prelude::*;

use crate::error::{ContractError, StateFault};
use crate::keyed::{key_idx, upsert_by_key};
use crate::keyed::{find_by_key, lemma_update_same_key_unique, lemma_upsert_keeps_unique_keys};
use crate::state::{ClubOwnershipDetails, ClubPreviousOwnerDetails, ClubStakingState};
use crate::state::{wallet_amount, wallet_credited, wallet_with, wallet_credit, wallet_set};
use crate::state::{CLUB_BUYING_REWARD_AMOUNT, CLUB_LOCKING_DURATION};

verus! {

/// The ownership record a purchase writes.
pub open spec fn bought_record(
    club_name: String,
    buyer: String,
    now: u64,
    price: u128,
) -> ClubOwnershipDetails {
    ClubOwnershipDetails {
        club_name: club_name,
        start_timestamp: now,
        locking_period: CLUB_LOCKING_DURATION,
        owner_address: buyer,
        price_paid: price,
        reward_amount: CLUB_BUYING_REWARD_AMOUNT,
        owner_released: false,
    }
}

/// Everything `buy_a_club` promises: which failures come on which inputs,
/// and the exact ledgers a successful purchase leaves behind.
pub open spec fn buy_outcome(
    pre: ClubStakingState,
    post: ClubStakingState,
    r: Result<(), ContractError>,
    now: u64,
    sender: String,
    buyer: String,
    seller: String,
    club_name: String,
    price: u128,
) -> bool {
    let oi = key_idx(pre.ownerships@, club_name@);
    if sender@ != buyer@ {
        r == Err::<(), ContractError>(ContractError::Unauthorized) && post == pre
    } else if oi != -1 && !pre.ownerships@[oi].owner_released {
        r == Err::<(), ContractError>(ContractError::InvalidState(StateFault::OwnerNotReleased))
            && post == pre
    } else if oi != -1 && seller@.len() != 0 && pre.ownerships@[oi].owner_address@ != seller@ {
        r == Err::<(), ContractError>(ContractError::InvalidState(StateFault::SellerNotOwner))
            && post == pre
    } else {
        let captured: u128 = if oi == -1 {
            0
        } else {
            pre.ownerships@[oi].reward_amount
        };
        &&& r == Ok::<(), ContractError>(())
        &&& post.ownerships@ == upsert_by_key(
            pre.ownerships@,
            bought_record(club_name, buyer, now, price),
        )
        &&& (if seller@.len() == 0 {
            post.wallet@ == wallet_credited(pre.wallet@, buyer, price as int)
                && post.previous_owners@ == pre.previous_owners@
        } else {
            post.wallet@ == wallet_with(
                wallet_credited(pre.wallet@, buyer, price as int),
                seller,
                0,
            ) && post.previous_owners@ == upsert_by_key(
                pre.previous_owners@,
                ClubPreviousOwnerDetails {
                    club_name: club_name,
                    previous_owner_address: seller,
                    reward_amount: captured,
                },
            )
        })
        &&& post.stakes == pre.stakes
        &&& post.bonds == pre.bonds
        &&& post.reward == pre.reward
        &&& post.config == pre.config
    }
}

/// Buy `club_name` for `buyer` at `price`.
///
/// A club with no ownership record can always be bought. One with a record
/// can only be bought once its owner has released it, and a non-empty
/// `seller` must name that owner; the new record then overwrites the old
/// one, the seller's escrow entry is zeroed, and the seller's accrued
/// reward moves into a previous-owner record. The buyer's escrow entry
/// grows by `price`; debiting the buyer's real tokens is the token
/// module's business.
pub fn buy_a_club(
    state: &mut ClubStakingState,
    now: u64,
    sender: &String,
    buyer: String,
    seller: String,
    club_name: String,
    price: u128,
) -> (r: Result<(), ContractError>)
    requires
        old(state).wf(),
        wallet_amount(old(state).wallet@, buyer@) + price <= u128::MAX,
    ensures
        final(state).wf(),
        buy_outcome(*old(state), *final(state), r, now, *sender, buyer, seller, club_name, price),
{
    if !(*sender == buyer) {
        return Err(ContractError::Unauthorized);
    }
    let found = find_by_key(&state.ownerships, &club_name);
    let mut captured: u128 = 0;
    match found {
        Some(i) => {
            if !state.ownerships[i].owner_released {
                return Err(ContractError::InvalidState(StateFault::OwnerNotReleased));
            }
            if !seller.as_str().is_empty() && !(state.ownerships[i].owner_address == seller) {
                return Err(ContractError::InvalidState(StateFault::SellerNotOwner));
            }
            captured = state.ownerships[i].reward_amount;
        },
        None => {},
    }
    let rec = ClubOwnershipDetails {
        club_name: club_name.clone(),
        start_timestamp: now,
        locking_period: CLUB_LOCKING_DURATION,
        owner_address: buyer.clone(),
        price_paid: price,
        reward_amount: CLUB_BUYING_REWARD_AMOUNT,
        owner_released: false,
    };
    proof {
        assert(rec == bought_record(club_name, buyer, now, price));
        lemma_upsert_keeps_unique_keys(state.ownerships@, rec);
    }
    match found {
        Some(i) => {
            state.ownerships[i] = rec;
        },
        None => {
            state.ownerships.push(rec);
        },
    }
    wallet_credit(&mut state.wallet, &buyer, price);
    if !seller.as_str().is_empty() {
        wallet_set(&mut state.wallet, &seller, 0);
        let prec = ClubPreviousOwnerDetails {
            club_name: club_name.clone(),
            previous_owner_address: seller.clone(),
            reward_amount: captured,
        };
        proof {
            lemma_upsert_keeps_unique_keys(state.previous_owners@, prec);
        }
        let pfound = find_by_key(&state.previous_owners, &club_name);
        match pfound {
            Some(i) => {
                state.previous_owners[i] = prec;
            },
            None => {
                state.previous_owners.push(prec);
            },
        }
    }
    Ok(())
}

/// Everything `release_club` promises.
pub open spec fn release_outcome(
    pre: ClubStakingState,
    post: ClubStakingState,
    r: Result<(), ContractError>,
    now: u64,
    sender: String,
    seller: String,
    club_name: String,
) -> bool {
    let oi = key_idx(pre.ownerships@, club_name@);
    if sender@ != seller@ {
        r == Err::<(), ContractError>(ContractError::Unauthorized) && post == pre
    } else if oi == -1 || pre.ownerships@[oi].owner_address@ != seller@ {
        r == Err::<(), ContractError>(ContractError::InvalidState(StateFault::ReleaserNotOwner))
            && post == pre
    } else if now - pre.ownerships@[oi].locking_period < pre.ownerships@[oi].start_timestamp {
        r == Err::<(), ContractError>(ContractError::InvalidState(
            StateFault::LockingPeriodNotOver,
        )) && post == pre
    } else {
        &&& r == Ok::<(), ContractError>(())
        &&& post.ownerships@ == pre.ownerships@.update(
            oi,
            ClubOwnershipDetails { owner_released: true, ..pre.ownerships@[oi] },
        )
        &&& post.previous_owners == pre.previous_owners
        &&& post.stakes == pre.stakes
        &&& post.bonds == pre.bonds
        &&& post.wallet == pre.wallet
        &&& post.reward == pre.reward
        &&& post.config == pre.config
    }
}

/// Release `club_name` for resale.
///
/// Only the club's current owner may release it, and only once the locking
/// period has elapsed: `now - locking_period >= start_timestamp`. On
/// success the record is rewritten with `owner_released` set, all other
/// fields unchanged.
pub fn release_club(
    state: &mut ClubStakingState,
    now: u64,
    sender: &String,
    seller: String,
    club_name: String,
) -> (r: Result<(), ContractError>)
    requires
        old(state).wf(),
    ensures
        final(state).wf(),
        release_outcome(*old(state), *final(state), r, now, *sender, seller, club_name),
{
    if !(*sender == seller) {
        return Err(ContractError::Unauthorized);
    }
    let found = find_by_key(&state.ownerships, &club_name);
    match found {
        None => Err(ContractError::InvalidState(StateFault::ReleaserNotOwner)),
        Some(i) => {
            if !(state.ownerships[i].owner_address == seller) {
                return Err(ContractError::InvalidState(StateFault::ReleaserNotOwner));
            }
            let lock = state.ownerships[i].locking_period;
            let start = state.ownerships[i].start_timestamp;
            if now < lock || now - lock < start {
                return Err(ContractError::InvalidState(StateFault::LockingPeriodNotOver));
            }
            let rec = ClubOwnershipDetails {
                club_name: state.ownerships[i].club_name.clone(),
                start_timestamp: start,
                locking_period: lock,
                owner_address: state.ownerships[i].owner_address.clone(),
                price_paid: state.ownerships[i].price_paid,
                reward_amount: state.ownerships[i].reward_amount,
                owner_released: true,
            };
            proof {
                lemma_update_same_key_unique(state.ownerships@, i as int, rec);
            }
            state.ownerships[i] = rec;
            Ok(())
        },
    }
}

/// Everything `claim_owner_rewards` promises.
pub open spec fn claim_owner_outcome(
    pre: ClubStakingState,
    post: ClubStakingState,
    r: Result<(), ContractError>,
    sender: String,
    owner: String,
    club_name: String,
    amount: u128,
) -> bool {
    let oi = key_idx(pre.ownerships@, club_name@);
    if sender@ != owner@ {
        r == Err::<(), ContractError>(ContractError::Unauthorized) && post == pre
    } else if oi == -1 || pre.ownerships@[oi].owner_address@ != owner@ {
        r == Err::<(), ContractError>(ContractError::NotAvailable) && post == pre
    } else if amount > pre.ownerships@[oi].reward_amount {
        r == Err::<(), ContractError>(ContractError::InvalidState(StateFault::InsufficientRewards))
            && post == pre
    } else {
        &&& r == Ok::<(), ContractError>(())
        &&& post.ownerships@ == pre.ownerships@.update(
            oi,
            ClubOwnershipDetails {
                reward_amount: (pre.ownerships@[oi].reward_amount - amount) as u128,
                ..pre.ownerships@[oi]
            },
        )
        &&& post.previous_owners == pre.previous_owners
        &&& post.stakes == pre.stakes
        &&& post.bonds == pre.bonds
        &&& post.wallet == pre.wallet
        &&& post.reward == pre.reward
        &&& post.config == pre.config
    }
}

/// Claim `amount` from the reward accrued to `club_name`'s owner.
///
/// The claim fails when no record matches the claimant — the club was
/// never bought, or its recorded owner is someone else — and must not
/// exceed the accrued reward; the record's reward shrinks by `amount`.
/// Crediting the owner's wallet with real tokens is the token module's
/// business.
pub fn claim_owner_rewards(
    state: &mut ClubStakingState,
    sender: &String,
    owner: String,
    club_name: String,
    amount: u128,
) -> (r: Result<(), ContractError>)
    requires
        old(state).wf(),
    ensures
        final(state).wf(),
        claim_owner_outcome(*old(state), *final(state), r, *sender, owner, club_name, amount),
{
    if !(*sender == owner) {
        return Err(ContractError::Unauthorized);
    }
    let found = find_by_key(&state.ownerships, &club_name);
    match found {
        None => Err(ContractError::NotAvailable),
        Some(i) => {
            if !(state.ownerships[i].owner_address == owner) {
                return Err(ContractError::NotAvailable);
            }
            if amount > state.ownerships[i].reward_amount {
                return Err(ContractError::InvalidState(StateFault::InsufficientRewards));
            }
            let rec = ClubOwnershipDetails {
                club_name: state.ownerships[i].club_name.clone(),
                start_timestamp: state.ownerships[i].start_timestamp,
                locking_period: state.ownerships[i].locking_period,
                owner_address: state.ownerships[i].owner_address.clone(),
                price_paid: state.ownerships[i].price_paid,
                reward_amount: state.ownerships[i].reward_amount - amount,
                owner_released: state.ownerships[i].owner_released,
            };
            proof {
                lemma_update_same_key_unique(state.ownerships@, i as int, rec);
            }
            state.ownerships[i] = rec;
            Ok(())
        },
    }
}

/// Everything `claim_previous_owner_rewards` promises.
pub open spec fn claim_previous_owner_outcome(
    pre: ClubStakingState,
    post: ClubStakingState,
    r: Result<(), ContractError>,
    sender: String,
    previous_owner: String,
    club_name: String,
    amount: u128,
) -> bool {
    let pi = key_idx(pre.previous_owners@, club_name@);
    if sender@ != previous_owner@ {
        r == Err::<(), ContractError>(ContractError::Unauthorized) && post == pre
    } else if pi == -1 || pre.previous_owners@[pi].previous_owner_address@ != previous_owner@ {
        r == Err::<(), ContractError>(ContractError::NotAvailable) && post == pre
    } else if amount > pre.previous_owners@[pi].reward_amount {
        r == Err::<(), ContractError>(ContractError::InvalidState(StateFault::InsufficientRewards))
            && post == pre
    } else {
        &&& r == Ok::<(), ContractError>(())
        &&& post.previous_owners@ == pre.previous_owners@.update(
            pi,
            ClubPreviousOwnerDetails {
                reward_amount: (pre.previous_owners@[pi].reward_amount - amount) as u128,
                ..pre.previous_owners@[pi]
            },
        )
        &&& post.ownerships == pre.ownerships
        &&& post.stakes == pre.stakes
        &&& post.bonds == pre.bonds
        &&& post.wallet == pre.wallet
        &&& post.reward == pre.reward
        &&& post.config == pre.config
    }
}

/// Claim `amount` from the reward still owed to `club_name`'s previous
/// owner.
///
/// The claim fails when no record matches the claimant — the club was
/// never resold, or its recorded previous owner is someone else — and
/// must not exceed the owed reward; the record's reward shrinks by
/// `amount`.
pub fn claim_previous_owner_rewards(
    state: &mut ClubStakingState,
    sender: &String,
    previous_owner: String,
    club_name: String,
    amount: u128,
) -> (r: Result<(), ContractError>)
    requires
        old(state).wf(),
    ensures
        final(state).wf(),
        claim_previous_owner_outcome(
            *old(state),
            *final(state),
            r,
            *sender,
            previous_owner,
            club_name,
            amount,
        ),
{
    if !(*sender == previous_owner) {
        return Err(ContractError::Unauthorized);
    }
    let found = find_by_key(&state.previous_owners, &club_name);
    match found {
        None => Err(ContractError::NotAvailable),
        Some(i) => {
            if !(state.previous_owners[i].previous_owner_address == previous_owner) {
                return Err(ContractError::NotAvailable);
            }
            if amount > state.previous_owners[i].reward_amount {
                return Err(ContractError::InvalidState(StateFault::InsufficientRewards));
            }
            let rec = ClubPreviousOwnerDetails {
                club_name: state.previous_owners[i].club_name.clone(),
                previous_owner_address: state.previous_owners[i].previous_owner_address.clone(),
                reward_amount: state.previous_owners[i].reward_amount - amount,
            };
            proof {
                lemma_update_same_key_unique(state.previous_owners@, i as int, rec);
            }
            state.previous_owners[i] = rec;
            Ok(())
        },
    }
}

/// The ownership record of `club_name`, or `None` if the club was never
/// bought.
pub fn query_club_ownership_details(
    state: &ClubStakingState,
    club_name: String,
) -> (r: Option<ClubOwnershipDetails>)
    ensures
        ({
            let oi = key_idx(state.ownerships@, club_name@);
            match r {
                Some(rec) => oi != -1 && rec == state.ownerships@[oi],
                None => oi == -1,
            }
        }),
{
    let found = find_by_key(&state.ownerships, &club_name);
    match found {
        Some(i) => Some(state.ownerships[i].clone()),
        None => None,
    }
}

/// The previous-owner record of `club_name`, or `None` if the club was
/// never resold with a named seller.
pub fn query_club_previous_owner_details(
    state: &ClubStakingState,
    club_name: String,
) -> (r: Option<ClubPreviousOwnerDetails>)
    ensures
        ({
            let pi = key_idx(state.previous_owners@, club_name@);
            match r {
                Some(rec) => pi != -1 && rec == state.previous_owners@[pi],
                None => pi == -1,
            }
        }),
{
    let found = find_by_key(&state.previous_owners, &club_name);
    match found {
        Some(i) => Some(state.previous_owners[i].clone()),
        None => None,
    }
}

} // verus!
