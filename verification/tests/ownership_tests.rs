use club_staking::error::{ContractError, StateFault};
use club_staking::ownership::{
    buy_a_club, claim_owner_rewards, claim_previous_owner_rewards, query_club_ownership_details,
    query_club_previous_owner_details, release_club,
};
use club_staking::state::ClubStakingState;

const NOW: u64 = 1_571_797_419;
const DAY: u64 = 24 * 60 * 60;

#[test]
fn test_buying_of_club() {
    let mut state = ClubStakingState::new();
    let owner1 = "Owner001".to_string();
    let _ = buy_a_club(
        &mut state,
        NOW,
        &owner1,
        "Owner001".to_string(),
        "".to_string(),
        "CLUB001".to_string(),
        1000,
    );

    let query_res = query_club_ownership_details(&state, "CLUB001".to_string());
    match query_res {
        Some(cod) => {
            assert_eq!(cod.owner_address, "Owner001".to_string());
            assert_eq!(cod.price_paid, 1000u128);
            assert_eq!(cod.owner_released, false);
            assert_eq!(cod.reward_amount, 100u128);
        }
        None => {
            println!("error parsing header");
            assert_eq!(1, 2);
        }
    }
}

#[test]
fn test_owner_claim_rewards() {
    let mut state = ClubStakingState::new();
    let owner1 = "Owner001".to_string();
    let _ = buy_a_club(
        &mut state,
        NOW,
        &owner1,
        "Owner001".to_string(),
        "".to_string(),
        "CLUB001".to_string(),
        1000,
    );

    let query_res = query_club_ownership_details(&state, "CLUB001".to_string());
    match query_res {
        Some(cod) => {
            assert_eq!(cod.owner_address, "Owner001".to_string());
            assert_eq!(cod.price_paid, 1000u128);
            assert_eq!(cod.owner_released, false);
            assert_eq!(cod.reward_amount, 100u128);
        }
        None => {
            println!("error parsing header");
            assert_eq!(1, 2);
        }
    }

    let _ = claim_owner_rewards(
        &mut state,
        &owner1,
        "Owner001".to_string(),
        "CLUB001".to_string(),
        10,
    );

    let query_res_after = query_club_ownership_details(&state, "CLUB001".to_string());
    match query_res_after {
        Some(cod) => {
            assert_eq!(cod.owner_address, "Owner001".to_string());
            assert_eq!(cod.price_paid, 1000u128);
            assert_eq!(cod.owner_released, false);
            assert_eq!(cod.reward_amount, 90u128);
        }
        None => {
            println!("error parsing header");
            assert_eq!(1, 2);
        }
    }
}

#[test]
fn test_multiple_buying_of_club() {
    let mut state = ClubStakingState::new();
    let owner1 = "Owner001".to_string();
    let _ = buy_a_club(
        &mut state,
        NOW,
        &owner1,
        "Owner001".to_string(),
        "".to_string(),
        "CLUB001".to_string(),
        1000,
    );

    let owner2 = "Owner002".to_string();
    let _ = buy_a_club(
        &mut state,
        NOW,
        &owner2,
        "Owner002".to_string(),
        "".to_string(),
        "CLUB001".to_string(),
        1000,
    );

    let query_res = query_club_ownership_details(&state, "CLUB001".to_string());
    match query_res {
        Some(cod) => {
            assert_eq!(cod.owner_address, "Owner001".to_string());
            assert_eq!(cod.price_paid, 1000u128);
            assert_eq!(cod.owner_released, false);
        }
        None => {
            println!("error parsing header");
            assert_eq!(1, 2);
        }
    }
}

#[test]
fn test_releasing_of_club_before_locking_period() {
    let mut state = ClubStakingState::new();
    let owner1 = "Owner001".to_string();
    let _ = buy_a_club(
        &mut state,
        NOW,
        &owner1,
        "Owner001".to_string(),
        "".to_string(),
        "CLUB001".to_string(),
        1000,
    );

    let _ = release_club(&mut state, NOW, &owner1, "Owner001".to_string(), "CLUB001".to_string());

    let query_res = query_club_ownership_details(&state, "CLUB001".to_string());
    match query_res {
        Some(cod) => {
            assert_eq!(cod.owner_address, "Owner001".to_string());
            assert_eq!(cod.price_paid, 1000u128);
            assert_eq!(cod.owner_released, false);
        }
        None => {
            println!("error parsing header");
            assert_eq!(1, 2);
        }
    }
}

#[test]
fn test_releasing_of_club_after_locking_period() {
    let mut state = ClubStakingState::new();
    let owner1 = "Owner001".to_string();
    let _ = buy_a_club(
        &mut state,
        NOW,
        &owner1,
        "Owner001".to_string(),
        "".to_string(),
        "CLUB001".to_string(),
        1000,
    );

    let _ = release_club(&mut state, NOW, &owner1, "Owner001".to_string(), "CLUB001".to_string());

    let query_res = query_club_ownership_details(&state, "CLUB001".to_string());
    match query_res {
        Some(cod) => {
            assert_eq!(cod.owner_address, "Owner001".to_string());
            assert_eq!(cod.price_paid, 1000u128);
            assert_eq!(cod.owner_released, false);
        }
        None => {
            println!("error parsing header");
            assert_eq!(1, 2);
        }
    }
    // push the purchase 22 days into the past, as if the locking period ran out
    state.ownerships[0].start_timestamp = NOW - 22 * DAY;

    let _ = release_club(&mut state, NOW, &owner1, "Owner001".to_string(), "CLUB001".to_string());

    let query_res_after_releasing = query_club_ownership_details(&state, "CLUB001".to_string());
    match query_res_after_releasing {
        Some(cod) => {
            assert_eq!(cod.owner_address, "Owner001".to_string());
            assert_eq!(cod.price_paid, 1000u128);
            assert_eq!(cod.owner_released, true);
        }
        None => {
            println!("error parsing header");
            assert_eq!(1, 2);
        }
    }
}

#[test]
fn test_buying_of_club_after_releasing_by_prev_owner() {
    let mut state = ClubStakingState::new();
    let owner1 = "Owner001".to_string();
    let _ = buy_a_club(
        &mut state,
        NOW,
        &owner1,
        "Owner001".to_string(),
        "".to_string(),
        "CLUB001".to_string(),
        1000,
    );

    let _ = release_club(&mut state, NOW, &owner1, "Owner001".to_string(), "CLUB001".to_string());

    let query_res = query_club_ownership_details(&state, "CLUB001".to_string());
    match query_res {
        Some(cod) => {
            assert_eq!(cod.owner_address, "Owner001".to_string());
            assert_eq!(cod.price_paid, 1000u128);
        }
        None => {
            println!("error parsing header");
            assert_eq!(1, 2);
        }
    }
    state.ownerships[0].start_timestamp = NOW - 22 * DAY;

    let _ = release_club(&mut state, NOW, &owner1, "Owner001".to_string(), "CLUB001".to_string());

    let query_res_after_releasing = query_club_ownership_details(&state, "CLUB001".to_string());
    match query_res_after_releasing {
        Some(cod) => {
            assert_eq!(cod.owner_address, "Owner001".to_string());
            assert_eq!(cod.price_paid, 1000u128);
            assert_eq!(cod.owner_released, true);
        }
        None => {
            println!("error parsing header");
            assert_eq!(1, 2);
        }
    }

    let owner2 = "Owner002".to_string();
    let _ = buy_a_club(
        &mut state,
        NOW,
        &owner2,
        "Owner002".to_string(),
        "Owner001".to_string(),
        "CLUB001".to_string(),
        1000,
    );

    let query_res_after_selling = query_club_ownership_details(&state, "CLUB001".to_string());
    match query_res_after_selling {
        Some(cod) => {
            assert_eq!(cod.owner_address, "Owner002".to_string());
            assert_eq!(cod.price_paid, 1000u128);
            assert_eq!(cod.owner_released, false);
        }
        None => {
            println!("error parsing header");
            assert_eq!(1, 2);
        }
    }
}

#[test]
fn test_claim_previous_owner_rewards() {
    let mut state = ClubStakingState::new();
    let owner1 = "Owner001".to_string();
    let _ = buy_a_club(
        &mut state,
        NOW,
        &owner1,
        "Owner001".to_string(),
        "".to_string(),
        "CLUB001".to_string(),
        1000,
    );

    let _ = release_club(&mut state, NOW, &owner1, "Owner001".to_string(), "CLUB001".to_string());

    let query_res = query_club_ownership_details(&state, "CLUB001".to_string());
    match query_res {
        Some(cod) => {
            assert_eq!(cod.owner_address, "Owner001".to_string());
            assert_eq!(cod.price_paid, 1000u128);
        }
        None => {
            println!("error parsing header");
            assert_eq!(1, 2);
        }
    }
    state.ownerships[0].start_timestamp = NOW - 22 * DAY;

    let _ = release_club(&mut state, NOW, &owner1, "Owner001".to_string(), "CLUB001".to_string());

    let query_res_after_releasing = query_club_ownership_details(&state, "CLUB001".to_string());
    match query_res_after_releasing {
        Some(cod) => {
            assert_eq!(cod.owner_address, "Owner001".to_string());
            assert_eq!(cod.price_paid, 1000u128);
            assert_eq!(cod.owner_released, true);
        }
        None => {
            println!("error parsing header");
            assert_eq!(1, 2);
        }
    }

    let owner2 = "Owner002".to_string();
    let _ = buy_a_club(
        &mut state,
        NOW,
        &owner2,
        "Owner002".to_string(),
        "Owner001".to_string(),
        "CLUB001".to_string(),
        1000,
    );

    let query_res_after_selling = query_club_ownership_details(&state, "CLUB001".to_string());
    match query_res_after_selling {
        Some(cod) => {
            assert_eq!(cod.owner_address, "Owner002".to_string());
            assert_eq!(cod.price_paid, 1000u128);
            assert_eq!(cod.owner_released, false);
        }
        None => {
            println!("error parsing header");
            assert_eq!(1, 2);
        }
    }

    let _ = claim_previous_owner_rewards(
        &mut state,
        &owner1,
        "Owner001".to_string(),
        "CLUB001".to_string(),
        10,
    );
    let query_prev_owner_after_claim =
        query_club_previous_owner_details(&state, "CLUB001".to_string());
    match query_prev_owner_after_claim {
        Some(pod) => {
            assert_eq!(pod.club_name, "CLUB001".to_string());
            assert_eq!(pod.previous_owner_address, "Owner001".to_string());
            assert_eq!(pod.reward_amount, 90u128);
        }
        None => {
            println!("error parsing header");
            assert_eq!(1, 2);
        }
    }
}

#[test]
fn buying_by_other_sender_is_unauthorized() {
    let mut state = ClubStakingState::new();
    let intruder = "Mallory01".to_string();
    let res = buy_a_club(
        &mut state,
        NOW,
        &intruder,
        "Owner001".to_string(),
        "".to_string(),
        "CLUB001".to_string(),
        1000,
    );
    assert_eq!(res, Err(ContractError::Unauthorized));
    assert!(query_club_ownership_details(&state, "CLUB001".to_string()).is_none());
}

#[test]
fn buying_an_unreleased_club_fails() {
    let mut state = ClubStakingState::new();
    let owner1 = "Owner001".to_string();
    let owner2 = "Owner002".to_string();
    let _ = buy_a_club(
        &mut state,
        NOW,
        &owner1,
        "Owner001".to_string(),
        "".to_string(),
        "CLUB001".to_string(),
        1000,
    );
    let res = buy_a_club(
        &mut state,
        NOW,
        &owner2,
        "Owner002".to_string(),
        "".to_string(),
        "CLUB001".to_string(),
        1000,
    );
    assert_eq!(res, Err(ContractError::InvalidState(StateFault::OwnerNotReleased)));
}

#[test]
fn buying_with_wrong_seller_fails() {
    let mut state = ClubStakingState::new();
    let owner1 = "Owner001".to_string();
    let owner2 = "Owner002".to_string();
    let _ = buy_a_club(
        &mut state,
        NOW,
        &owner1,
        "Owner001".to_string(),
        "".to_string(),
        "CLUB001".to_string(),
        1000,
    );
    state.ownerships[0].start_timestamp = NOW - 22 * DAY;
    let _ = release_club(&mut state, NOW, &owner1, "Owner001".to_string(), "CLUB001".to_string());
    let res = buy_a_club(
        &mut state,
        NOW,
        &owner2,
        "Owner002".to_string(),
        "Owner003".to_string(),
        "CLUB001".to_string(),
        1000,
    );
    assert_eq!(res, Err(ContractError::InvalidState(StateFault::SellerNotOwner)));
}

#[test]
fn releasing_by_non_owner_fails() {
    let mut state = ClubStakingState::new();
    let owner1 = "Owner001".to_string();
    let other = "Owner002".to_string();
    let _ = buy_a_club(
        &mut state,
        NOW,
        &owner1,
        "Owner001".to_string(),
        "".to_string(),
        "CLUB001".to_string(),
        1000,
    );
    let res =
        release_club(&mut state, NOW, &other, "Owner002".to_string(), "CLUB001".to_string());
    assert_eq!(res, Err(ContractError::InvalidState(StateFault::ReleaserNotOwner)));
    let res2 = release_club(
        &mut state,
        NOW + 30 * DAY,
        &owner1,
        "Owner001".to_string(),
        "CLUB002".to_string(),
    );
    assert_eq!(res2, Err(ContractError::InvalidState(StateFault::ReleaserNotOwner)));
}

#[test]
fn releasing_early_reports_locking_period() {
    let mut state = ClubStakingState::new();
    let owner1 = "Owner001".to_string();
    let _ = buy_a_club(
        &mut state,
        NOW,
        &owner1,
        "Owner001".to_string(),
        "".to_string(),
        "CLUB001".to_string(),
        1000,
    );
    let res = release_club(
        &mut state,
        NOW + 20 * DAY,
        &owner1,
        "Owner001".to_string(),
        "CLUB001".to_string(),
    );
    assert_eq!(res, Err(ContractError::InvalidState(StateFault::LockingPeriodNotOver)));
    // exactly 21 days later the locking period is over
    let res2 = release_club(
        &mut state,
        NOW + 21 * DAY,
        &owner1,
        "Owner001".to_string(),
        "CLUB001".to_string(),
    );
    assert_eq!(res2, Ok(()));
    assert!(query_club_ownership_details(&state, "CLUB001".to_string()).unwrap().owner_released);
}

#[test]
fn overclaiming_owner_rewards_fails() {
    let mut state = ClubStakingState::new();
    let owner1 = "Owner001".to_string();
    let _ = buy_a_club(
        &mut state,
        NOW,
        &owner1,
        "Owner001".to_string(),
        "".to_string(),
        "CLUB001".to_string(),
        1000,
    );
    let res = claim_owner_rewards(
        &mut state,
        &owner1,
        "Owner001".to_string(),
        "CLUB001".to_string(),
        101,
    );
    assert_eq!(res, Err(ContractError::InvalidState(StateFault::InsufficientRewards)));
    let missing = claim_owner_rewards(
        &mut state,
        &owner1,
        "Owner001".to_string(),
        "CLUB002".to_string(),
        1,
    );
    assert_eq!(missing, Err(ContractError::NotAvailable));
}

#[test]
fn claims_need_a_matching_record() {
    let mut state = ClubStakingState::new();
    let owner1 = "Owner001".to_string();
    let _ = buy_a_club(
        &mut state,
        NOW,
        &owner1,
        "Owner001".to_string(),
        "".to_string(),
        "CLUB001".to_string(),
        1000,
    );
    // the record's owner is someone else: the claim finds no matching record
    let other = "Owner002".to_string();
    let res = claim_owner_rewards(
        &mut state,
        &other,
        "Owner002".to_string(),
        "CLUB001".to_string(),
        1,
    );
    assert_eq!(res, Err(ContractError::NotAvailable));
    // the club was never resold: no previous-owner record matches either
    let res2 = claim_previous_owner_rewards(
        &mut state,
        &owner1,
        "Owner001".to_string(),
        "CLUB001".to_string(),
        1,
    );
    assert_eq!(res2, Err(ContractError::NotAvailable));
    assert_eq!(
        query_club_ownership_details(&state, "CLUB001".to_string()).unwrap().reward_amount,
        100u128
    );
}

#[test]
fn overclaiming_previous_owner_rewards_fails() {
    let mut state = ClubStakingState::new();
    let owner1 = "Owner001".to_string();
    let owner2 = "Owner002".to_string();
    let _ = buy_a_club(
        &mut state,
        NOW,
        &owner1,
        "Owner001".to_string(),
        "".to_string(),
        "CLUB001".to_string(),
        1000,
    );
    state.ownerships[0].start_timestamp = NOW - 22 * DAY;
    let _ = release_club(&mut state, NOW, &owner1, "Owner001".to_string(), "CLUB001".to_string());
    let _ = buy_a_club(
        &mut state,
        NOW,
        &owner2,
        "Owner002".to_string(),
        "Owner001".to_string(),
        "CLUB001".to_string(),
        1000,
    );
    let res = claim_previous_owner_rewards(
        &mut state,
        &owner1,
        "Owner001".to_string(),
        "CLUB001".to_string(),
        101,
    );
    assert_eq!(res, Err(ContractError::InvalidState(StateFault::InsufficientRewards)));
    // the record's previous owner is someone else: no matching record
    let res2 = claim_previous_owner_rewards(
        &mut state,
        &owner2,
        "Owner002".to_string(),
        "CLUB001".to_string(),
        1,
    );
    assert_eq!(res2, Err(ContractError::NotAvailable));
}

#[test]
fn first_purchase_credits_buyer_escrow() {
    let mut state = ClubStakingState::new();
    let owner1 = "Owner001".to_string();
    let _ = buy_a_club(
        &mut state,
        NOW,
        &owner1,
        "Owner001".to_string(),
        "".to_string(),
        "CLUB001".to_string(),
        1000,
    );
    assert_eq!(state.wallet.len(), 1);
    assert_eq!(state.wallet[0].address, "Owner001".to_string());
    assert_eq!(state.wallet[0].amount, 1000u128);
}

#[test]
fn resale_zeroes_seller_escrow() {
    let mut state = ClubStakingState::new();
    let owner1 = "Owner001".to_string();
    let owner2 = "Owner002".to_string();
    let _ = buy_a_club(
        &mut state,
        NOW,
        &owner1,
        "Owner001".to_string(),
        "".to_string(),
        "CLUB001".to_string(),
        1000,
    );
    state.ownerships[0].start_timestamp = NOW - 22 * DAY;
    let _ = release_club(&mut state, NOW, &owner1, "Owner001".to_string(), "CLUB001".to_string());
    let _ = buy_a_club(
        &mut state,
        NOW,
        &owner2,
        "Owner002".to_string(),
        "Owner001".to_string(),
        "CLUB001".to_string(),
        1000,
    );
    // the seller's escrow entry is zeroed, the buyer's grew by the price
    let mut seller_amount = None;
    let mut buyer_amount = None;
    for entry in &state.wallet {
        if entry.address == "Owner001" {
            seller_amount = Some(entry.amount);
        }
        if entry.address == "Owner002" {
            buyer_amount = Some(entry.amount);
        }
    }
    assert_eq!(seller_amount, Some(0u128));
    assert_eq!(buyer_amount, Some(1000u128));
}
