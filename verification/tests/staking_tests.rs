use club_staking::error::{ContractError, StateFault};
use club_staking::ownership::buy_a_club;
use club_staking::staking::{
    claim_rewards, periodically_refund_stakeouts, query_all_bonds, query_all_stakes,
    query_club_bonding_details, query_club_staking_details, stake_on_a_club,
    withdraw_stake_from_a_club,
};
use club_staking::state::ClubStakingState;

const NOW: u64 = 1_571_797_419;
const DAY: u64 = 24 * 60 * 60;
const OPERATOR: &str = "terra1t3czdl5h4w4qwgkzs80fdstj0z7rfv9v2j6uh3";

fn state_with_club001() -> ClubStakingState {
    let mut state = ClubStakingState::new();
    let owner1 = "Owner001".to_string();
    let _ = buy_a_club(
        &mut state,
        NOW,
        &owner1,
        "Owner001".to_string(),
        "".to_string(),
        "CLUB001".to_string(),
        1000,
    );
    state
}

#[test]
fn test_multiple_staking_on_club_by_same_address() {
    let mut state = state_with_club001();

    let staker = "Staker0001".to_string();
    let _ = stake_on_a_club(&mut state, NOW, &staker, "Staker0001".to_string(), "CLUB001".to_string(), 33);
    let _ = stake_on_a_club(&mut state, NOW, &staker, "Staker0001".to_string(), "CLUB001".to_string(), 11);
    let _ = stake_on_a_club(&mut state, NOW, &staker, "Staker0001".to_string(), "CLUB001".to_string(), 42);

    let all_stakes = query_all_stakes(&state);
    assert_eq!(all_stakes.len(), 1);
    for stake in all_stakes {
        assert_eq!(stake.staked_amount, 86u128);
    }
}

#[test]
fn test_immediate_partial_withdrawals_from_club() {
    let mut state = state_with_club001();

    let staker = "Staker0001".to_string();
    let _ = stake_on_a_club(&mut state, NOW, &staker, "Staker0001".to_string(), "CLUB001".to_string(), 99);
    let _ = withdraw_stake_from_a_club(
        &mut state, NOW, &staker, "Staker0001".to_string(), "CLUB001".to_string(), 11, true,
    );
    let _ = withdraw_stake_from_a_club(
        &mut state, NOW, &staker, "Staker0001".to_string(), "CLUB001".to_string(), 12, true,
    );
    let _ = withdraw_stake_from_a_club(
        &mut state, NOW, &staker, "Staker0001".to_string(), "CLUB001".to_string(), 13, true,
    );

    let all_stakes = query_all_stakes(&state);
    assert_eq!(all_stakes.len(), 1);
    for stake in all_stakes {
        assert_eq!(stake.staked_amount, 63u128);
    }

    let all_bonds = query_all_bonds(&state);
    assert_eq!(all_bonds.len(), 0);
}

#[test]
fn test_immediate_complete_withdrawals_from_club() {
    let mut state = state_with_club001();

    let staker = "Staker0001".to_string();
    let _ = stake_on_a_club(&mut state, NOW, &staker, "Staker0001".to_string(), "CLUB001".to_string(), 99);
    let _ = withdraw_stake_from_a_club(
        &mut state, NOW, &staker, "Staker0001".to_string(), "CLUB001".to_string(), 11, true,
    );
    let _ = withdraw_stake_from_a_club(
        &mut state, NOW, &staker, "Staker0001".to_string(), "CLUB001".to_string(), 12, true,
    );
    let _ = withdraw_stake_from_a_club(
        &mut state, NOW, &staker, "Staker0001".to_string(), "CLUB001".to_string(), 13, true,
    );
    let _ = withdraw_stake_from_a_club(
        &mut state, NOW, &staker, "Staker0001".to_string(), "CLUB001".to_string(), 63, true,
    );

    let all_stakes = query_all_stakes(&state);
    assert_eq!(all_stakes.len(), 0);

    let all_bonds = query_all_bonds(&state);
    assert_eq!(all_bonds.len(), 0);
}

#[test]
fn test_non_immediate_complete_withdrawals_from_club() {
    let mut state = state_with_club001();

    let staker = "Staker0001".to_string();
    let _ = stake_on_a_club(&mut state, NOW, &staker, "Staker0001".to_string(), "CLUB001".to_string(), 99);
    let _ = withdraw_stake_from_a_club(
        &mut state, NOW, &staker, "Staker0001".to_string(), "CLUB001".to_string(), 11, false,
    );
    let _ = withdraw_stake_from_a_club(
        &mut state, NOW, &staker, "Staker0001".to_string(), "CLUB001".to_string(), 12, false,
    );
    let _ = withdraw_stake_from_a_club(
        &mut state, NOW, &staker, "Staker0001".to_string(), "CLUB001".to_string(), 13, false,
    );
    let _ = withdraw_stake_from_a_club(
        &mut state, NOW, &staker, "Staker0001".to_string(), "CLUB001".to_string(), 63, false,
    );

    let all_stakes = query_all_stakes(&state);
    assert_eq!(all_stakes.len(), 0);

    let all_bonds = query_all_bonds(&state);
    assert_eq!(all_bonds.len(), 4);
    for bond in all_bonds {
        if bond.bonded_amount != 11u128
            && bond.bonded_amount != 12u128
            && bond.bonded_amount != 13u128
            && bond.bonded_amount != 63u128
        {
            println!("bond is {:?} ", bond.bonded_amount);
            assert_eq!(1, 2);
        }
    }
}

#[test]
fn test_non_immediate_complete_withdrawals_from_club_with_scheduled_refunds() {
    let mut state = state_with_club001();

    let staker = "Staker0001".to_string();
    let _ = stake_on_a_club(&mut state, NOW, &staker, "Staker0001".to_string(), "CLUB001".to_string(), 99);
    let _ = withdraw_stake_from_a_club(
        &mut state, NOW, &staker, "Staker0001".to_string(), "CLUB001".to_string(), 11, false,
    );
    let _ = withdraw_stake_from_a_club(
        &mut state, NOW, &staker, "Staker0001".to_string(), "CLUB001".to_string(), 12, false,
    );
    let _ = withdraw_stake_from_a_club(
        &mut state, NOW, &staker, "Staker0001".to_string(), "CLUB001".to_string(), 13, false,
    );
    let _ = withdraw_stake_from_a_club(
        &mut state, NOW, &staker, "Staker0001".to_string(), "CLUB001".to_string(), 63, false,
    );

    let all_stakes = query_all_stakes(&state);
    assert_eq!(all_stakes.len(), 0);

    let all_bonds = query_all_bonds(&state);
    assert_eq!(all_bonds.len(), 4);
    for bond in &all_bonds {
        if bond.bonded_amount != 11u128
            && bond.bonded_amount != 12u128
            && bond.bonded_amount != 13u128
            && bond.bonded_amount != 63u128
        {
            println!("updated_bond is {:?} ", bond.bonded_amount);
            assert_eq!(1, 2);
        }
    }
    // push the 63-amount bond 8 days into the past: only its bonding period
    // has elapsed when the sweep runs
    for bond in state.bonds[0].bonds.iter_mut() {
        if bond.bonded_amount == 63u128 {
            bond.bonding_start_timestamp = NOW - 8 * DAY;
        }
    }

    let refunder = OPERATOR.to_string();
    let swept = periodically_refund_stakeouts(&mut state, NOW, &refunder);
    let matured = swept.unwrap();
    assert_eq!(matured.len(), 1);
    assert_eq!(matured[0].bonded_amount, 63u128);

    let all_bonds_after = query_all_bonds(&state);
    assert_eq!(all_bonds_after.len(), 3);
    for bond in all_bonds_after {
        if bond.bonded_amount != 11u128
            && bond.bonded_amount != 12u128
            && bond.bonded_amount != 13u128
        {
            println!("bond is {:?} ", bond.bonded_amount);
            assert_eq!(1, 2);
        }
    }
}

#[test]
fn test_non_immediate_partial_withdrawals_from_club() {
    let mut state = state_with_club001();

    let staker = "Staker0001".to_string();
    let _ = stake_on_a_club(&mut state, NOW, &staker, "Staker0001".to_string(), "CLUB001".to_string(), 99);
    let _ = withdraw_stake_from_a_club(
        &mut state, NOW, &staker, "Staker0001".to_string(), "CLUB001".to_string(), 11, false,
    );
    let _ = withdraw_stake_from_a_club(
        &mut state, NOW, &staker, "Staker0001".to_string(), "CLUB001".to_string(), 12, false,
    );
    let _ = withdraw_stake_from_a_club(
        &mut state, NOW, &staker, "Staker0001".to_string(), "CLUB001".to_string(), 13, false,
    );

    let all_stakes = query_all_stakes(&state);
    assert_eq!(all_stakes.len(), 1);
    for stake in all_stakes {
        assert_eq!(stake.staked_amount, 63u128);
    }

    let all_bonds = query_all_bonds(&state);
    assert_eq!(all_bonds.len(), 3);
    for bond in all_bonds {
        if bond.bonded_amount != 11u128
            && bond.bonded_amount != 12u128
            && bond.bonded_amount != 13u128
        {
            println!("bond is {:?} ", bond.bonded_amount);
            assert_eq!(1, 2);
        }
    }
}

#[test]
fn staking_needs_an_owned_club() {
    let mut state = ClubStakingState::new();
    let staker = "Staker0001".to_string();
    let res = stake_on_a_club(
        &mut state,
        NOW,
        &staker,
        "Staker0001".to_string(),
        "CLUB001".to_string(),
        10,
    );
    assert_eq!(res, Err(ContractError::NotAvailable));
    let res2 = withdraw_stake_from_a_club(
        &mut state, NOW, &staker, "Staker0001".to_string(), "CLUB001".to_string(), 10, true,
    );
    assert_eq!(res2, Err(ContractError::NotAvailable));
}

#[test]
fn staking_by_other_sender_is_unauthorized() {
    let mut state = state_with_club001();
    let intruder = "Mallory01".to_string();
    let res = stake_on_a_club(
        &mut state,
        NOW,
        &intruder,
        "Staker0001".to_string(),
        "CLUB001".to_string(),
        10,
    );
    assert_eq!(res, Err(ContractError::Unauthorized));
}

#[test]
fn a_released_club_remains_stakeable() {
    let mut state = state_with_club001();
    state.ownerships[0].start_timestamp = NOW - 22 * DAY;
    let owner1 = "Owner001".to_string();
    let _ = club_staking::ownership::release_club(
        &mut state,
        NOW,
        &owner1,
        "Owner001".to_string(),
        "CLUB001".to_string(),
    );
    let staker = "Staker0001".to_string();
    let res = stake_on_a_club(
        &mut state,
        NOW,
        &staker,
        "Staker0001".to_string(),
        "CLUB001".to_string(),
        10,
    );
    assert_eq!(res, Ok(()));
    let row = query_club_staking_details(&state, "CLUB001".to_string()).unwrap();
    assert_eq!(row.len(), 1);
    assert_eq!(row[0].staker_address, "Staker0001".to_string());
    assert_eq!(row[0].staked_amount, 10u128);
    assert_eq!(row[0].reward_amount, 0u128);
}

#[test]
fn immediate_withdrawal_reports_ninety_percent_refund() {
    let mut state = state_with_club001();
    let staker = "Staker0001".to_string();
    let _ = stake_on_a_club(&mut state, NOW, &staker, "Staker0001".to_string(), "CLUB001".to_string(), 99);
    let res = withdraw_stake_from_a_club(
        &mut state, NOW, &staker, "Staker0001".to_string(), "CLUB001".to_string(), 11, true,
    );
    // 90% of 11, floored: the missing tenth is designated for burning
    assert_eq!(res, Ok(Some(9u128)));
    let res2 = withdraw_stake_from_a_club(
        &mut state, NOW, &staker, "Staker0001".to_string(), "CLUB001".to_string(), 20, false,
    );
    assert_eq!(res2, Ok(None));
}

#[test]
fn deferred_withdrawal_records_the_bonding_period() {
    let mut state = state_with_club001();
    let staker = "Staker0001".to_string();
    let _ = stake_on_a_club(&mut state, NOW, &staker, "Staker0001".to_string(), "CLUB001".to_string(), 99);
    let _ = withdraw_stake_from_a_club(
        &mut state, NOW, &staker, "Staker0001".to_string(), "CLUB001".to_string(), 40, false,
    );
    let bonds = query_club_bonding_details(&state, "CLUB001".to_string()).unwrap();
    assert_eq!(bonds.len(), 1);
    assert_eq!(bonds[0].club_name, "CLUB001".to_string());
    assert_eq!(bonds[0].bonder_address, "Staker0001".to_string());
    assert_eq!(bonds[0].bonded_amount, 40u128);
    assert_eq!(bonds[0].bonding_duration, 7 * DAY);
    assert_eq!(bonds[0].bonding_start_timestamp, NOW);
}

#[test]
fn overwithdrawing_clamps_the_stake_to_zero() {
    let mut state = state_with_club001();
    let staker = "Staker0001".to_string();
    let _ = stake_on_a_club(&mut state, NOW, &staker, "Staker0001".to_string(), "CLUB001".to_string(), 50);
    let res = withdraw_stake_from_a_club(
        &mut state, NOW, &staker, "Staker0001".to_string(), "CLUB001".to_string(), 70, true,
    );
    assert!(res.is_ok());
    assert_eq!(query_all_stakes(&state).len(), 0);
    // the emptied row stays behind with no entries
    let row = query_club_staking_details(&state, "CLUB001".to_string()).unwrap();
    assert_eq!(row.len(), 0);
}

#[test]
fn sweep_is_restricted_to_the_operator() {
    let mut state = state_with_club001();
    let intruder = "Mallory01".to_string();
    let res = periodically_refund_stakeouts(&mut state, NOW, &intruder);
    assert!(matches!(res, Err(ContractError::Unauthorized)));
}

#[test]
fn claiming_staker_rewards_without_entry_is_a_no_op() {
    let mut state = state_with_club001();
    let staker = "Staker0001".to_string();
    let res = claim_rewards(
        &mut state,
        &staker,
        "Staker0001".to_string(),
        "CLUB001".to_string(),
        5,
    );
    assert_eq!(res, Ok(()));
    assert!(query_club_staking_details(&state, "CLUB001".to_string()).is_none());
}

#[test]
fn overclaiming_staker_rewards_fails() {
    let mut state = state_with_club001();
    let staker = "Staker0001".to_string();
    let _ = stake_on_a_club(&mut state, NOW, &staker, "Staker0001".to_string(), "CLUB001".to_string(), 50);
    let res = claim_rewards(
        &mut state,
        &staker,
        "Staker0001".to_string(),
        "CLUB001".to_string(),
        5,
    );
    assert_eq!(res, Err(ContractError::InvalidState(StateFault::InsufficientRewards)));
}

#[test]
fn a_zero_stake_writes_no_entry() {
    let mut state = state_with_club001();
    let staker = "Staker0001".to_string();
    let res = stake_on_a_club(
        &mut state, NOW, &staker, "Staker0001".to_string(), "CLUB001".to_string(), 0,
    );
    assert_eq!(res, Ok(()));
    assert!(query_club_staking_details(&state, "CLUB001".to_string()).is_none());
    // merged into an existing entry, a zero stake changes nothing
    let _ = stake_on_a_club(&mut state, NOW, &staker, "Staker0001".to_string(), "CLUB001".to_string(), 25);
    let res2 = stake_on_a_club(
        &mut state, NOW, &staker, "Staker0001".to_string(), "CLUB001".to_string(), 0,
    );
    assert_eq!(res2, Ok(()));
    let row = query_club_staking_details(&state, "CLUB001".to_string()).unwrap();
    assert_eq!(row.len(), 1);
    assert_eq!(row[0].staked_amount, 25u128);
}

#[test]
fn withdrawal_debits_escrow_and_saturates() {
    let mut state = state_with_club001();
    let staker = "Staker0001".to_string();
    let _ = stake_on_a_club(&mut state, NOW, &staker, "Staker0001".to_string(), "CLUB001".to_string(), 50);
    let _ = withdraw_stake_from_a_club(
        &mut state, NOW, &staker, "Staker0001".to_string(), "CLUB001".to_string(), 30, true,
    );
    let mut staker_amount = None;
    for entry in &state.wallet {
        if entry.address == "Staker0001" {
            staker_amount = Some(entry.amount);
        }
    }
    assert_eq!(staker_amount, Some(20u128));
    // over-debit saturates the escrow entry at zero
    let _ = withdraw_stake_from_a_club(
        &mut state, NOW, &staker, "Staker0001".to_string(), "CLUB001".to_string(), 25, true,
    );
    let mut staker_amount2 = None;
    for entry in &state.wallet {
        if entry.address == "Staker0001" {
            staker_amount2 = Some(entry.amount);
        }
    }
    assert_eq!(staker_amount2, Some(0u128));
}

#[test]
fn a_huge_withdrawal_still_refunds_ninety_percent() {
    let mut state = state_with_club001();
    let staker = "Staker0001".to_string();
    // the ninetyfold of this amount exceeds the amount type, yet the
    // floored refund is computed exactly
    let huge: u128 = u128::MAX / 90 + 1;
    let _ = stake_on_a_club(
        &mut state, NOW, &staker, "Staker0001".to_string(), "CLUB001".to_string(), huge,
    );
    let res = withdraw_stake_from_a_club(
        &mut state, NOW, &staker, "Staker0001".to_string(), "CLUB001".to_string(), huge, true,
    );
    assert_eq!(res, Ok(Some(3402823669209384634633746074317682114u128)));
    assert_eq!(query_all_stakes(&state).len(), 0);
}
