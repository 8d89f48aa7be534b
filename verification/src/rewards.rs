//! The reward pool and its distribution.
//!
//! An operator fills a single global pool; one distribution round ranks
//! the clubs by aggregate stake, credits the top club's owner 1% of the
//! pool, its stakers a further 19% pro rata, and all stakers 80% pro rata
//! over the grand total. Every division floors, so at most the pool is
//! disbursed and the remainder stays unaccounted; the pool itself is not
//! reset by a round.

use vstd::prelude::*;
use vstd::multiset::Multiset;
use vstd::arithmetic::div_mod::{
    lemma_div_is_ordered, lemma_div_multiples_vanish, lemma_div_nonincreasing,
    lemma_div_pos_is_pos,
};
use vstd::arithmetic::mul::{lemma_mul_inequality, lemma_mul_is_distributive_add, lemma_mul_nonnegative};

use crate::arith::{mul_div, lemma_div_sum_le, lemma_mul_div_le};
use crate::arith::mul_div_floor;
use crate::error::ContractError;
use crate::keyed::{key_idx, Keyed};
use crate::keyed::{find_by_key, lemma_key_idx, lemma_update_same_key_unique};
use crate::msg::InstantiateMsg;
use crate::state::{ClubOwnershipDetails, ClubStakingDetails, ClubStakingState, Config, StakeRow};

verus! {

broadcast use vstd::seq_lib::group_to_multiset_ensures, vstd::multiset::group_multiset_axioms;

/// `p` percent of the pool `rr`, floored.
pub open spec fn pct(rr: int, p: int) -> int {
    mul_div(rr, p, 100)
}

/// The 1%, 19% and 80% shares of a pool never exceed the pool.
proof fn lemma_shares_bounded(rr: int)
    requires
        0 <= rr,
    ensures
        0 <= pct(rr, 19),
        0 <= pct(rr, 80),
        pct(rr, 19) + pct(rr, 80) <= rr,
        rr / 100 <= rr,
{
    lemma_mul_div_le(rr, 19, 100);
    lemma_mul_div_le(rr, 80, 100);
    lemma_div_nonincreasing(rr, 100);
    lemma_mul_nonnegative(rr, 19);
    lemma_mul_nonnegative(rr, 80);
    lemma_div_sum_le(rr * 19, rr * 80, 100);
    assert(rr * 19 + rr * 80 == rr * 99) by (nonlinear_arith);
    lemma_mul_inequality(99, 100, rr);
    assert(99 * rr <= 100 * rr);
    assert(rr * 99 <= rr * 100) by (nonlinear_arith)
        requires
            99 * rr <= 100 * rr,
    ;
    lemma_div_is_ordered(rr * 99, rr * 100, 100);
    lemma_div_multiples_vanish(rr, 100);
    assert(rr * 100 == 100 * rr) by (nonlinear_arith);
}

/// Sum of the staked amounts of a row's entries.
pub open spec fn sum_staked(s: Seq<ClubStakingDetails>) -> int
    decreases s.len(),
{
    if s.len() == 0 {
        0
    } else {
        sum_staked(s.drop_last()) + s.last().staked_amount
    }
}

/// Sum of the staked amounts across the whole staking ledger.
pub open spec fn grand_total(rows: Seq<StakeRow>) -> int
    decreases rows.len(),
{
    if rows.len() == 0 {
        0
    } else {
        grand_total(rows.drop_last()) + sum_staked(rows.last().stakes@)
    }
}

/// Each club with its aggregate stake, in ledger order.
pub open spec fn club_totals(rows: Seq<StakeRow>) -> Seq<(String, u128)> {
    Seq::new(rows.len(), |i: int| (rows[i].club_name, sum_staked(rows[i].stakes@) as u128))
}

/// A row's sum is nonnegative.
pub proof fn lemma_sum_staked_nonneg(s: Seq<ClubStakingDetails>)
    ensures
        sum_staked(s) >= 0,
    decreases s.len(),
{
    if s.len() > 0 {
        lemma_sum_staked_nonneg(s.drop_last());
    }
}

/// A prefix sums to no more than the whole row.
pub proof fn lemma_sum_staked_prefix(s: Seq<ClubStakingDetails>, k: int)
    requires
        0 <= k <= s.len(),
    ensures
        sum_staked(s.subrange(0, k)) <= sum_staked(s),
    decreases s.len() - k,
{
    if k == s.len() {
        assert(s.subrange(0, k) =~= s);
    } else {
        lemma_sum_staked_prefix(s, k + 1);
        assert(s.subrange(0, k + 1).drop_last() =~= s.subrange(0, k));
        assert(s.subrange(0, k + 1).last() == s[k]);
    }
}

/// One entry stakes no more than its whole row sums to.
pub proof fn lemma_entry_le_sum(s: Seq<ClubStakingDetails>, k: int)
    requires
        0 <= k < s.len(),
    ensures
        s[k].staked_amount <= sum_staked(s),
    decreases s.len(),
{
    if k == s.len() - 1 {
        lemma_sum_staked_nonneg(s.drop_last());
    } else {
        lemma_entry_le_sum(s.drop_last(), k);
        assert(s.drop_last()[k] == s[k]);
    }
}

/// The whole ledger totals a nonnegative amount.
pub proof fn lemma_grand_total_nonneg(rows: Seq<StakeRow>)
    ensures
        grand_total(rows) >= 0,
    decreases rows.len(),
{
    if rows.len() > 0 {
        lemma_grand_total_nonneg(rows.drop_last());
        lemma_sum_staked_nonneg(rows.last().stakes@);
    }
}

/// A prefix of the ledger totals no more than the whole ledger.
pub proof fn lemma_grand_total_prefix(rows: Seq<StakeRow>, i: int)
    requires
        0 <= i <= rows.len(),
    ensures
        0 <= grand_total(rows.subrange(0, i)) <= grand_total(rows),
    decreases rows.len() - i,
{
    lemma_grand_total_nonneg(rows.subrange(0, i));
    if i == rows.len() {
        assert(rows.subrange(0, i) =~= rows);
    } else {
        lemma_grand_total_prefix(rows, i + 1);
        assert(rows.subrange(0, i + 1).drop_last() =~= rows.subrange(0, i));
        assert(rows.subrange(0, i + 1).last() == rows[i]);
        lemma_sum_staked_nonneg(rows[i].stakes@);
    }
}

/// One row sums to no more than the whole ledger.
pub proof fn lemma_row_le_grand(rows: Seq<StakeRow>, j: int)
    requires
        0 <= j < rows.len(),
    ensures
        sum_staked(rows[j].stakes@) <= grand_total(rows),
    decreases rows.len(),
{
    if j == rows.len() - 1 {
        lemma_grand_total_prefix(rows.drop_last(), rows.len() - 1);
        assert(rows.drop_last().subrange(0, rows.len() - 1) =~= rows.drop_last());
    } else {
        lemma_row_le_grand(rows.drop_last(), j);
        assert(rows.drop_last()[j] == rows[j]);
        lemma_sum_staked_nonneg(rows.last().stakes@);
    }
}

/// Register the token module's and the admin's addresses.
pub fn instantiate(state: &mut ClubStakingState, msg: InstantiateMsg)
    ensures
        final(state).config == Some(
            Config {
                cw20_token_address: msg.cw20_token_address,
                admin_address: msg.admin_address,
            },
        ),
        final(state).ownerships == old(state).ownerships,
        final(state).previous_owners == old(state).previous_owners,
        final(state).stakes == old(state).stakes,
        final(state).bonds == old(state).bonds,
        final(state).wallet == old(state).wallet,
        final(state).reward == old(state).reward,
        old(state).wf() ==> final(state).wf(),
{
    state.config = Some(
        Config {
            cw20_token_address: msg.cw20_token_address,
            admin_address: msg.admin_address,
        },
    );
}

/// Everything `set_reward_amount` promises. Filling the pool is the
/// designated operator's privilege: every other sender is refused.
pub open spec fn set_reward_outcome(
    pre: ClubStakingState,
    post: ClubStakingState,
    r: Result<(), ContractError>,
    sender: String,
    amount: u128,
) -> bool {
    if sender@ != crate::state::operator_address() {
        r == Err::<(), ContractError>(ContractError::Unauthorized) && post == pre
    } else {
        &&& r == Ok::<(), ContractError>(())
        &&& post.reward == amount
        &&& post.ownerships == pre.ownerships
        &&& post.previous_owners == pre.previous_owners
        &&& post.stakes == pre.stakes
        &&& post.bonds == pre.bonds
        &&& post.wallet == pre.wallet
        &&& post.config == pre.config
    }
}

/// Overwrite the reward pool with `amount`; the pool is set, not added
/// to. Restricted to the designated operator address.
pub fn set_reward_amount(state: &mut ClubStakingState, sender: &String, amount: u128) -> (r:
    Result<(), ContractError>)
    requires
        old(state).wf(),
    ensures
        final(state).wf(),
        set_reward_outcome(*old(state), *final(state), r, *sender, amount),
{
    if !crate::state::is_operator(sender) {
        return Err(ContractError::Unauthorized);
    }
    state.reward = amount;
    Ok(())
}

/// The reward pool available for the next distribution round.
pub fn query_reward_amount(state: &ClubStakingState) -> (r: u128)
    ensures
        r == state.reward,
{
    state.reward
}

/// Rank the clubs of the staking ledger by aggregate stake, best first:
/// the result holds exactly one pair per row of the ledger, in descending
/// order of total; the order among equally staked clubs is left open.
pub fn get_clubs_ranking_by_stakes(state: &ClubStakingState) -> (r: Vec<(String, u128)>)
    requires
        forall|i: int|
            0 <= i < state.stakes@.len() ==> sum_staked((#[trigger] state.stakes@[i]).stakes@)
                <= u128::MAX,
    ensures
        r@.len() == state.stakes@.len(),
        r@.to_multiset() == club_totals(state.stakes@).to_multiset(),
        forall|i: int, j: int| 0 <= i < j < r@.len() ==> (#[trigger] r@[i]).1 >= (#[trigger] r@[j]).1,
{
    let ghost goal = club_totals(state.stakes@);
    let mut totals: Vec<(String, u128)> = Vec::new();
    let mut i: usize = 0;
    proof {
        assert(totals@ =~= goal.subrange(0, 0));
    }
    while i < state.stakes.len()
        invariant
            forall|t: int|
                0 <= t < state.stakes@.len() ==> sum_staked(
                    (#[trigger] state.stakes@[t]).stakes@,
                ) <= u128::MAX,
            goal == club_totals(state.stakes@),
            i <= state.stakes@.len(),
            totals@ == goal.subrange(0, i as int),
        decreases state.stakes@.len() - i,
    {
        let ghost row0 = state.stakes@[i as int];
        let mut tot: u128 = 0;
        let mut k: usize = 0;
        proof {
            assert(row0.stakes@.subrange(0, 0) =~= Seq::<ClubStakingDetails>::empty());
        }
        while k < state.stakes[i].stakes.len()
            invariant
                i < state.stakes@.len(),
                state.stakes@[i as int] == row0,
                sum_staked(row0.stakes@) <= u128::MAX,
                k <= row0.stakes@.len(),
                tot as int == sum_staked(row0.stakes@.subrange(0, k as int)),
            decreases row0.stakes@.len() - k,
        {
            proof {
                lemma_sum_staked_prefix(row0.stakes@, k as int + 1);
                assert(row0.stakes@.subrange(0, k as int + 1).drop_last() =~= row0.stakes@.subrange(
                    0,
                    k as int,
                ));
                assert(row0.stakes@.subrange(0, k as int + 1).last() == row0.stakes@[k as int]);
            }
            tot = tot + state.stakes[i].stakes[k].staked_amount;
            k = k + 1;
        }
        proof {
            assert(row0.stakes@.subrange(0, row0.stakes@.len() as int) =~= row0.stakes@);
        }
        let name = state.stakes[i].club_name.clone();
        totals.push((name, tot));
        i = i + 1;
        proof {
            assert(totals@ =~= goal.subrange(0, i as int));
        }
    }
    proof {
        assert(goal.subrange(0, goal.len() as int) =~= goal);
    }
    // Selection sort, descending and stable: repeatedly move the first
    // maximal pair of the work list to the end of the output.
    let mut work = totals;
    let mut out: Vec<(String, u128)> = Vec::new();
    proof {
        assert(out@.to_multiset().add(work@.to_multiset()) =~= goal.to_multiset());
    }
    while work.len() > 0
        invariant
            out@.to_multiset().add(work@.to_multiset()) == goal.to_multiset(),
            out@.len() + work@.len() == goal.len(),
            forall|a: int, b: int|
                0 <= a < b < out@.len() ==> (#[trigger] out@[a]).1 >= (#[trigger] out@[b]).1,
            forall|a: int, b: int|
                0 <= a < out@.len() && 0 <= b < work@.len() ==> (#[trigger] out@[a]).1 >= (
                #[trigger] work@[b]).1,
        decreases work@.len(),
    {
        let mut m: usize = 0;
        let mut j: usize = 1;
        while j < work.len()
            invariant
                work@.len() > 0,
                m < j,
                j <= work@.len(),
                forall|t: int| 0 <= t < j ==> (#[trigger] work@[t]).1 <= work@[m as int].1,
            decreases work@.len() - j,
        {
            if work[j].1 > work[m].1 {
                m = j;
            }
            j = j + 1;
        }
        let ghost pre_work = work@;
        let ghost pre_out = out@;
        let x = work.remove(m);
        out.push(x);
        proof {
            assert(pre_work.contains(pre_work[m as int]));
            assert(out@.to_multiset() =~= pre_out.to_multiset().insert(x));
            assert(work@.to_multiset() =~= pre_work.to_multiset().remove(x));
            assert(out@.to_multiset().add(work@.to_multiset()) =~= goal.to_multiset());
            assert(forall|b: int|
                0 <= b < work@.len() ==> (#[trigger] work@[b]) == (if b < m as int {
                    pre_work[b]
                } else {
                    pre_work[b + 1]
                }));
        }
    }
    proof {
        assert(work@.to_multiset() =~= Multiset::<(String, u128)>::empty());
        assert(out@.to_multiset() =~= goal.to_multiset());
        assert(out@.len() == goal.len());
    }
    out
}

/// The additional 19% share one of the winner club's entries receives,
/// pro rata over the winner club's total.
pub open spec fn slice19_of(e: ClubStakingDetails, rr: int, total_w: int) -> int {
    mul_div(pct(rr, 19), e.staked_amount as int, total_w)
}

/// The general 80% share every entry receives, pro rata over the grand
/// total.
pub open spec fn slice80_of(e: ClubStakingDetails, rr: int, g: int) -> int {
    mul_div(pct(rr, 80), e.staked_amount as int, g)
}

/// Is `wi` a row whose club has at least as much aggregate stake as every
/// other club?
pub open spec fn is_top_row(rows: Seq<StakeRow>, wi: int) -> bool {
    &&& 0 <= wi < rows.len()
    &&& forall|j: int|
        0 <= j < rows.len() ==> sum_staked((#[trigger] rows[j]).stakes@) <= sum_staked(
            rows[wi].stakes@,
        )
}

/// What one distribution round with winner row `wi` leaves behind: the
/// winner club's owner gains 1% of the pool, each winner entry its 19%
/// share, every entry its 80% share; the pool itself stays as it was.
pub open spec fn distributed_with(
    pre: ClubStakingState,
    post: ClubStakingState,
    r: Result<(), ContractError>,
    wi: int,
) -> bool {
    let club = pre.stakes@[wi].club_name;
    let oi = key_idx(pre.ownerships@, club@);
    if oi == -1 {
        r == Err::<(), ContractError>(ContractError::NotAvailable) && post == pre
    } else {
        let rr = pre.reward as int;
        let total_w = sum_staked(pre.stakes@[wi].stakes@);
        let g = grand_total(pre.stakes@);
        &&& r == Ok::<(), ContractError>(())
        &&& post.ownerships@ == pre.ownerships@.update(
            oi,
            ClubOwnershipDetails {
                reward_amount: (pre.ownerships@[oi].reward_amount + rr / 100) as u128,
                ..pre.ownerships@[oi]
            },
        )
        &&& post.stakes@.len() == pre.stakes@.len()
        &&& forall|j: int|
            0 <= j < pre.stakes@.len() ==> (#[trigger] post.stakes@[j]).club_name
                == pre.stakes@[j].club_name
        &&& forall|j: int|
            0 <= j < pre.stakes@.len() ==> (#[trigger] post.stakes@[j]).stakes@.len()
                == pre.stakes@[j].stakes@.len()
        &&& forall|j: int, k: int|
            0 <= j < pre.stakes@.len() && 0 <= k < pre.stakes@[j].stakes@.len() ==> (
            #[trigger] post.stakes@[j].stakes@[k]) == ClubStakingDetails {
                reward_amount: (pre.stakes@[j].stakes@[k].reward_amount + (if j == wi {
                    slice19_of(pre.stakes@[j].stakes@[k], rr, total_w)
                } else {
                    0
                }) + slice80_of(pre.stakes@[j].stakes@[k], rr, g)) as u128,
                ..pre.stakes@[j].stakes@[k]
            }
        &&& post.previous_owners == pre.previous_owners
        &&& post.bonds == pre.bonds
        &&& post.wallet == pre.wallet
        &&& post.reward == pre.reward
        &&& post.config == pre.config
    }
}

/// Everything `calculate_and_distribute_rewards` promises. Running a
/// round is the designated operator's privilege: every other sender is
/// refused. An empty pool or an
/// empty staking ledger makes the round a no-op; a winner club without an
/// ownership record fails the round before anything is written. Which of
/// several equally staked top clubs wins is left open, as the ranking's
/// tie order is.
pub open spec fn distribute_outcome(
    pre: ClubStakingState,
    post: ClubStakingState,
    r: Result<(), ContractError>,
    sender: String,
) -> bool {
    if sender@ != crate::state::operator_address() {
        r == Err::<(), ContractError>(ContractError::Unauthorized) && post == pre
    } else if pre.reward == 0 || pre.stakes@.len() == 0 {
        r == Ok::<(), ContractError>(()) && post == pre
    } else {
        exists|wi: int| #[trigger] is_top_row(pre.stakes@, wi) && distributed_with(pre, post, r, wi)
    }
}


/// Add to each entry of one row its pro-rata share `c * staked / d` of a
/// pool slice, floored.
fn add_pro_rata_share(row: &mut StakeRow, c: u128, d: u128)
    requires
        forall|m: int|
            0 <= m < old(row).stakes@.len() ==> (#[trigger] old(row).stakes@[m]).staked_amount
                <= d,
        forall|m: int|
            0 <= m < old(row).stakes@.len() ==> (#[trigger] old(row).stakes@[m]).reward_amount + c
                <= u128::MAX,
    ensures
        final(row).club_name == old(row).club_name,
        final(row).stakes@.len() == old(row).stakes@.len(),
        forall|m: int|
            0 <= m < old(row).stakes@.len() ==> (#[trigger] final(row).stakes@[m]) == (
            ClubStakingDetails {
                reward_amount: (old(row).stakes@[m].reward_amount + mul_div(
                    c as int,
                    old(row).stakes@[m].staked_amount as int,
                    d as int,
                )) as u128,
                ..old(row).stakes@[m]
            }),
{
    let mut k: usize = 0;
    while k < row.stakes.len()
        invariant
            row.club_name == old(row).club_name,
            row.stakes@.len() == old(row).stakes@.len(),
            k <= row.stakes@.len(),
            forall|m: int|
                0 <= m < old(row).stakes@.len() ==> (#[trigger] old(row).stakes@[m]).staked_amount
                    <= d,
            forall|m: int|
                0 <= m < old(row).stakes@.len() ==> (#[trigger] old(
                    row,
                ).stakes@[m]).reward_amount + c <= u128::MAX,
            forall|m: int| k <= m < row.stakes@.len() ==> row.stakes@[m] == old(row).stakes@[m],
            forall|m: int|
                0 <= m < k ==> (#[trigger] row.stakes@[m]) == (ClubStakingDetails {
                    reward_amount: (old(row).stakes@[m].reward_amount + mul_div(
                        c as int,
                        old(row).stakes@[m].staked_amount as int,
                        d as int,
                    )) as u128,
                    ..old(row).stakes@[m]
                }),
        decreases row.stakes@.len() - k,
    {
        let slice = mul_div_floor(c, row.stakes[k].staked_amount, d);
        proof {
            assert(row.stakes@[k as int] == old(row).stakes@[k as int]);
            lemma_mul_div_le(c as int, old(row).stakes@[k as int].staked_amount as int, d as int);
        }
        let mut rec = row.stakes[k].clone();
        rec.reward_amount = rec.reward_amount + slice;
        row.stakes[k] = rec;
        k = k + 1;
    }
}


/// Sum every staked amount across the ledger.
fn total_staked_all(rows: &Vec<StakeRow>) -> (g: u128)
    requires
        grand_total(rows@) <= u128::MAX,
    ensures
        g as int == grand_total(rows@),
{
    let mut g: u128 = 0;
    let mut i: usize = 0;
    proof {
        assert(rows@.subrange(0, 0) =~= Seq::<StakeRow>::empty());
    }
    while i < rows.len()
        invariant
            grand_total(rows@) <= u128::MAX,
            i <= rows@.len(),
            g as int == grand_total(rows@.subrange(0, i as int)),
        decreases rows@.len() - i,
    {
        let ghost row0 = rows@[i as int];
        let mut tot: u128 = 0;
        let mut k: usize = 0;
        proof {
            assert(row0.stakes@.subrange(0, 0) =~= Seq::<ClubStakingDetails>::empty());
            lemma_row_le_grand(rows@, i as int);
            lemma_grand_total_prefix(rows@, i as int);
        }
        while k < rows[i].stakes.len()
            invariant
                i < rows@.len(),
                rows@[i as int] == row0,
                sum_staked(row0.stakes@) <= u128::MAX,
                k <= row0.stakes@.len(),
                tot as int == sum_staked(row0.stakes@.subrange(0, k as int)),
            decreases row0.stakes@.len() - k,
        {
            proof {
                lemma_sum_staked_prefix(row0.stakes@, k as int + 1);
                assert(row0.stakes@.subrange(0, k as int + 1).drop_last() =~= row0.stakes@.subrange(
                    0,
                    k as int,
                ));
                assert(row0.stakes@.subrange(0, k as int + 1).last() == row0.stakes@[k as int]);
                lemma_sum_staked_nonneg(row0.stakes@.subrange(0, k as int));
            }
            tot = tot + rows[i].stakes[k].staked_amount;
            k = k + 1;
        }
        proof {
            assert(row0.stakes@.subrange(0, row0.stakes@.len() as int) =~= row0.stakes@);
            assert(rows@.subrange(0, i as int + 1).drop_last() =~= rows@.subrange(0, i as int));
            assert(rows@.subrange(0, i as int + 1).last() == rows@[i as int]);
            lemma_grand_total_prefix(rows@, i as int + 1);
            lemma_grand_total_nonneg(rows@.subrange(0, i as int));
            lemma_sum_staked_nonneg(row0.stakes@);
        }
        g = g + tot;
        i = i + 1;
    }
    proof {
        assert(rows@.subrange(0, rows@.len() as int) =~= rows@);
    }
    g
}

/// The head of a ranking names a club whose row carries a maximal total.
proof fn lemma_winner_from_rankings(rows: Seq<StakeRow>, rk: Seq<(String, u128)>)
    requires
        rows.len() > 0,
        rk.len() == rows.len(),
        rk.to_multiset() == club_totals(rows).to_multiset(),
        forall|i: int, j: int| 0 <= i < j < rk.len() ==> (#[trigger] rk[i]).1 >= (#[trigger] rk[j]).1,
        forall|i: int|
            0 <= i < rows.len() ==> sum_staked((#[trigger] rows[i]).stakes@) <= u128::MAX,
    ensures
        exists|i: int|
            {
                &&& #[trigger] is_top_row(rows, i)
                &&& rows[i].club_name == rk[0].0
                &&& sum_staked(rows[i].stakes@) == rk[0].1 as int
            },
{
    let pair = rk[0];
    assert(rk.contains(pair));
    assert(rk.to_multiset().count(pair) > 0);
    assert(club_totals(rows).to_multiset().count(pair) > 0);
    assert(club_totals(rows).contains(pair));
    let wi = choose|i: int| 0 <= i < club_totals(rows).len() && club_totals(rows)[i] == pair;
    assert(rows[wi].club_name == pair.0);
    lemma_sum_staked_nonneg(rows[wi].stakes@);
    assert(sum_staked(rows[wi].stakes@) == pair.1 as int);
    assert forall|j: int|
        0 <= j < rows.len() implies sum_staked((#[trigger] rows[j]).stakes@) <= sum_staked(
        rows[wi].stakes@,
    ) by {
        let pj = club_totals(rows)[j];
        assert(club_totals(rows).contains(pj));
        assert(club_totals(rows).to_multiset().count(pj) > 0);
        assert(rk.to_multiset().count(pj) > 0);
        assert(rk.contains(pj));
        let m = choose|m: int| 0 <= m < rk.len() && rk[m] == pj;
        if m > 0 {
            assert(rk[0].1 >= rk[m].1);
        }
        lemma_sum_staked_nonneg(rows[j].stakes@);
    }
    assert(is_top_row(rows, wi));
}

/// Add to every entry of every row its pro-rata share `r80 * staked / g`.
fn add_global_shares(rows: &mut Vec<StakeRow>, r80: u128, g: u128)
    requires
        forall|j: int, k: int|
            0 <= j < old(rows)@.len() && 0 <= k < old(rows)@[j].stakes@.len() ==> (#[trigger] old(
                rows,
            )@[j].stakes@[k]).staked_amount <= g,
        forall|j: int, k: int|
            0 <= j < old(rows)@.len() && 0 <= k < old(rows)@[j].stakes@.len() ==> (#[trigger] old(
                rows,
            )@[j].stakes@[k]).reward_amount + r80 <= u128::MAX,
    ensures
        final(rows)@.len() == old(rows)@.len(),
        forall|j: int|
            0 <= j < old(rows)@.len() ==> (#[trigger] final(rows)@[j]).club_name
                == old(rows)@[j].club_name,
        forall|j: int|
            0 <= j < old(rows)@.len() ==> (#[trigger] final(rows)@[j]).stakes@.len() == old(
                rows,
            )@[j].stakes@.len(),
        forall|j: int, k: int|
            0 <= j < old(rows)@.len() && 0 <= k < old(rows)@[j].stakes@.len() ==> (
            #[trigger] final(rows)@[j].stakes@[k]) == (ClubStakingDetails {
                reward_amount: (old(rows)@[j].stakes@[k].reward_amount + mul_div(
                    r80 as int,
                    old(rows)@[j].stakes@[k].staked_amount as int,
                    g as int,
                )) as u128,
                ..old(rows)@[j].stakes@[k]
            }),
{
    let mut j: usize = 0;
    while j < rows.len()
        invariant
            rows@.len() == old(rows)@.len(),
            j <= rows@.len(),
            forall|j2: int, k2: int|
                0 <= j2 < old(rows)@.len() && 0 <= k2 < old(rows)@[j2].stakes@.len() ==> (
                #[trigger] old(rows)@[j2].stakes@[k2]).staked_amount <= g,
            forall|j2: int, k2: int|
                0 <= j2 < old(rows)@.len() && 0 <= k2 < old(rows)@[j2].stakes@.len() ==> (
                #[trigger] old(rows)@[j2].stakes@[k2]).reward_amount + r80 <= u128::MAX,
            forall|j2: int| j <= j2 < rows@.len() ==> rows@[j2] == old(rows)@[j2],
            forall|j2: int|
                0 <= j2 < j ==> (#[trigger] rows@[j2]).club_name == old(rows)@[j2].club_name,
            forall|j2: int|
                0 <= j2 < j ==> (#[trigger] rows@[j2]).stakes@.len()
                    == old(rows)@[j2].stakes@.len(),
            forall|j2: int, k2: int|
                0 <= j2 < j && 0 <= k2 < old(rows)@[j2].stakes@.len() ==> (
                #[trigger] rows@[j2].stakes@[k2]) == (ClubStakingDetails {
                    reward_amount: (old(rows)@[j2].stakes@[k2].reward_amount + mul_div(
                        r80 as int,
                        old(rows)@[j2].stakes@[k2].staked_amount as int,
                        g as int,
                    )) as u128,
                    ..old(rows)@[j2].stakes@[k2]
                }),
        decreases rows@.len() - j,
    {
        let ghost mid = rows@;
        let mut row = rows.remove(j);
        proof {
            assert(mid[j as int] == old(rows)@[j as int]);
            assert forall|m: int|
                0 <= m < row.stakes@.len() implies (#[trigger] row.stakes@[m]).staked_amount <= g
                && row.stakes@[m].reward_amount + r80 <= u128::MAX by {
                assert(row.stakes@[m] == old(rows)@[j as int].stakes@[m]);
            }
        }
        add_pro_rata_share(&mut row, r80, g);
        let ghost rowf = row;
        rows.insert(j, row);
        j = j + 1;
        proof {
            assert(rows@ =~= mid.update(j as int - 1, rowf));
        }
    }
}

/// One 19% pass on the winner row followed by one 80% pass over all rows
/// amounts to the per-entry distribution formula.
proof fn lemma_compose_distribution(
    rows0: Seq<StakeRow>,
    rowsa: Seq<StakeRow>,
    rowsb: Seq<StakeRow>,
    wi: int,
    rr: int,
    r19: int,
    r80: int,
    total_w: int,
    g: int,
)
    requires
        0 <= wi < rows0.len(),
        0 <= rr <= u128::MAX,
        r19 == pct(rr, 19),
        r80 == pct(rr, 80),
        total_w == sum_staked(rows0[wi].stakes@),
        g == grand_total(rows0),
        forall|j: int, k: int|
            0 <= j < rows0.len() && 0 <= k < rows0[j].stakes@.len() ==> (
            #[trigger] rows0[j].stakes@[k]).reward_amount + rr <= u128::MAX,
        rowsa.len() == rows0.len(),
        forall|j: int| 0 <= j < rows0.len() && j != wi ==> rowsa[j] == rows0[j],
        rowsa[wi].club_name == rows0[wi].club_name,
        rowsa[wi].stakes@.len() == rows0[wi].stakes@.len(),
        forall|m: int|
            0 <= m < rows0[wi].stakes@.len() ==> (#[trigger] rowsa[wi].stakes@[m]) == (
            ClubStakingDetails {
                reward_amount: (rows0[wi].stakes@[m].reward_amount + mul_div(
                    r19,
                    rows0[wi].stakes@[m].staked_amount as int,
                    total_w,
                )) as u128,
                ..rows0[wi].stakes@[m]
            }),
        rowsb.len() == rowsa.len(),
        forall|j: int|
            0 <= j < rowsa.len() ==> (#[trigger] rowsb[j]).club_name == rowsa[j].club_name,
        forall|j: int|
            0 <= j < rowsa.len() ==> (#[trigger] rowsb[j]).stakes@.len()
                == rowsa[j].stakes@.len(),
        forall|j: int, k: int|
            0 <= j < rowsa.len() && 0 <= k < rowsa[j].stakes@.len() ==> (
            #[trigger] rowsb[j].stakes@[k]) == (ClubStakingDetails {
                reward_amount: (rowsa[j].stakes@[k].reward_amount + mul_div(
                    r80,
                    rowsa[j].stakes@[k].staked_amount as int,
                    g,
                )) as u128,
                ..rowsa[j].stakes@[k]
            }),
    ensures
        rowsb.len() == rows0.len(),
        forall|j: int|
            0 <= j < rows0.len() ==> (#[trigger] rowsb[j]).club_name == rows0[j].club_name,
        forall|j: int|
            0 <= j < rows0.len() ==> (#[trigger] rowsb[j]).stakes@.len()
                == rows0[j].stakes@.len(),
        forall|j: int, k: int|
            0 <= j < rows0.len() && 0 <= k < rows0[j].stakes@.len() ==> (
            #[trigger] rowsb[j].stakes@[k]) == (ClubStakingDetails {
                reward_amount: (rows0[j].stakes@[k].reward_amount + (if j == wi {
                    slice19_of(rows0[j].stakes@[k], rr, total_w)
                } else {
                    0
                }) + slice80_of(rows0[j].stakes@[k], rr, g)) as u128,
                ..rows0[j].stakes@[k]
            }),
{
    lemma_shares_bounded(rr);
    lemma_grand_total_nonneg(rows0);
    assert forall|j: int, k: int|
        0 <= j < rows0.len() && 0 <= k < rows0[j].stakes@.len() implies (
    #[trigger] rowsb[j].stakes@[k]) == (ClubStakingDetails {
        reward_amount: (rows0[j].stakes@[k].reward_amount + (if j == wi {
            slice19_of(rows0[j].stakes@[k], rr, total_w)
        } else {
            0
        }) + slice80_of(rows0[j].stakes@[k], rr, g)) as u128,
        ..rows0[j].stakes@[k]
    }) by {
        let e0 = rows0[j].stakes@[k];
        lemma_entry_le_sum(rows0[j].stakes@, k);
        lemma_row_le_grand(rows0, j);
        lemma_mul_div_le(r80, e0.staked_amount as int, g);
        if j == wi {
            lemma_sum_staked_nonneg(rows0[wi].stakes@);
            lemma_mul_div_le(r19, e0.staked_amount as int, total_w);
            assert(rowsa[wi].stakes@[k].staked_amount == e0.staked_amount);
        } else {
            assert(rowsa[j] == rows0[j]);
            assert(rowsa[j].stakes@[k] == e0);
        }
    }
}

/// Run one distribution round of the reward pool at the sender's request.
///
/// The overflow preconditions are the coarse safe bounds: every accrued
/// reward must leave room for the whole pool on top of it, and the grand
/// total of stakes must fit the amount type.
pub fn calculate_and_distribute_rewards(state: &mut ClubStakingState, sender: &String) -> (r:
    Result<(), ContractError>)
    requires
        old(state).wf(),
        grand_total(old(state).stakes@) <= u128::MAX,
        forall|j: int, k: int|
            0 <= j < old(state).stakes@.len() && 0 <= k < old(state).stakes@[j].stakes@.len()
                ==> (#[trigger] old(state).stakes@[j].stakes@[k]).reward_amount + old(
                state,
            ).reward <= u128::MAX,
        forall|i: int|
            0 <= i < old(state).ownerships@.len() ==> (#[trigger] old(
                state,
            ).ownerships@[i]).reward_amount + old(state).reward / 100 <= u128::MAX,
    ensures
        final(state).wf(),
        distribute_outcome(*old(state), *final(state), r, *sender),
{
    if !crate::state::is_operator(sender) {
        return Err(ContractError::Unauthorized);
    }
    if state.reward == 0 {
        return Ok(());
    }
    if state.stakes.len() == 0 {
        return Ok(());
    }
    let ghost rows0 = state.stakes@;
    let ghost rr = state.reward as int;
    proof {
        assert forall|i: int|
            0 <= i < rows0.len() implies sum_staked((#[trigger] rows0[i]).stakes@)
            <= u128::MAX by {
            lemma_row_le_grand(rows0, i);
            lemma_grand_total_nonneg(rows0);
        }
    }
    let rankings = get_clubs_ranking_by_stakes(state);
    let winner_name = rankings[0].0.clone();
    let total_w = rankings[0].1;
    let ghost wi0: int = 0;
    proof {
        lemma_winner_from_rankings(rows0, rankings@);
        wi0 = choose|i: int|
            {
                &&& #[trigger] is_top_row(rows0, i)
                &&& rows0[i].club_name == rankings@[0].0
                &&& sum_staked(rows0[i].stakes@) == rankings@[0].1 as int
            };
    }
    let wfound = find_by_key(&state.stakes, &winner_name);
    let wi: usize;
    match wfound {
        Some(w) => {
            wi = w;
        },
        None => {
            proof {
                lemma_key_idx(rows0, winner_name@);
                assert(rows0[wi0].key() == winner_name@);
                assert(false);
            }
            return Err(ContractError::NotAvailable);
        },
    }
    proof {
        lemma_key_idx(rows0, winner_name@);
        assert(rows0[wi as int].key() == winner_name@);
        if wi as int != wi0 {
            assert(rows0[wi0].key() == winner_name@);
            assert(false);
        }
        assert(is_top_row(rows0, wi as int));
        assert(sum_staked(rows0[wi as int].stakes@) == total_w as int);
    }
    let ofound = find_by_key(&state.ownerships, &winner_name);
    let oi: usize;
    match ofound {
        Some(o) => {
            oi = o;
        },
        None => {
            proof {
                assert(rows0[wi as int].club_name@ == winner_name@);
                assert(distributed_with(
                    *old(state),
                    *state,
                    Err::<(), ContractError>(ContractError::NotAvailable),
                    wi as int,
                ));
            }
            return Err(ContractError::NotAvailable);
        },
    }
    let g = total_staked_all(&state.stakes);
    // 1% of the pool to the winner club's owner
    let owner_bonus = state.reward / 100;
    let rec = ClubOwnershipDetails {
        club_name: state.ownerships[oi].club_name.clone(),
        start_timestamp: state.ownerships[oi].start_timestamp,
        locking_period: state.ownerships[oi].locking_period,
        owner_address: state.ownerships[oi].owner_address.clone(),
        price_paid: state.ownerships[oi].price_paid,
        reward_amount: state.ownerships[oi].reward_amount + owner_bonus,
        owner_released: state.ownerships[oi].owner_released,
    };
    proof {
        lemma_update_same_key_unique(state.ownerships@, oi as int, rec);
    }
    state.ownerships[oi] = rec;
    let r19 = mul_div_floor(state.reward, 19, 100);
    let r80 = mul_div_floor(state.reward, 80, 100);
    let ghost reward0 = state.reward;
    // 19% of the pool pro rata across the winner club's entries
    let mut row = state.stakes.remove(wi);
    proof {
        lemma_shares_bounded(rr);
        lemma_sum_staked_nonneg(rows0[wi as int].stakes@);
        assert forall|m: int|
            0 <= m < row.stakes@.len() implies (#[trigger] row.stakes@[m]).staked_amount <= total_w
            && row.stakes@[m].reward_amount + r19 <= u128::MAX by {
            assert(row.stakes@[m] == rows0[wi as int].stakes@[m]);
            lemma_entry_le_sum(rows0[wi as int].stakes@, m);
            assert(rows0[wi as int].stakes@[m].reward_amount + reward0 <= u128::MAX);
        }
    }
    add_pro_rata_share(&mut row, r19, total_w);
    let ghost rowa = row;
    state.stakes.insert(wi, row);
    let ghost rowsa = state.stakes@;
    proof {
        assert(rowsa =~= rows0.update(wi as int, rowa));
        assert forall|j2: int| 0 <= j2 < rows0.len() && j2 != wi as int implies rowsa[j2] == rows0[j2] by {
        }
    }
    // 80% of the pool pro rata across every entry of every club
    proof {
        lemma_shares_bounded(rr);
        lemma_grand_total_nonneg(rows0);
        assert forall|j2: int, k2: int|
            0 <= j2 < rowsa.len() && 0 <= k2 < rowsa[j2].stakes@.len() implies (
        #[trigger] rowsa[j2].stakes@[k2]).staked_amount <= g && rowsa[j2].stakes@[k2].reward_amount
            + r80 <= u128::MAX by {
            lemma_entry_le_sum(rows0[j2].stakes@, k2);
            lemma_row_le_grand(rows0, j2);
            if j2 == wi as int {
                lemma_sum_staked_nonneg(rows0[wi as int].stakes@);
                lemma_mul_div_le(
                    r19 as int,
                    rows0[wi as int].stakes@[k2].staked_amount as int,
                    total_w as int,
                );
            } else {
                assert(rowsa[j2] == rows0[j2]);
            }
            assert(rows0[j2].stakes@[k2].reward_amount + reward0 <= u128::MAX);
        }
    }
    add_global_shares(&mut state.stakes, r80, g);
    proof {
        lemma_compose_distribution(
            rows0,
            rowsa,
            state.stakes@,
            wi as int,
            rr,
            r19 as int,
            r80 as int,
            total_w as int,
            g as int,
        );
        assert forall|a: int, b: int|
            0 <= a < b < state.stakes@.len() implies (#[trigger] state.stakes@[a]).key() != (
        #[trigger] state.stakes@[b]).key() by {
            assert(state.stakes@[a].club_name == rows0[a].club_name);
            assert(state.stakes@[b].club_name == rows0[b].club_name);
            assert(rows0[a].key() != rows0[b].key());
        }
        assert forall|a: int|
            0 <= a < state.stakes@.len() implies (#[trigger] state.stakes@[a]).wf_row() by {
            assert(rows0[a].wf_row());
            assert forall|x: int, y: int|
                0 <= x < y < state.stakes@[a].stakes@.len() implies (
            #[trigger] state.stakes@[a].stakes@[x]).key() != (
            #[trigger] state.stakes@[a].stakes@[y]).key() by {
                assert(state.stakes@[a].stakes@[x].staker_address == rows0[a].stakes@[x].staker_address);
                assert(state.stakes@[a].stakes@[y].staker_address == rows0[a].stakes@[y].staker_address);
                assert(rows0[a].stakes@[x].key() != rows0[a].stakes@[y].key());
            }
            assert forall|x: int|
                0 <= x < state.stakes@[a].stakes@.len() implies (
            #[trigger] state.stakes@[a].stakes@[x]).club_name@ == state.stakes@[a].club_name@
                && state.stakes@[a].stakes@[x].staked_amount > 0 by {
                assert(state.stakes@[a].stakes@[x].club_name == rows0[a].stakes@[x].club_name);
                assert(state.stakes@[a].stakes@[x].staked_amount == rows0[a].stakes@[x].staked_amount);
            }
        }
        assert(rows0[wi as int].club_name@ == winner_name@);
        assert(distributed_with(*old(state), *state, Ok::<(), ContractError>(()), wi as int));
    }
    Ok(())
}

/// Sum of the accrued rewards of a row's entries.
pub open spec fn sum_rewards(s: Seq<ClubStakingDetails>) -> int
    decreases s.len(),
{
    if s.len() == 0 {
        0
    } else {
        sum_rewards(s.drop_last()) + s.last().reward_amount
    }
}

/// Sum of the accrued rewards across the whole staking ledger.
pub open spec fn sum_rewards_all(rows: Seq<StakeRow>) -> int
    decreases rows.len(),
{
    if rows.len() == 0 {
        0
    } else {
        sum_rewards_all(rows.drop_last()) + sum_rewards(rows.last().stakes@)
    }
}

/// Sum of the pro-rata shares `c * staked / d` over a row's entries.
pub open spec fn sum_slices(s: Seq<ClubStakingDetails>, c: int, d: int) -> int
    decreases s.len(),
{
    if s.len() == 0 {
        0
    } else {
        sum_slices(s.drop_last(), c, d) + mul_div(c, s.last().staked_amount as int, d)
    }
}

/// Sum of the pro-rata shares over every entry of every row.
pub open spec fn sum_slices_all(rows: Seq<StakeRow>, c: int, d: int) -> int
    decreases rows.len(),
{
    if rows.len() == 0 {
        0
    } else {
        sum_slices_all(rows.drop_last(), c, d) + sum_slices(rows.last().stakes@, c, d)
    }
}

/// A row's pro-rata shares sum to at most the undivided share of its
/// whole stake.
proof fn lemma_sum_slices_le(s: Seq<ClubStakingDetails>, c: int, d: int)
    requires
        0 <= c,
        0 < d,
    ensures
        0 <= sum_slices(s, c, d),
        sum_slices(s, c, d) <= (c * sum_staked(s)) / d,
    decreases s.len(),
{
    if s.len() == 0 {
        assert(c * 0 == 0) by (nonlinear_arith);
    } else {
        let sl = s.last().staked_amount as int;
        let sd = sum_staked(s.drop_last());
        lemma_sum_slices_le(s.drop_last(), c, d);
        lemma_sum_staked_nonneg(s.drop_last());
        lemma_mul_nonnegative(c, sd);
        lemma_mul_nonnegative(c, sl);
        lemma_div_pos_is_pos(c * sl, d);
        lemma_div_pos_is_pos(c * sd, d);
        lemma_div_sum_le(c * sd, c * sl, d);
        lemma_mul_is_distributive_add(c, sd, sl);
    }
}

/// With a zero divisor every share is zero.
proof fn lemma_sum_slices_zero_divisor(s: Seq<ClubStakingDetails>, c: int)
    ensures
        sum_slices(s, c, 0) == 0,
    decreases s.len(),
{
    if s.len() > 0 {
        lemma_sum_slices_zero_divisor(s.drop_last(), c);
    }
}

/// The ledger's pro-rata shares sum to at most the undivided share of the
/// grand total.
proof fn lemma_sum_slices_all_le(rows: Seq<StakeRow>, c: int, d: int)
    requires
        0 <= c,
        0 < d,
    ensures
        0 <= sum_slices_all(rows, c, d),
        sum_slices_all(rows, c, d) <= (c * grand_total(rows)) / d,
    decreases rows.len(),
{
    if rows.len() == 0 {
        assert(c * 0 == 0) by (nonlinear_arith);
    } else {
        let sl = sum_staked(rows.last().stakes@);
        let sd = grand_total(rows.drop_last());
        lemma_sum_slices_all_le(rows.drop_last(), c, d);
        lemma_sum_slices_le(rows.last().stakes@, c, d);
        lemma_grand_total_nonneg(rows.drop_last());
        lemma_sum_staked_nonneg(rows.last().stakes@);
        lemma_mul_nonnegative(c, sd);
        lemma_mul_nonnegative(c, sl);
        lemma_div_sum_le(c * sd, c * sl, d);
        lemma_mul_is_distributive_add(c, sd, sl);
    }
}

/// With a zero divisor the ledger's shares are all zero.
proof fn lemma_sum_slices_all_zero_divisor(rows: Seq<StakeRow>, c: int)
    ensures
        sum_slices_all(rows, c, 0) == 0,
    decreases rows.len(),
{
    if rows.len() > 0 {
        lemma_sum_slices_all_zero_divisor(rows.drop_last(), c);
        lemma_sum_slices_zero_divisor(rows.last().stakes@, c);
    }
}

/// The three shares of one round fit the pool together.
proof fn lemma_all_shares_bounded(rr: int)
    requires
        0 <= rr,
    ensures
        pct(rr, 19) + pct(rr, 80) + rr / 100 <= rr,
{
    lemma_mul_nonnegative(rr, 19);
    lemma_mul_nonnegative(rr, 80);
    lemma_div_pos_is_pos(rr * 19, 100);
    lemma_div_pos_is_pos(rr * 80, 100);
    lemma_div_pos_is_pos(rr, 100);
    assert(pct(rr, 19) <= (rr * 19) / 100);
    assert(pct(rr, 80) <= (rr * 80) / 100);
    lemma_div_sum_le(rr * 19, rr * 80, 100);
    assert(rr * 19 + rr * 80 == rr * 99) by (nonlinear_arith);
    lemma_div_sum_le(rr * 99, rr, 100);
    assert(rr * 99 + rr == rr * 100) by (nonlinear_arith);
    lemma_div_multiples_vanish(rr, 100);
    assert(rr * 100 == 100 * rr) by (nonlinear_arith);
}

/// A per-row reward growth bounded by the row's shares bounds the row's
/// reward sum.
proof fn lemma_row_rewards_growth(
    pre: Seq<ClubStakingDetails>,
    post: Seq<ClubStakingDetails>,
    c1: int,
    d1: int,
    c2: int,
    d2: int,
)
    requires
        post.len() == pre.len(),
        forall|k: int|
            0 <= k < pre.len() ==> (#[trigger] post[k]).reward_amount <= pre[k].reward_amount
                + mul_div(c1, pre[k].staked_amount as int, d1) + mul_div(
                c2,
                pre[k].staked_amount as int,
                d2,
            ),
    ensures
        sum_rewards(post) <= sum_rewards(pre) + sum_slices(pre, c1, d1) + sum_slices(pre, c2, d2),
    decreases pre.len(),
{
    if pre.len() > 0 {
        assert(forall|k: int| 0 <= k < pre.len() - 1 ==> pre.drop_last()[k] == pre[k]);
        assert(forall|k: int| 0 <= k < post.len() - 1 ==> post.drop_last()[k] == post[k]);
        lemma_row_rewards_growth(pre.drop_last(), post.drop_last(), c1, d1, c2, d2);
        assert(post.last() == post[pre.len() - 1]);
        assert(pre.last() == pre[pre.len() - 1]);
    }
}

/// A per-row growth bound over the whole ledger bounds the ledger's
/// reward sum; `wi == -1` means no row receives the extra share.
proof fn lemma_ledger_rewards_growth(
    pre: Seq<StakeRow>,
    post: Seq<StakeRow>,
    wi: int,
    c1: int,
    d1: int,
    c2: int,
    d2: int,
)
    requires
        post.len() == pre.len(),
        -1 <= wi < pre.len(),
        forall|j: int|
            0 <= j < pre.len() ==> (#[trigger] post[j]).stakes@.len() == pre[j].stakes@.len(),
        forall|j: int, k: int|
            0 <= j < pre.len() && 0 <= k < pre[j].stakes@.len() ==> (
            #[trigger] post[j].stakes@[k]).reward_amount <= pre[j].stakes@[k].reward_amount + (if j
                == wi {
                mul_div(c1, pre[j].stakes@[k].staked_amount as int, d1)
            } else {
                0
            }) + mul_div(c2, pre[j].stakes@[k].staked_amount as int, d2),
    ensures
        sum_rewards_all(post) <= sum_rewards_all(pre) + (if wi == -1 {
            0
        } else {
            sum_slices(pre[wi].stakes@, c1, d1)
        }) + sum_slices_all(pre, c2, d2),
    decreases pre.len(),
{
    if pre.len() > 0 {
        let n = pre.len() - 1;
        assert(forall|j: int| 0 <= j < n ==> pre.drop_last()[j] == pre[j]);
        assert(forall|j: int| 0 <= j < n ==> post.drop_last()[j] == post[j]);
        assert(pre.last() == pre[n]);
        assert(post.last() == post[n]);
        let wi2: int = if wi == n {
            -1
        } else {
            wi
        };
        lemma_ledger_rewards_growth(pre.drop_last(), post.drop_last(), wi2, c1, d1, c2, d2);
        if wi == n {
            lemma_row_rewards_growth(pre[n].stakes@, post[n].stakes@, c1, d1, c2, d2);
        } else {
            assert(forall|k: int|
                0 <= k < pre[n].stakes@.len() ==> (#[trigger] post[n].stakes@[k]).reward_amount
                    <= pre[n].stakes@[k].reward_amount + mul_div(
                    0,
                    pre[n].stakes@[k].staked_amount as int,
                    d1,
                ) + mul_div(c2, pre[n].stakes@[k].staked_amount as int, d2)) by {
                assert forall|k: int|
                    0 <= k < pre[n].stakes@.len() implies mul_div(
                    0,
                    (#[trigger] pre[n].stakes@[k]).staked_amount as int,
                    d1,
                ) == 0 by {
                    assert(0 * (pre[n].stakes@[k].staked_amount as int) == 0) by (nonlinear_arith);
                }
            }
            lemma_row_rewards_growth(pre[n].stakes@, post[n].stakes@, 0, d1, c2, d2);
            lemma_sum_slices_zero_c(pre[n].stakes@, d1);
            if wi != -1 {
                assert(pre.drop_last()[wi] == pre[wi]);
            }
        }
    }
}

/// With a zero numerator every share is zero.
proof fn lemma_sum_slices_zero_c(s: Seq<ClubStakingDetails>, d: int)
    ensures
        sum_slices(s, 0, d) == 0,
    decreases s.len(),
{
    if s.len() > 0 {
        lemma_sum_slices_zero_c(s.drop_last(), d);
        assert(0 * (s.last().staked_amount as int) == 0) by (nonlinear_arith);
    }
}

/// One successful distribution round disburses at most the pool: the
/// owner bonus plus the growth of every staker's accrued reward together
/// never exceed the pool that was distributed; the floored remainder
/// simply stays undistributed.
pub proof fn lemma_round_disburses_at_most_pool(
    pre: ClubStakingState,
    post: ClubStakingState,
    wi: int,
)
    requires
        0 <= wi < pre.stakes@.len(),
        distributed_with(pre, post, Ok::<(), ContractError>(()), wi),
        forall|j: int, k: int|
            0 <= j < pre.stakes@.len() && 0 <= k < pre.stakes@[j].stakes@.len() ==> (
            #[trigger] pre.stakes@[j].stakes@[k]).reward_amount + pre.reward <= u128::MAX,
        forall|i: int|
            0 <= i < pre.ownerships@.len() ==> (#[trigger] pre.ownerships@[i]).reward_amount
                + pre.reward / 100 <= u128::MAX,
    ensures
        ({
            let oi = key_idx(pre.ownerships@, pre.stakes@[wi].club_name@);
            sum_rewards_all(post.stakes@) + post.ownerships@[oi].reward_amount <= sum_rewards_all(
                pre.stakes@,
            ) + pre.ownerships@[oi].reward_amount + pre.reward
        }),
{
    let rows0 = pre.stakes@;
    let rr = pre.reward as int;
    let total_w = sum_staked(rows0[wi].stakes@);
    let g = grand_total(rows0);
    let oi = key_idx(pre.ownerships@, rows0[wi].club_name@);
    lemma_key_idx(pre.ownerships@, rows0[wi].club_name@);
    lemma_shares_bounded(rr);
    lemma_all_shares_bounded(rr);
    lemma_sum_staked_nonneg(rows0[wi].stakes@);
    lemma_grand_total_nonneg(rows0);
    // each entry's new reward is bounded by its old one plus its shares
    assert forall|j: int, k: int|
        0 <= j < rows0.len() && 0 <= k < rows0[j].stakes@.len() implies (
    #[trigger] post.stakes@[j].stakes@[k]).reward_amount <= rows0[j].stakes@[k].reward_amount + (
    if j == wi {
        mul_div(pct(rr, 19), rows0[j].stakes@[k].staked_amount as int, total_w)
    } else {
        0
    }) + mul_div(pct(rr, 80), rows0[j].stakes@[k].staked_amount as int, g) by {
        let e0 = rows0[j].stakes@[k];
        lemma_entry_le_sum(rows0[j].stakes@, k);
        lemma_row_le_grand(rows0, j);
        lemma_mul_div_le(pct(rr, 80), e0.staked_amount as int, g);
        if j == wi {
            lemma_mul_div_le(pct(rr, 19), e0.staked_amount as int, total_w);
        }
        assert(e0.reward_amount + rr <= u128::MAX);
    }
    lemma_ledger_rewards_growth(
        rows0,
        post.stakes@,
        wi,
        pct(rr, 19),
        total_w,
        pct(rr, 80),
        g,
    );
    // the winner row's extra shares fit the 19% slice
    if total_w > 0 {
        lemma_sum_slices_le(rows0[wi].stakes@, pct(rr, 19), total_w);
        lemma_div_multiples_vanish(pct(rr, 19), total_w);
        assert(pct(rr, 19) * total_w == total_w * pct(rr, 19)) by (nonlinear_arith);
    } else {
        lemma_sum_slices_zero_divisor(rows0[wi].stakes@, pct(rr, 19));
    }
    // the general shares fit the 80% slice
    if g > 0 {
        lemma_sum_slices_all_le(rows0, pct(rr, 80), g);
        lemma_div_multiples_vanish(pct(rr, 80), g);
        assert(pct(rr, 80) * g == g * pct(rr, 80)) by (nonlinear_arith);
    } else {
        lemma_sum_slices_all_zero_divisor(rows0, pct(rr, 80));
    }
    // the owner bonus is exactly one hundredth of the pool
    assert(post.ownerships@[oi].reward_amount == pre.ownerships@[oi].reward_amount + rr / 100);
}

} // verus!
