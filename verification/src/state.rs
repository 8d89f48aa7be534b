//! The ledgers and their well-formedness.
//!
//! Five keyed ledgers and one scalar make up the whole state: ownership and
//! previous-owner records keyed by club name, stake and bond rows keyed by
//! club name, escrow entries keyed by address, and the reward pool. All
//! amounts are unsigned 128-bit integers, all timestamps and durations are
//! seconds in unsigned 64-bit integers.

use vstd::prelude::*;

use crate::keyed::{key_idx, unique_keys, upsert_by_key, Keyed};
use crate::keyed::{find_by_key, lemma_key_idx, lemma_upsert_keeps_unique_keys};

verus! {

/// Price charged for buying a club, in tokens.
pub const CLUB_PRICE: u128 = 1000000000;

/// Reward credited to a club's owner on buying it, in tokens.
pub const CLUB_BUYING_REWARD_AMOUNT: u128 = 100;

/// Reward credited to a staker on a first stake, in tokens.
pub const CLUB_STAKING_REWARD_AMOUNT: u128 = 0;

/// Locking period after buying a club (21 days), in seconds.
pub const CLUB_LOCKING_DURATION: u64 = 1814400;

/// Duration recorded on a stake entry, in seconds; staking is no longer
/// time-locked, so it is zero.
pub const CLUB_STAKING_DURATION: u64 = 0;

/// Bonding period after a deferred withdrawal (7 days), in seconds.
pub const CLUB_BONDING_DURATION: u64 = 604800;

/// The single hard-coded address authorized to run the periodic bonding
/// sweep, fill the reward pool, and trigger a distribution round.
pub open spec fn operator_address() -> Seq<char> {
    "terra1t3czdl5h4w4qwgkzs80fdstj0z7rfv9v2j6uh3"@
}

/// Does `addr` name the designated operator?
pub fn is_operator(addr: &String) -> (r: bool)
    ensures
        r == (addr@ == operator_address()),
{
    let w: String = "terra1t3czdl5h4w4qwgkzs80fdstj0z7rfv9v2j6uh3".to_owned();
    *addr == w
}

/// Bootstrap configuration registered on instantiation.
pub struct Config {
    pub cw20_token_address: String,
    pub admin_address: String,
}

/// Current (or most recent) purchaser of a club and the purchase terms.
pub struct ClubOwnershipDetails {
    /// The club name.
    pub club_name: String,
    /// When ownership was taken; the locking period runs from here.
    pub start_timestamp: u64,
    /// The locking period, in seconds.
    pub locking_period: u64,
    pub owner_address: String,
    pub price_paid: u128,
    /// Reward accrued to the owner, in tokens.
    pub reward_amount: u128,
    /// Has the owner released the club so another buyer may purchase it?
    pub owner_released: bool,
}

/// Reward still owed to a club's previous owner after a resale.
pub struct ClubPreviousOwnerDetails {
    /// The club name.
    pub club_name: String,
    pub previous_owner_address: String,
    pub reward_amount: u128,
}

/// One staker's accumulated stake on one club.
pub struct ClubStakingDetails {
    pub club_name: String,
    pub staker_address: String,
    /// When the staker first staked on this club.
    pub staking_start_timestamp: u64,
    /// Staked amount, in tokens; positive while the entry exists.
    pub staked_amount: u128,
    /// Duration of staking, in seconds.
    pub staking_duration: u64,
    /// Reward accrued to the staker, in tokens.
    pub reward_amount: u128,
}

/// One pending deferred withdrawal, refunded once its bonding period ends.
pub struct ClubBondingDetails {
    pub club_name: String,
    pub bonder_address: String,
    /// When the withdrawal was requested.
    pub bonding_start_timestamp: u64,
    /// Bonded amount, in tokens.
    pub bonded_amount: u128,
    /// Duration of bonding, in seconds.
    pub bonding_duration: u64,
}

/// The staking ledger's row for one club.
pub struct StakeRow {
    pub club_name: String,
    /// At most one entry per staker.
    pub stakes: Vec<ClubStakingDetails>,
}

/// The bonding ledger's row for one club.
pub struct BondRow {
    pub club_name: String,
    /// One entry per deferred withdrawal; entries are never merged.
    pub bonds: Vec<ClubBondingDetails>,
}

/// Escrow bookkeeping for one address: funds notionally in the contract's
/// custody. Settlement of real tokens is the token module's business.
pub struct WalletEntry {
    pub address: String,
    pub amount: u128,
}

impl Keyed for ClubOwnershipDetails {
    open spec fn key(&self) -> Seq<char> {
        self.club_name@
    }

    fn key_matches(&self, k: &String) -> bool {
        self.club_name == *k
    }
}

impl Keyed for ClubPreviousOwnerDetails {
    open spec fn key(&self) -> Seq<char> {
        self.club_name@
    }

    fn key_matches(&self, k: &String) -> bool {
        self.club_name == *k
    }
}

impl Keyed for ClubStakingDetails {
    open spec fn key(&self) -> Seq<char> {
        self.staker_address@
    }

    fn key_matches(&self, k: &String) -> bool {
        self.staker_address == *k
    }
}

impl Keyed for StakeRow {
    open spec fn key(&self) -> Seq<char> {
        self.club_name@
    }

    fn key_matches(&self, k: &String) -> bool {
        self.club_name == *k
    }
}

impl Keyed for BondRow {
    open spec fn key(&self) -> Seq<char> {
        self.club_name@
    }

    fn key_matches(&self, k: &String) -> bool {
        self.club_name == *k
    }
}

impl Keyed for WalletEntry {
    open spec fn key(&self) -> Seq<char> {
        self.address@
    }

    fn key_matches(&self, k: &String) -> bool {
        self.address == *k
    }
}

impl Clone for ClubOwnershipDetails {
    fn clone(&self) -> (res: Self)
        ensures
            res == *self,
    {
        ClubOwnershipDetails {
            club_name: self.club_name.clone(),
            start_timestamp: self.start_timestamp,
            locking_period: self.locking_period,
            owner_address: self.owner_address.clone(),
            price_paid: self.price_paid,
            reward_amount: self.reward_amount,
            owner_released: self.owner_released,
        }
    }
}

impl Clone for ClubPreviousOwnerDetails {
    fn clone(&self) -> (res: Self)
        ensures
            res == *self,
    {
        ClubPreviousOwnerDetails {
            club_name: self.club_name.clone(),
            previous_owner_address: self.previous_owner_address.clone(),
            reward_amount: self.reward_amount,
        }
    }
}

impl Clone for ClubStakingDetails {
    fn clone(&self) -> (res: Self)
        ensures
            res == *self,
    {
        ClubStakingDetails {
            club_name: self.club_name.clone(),
            staker_address: self.staker_address.clone(),
            staking_start_timestamp: self.staking_start_timestamp,
            staked_amount: self.staked_amount,
            staking_duration: self.staking_duration,
            reward_amount: self.reward_amount,
        }
    }
}

impl Clone for ClubBondingDetails {
    fn clone(&self) -> (res: Self)
        ensures
            res == *self,
    {
        ClubBondingDetails {
            club_name: self.club_name.clone(),
            bonder_address: self.bonder_address.clone(),
            bonding_start_timestamp: self.bonding_start_timestamp,
            bonded_amount: self.bonded_amount,
            bonding_duration: self.bonding_duration,
        }
    }
}

impl StakeRow {
    /// Entries carry the row's club name, stakers appear at most once, and
    /// every entry stakes a positive amount.
    pub open spec fn wf_row(&self) -> bool {
        &&& unique_keys(self.stakes@)
        &&& forall|j: int|
            0 <= j < self.stakes@.len() ==> (#[trigger] self.stakes@[j]).club_name@
                == self.club_name@
        &&& forall|j: int| 0 <= j < self.stakes@.len() ==> (#[trigger] self.stakes@[j]).staked_amount > 0
    }
}

impl BondRow {
    /// Entries carry the row's club name.
    pub open spec fn wf_row(&self) -> bool {
        forall|j: int|
            0 <= j < self.bonds@.len() ==> (#[trigger] self.bonds@[j]).club_name@ == self.club_name@
    }
}

/// The staking ledger keeps club keys unique and every row well formed.
pub open spec fn stake_rows_wf(rows: Seq<StakeRow>) -> bool {
    &&& unique_keys(rows)
    &&& forall|i: int| 0 <= i < rows.len() ==> (#[trigger] rows[i]).wf_row()
}

/// The bonding ledger keeps club keys unique and every row well formed.
pub open spec fn bond_rows_wf(rows: Seq<BondRow>) -> bool {
    &&& unique_keys(rows)
    &&& forall|i: int| 0 <= i < rows.len() ==> (#[trigger] rows[i]).wf_row()
}

/// The whole ledger state a host persists between operations.
pub struct ClubStakingState {
    /// Registered configuration, absent until instantiation.
    pub config: Option<Config>,
    /// At most one record per club; overwritten on resale, never deleted.
    pub ownerships: Vec<ClubOwnershipDetails>,
    /// At most one record per club; written on resale with a named seller.
    pub previous_owners: Vec<ClubPreviousOwnerDetails>,
    /// One row per club that has ever been staked on.
    pub stakes: Vec<StakeRow>,
    /// One row per club with pending deferred withdrawals.
    pub bonds: Vec<BondRow>,
    /// Escrow bookkeeping, one entry per address.
    pub wallet: Vec<WalletEntry>,
    /// The global reward pool consumed by a distribution round.
    pub reward: u128,
}

impl ClubStakingState {
    /// Every ledger keeps its keys unique and its rows well formed. In
    /// particular each club has at most one ownership record and at most one
    /// previous-owner record, and each (club, staker) pair has at most one
    /// stake entry, always of positive amount.
    pub open spec fn wf(&self) -> bool {
        &&& unique_keys(self.ownerships@)
        &&& unique_keys(self.previous_owners@)
        &&& unique_keys(self.wallet@)
        &&& stake_rows_wf(self.stakes@)
        &&& bond_rows_wf(self.bonds@)
    }

    /// A fresh state: no records, no configuration, an empty reward pool.
    pub fn new() -> (s: Self)
        ensures
            s.wf(),
            s.config is None,
            s.ownerships@.len() == 0,
            s.previous_owners@.len() == 0,
            s.stakes@.len() == 0,
            s.bonds@.len() == 0,
            s.wallet@.len() == 0,
            s.reward == 0,
    {
        ClubStakingState {
            config: None,
            ownerships: Vec::new(),
            previous_owners: Vec::new(),
            stakes: Vec::new(),
            bonds: Vec::new(),
            wallet: Vec::new(),
            reward: 0,
        }
    }
}

/// For every club a well-formed state holds at most one live ownership
/// record: two distinct records never share a club name.
pub proof fn lemma_one_ownership_record_per_club(s: &ClubStakingState, i: int, j: int)
    requires
        s.wf(),
        0 <= i < s.ownerships@.len(),
        0 <= j < s.ownerships@.len(),
        i != j,
    ensures
        s.ownerships@[i].club_name@ != s.ownerships@[j].club_name@,
{
    if i < j {
        assert(s.ownerships@[i].key() != s.ownerships@[j].key());
    } else {
        assert(s.ownerships@[j].key() != s.ownerships@[i].key());
    }
}

/// For every club a well-formed state holds at most one live
/// previous-owner record: two distinct records never share a club name.
pub proof fn lemma_one_previous_owner_record_per_club(s: &ClubStakingState, i: int, j: int)
    requires
        s.wf(),
        0 <= i < s.previous_owners@.len(),
        0 <= j < s.previous_owners@.len(),
        i != j,
    ensures
        s.previous_owners@[i].club_name@ != s.previous_owners@[j].club_name@,
{
    if i < j {
        assert(s.previous_owners@[i].key() != s.previous_owners@[j].key());
    } else {
        assert(s.previous_owners@[j].key() != s.previous_owners@[i].key());
    }
}

/// For every (club, staker) pair a well-formed state holds at most one
/// stake entry: two distinct entries differ in their club or in their
/// staker.
pub proof fn lemma_one_stake_entry_per_pair(
    s: &ClubStakingState,
    i: int,
    k: int,
    j: int,
    l: int,
)
    requires
        s.wf(),
        0 <= i < s.stakes@.len(),
        0 <= k < s.stakes@[i].stakes@.len(),
        0 <= j < s.stakes@.len(),
        0 <= l < s.stakes@[j].stakes@.len(),
        i != j || k != l,
    ensures
        s.stakes@[i].stakes@[k].club_name@ != s.stakes@[j].stakes@[l].club_name@
            || s.stakes@[i].stakes@[k].staker_address@
            != s.stakes@[j].stakes@[l].staker_address@,
{
    assert(s.stakes@[i].wf_row());
    assert(s.stakes@[j].wf_row());
    if i != j {
        if i < j {
            assert(s.stakes@[i].key() != s.stakes@[j].key());
        } else {
            assert(s.stakes@[j].key() != s.stakes@[i].key());
        }
        assert(s.stakes@[i].stakes@[k].club_name@ == s.stakes@[i].club_name@);
        assert(s.stakes@[j].stakes@[l].club_name@ == s.stakes@[j].club_name@);
    } else {
        if k < l {
            assert(s.stakes@[i].stakes@[k].key() != s.stakes@[j].stakes@[l].key());
        } else {
            assert(s.stakes@[j].stakes@[l].key() != s.stakes@[i].stakes@[k].key());
        }
    }
}

/// Every stake entry of a well-formed state stakes a strictly positive
/// amount.
pub proof fn lemma_stake_entries_positive(s: &ClubStakingState, i: int, k: int)
    requires
        s.wf(),
        0 <= i < s.stakes@.len(),
        0 <= k < s.stakes@[i].stakes@.len(),
    ensures
        s.stakes@[i].stakes@[k].staked_amount > 0,
{
    assert(s.stakes@[i].wf_row());
}

/// The escrow balance booked for `addr`, zero if no entry exists.
pub open spec fn wallet_amount(s: Seq<WalletEntry>, addr: Seq<char>) -> int {
    let i = key_idx(s, addr);
    if i == -1 {
        0
    } else {
        s[i].amount as int
    }
}

/// The escrow ledger with `addr`'s entry set to `amount`, created if absent.
pub open spec fn wallet_with(s: Seq<WalletEntry>, addr: String, amount: u128) -> Seq<WalletEntry> {
    upsert_by_key(s, WalletEntry { address: addr, amount })
}

/// The escrow ledger after crediting `delta` to `addr`.
pub open spec fn wallet_credited(s: Seq<WalletEntry>, addr: String, delta: int) -> Seq<
    WalletEntry,
> {
    wallet_with(s, addr, (wallet_amount(s, addr@) + delta) as u128)
}

/// The escrow ledger after debiting `delta` from `addr`, saturating at
/// zero: an over-debit is not an error, the entry simply empties.
pub open spec fn wallet_debited(s: Seq<WalletEntry>, addr: String, delta: int) -> Seq<WalletEntry> {
    let bal = wallet_amount(s, addr@);
    wallet_with(s, addr, (if bal >= delta { bal - delta } else { 0 }) as u128)
}

/// Set `addr`'s escrow entry to `amount`, creating it if absent.
pub fn wallet_set(wallet: &mut Vec<WalletEntry>, addr: &String, amount: u128)
    ensures
        final(wallet)@ == wallet_with(old(wallet)@, *addr, amount),
        unique_keys(old(wallet)@) ==> unique_keys(final(wallet)@),
{
    proof {
        if unique_keys(wallet@) {
            lemma_upsert_keeps_unique_keys(wallet@, WalletEntry { address: *addr, amount });
        }
    }
    let found = find_by_key(wallet, addr);
    match found {
        Some(i) => {
            wallet[i] = WalletEntry { address: addr.clone(), amount };
        },
        None => {
            wallet.push(WalletEntry { address: addr.clone(), amount });
        },
    }
}

/// Credit `delta` tokens to `addr`'s escrow entry.
pub fn wallet_credit(wallet: &mut Vec<WalletEntry>, addr: &String, delta: u128)
    requires
        wallet_amount(old(wallet)@, addr@) + delta <= u128::MAX,
    ensures
        final(wallet)@ == wallet_credited(old(wallet)@, *addr, delta as int),
        unique_keys(old(wallet)@) ==> unique_keys(final(wallet)@),
{
    let found = find_by_key(wallet, addr);
    let bal: u128 = match found {
        Some(i) => wallet[i].amount,
        None => 0,
    };
    wallet_set(wallet, addr, bal + delta);
}

/// Debit `delta` tokens from `addr`'s escrow entry, saturating at zero.
pub fn wallet_debit(wallet: &mut Vec<WalletEntry>, addr: &String, delta: u128)
    ensures
        final(wallet)@ == wallet_debited(old(wallet)@, *addr, delta as int),
        unique_keys(old(wallet)@) ==> unique_keys(final(wallet)@),
{
    let found = find_by_key(wallet, addr);
    let bal: u128 = match found {
        Some(i) => wallet[i].amount,
        None => 0,
    };
    let left: u128 = if bal >= delta {
        bal - delta
    } else {
        0
    };
    wallet_set(wallet, addr, left);
}

} // verus!
