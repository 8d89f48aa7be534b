//! Failures an operation can report.
//!
//! Every failure is returned before any ledger entry is written: an
//! operation either commits all of its writes or none.

use vstd::prelude::*;

verus! {

/// A state-gated precondition that did not hold.
#[derive(Clone, Copy, Debug, PartialEq, Eq, Structural)]
pub enum StateFault {
    /// The club's current owner has not released it for resale.
    OwnerNotReleased,
    /// The named seller is not the club's current owner.
    SellerNotOwner,
    /// The releaser is not the club's current owner.
    ReleaserNotOwner,
    /// The locking period of the club has not elapsed yet.
    LockingPeriodNotOver,
    /// The claimed amount exceeds the accrued reward.
    InsufficientRewards,
}

/// Why an operation was refused.
#[derive(Clone, Copy, Debug, PartialEq, Eq, Structural)]
pub enum ContractError {
    /// The caller is not the principal the operation requires.
    Unauthorized,
    /// The club lacks a ledger record the operation needs: no ownership
    /// record to stake against, or no record matching a claimant.
    NotAvailable,
    /// A required state condition does not hold.
    InvalidState(StateFault),
}

} // verus!
