//! The closed set of failures that ledger operations report.
use vstd::prelude::*;

verus! {

/// Why an operation was refused. A failed operation leaves the ledger as it
/// was.
#[derive(PartialEq, Eq, Structural, Clone, Copy, Debug)]
pub enum VestingError {
    /// The caller is not the admin.
    Unauthorized,
    /// The weights do not sum to exactly one.
    InvalidWeights,
    /// An identity was refused by the identity validator.
    InvalidAddress,
    /// An addition does not fit the integer range.
    Overflow,
    /// A subtraction would go below zero.
    Underflow,
    /// No entry is recorded for the identity.
    NotFound,
    /// The beneficiary has no balance to withdraw.
    NothingToClaim,
    /// The managed balance exceeds the funds actually held: the funds were
    /// moved without the ledger's knowledge.
    ManagedExceedsActual,
    /// New weights are refused because claims were already executed.
    ClaimsExecuted,
    /// New weights are refused because a managed balance is outstanding.
    ManagedBalanceOutstanding,
}

} // verus!
