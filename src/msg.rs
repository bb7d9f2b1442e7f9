//! Commands and queries of the ledger, and the answers to queries.
use vstd::prelude::*;
use crate::ledger::Denom;

verus! {

/// A state-changing command.
#[derive(Debug, PartialEq, Eq)]
pub enum ExecuteMsg {
    /// Record a new admin (admin only).
    SetAdmin { admin: String },
    /// Reconcile with the funds held and distribute the difference (admin
    /// only).
    UpdateClaims {},
    /// Withdraw the caller's whole balance.
    Claim {},
}

/// A read-only request.
#[derive(Debug, PartialEq, Eq)]
pub enum QueryMsg {
    Admin {},
    PendingClaim { address: String },
    PendingClaims {},
    Claimed { address: String },
    TotalClaimed {},
    Denom {},
    Weights {},
}

/// An amount recorded for an identity.
#[derive(Debug, PartialEq, Eq)]
pub struct QueryPendingClaimResponse {
    pub address: String,
    pub amount: u128,
}

/// All claimable balances and their sum.
#[derive(Debug, PartialEq, Eq)]
pub struct QueryPendingClaimsResponse {
    pub claims: Vec<QueryPendingClaimResponse>,
    pub total: u128,
}

/// The managed denomination and the managed balance.
#[derive(Debug, PartialEq, Eq)]
pub struct QueryManagedDenomResponse {
    pub managed_denom: Denom,
    pub amount: u128,
}

/// All weights, ascending by identity.
#[derive(Debug, PartialEq, Eq)]
pub struct QueryWeightsResponse {
    pub weights: Vec<(String, u128)>,
}

/// What a ledger is created with.
#[derive(Debug, PartialEq, Eq)]
pub struct InstantiateMsg {
    pub managed_denom: Denom,
    pub weights: Vec<(String, u128)>,
    pub admin: Option<String>,
}

/// New weights, to be taken only while nothing was claimed or managed.
#[derive(Debug, PartialEq, Eq)]
pub struct MigrateMsg {
    pub weights: Option<Vec<(String, u128)>>,
}

} // verus!
