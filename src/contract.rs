//! The command surface of the ledger: creation, commands and queries.
use vstd::prelude::*;
use crate::distribution::{set_admin_post, update_claims_post, withdraw_post, Transfer};
use crate::error::VestingError;
use crate::identity::pairs_view;
use crate::ledger::{
    opt_view, validate_admin, weights_valid, AddressValidator, Ledger,
};
use crate::msg::{
    ExecuteMsg, InstantiateMsg, QueryManagedDenomResponse, QueryMsg, QueryPendingClaimResponse,
    QueryPendingClaimsResponse, QueryWeightsResponse,
};
use crate::table::{lookup, map_of, total, Table};

verus! {

/// The answer to a query.
#[derive(Debug, PartialEq, Eq)]
pub enum QueryAnswer {
    Admin(Option<String>),
    PendingClaim(QueryPendingClaimResponse),
    PendingClaims(QueryPendingClaimsResponse),
    Claimed(QueryPendingClaimResponse),
    TotalClaimed(u128),
    Denom(QueryManagedDenomResponse),
    Weights(QueryWeightsResponse),
}

/// Identities with amounts, as listed in a response.
pub open spec fn claims_view(v: Seq<QueryPendingClaimResponse>) -> Seq<(Seq<char>, u128)> {
    v.map_values(|c: QueryPendingClaimResponse| (c.address@, c.amount))
}

/// The outcome of a command without its value.
pub open spec fn unit_of<T>(r: Result<T, VestingError>) -> Result<(), VestingError> {
    match r {
        Ok(_) => Ok(()),
        Err(e) => Err(e),
    }
}

impl ExecuteMsg {
    /// Whether the command needs the funds that the ledger actually holds.
    pub fn needs_current_balance(&self) -> (r: bool)
        ensures
            r == (self is UpdateClaims),
    {
        match self {
            ExecuteMsg::UpdateClaims {  } => true,
            _ => false,
        }
    }
}

/// Creates a ledger with no managed balance and no balances, the weights
/// of `msg` (`InvalidWeights` unless they sum to exactly one), and as admin
/// the one that `msg` names, else `sender`. `InvalidAddress` where the
/// validator refuses an identity.
pub fn instantiate<V: AddressValidator>(api: &V, sender: String, msg: InstantiateMsg) -> (r:
    Result<Ledger, VestingError>)
    ensures
        !weights_valid(pairs_view(msg.weights@)) ==> (r matches Err(e) && e
            == VestingError::InvalidWeights),
        weights_valid(pairs_view(msg.weights@)) ==> (r matches Err(e) ==> e
            == VestingError::InvalidAddress),
        r matches Ok(l) ==> {
            &&& l.wf()
            &&& l@.managed_balance == 0
            &&& l@.balances.len() == 0
            &&& l@.claimed.len() == 0
            &&& map_of(l@.weights) == map_of(pairs_view(msg.weights@))
            &&& l@.denom == msg.managed_denom@
            &&& l@.admin == Some(
                match msg.admin {
                    Some(a) => a@,
                    None => sender@,
                },
            )
        },
{
    let InstantiateMsg { managed_denom, weights, admin } = msg;
    let mut ledger = Ledger {
        admin: None,
        denom: managed_denom,
        managed_balance: 0,
        balances: Table::new(),
        claimed: Table::new(),
        weights: Table::new(),
    };
    ledger.set_weights(api, weights)?;
    validate_admin(api, &admin)?;
    match admin {
        Some(a) => ledger.set_admin(api, Some(a))?,
        None => ledger.set_admin(api, Some(sender))?,
    }
    Ok(ledger)
}

impl Ledger {
    /// Carries out a command from `sender`. `current_balance` is the funds
    /// actually held, which only `UpdateClaims` reads. A withdrawal returns
    /// the transfer to be made.
    pub fn execute<V: AddressValidator>(
        &mut self,
        api: &V,
        sender: String,
        msg: ExecuteMsg,
        current_balance: u128,
    ) -> (r: Result<Option<Transfer>, VestingError>)
        requires
            old(self).wf(),
        ensures
            final(self).wf(),
            match msg {
                ExecuteMsg::UpdateClaims {  } => update_claims_post(
                    old(self)@,
                    final(self)@,
                    sender@,
                    current_balance,
                    unit_of(r),
                ) && (r matches Ok(t) ==> t is None),
                ExecuteMsg::Claim {  } => match r {
                    Ok(Some(t)) => withdraw_post(old(self)@, final(self)@, sender@, Ok(t)),
                    Ok(None) => false,
                    Err(e) => withdraw_post(old(self)@, final(self)@, sender@, Err(e)),
                },
                ExecuteMsg::SetAdmin { admin } => set_admin_post(
                    old(self)@,
                    final(self)@,
                    sender@,
                    admin@,
                    unit_of(r),
                ) && (r matches Ok(t) ==> t is None),
            },
    {
        match msg {
            ExecuteMsg::UpdateClaims {  } => match self.execute_update_claims(
                sender,
                current_balance,
            ) {
                Ok(()) => Ok(None),
                Err(e) => Err(e),
            },
            ExecuteMsg::Claim {  } => match self.execute_withdraw(sender) {
                Ok(t) => Ok(Some(t)),
                Err(e) => Err(e),
            },
            ExecuteMsg::SetAdmin { admin } => match self.execute_set_admin(api, sender, admin) {
                Ok(()) => Ok(None),
                Err(e) => Err(e),
            },
        }
    }

    /// Every claimable balance, ascending by identity, with their sum:
    /// `Overflow` where the sum does not fit.
    pub fn query_claims(&self) -> (r: Result<QueryPendingClaimsResponse, VestingError>)
        ensures
            total(self@.balances) > u128::MAX ==> (r matches Err(e) && e
                == VestingError::Overflow),
            total(self@.balances) <= u128::MAX ==> (r matches Ok(c) && claims_view(c.claims@)
                == self@.balances && c.total == total(self@.balances)),
    {
        proof {
            crate::table::lemma_total_nonneg(self@.balances);
        }
        let balances = self.balances.to_vec();
        let total = self.balances.sum()?;
        let mut claims: Vec<QueryPendingClaimResponse> = Vec::new();
        let mut i: usize = 0;
        while i < balances.len()
            invariant
                0 <= i <= balances@.len(),
                pairs_view(balances@) == self@.balances,
                claims_view(claims@) =~= pairs_view(balances@).take(i as int),
            decreases balances@.len() - i,
        {
            let ghost before = claims@;
            claims.push(
                QueryPendingClaimResponse { address: balances[i].0.clone(), amount: balances[i].1 },
            );
            assert(claims_view(claims@) =~= claims_view(before).push(
                pairs_view(balances@)[i as int],
            ));
            assert(pairs_view(balances@).take(i + 1) =~= pairs_view(balances@).take(i as int).push(
                pairs_view(balances@)[i as int],
            ));
            i = i + 1;
        }
        assert(pairs_view(balances@).take(i as int) =~= pairs_view(balances@));
        Ok(QueryPendingClaimsResponse { claims, total })
    }

    /// The claimable balance of `address`: `NotFound` where none is
    /// recorded.
    pub fn query_claim(&self, address: String) -> (r: Result<
        QueryPendingClaimResponse,
        VestingError,
    >)
        requires
            self.wf(),
        ensures
            match lookup(self@.balances, address@) {
                Some(a) => r matches Ok(c) && c.address@ == address@ && c.amount == a,
                None => r matches Err(e) && e == VestingError::NotFound,
            },
    {
        let amount = self.get_balance(address.clone())?;
        Ok(QueryPendingClaimResponse { address, amount })
    }

    /// The claimed total of `address`: `NotFound` where none is recorded.
    pub fn query_claimed(&self, address: String) -> (r: Result<
        QueryPendingClaimResponse,
        VestingError,
    >)
        requires
            self.wf(),
        ensures
            match lookup(self@.claimed, address@) {
                Some(a) => r matches Ok(c) && c.address@ == address@ && c.amount == a,
                None => r matches Err(e) && e == VestingError::NotFound,
            },
    {
        let amount = self.get_claimed(address.clone())?;
        Ok(QueryPendingClaimResponse { address, amount })
    }

    /// The managed denomination and the managed balance.
    pub fn query_denom(&self) -> (r: QueryManagedDenomResponse)
        ensures
            r.managed_denom@ == self@.denom,
            r.amount == self@.managed_balance,
    {
        QueryManagedDenomResponse {
            managed_denom: self.get_managed_denom(),
            amount: self.get_managed_balance(),
        }
    }

    /// All weights, ascending by identity.
    pub fn query_weights(&self) -> (r: QueryWeightsResponse)
        ensures
            pairs_view(r.weights@) == self@.weights,
    {
        QueryWeightsResponse { weights: self.get_weights() }
    }

    /// Answers a query.
    pub fn query(&self, msg: QueryMsg) -> (r: Result<QueryAnswer, VestingError>)
        requires
            self.wf(),
        ensures
            match msg {
                QueryMsg::Admin {  } => match r {
                    Ok(QueryAnswer::Admin(a)) => opt_view(a) == self@.admin,
                    _ => false,
                },
                QueryMsg::PendingClaim { address } => match lookup(self@.balances, address@) {
                    Some(a) => r matches Ok(QueryAnswer::PendingClaim(c)) && c.address@ == address@
                        && c.amount == a,
                    None => r matches Err(e) && e == VestingError::NotFound,
                },
                QueryMsg::PendingClaims {  } => if total(self@.balances) > u128::MAX {
                    r matches Err(e) && e == VestingError::Overflow
                } else {
                    r matches Ok(QueryAnswer::PendingClaims(c)) && claims_view(c.claims@)
                        == self@.balances && c.total == total(self@.balances)
                },
                QueryMsg::Claimed { address } => match lookup(self@.claimed, address@) {
                    Some(a) => r matches Ok(QueryAnswer::Claimed(c)) && c.address@ == address@
                        && c.amount == a,
                    None => r matches Err(e) && e == VestingError::NotFound,
                },
                QueryMsg::TotalClaimed {  } => if total(self@.claimed) > u128::MAX {
                    r matches Err(e) && e == VestingError::Overflow
                } else {
                    r matches Ok(QueryAnswer::TotalClaimed(t)) && t == total(self@.claimed)
                },
                QueryMsg::Denom {  } => r matches Ok(QueryAnswer::Denom(d)) && d.managed_denom@
                    == self@.denom && d.amount == self@.managed_balance,
                QueryMsg::Weights {  } => r matches Ok(QueryAnswer::Weights(w)) && pairs_view(
                    w.weights@,
                ) == self@.weights,
            },
    {
        proof {
            crate::table::lemma_total_nonneg(self@.claimed);
        }
        match msg {
            QueryMsg::Admin {  } => Ok(QueryAnswer::Admin(self.get_admin())),
            QueryMsg::PendingClaim { address } => match self.query_claim(address) {
                Ok(c) => Ok(QueryAnswer::PendingClaim(c)),
                Err(e) => Err(e),
            },
            QueryMsg::PendingClaims {  } => match self.query_claims() {
                Ok(c) => Ok(QueryAnswer::PendingClaims(c)),
                Err(e) => Err(e),
            },
            QueryMsg::Claimed { address } => match self.query_claimed(address) {
                Ok(c) => Ok(QueryAnswer::Claimed(c)),
                Err(e) => Err(e),
            },
            QueryMsg::TotalClaimed {  } => match self.get_total_claimed() {
                Ok(t) => Ok(QueryAnswer::TotalClaimed(t)),
                Err(e) => Err(e),
            },
            QueryMsg::Denom {  } => Ok(QueryAnswer::Denom(self.query_denom())),
            QueryMsg::Weights {  } => Ok(QueryAnswer::Weights(self.query_weights())),
        }
    }
}

} // verus!
