//! The ledger: admin, managed denomination, managed balance, and the
//! tables of claimable balances, claimed totals and weights, owned by one
//! value and changed only through its methods. Every fallible operation
//! leaves the ledger unchanged when it fails.
use vstd::prelude::*;
use crate::error::VestingError;
use crate::fixed::DECIMAL_FRACTIONAL;
use crate::identity::pairs_view;
use crate::table::{amount_of, lemma_total_prefix, lookup, map_of, total, Table};

verus! {

/// Checks identities on behalf of the host, which alone knows the address
/// format of its chain.
pub trait AddressValidator {
    /// Whether `address` is a valid identity.
    fn addr_validate(&self, address: &String) -> bool;
}

/// The denomination that the ledger manages.
#[derive(Debug, PartialEq, Eq)]
pub enum Denom {
    /// A native currency, by its code.
    Native(String),
    /// A fungible token, by the address of its contract.
    Cw20(String),
}

pub enum DenomView {
    Native(Seq<char>),
    Cw20(Seq<char>),
}

impl View for Denom {
    type V = DenomView;

    open spec fn view(&self) -> DenomView {
        match self {
            Denom::Native(s) => DenomView::Native(s@),
            Denom::Cw20(s) => DenomView::Cw20(s@),
        }
    }
}

impl Denom {
    /// The same denomination.
    pub fn copy(&self) -> (r: Denom)
        ensures
            r@ == self@,
    {
        match self {
            Denom::Native(s) => Denom::Native(s.clone()),
            Denom::Cw20(s) => Denom::Cw20(s.clone()),
        }
    }
}

/// Copy of an optional identity.
pub fn copy_opt(s: &Option<String>) -> (r: Option<String>)
    ensures
        opt_view(r) == opt_view(*s),
{
    match s {
        Some(a) => Some(a.clone()),
        None => None,
    }
}

pub open spec fn opt_view(s: Option<String>) -> Option<Seq<char>> {
    match s {
        Some(a) => Some(a@),
        None => None,
    }
}

/// The state of a ledger, in mathematical terms.
pub struct LedgerView {
    pub admin: Option<Seq<char>>,
    pub denom: DenomView,
    pub managed_balance: u128,
    pub balances: Seq<(Seq<char>, u128)>,
    pub claimed: Seq<(Seq<char>, u128)>,
    pub weights: Seq<(Seq<char>, u128)>,
}

/// The distribution ledger.
#[derive(Debug, PartialEq, Eq)]
pub struct Ledger {
    /// The identity allowed to distribute and to change the admin; an empty
    /// identity stands for "no admin".
    pub admin: Option<String>,
    pub denom: Denom,
    /// The total of funds currently allocated to beneficiaries.
    pub managed_balance: u128,
    /// Claimable, not yet withdrawn amount of each beneficiary.
    pub balances: Table,
    /// Total ever withdrawn by each beneficiary.
    pub claimed: Table,
    /// Share of each beneficiary, as the atomics of a fraction.
    pub weights: Table,
}

impl View for Ledger {
    type V = LedgerView;

    open spec fn view(&self) -> LedgerView {
        LedgerView {
            admin: opt_view(self.admin),
            denom: self.denom@,
            managed_balance: self.managed_balance,
            balances: self.balances@,
            claimed: self.claimed@,
            weights: self.weights@,
        }
    }
}

/// Whether `who` is the admin.
pub open spec fn is_admin_spec(admin: Option<Seq<char>>, who: Seq<char>) -> bool {
    admin == Some(who)
}

/// The weights sum to exactly one.
pub open spec fn weights_valid(w: Seq<(Seq<char>, u128)>) -> bool {
    total(w) == DECIMAL_FRACTIONAL as int
}

/// Checks that the weights sum to exactly one: `InvalidWeights` otherwise.
pub fn validate_weights(weights: Vec<(String, u128)>) -> (r: Result<(), VestingError>)
    ensures
        weights_valid(pairs_view(weights@)) ==> r is Ok,
        !weights_valid(pairs_view(weights@)) ==> r == Err::<(), _>(VestingError::InvalidWeights),
{
    let ghost v = pairs_view(weights@);
    let mut acc: u128 = 0;
    let mut i: usize = 0;
    while i < weights.len()
        invariant
            v == pairs_view(weights@),
            0 <= i <= v.len(),
            acc == total(v.take(i as int)),
        decreases v.len() - i,
    {
        assert(v.take(i + 1).drop_last() =~= v.take(i as int));
        match acc.checked_add(weights[i].1) {
            Some(a) => {
                acc = a;
            },
            None => {
                proof {
                    lemma_total_prefix(v, i + 1);
                }
                return Err(VestingError::InvalidWeights);
            },
        }
        i = i + 1;
    }
    assert(v.take(i as int) =~= v);
    if acc == DECIMAL_FRACTIONAL {
        Ok(())
    } else {
        Err(VestingError::InvalidWeights)
    }
}

/// Checks an optional identity: `InvalidAddress` where it is given and
/// refused.
pub fn validate_admin<V: AddressValidator>(api: &V, address: &Option<String>) -> (r: Result<
    (),
    VestingError,
>)
    ensures
        address is None ==> r is Ok,
        r is Err ==> r == Err::<(), _>(VestingError::InvalidAddress),
{
    match address {
        Some(a) => {
            if api.addr_validate(a) {
                Ok(())
            } else {
                Err(VestingError::InvalidAddress)
            }
        },
        None => Ok(()),
    }
}

/// Checks every identity of `entries`, in order.
fn validate_all<V: AddressValidator>(api: &V, entries: &Vec<(String, u128)>) -> (r: Result<
    (),
    VestingError,
>)
    ensures
        r is Err ==> r == Err::<(), _>(VestingError::InvalidAddress),
{
    let mut i: usize = 0;
    while i < entries.len()
        invariant
            0 <= i <= entries@.len(),
        decreases entries@.len() - i,
    {
        if !api.addr_validate(&entries[i].0) {
            return Err(VestingError::InvalidAddress);
        }
        i = i + 1;
    }
    Ok(())
}

/// Records each entry of `entries` in `t`, in order.
fn put_all(t: &mut Table, entries: &Vec<(String, u128)>)
    requires
        old(t).wf(),
    ensures
        final(t).wf(),
        map_of(final(t)@) == map_of(old(t)@ + pairs_view(entries@)),
{
    let ghost start = t@;
    let ghost src = pairs_view(entries@);
    let mut i: usize = 0;
    while i < entries.len()
        invariant
            src == pairs_view(entries@),
            0 <= i <= entries@.len(),
            t.wf(),
            map_of(t@) == map_of(start + src.take(i as int)),
        decreases entries@.len() - i,
    {
        assert((start + src.take(i + 1)).drop_last() =~= start + src.take(i as int));
        t.put(entries[i].0.clone(), entries[i].1);
        i = i + 1;
    }
    assert(src.take(i as int) =~= src);
}

impl Ledger {
    pub open spec fn wf(&self) -> bool {
        &&& self.balances.wf()
        &&& self.claimed.wf()
        &&& self.weights.wf()
    }

    // ----- admin -----

    /// Records `address` as admin, or the empty identity ("no admin") for
    /// `None`; a given identity must pass the validator.
    pub fn set_admin<V: AddressValidator>(&mut self, api: &V, address: Option<String>) -> (r:
        Result<(), VestingError>)
        ensures
            address is None ==> r is Ok,
            r is Err ==> r == Err::<(), _>(VestingError::InvalidAddress) && final(self)@ == old(self)@,
            r is Ok ==> final(self)@ == (LedgerView {
                admin: Some(
                    match address {
                        Some(a) => a@,
                        None => Seq::empty(),
                    },
                ),
                ..old(self)@
            }),
    {
        match address {
            Some(a) => {
                if !api.addr_validate(&a) {
                    return Err(VestingError::InvalidAddress);
                }
                self.admin = Some(a);
            },
            None => {
                let empty = String::new();
                self.admin = Some(empty);
            },
        }
        Ok(())
    }

    /// The admin, if one was ever recorded.
    pub fn get_admin(&self) -> (r: Option<String>)
        ensures
            opt_view(r) == self@.admin,
    {
        copy_opt(&self.admin)
    }

    /// Whether `address` is the admin.
    pub fn is_admin(&self, address: &String) -> (r: bool)
        ensures
            r == is_admin_spec(self@.admin, address@),
    {
        match &self.admin {
            Some(a) => *a == *address,
            None => false,
        }
    }

    /// `Unauthorized` unless `address` is the admin.
    pub fn assert_admin(&self, address: String) -> (r: Result<(), VestingError>)
        ensures
            is_admin_spec(self@.admin, address@) ==> r is Ok,
            !is_admin_spec(self@.admin, address@) ==> r == Err::<(), _>(
                VestingError::Unauthorized,
            ),
    {
        if self.is_admin(&address) {
            Ok(())
        } else {
            Err(VestingError::Unauthorized)
        }
    }

    // ----- managed denomination and balance -----

    pub fn set_managed_denom(&mut self, denom: Denom)
        ensures
            final(self)@ == (LedgerView { denom: denom@, ..old(self)@ }),
    {
        self.denom = denom;
    }

    pub fn get_managed_denom(&self) -> (r: Denom)
        ensures
            r@ == self@.denom,
    {
        self.denom.copy()
    }

    pub fn set_managed_balance(&mut self, amount: u128)
        ensures
            final(self)@ == (LedgerView { managed_balance: amount, ..old(self)@ }),
    {
        self.managed_balance = amount;
    }

    pub fn get_managed_balance(&self) -> (r: u128)
        ensures
            r == self@.managed_balance,
    {
        self.managed_balance
    }

    /// Lowers the managed balance by `amount`: `Underflow` where it is
    /// smaller.
    pub fn reduce_managed_balance(&mut self, amount: u128) -> (r: Result<(), VestingError>)
        ensures
            old(self).managed_balance < amount ==> r == Err::<(), _>(VestingError::Underflow)
                && final(self)@ == old(self)@,
            old(self).managed_balance >= amount ==> r is Ok && final(self)@ == (LedgerView {
                managed_balance: (old(self).managed_balance - amount) as u128,
                ..old(self)@
            }),
    {
        if self.managed_balance < amount {
            Err(VestingError::Underflow)
        } else {
            self.managed_balance = self.managed_balance - amount;
            Ok(())
        }
    }

    // ----- claimable balances -----

    /// Records `amount` as the balance of `address`.
    pub fn set_balance<V: AddressValidator>(&mut self, api: &V, address: String, amount: u128) -> (r:
        Result<(), VestingError>)
        requires
            old(self).wf(),
        ensures
            final(self).wf(),
            r is Err ==> r == Err::<(), _>(VestingError::InvalidAddress) && final(self)@ == old(self)@,
            r is Ok ==> map_of(final(self)@.balances) == map_of(old(self)@.balances).insert(
                address@,
                amount,
            ) && final(self)@ == (LedgerView { balances: final(self)@.balances, ..old(self)@ }),
    {
        if !api.addr_validate(&address) {
            return Err(VestingError::InvalidAddress);
        }
        self.balances.put(address, amount);
        Ok(())
    }

    /// Records each balance of `balances`, in order.
    pub fn set_balances<V: AddressValidator>(&mut self, api: &V, balances: Vec<(String, u128)>) -> (r:
        Result<(), VestingError>)
        requires
            old(self).wf(),
        ensures
            final(self).wf(),
            r is Err ==> r == Err::<(), _>(VestingError::InvalidAddress) && final(self)@ == old(self)@,
            r is Ok ==> map_of(final(self)@.balances) == map_of(
                old(self)@.balances + pairs_view(balances@),
            ) && final(self)@ == (LedgerView { balances: final(self)@.balances, ..old(self)@ }),
    {
        validate_all(api, &balances)?;
        put_all(&mut self.balances, &balances);
        Ok(())
    }

    /// Adds `amount` to the balance of `address`, a missing balance counting
    /// as zero: `Overflow` where the sum does not fit.
    pub fn add_balance<V: AddressValidator>(&mut self, api: &V, address: String, amount: u128) -> (r:
        Result<(), VestingError>)
        requires
            old(self).wf(),
        ensures
            final(self).wf(),
            r is Err ==> final(self)@ == old(self)@,
            r != Err::<(), _>(VestingError::InvalidAddress) ==> {
                let cur = amount_of(old(self)@.balances, address@);
                &&& cur + amount > u128::MAX ==> r == Err::<(), _>(VestingError::Overflow)
                &&& cur + amount <= u128::MAX ==> r is Ok && map_of(final(self)@.balances)
                    == map_of(old(self)@.balances).insert(address@, (cur + amount) as u128)
                    && total(final(self)@.balances) == total(old(self)@.balances) + amount
                    && final(self)@ == (LedgerView {
                    balances: final(self)@.balances,
                    ..old(self)@
                })
            },
    {
        if !api.addr_validate(&address) {
            return Err(VestingError::InvalidAddress);
        }
        self.balances.add(address, amount)
    }

    /// Takes `amount` from the balance of `address`: `NotFound` where none is
    /// recorded, `Underflow` where it is smaller.
    pub fn reduce_balance<V: AddressValidator>(&mut self, api: &V, address: String, amount: u128) -> (r:
        Result<(), VestingError>)
        requires
            old(self).wf(),
        ensures
            final(self).wf(),
            r is Err ==> final(self)@ == old(self)@,
            r != Err::<(), _>(VestingError::InvalidAddress) ==> {
                &&& r == crate::table::sub_result(old(self)@.balances, address@, amount)
                &&& r is Ok ==> map_of(final(self)@.balances) == map_of(old(self)@.balances).insert(
                    address@,
                    (amount_of(old(self)@.balances, address@) - amount) as u128,
                ) && total(final(self)@.balances) == total(old(self)@.balances) - amount
                    && final(self)@ == (LedgerView {
                    balances: final(self)@.balances,
                    ..old(self)@
                })
            },
    {
        if !api.addr_validate(&address) {
            return Err(VestingError::InvalidAddress);
        }
        self.balances.sub(&address, amount)
    }

    /// The beneficiary holding the largest balance; among equal largest
    /// balances the greatest identity; the empty identity where no balance
    /// is positive.
    pub fn get_max_balance_account(&self) -> (r: String)
        ensures
            r@ == crate::table::max_account_spec(self@.balances),
    {
        self.balances.max_account()
    }

    /// The balance of `address`: `NotFound` where none is recorded.
    pub fn get_balance(&self, address: String) -> (r: Result<u128, VestingError>)
        requires
            self.wf(),
        ensures
            match lookup(self@.balances, address@) {
                Some(a) => r == Ok::<u128, VestingError>(a),
                None => r == Err::<u128, _>(VestingError::NotFound),
            },
    {
        match self.balances.get(&address) {
            Some(a) => Ok(a),
            None => Err(VestingError::NotFound),
        }
    }

    /// Sum of all balances: `Overflow` where it does not fit.
    pub fn sum_balances(&self) -> (r: Result<u128, VestingError>)
        ensures
            total(self@.balances) <= u128::MAX ==> r == Ok::<u128, VestingError>(
                total(self@.balances) as u128,
            ),
            total(self@.balances) > u128::MAX ==> r == Err::<u128, _>(VestingError::Overflow),
    {
        self.balances.sum()
    }

    /// All balances, ascending by identity.
    pub fn get_balances(&self) -> (r: Vec<(String, u128)>)
        ensures
            pairs_view(r@) == self@.balances,
    {
        self.balances.to_vec()
    }

    // ----- claimed totals -----

    /// Records `amount` as the claimed total of `address`.
    pub fn set_claimed<V: AddressValidator>(&mut self, api: &V, address: String, amount: u128) -> (r:
        Result<(), VestingError>)
        requires
            old(self).wf(),
        ensures
            final(self).wf(),
            r is Err ==> r == Err::<(), _>(VestingError::InvalidAddress) && final(self)@ == old(self)@,
            r is Ok ==> map_of(final(self)@.claimed) == map_of(old(self)@.claimed).insert(
                address@,
                amount,
            ) && final(self)@ == (LedgerView { claimed: final(self)@.claimed, ..old(self)@ }),
    {
        if !api.addr_validate(&address) {
            return Err(VestingError::InvalidAddress);
        }
        self.claimed.put(address, amount);
        Ok(())
    }

    /// The claimed total of `address`: `NotFound` where none is recorded.
    pub fn get_claimed(&self, address: String) -> (r: Result<u128, VestingError>)
        requires
            self.wf(),
        ensures
            match lookup(self@.claimed, address@) {
                Some(a) => r == Ok::<u128, VestingError>(a),
                None => r == Err::<u128, _>(VestingError::NotFound),
            },
    {
        match self.claimed.get(&address) {
            Some(a) => Ok(a),
            None => Err(VestingError::NotFound),
        }
    }

    /// Adds `amount` to the claimed total of `address`, a missing total
    /// counting as zero: `Overflow` where the sum does not fit.
    pub fn add_claimed<V: AddressValidator>(&mut self, api: &V, address: String, amount: u128) -> (r:
        Result<(), VestingError>)
        requires
            old(self).wf(),
        ensures
            final(self).wf(),
            r is Err ==> final(self)@ == old(self)@,
            r != Err::<(), _>(VestingError::InvalidAddress) ==> {
                let cur = amount_of(old(self)@.claimed, address@);
                &&& cur + amount > u128::MAX ==> r == Err::<(), _>(VestingError::Overflow)
                &&& cur + amount <= u128::MAX ==> r is Ok && map_of(final(self)@.claimed)
                    == map_of(old(self)@.claimed).insert(address@, (cur + amount) as u128)
                    && final(self)@ == (LedgerView { claimed: final(self)@.claimed, ..old(self)@ })
            },
    {
        if !api.addr_validate(&address) {
            return Err(VestingError::InvalidAddress);
        }
        self.claimed.add(address, amount)
    }

    /// Sum of all claimed totals: `Overflow` where it does not fit.
    pub fn get_total_claimed(&self) -> (r: Result<u128, VestingError>)
        ensures
            total(self@.claimed) <= u128::MAX ==> r == Ok::<u128, VestingError>(
                total(self@.claimed) as u128,
            ),
            total(self@.claimed) > u128::MAX ==> r == Err::<u128, _>(VestingError::Overflow),
    {
        self.claimed.sum()
    }

    // ----- weights -----

    /// Replaces the weight table by `weights`: `InvalidWeights` unless they
    /// sum to exactly one, then `InvalidAddress` where an identity is
    /// refused.
    pub fn set_weights<V: AddressValidator>(&mut self, api: &V, weights: Vec<(String, u128)>) -> (r:
        Result<(), VestingError>)
        requires
            old(self).wf(),
        ensures
            final(self).wf(),
            r is Err ==> final(self)@ == old(self)@,
            !weights_valid(pairs_view(weights@)) ==> r == Err::<(), _>(
                VestingError::InvalidWeights,
            ),
            weights_valid(pairs_view(weights@)) ==> (r is Err ==> r == Err::<(), _>(
                VestingError::InvalidAddress,
            )),
            r is Ok ==> map_of(final(self)@.weights) == map_of(pairs_view(weights@)) && final(self)@ == (LedgerView { weights: final(self)@.weights, ..old(self)@ }),
    {
        let table = Table::from_entries(&weights);
        validate_weights(weights)?;
        validate_all(api, &table.entries)?;
        self.weights = table;
        Ok(())
    }

    /// All weights, ascending by identity.
    pub fn get_weights(&self) -> (r: Vec<(String, u128)>)
        ensures
            pairs_view(r@) == self@.weights,
    {
        self.weights.to_vec()
    }

    /// The weight of `address`: `NotFound` where none is recorded.
    pub fn get_weight(&self, address: String) -> (r: Result<u128, VestingError>)
        requires
            self.wf(),
        ensures
            match lookup(self@.weights, address@) {
                Some(a) => r == Ok::<u128, VestingError>(a),
                None => r == Err::<u128, _>(VestingError::NotFound),
            },
    {
        match self.weights.get(&address) {
            Some(a) => Ok(a),
            None => Err(VestingError::NotFound),
        }
    }
}

} // verus!
