//! The distribution engine: reconciles the funds actually held with the
//! managed balance, splits the difference by weight, and corrects the
//! rounding drift against the largest holder, so that the balances always
//! sum to the funds held. Also withdrawal and the migration of weights.
use vstd::prelude::*;
use crate::error::VestingError;
use crate::fixed::{decimal_mul_spec, share_spec, split_number_with_weights, split_spec};
use crate::identity::{id_lt, lemma_bytes_lt_asym, lemma_id_lt_irreflexive, pairs_view};
use crate::ledger::{is_admin_spec, weights_valid, AddressValidator, Denom, Ledger, LedgerView};
use crate::msg::MigrateMsg;
use crate::table::{
    amount_of, lookup,
    is_max_index, lemma_map_of_at, lemma_map_of_dom, lemma_max_index_unique, map_of,
    max_account_spec, sorted, total,
};

verus! {

/// Adds each share, in order, to the balances `m`, a missing balance
/// counting as zero; `None` at the first sum that does not fit.
pub open spec fn credit_all(m: Map<Seq<char>, u128>, shares: Seq<(Seq<char>, u128)>) -> Option<
    Map<Seq<char>, u128>,
>
    decreases shares.len(),
{
    if shares.len() == 0 {
        Some(m)
    } else {
        match credit_all(m, shares.drop_last()) {
            None => None,
            Some(m1) => {
                let k = shares.last().0;
                let cur: int = if m1.contains_key(k) {
                    m1[k] as int
                } else {
                    0
                };
                if cur + shares.last().1 > u128::MAX {
                    None
                } else {
                    Some(m1.insert(k, (cur + shares.last().1) as u128))
                }
            },
        }
    }
}

/// `k` holds a largest positive balance of `m`, and every greater
/// identity holds less.
pub open spec fn is_max_key(m: Map<Seq<char>, u128>, k: Seq<char>) -> bool {
    &&& m.contains_key(k)
    &&& m[k] > 0
    &&& forall|k2: Seq<char>| #[trigger] m.contains_key(k2) ==> m[k2] <= m[k]
    &&& forall|k2: Seq<char>| #[trigger] m.contains_key(k2) && id_lt(k, k2) ==> m[k2] < m[k]
}

/// The beneficiary that a rounding correction goes to: the largest
/// balance, ties going to the greatest identity; the empty identity where
/// no balance is positive.
pub open spec fn max_holder(m: Map<Seq<char>, u128>) -> Seq<char> {
    if exists|k: Seq<char>| is_max_key(m, k) {
        choose|k: Seq<char>| is_max_key(m, k)
    } else {
        Seq::empty()
    }
}

/// Brings balances `m`, whose sum is `sum`, to the sum `actual` by
/// correcting the balance of the largest holder. Where a shortfall finds no
/// positive balance, the holder is the empty identity, which is no valid
/// identity: `InvalidAddress`.
pub open spec fn correct_spec(m: Map<Seq<char>, u128>, sum: int, actual: u128) -> Result<
    Map<Seq<char>, u128>,
    VestingError,
> {
    let acc = max_holder(m);
    if sum > u128::MAX {
        Err(VestingError::Overflow)
    } else if actual > sum {
        if acc.len() == 0 {
            Err(VestingError::InvalidAddress)
        } else if m[acc] + (actual - sum) > u128::MAX {
            Err(VestingError::Overflow)
        } else {
            Ok(m.insert(acc, (m[acc] + (actual - sum)) as u128))
        }
    } else if actual < sum {
        if !m.contains_key(acc) {
            Err(VestingError::NotFound)
        } else if m[acc] < sum - actual {
            Err(VestingError::Underflow)
        } else {
            Ok(m.insert(acc, (m[acc] - (sum - actual)) as u128))
        }
    } else {
        Ok(m)
    }
}

/// The balances after `sender` reconciles ledger `l` with the funds
/// `actual` held, or the error that refuses it.
pub open spec fn reconcile_spec(l: LedgerView, sender: Seq<char>, actual: u128) -> Result<
    Map<Seq<char>, u128>,
    VestingError,
> {
    if !is_admin_spec(l.admin, sender) {
        Err(VestingError::Unauthorized)
    } else if l.managed_balance > actual {
        Err(VestingError::ManagedExceedsActual)
    } else {
        match split_spec(l.weights, (actual - l.managed_balance) as u128) {
            Err(e) => Err(e),
            Ok(shares) => match credit_all(map_of(l.balances), shares) {
                None => Err(VestingError::Overflow),
                Some(m1) => correct_spec(m1, total(l.balances) + total(shares), actual),
            },
        }
    }
}

pub proof fn lemma_credit_all_prefix(
    m: Map<Seq<char>, u128>,
    s: Seq<(Seq<char>, u128)>,
    j: int,
)
    requires
        0 <= j <= s.len(),
        credit_all(m, s.take(j)) is None,
    ensures
        credit_all(m, s) is None,
    decreases s.len(),
{
    if j == s.len() {
        assert(s.take(j) =~= s);
    } else {
        assert(s.drop_last().take(j) =~= s.take(j));
        lemma_credit_all_prefix(m, s.drop_last(), j);
    }
}

pub proof fn lemma_max_holder(v: Seq<(Seq<char>, u128)>)
    requires
        sorted(v),
    ensures
        max_account_spec(v) == max_holder(map_of(v)),
{
    let m = map_of(v);
    assert forall|i: int| is_max_index(v, i) implies is_max_key(m, #[trigger] v[i].0) by {
        lemma_map_of_at(v, i);
        assert forall|k2: Seq<char>| #[trigger] m.contains_key(k2) implies m[k2] <= m[v[i].0]
            && (id_lt(v[i].0, k2) ==> m[k2] < m[v[i].0]) by {
            lemma_map_of_dom(v, k2);
            let j = choose|j: int| 0 <= j < v.len() && v[j].0 == k2;
            lemma_map_of_at(v, j);
            if id_lt(v[i].0, k2) {
                if j < i {
                    assert(id_lt(v[j].0, v[i].0));
                    lemma_bytes_lt_asym(
                        vstd::utf8::encode_utf8(v[j].0),
                        vstd::utf8::encode_utf8(v[i].0),
                    );
                } else if j == i {
                    lemma_id_lt_irreflexive(v[i].0);
                }
            }
        }
    }
    assert forall|k: Seq<char>| is_max_key(m, k) implies exists|i: int|
        is_max_index(v, i) && #[trigger] v[i].0 == k by {
        lemma_map_of_dom(v, k);
        let i = choose|i: int| 0 <= i < v.len() && v[i].0 == k;
        lemma_map_of_at(v, i);
        assert forall|j: int| 0 <= j < v.len() implies #[trigger] v[j].1 <= v[i].1 && (i < j
            ==> v[j].1 < v[i].1) by {
            lemma_map_of_at(v, j);
            if i < j {
                assert(id_lt(v[i].0, v[j].0));
            }
        }
        assert(is_max_index(v, i));
    }
    if exists|i: int| is_max_index(v, i) {
        let c = choose|i: int| is_max_index(v, i);
        assert(is_max_key(m, v[c].0));
        let k = choose|k: Seq<char>| is_max_key(m, k);
        let i = choose|i: int| is_max_index(v, i) && #[trigger] v[i].0 == k;
        lemma_max_index_unique(v, c, i);
    } else {
        if exists|k: Seq<char>| is_max_key(m, k) {
            let k = choose|k: Seq<char>| is_max_key(m, k);
            assert(exists|i: int| is_max_index(v, i) && #[trigger] v[i].0 == k);
        }
    }
}

pub proof fn lemma_credit_all_keys(m: Map<Seq<char>, u128>, s: Seq<(Seq<char>, u128)>)
    requires
        credit_all(m, s) is Some,
    ensures
        forall|i: int| 0 <= i < s.len() ==> credit_all(m, s)->Some_0.contains_key(#[trigger] s[i].0),
    decreases s.len(),
{
    if s.len() > 0 {
        let d = s.drop_last();
        lemma_credit_all_keys(m, d);
        assert forall|i: int| 0 <= i < s.len() implies credit_all(m, s)->Some_0.contains_key(
            #[trigger] s[i].0,
        ) by {
            if i < s.len() - 1 {
                assert(d[i] == s[i]);
            }
        }
    }
}

pub proof fn lemma_credit_all_zero(m: Map<Seq<char>, u128>, s: Seq<(Seq<char>, u128)>)
    requires
        forall|i: int| 0 <= i < s.len() ==> (#[trigger] s[i]).1 == 0 && m.contains_key(s[i].0),
    ensures
        credit_all(m, s) == Some(m),
        total(s) == 0,
    decreases s.len(),
{
    if s.len() > 0 {
        let d = s.drop_last();
        assert forall|i: int| 0 <= i < d.len() implies (#[trigger] d[i]).1 == 0 && m.contains_key(
            d[i].0,
        ) by {
            assert(d[i] == s[i]);
        }
        lemma_credit_all_zero(m, d);
        assert(s[s.len() - 1].1 == 0);
        assert(m.insert(s.last().0, m[s.last().0]) =~= m);
    }
}

/// Reconciling a second time with the same funds held changes nothing:
/// the difference is zero, the call succeeds, and every balance and the
/// managed balance stay as the first call left them.
pub proof fn lemma_update_claims_twice(
    l: LedgerView,
    n: LedgerView,
    n2: LedgerView,
    sender: Seq<char>,
    actual: u128,
    r2: Result<(), VestingError>,
)
    requires
        sorted(n.balances),
        update_claims_post(l, n, sender, actual, Ok(())),
        update_claims_post(n, n2, sender, actual, r2),
    ensures
        r2 is Ok,
        map_of(n2.balances) == map_of(n.balances),
        n2 == (LedgerView { balances: n2.balances, ..n }),
{
    let delta1 = (actual - l.managed_balance) as u128;
    let shares1 = split_spec(l.weights, delta1)->Ok_0;
    let m1 = credit_all(map_of(l.balances), shares1)->Some_0;
    lemma_credit_all_keys(map_of(l.balances), shares1);
    let m2 = map_of(n.balances);
    assert forall|k: Seq<char>| m1.contains_key(k) implies m2.contains_key(k) by {
    }
    let shares0 = split_spec(n.weights, 0)->Ok_0;
    assert forall|i: int| 0 <= i < n.weights.len() implies (#[trigger] share_spec(
        n.weights[i].1,
        0,
    )) is Ok by {
        assert(decimal_mul_spec(n.weights[i].1, 0) == Some(0u128));
    }
    assert(split_spec(n.weights, 0) is Ok);
    assert forall|i: int| 0 <= i < shares0.len() implies (#[trigger] shares0[i]).1 == 0
        && m2.contains_key(shares0[i].0) by {
        assert(decimal_mul_spec(n.weights[i].1, 0) == Some(0u128));
        assert(shares1[i].0 == l.weights[i].0);
        assert(m1.contains_key(shares1[i].0));
    }
    lemma_credit_all_zero(m2, shares0);
    assert(reconcile_spec(n, sender, actual) == Ok::<_, VestingError>(m2));
}

/// An instruction for the host to transfer `amount` of `denom` to
/// `recipient`.
#[derive(Debug, PartialEq, Eq)]
pub struct Transfer {
    pub recipient: String,
    pub amount: u128,
    pub denom: Denom,
}

/// The amount that `who` withdraws from ledger `l`, or the error that
/// refuses it.
pub open spec fn withdraw_spec(l: LedgerView, who: Seq<char>) -> Result<u128, VestingError> {
    match lookup(l.balances, who) {
        None => Err(VestingError::NotFound),
        Some(a) => if a == 0 {
            Err(VestingError::NothingToClaim)
        } else if l.managed_balance < a {
            Err(VestingError::Underflow)
        } else if amount_of(l.claimed, who) + a > u128::MAX {
            Err(VestingError::Overflow)
        } else {
            Ok(a)
        },
    }
}

/// Why new weights are refused before they are looked at, if they are.
pub open spec fn migration_block(l: LedgerView) -> Option<VestingError> {
    if total(l.claimed) > u128::MAX {
        Some(VestingError::Overflow)
    } else if total(l.claimed) != 0 {
        Some(VestingError::ClaimsExecuted)
    } else if l.managed_balance != 0 {
        Some(VestingError::ManagedBalanceOutstanding)
    } else {
        None
    }
}

/// What reconciling ledger `l` with the funds `actual`, at the request of
/// `sender`, leaves: ledger `n` and outcome `r`.
pub open spec fn update_claims_post(
    l: LedgerView,
    n: LedgerView,
    sender: Seq<char>,
    actual: u128,
    r: Result<(), VestingError>,
) -> bool {
    &&& match reconcile_spec(l, sender, actual) {
        Ok(m) => r is Ok && map_of(n.balances) == m && n == (LedgerView {
            balances: n.balances,
            managed_balance: actual,
            ..l
        }),
        Err(e) => r == Err::<(), _>(e) && n == l,
    }
    &&& r is Ok ==> total(n.balances) == n.managed_balance == actual
}

/// What a withdrawal by `who` from ledger `l` leaves: ledger `n` and
/// outcome `r`.
pub open spec fn withdraw_post(
    l: LedgerView,
    n: LedgerView,
    who: Seq<char>,
    r: Result<Transfer, VestingError>,
) -> bool {
    &&& match withdraw_spec(l, who) {
        Ok(a) => r is Ok && r->Ok_0.recipient@ == who && r->Ok_0.amount == a && r->Ok_0.denom@
            == l.denom && map_of(n.balances) == map_of(l.balances).insert(who, 0) && total(
            n.balances,
        ) == total(l.balances) - a && map_of(n.claimed) == map_of(l.claimed).insert(
            who,
            (amount_of(l.claimed, who) + a) as u128,
        ) && n == (LedgerView {
            managed_balance: (l.managed_balance - a) as u128,
            balances: n.balances,
            claimed: n.claimed,
            ..l
        }),
        Err(e) => r matches Err(x) && x == e && n == l,
    }
    &&& r is Ok && total(l.balances) == l.managed_balance ==> total(n.balances)
        == n.managed_balance
}

/// What `sender` asking ledger `l` to make `address` the admin leaves:
/// ledger `n` and outcome `r`. The identity validator may refuse
/// `address`.
pub open spec fn set_admin_post(
    l: LedgerView,
    n: LedgerView,
    sender: Seq<char>,
    address: Seq<char>,
    r: Result<(), VestingError>,
) -> bool {
    &&& !is_admin_spec(l.admin, sender) ==> r == Err::<(), _>(VestingError::Unauthorized)
    &&& r is Err ==> n == l
    &&& is_admin_spec(l.admin, sender) && r is Err ==> r == Err::<(), _>(
        VestingError::InvalidAddress,
    )
    &&& r is Ok ==> n == (LedgerView { admin: Some(address), ..l })
}

/// Total paid out by the successful withdrawals among the first `k`
/// outcomes.
pub open spec fn paid_out(results: Seq<Result<Transfer, VestingError>>, k: int) -> int
    decreases k,
{
    if k <= 0 || k > results.len() {
        0
    } else {
        paid_out(results, k - 1) + match results[k - 1] {
            Ok(t) => t.amount as int,
            Err(_) => 0,
        }
    }
}

/// Over any run of withdrawals, successful or not, the claimable balances
/// plus what was paid out stay what they were, and a managed balance equal
/// to the sum of the claimable balances stays equal to it.
pub proof fn lemma_withdrawals_conserve(
    states: Seq<LedgerView>,
    who: Seq<Seq<char>>,
    results: Seq<Result<Transfer, VestingError>>,
)
    requires
        states.len() == who.len() + 1,
        results.len() == who.len(),
        total(states[0].balances) == states[0].managed_balance,
        forall|i: int|
            0 <= i < who.len() ==> withdraw_post(
                #[trigger] states[i],
                states[i + 1],
                who[i],
                results[i],
            ),
    ensures
        forall|k: int|
            0 <= k < states.len() ==> total((#[trigger] states[k]).balances) + paid_out(results, k)
                == total(states[0].balances) && total(states[k].balances)
                == states[k].managed_balance,
    decreases who.len(),
{
    if who.len() > 0 {
        let n = who.len() - 1;
        lemma_withdrawals_conserve(states.drop_last(), who.drop_last(), results.drop_last());
        assert forall|k: int| 0 <= k < states.len() implies total((#[trigger] states[k]).balances)
            + paid_out(results, k) == total(states[0].balances) && total(states[k].balances)
            == states[k].managed_balance by {
            lemma_paid_out_prefix(results, k);
            if k == states.len() - 1 {
                assert(states.drop_last()[n] == states[n]);
                lemma_paid_out_prefix(results, n);
                assert(withdraw_post(states[n], states[n + 1], who[n], results[n]));
            } else {
                assert(states.drop_last()[k] == states[k]);
            }
        }
    }
}

pub proof fn lemma_paid_out_prefix(results: Seq<Result<Transfer, VestingError>>, k: int)
    requires
        0 <= k < results.len() + 1,
        results.len() > 0,
    ensures
        k < results.len() ==> paid_out(results.drop_last(), k) == paid_out(results, k),
    decreases k,
{
    if k > 0 && k < results.len() {
        lemma_paid_out_prefix(results, k - 1);
        assert(results.drop_last()[k - 1] == results[k - 1]);
    }
}

impl Ledger {
    /// Pays out the whole balance of `address`: its balance becomes zero,
    /// the managed balance drops and its claimed total grows by the
    /// amount, and a transfer of the amount to `address` is returned.
    pub fn execute_withdraw(&mut self, address: String) -> (r: Result<Transfer, VestingError>)
        requires
            old(self).wf(),
        ensures
            final(self).wf(),
            withdraw_post(old(self)@, final(self)@, address@, r),
    {
        let amount = match self.balances.get(&address) {
            Some(a) => a,
            None => {
                return Err(VestingError::NotFound);
            },
        };
        if amount == 0 {
            return Err(VestingError::NothingToClaim);
        }
        if self.managed_balance < amount {
            return Err(VestingError::Underflow);
        }
        let mut claimed = self.claimed.copy();
        claimed.add(address.clone(), amount)?;
        let taken = self.balances.sub(&address, amount);
        assert(taken is Ok);
        self.managed_balance = self.managed_balance - amount;
        self.claimed = claimed;
        Ok(Transfer { recipient: address, amount, denom: self.denom.copy() })
    }

    /// Records `address` as the new admin; only the admin may.
    pub fn execute_set_admin<V: AddressValidator>(
        &mut self,
        api: &V,
        sender: String,
        address: String,
    ) -> (r: Result<(), VestingError>)
        ensures
            set_admin_post(old(self)@, final(self)@, sender@, address@, r),
    {
        if !self.is_admin(&sender) {
            return Err(VestingError::Unauthorized);
        }
        self.set_admin(api, Some(address))
    }

    /// Replaces the weights, where new ones are given, while the ledger is
    /// untouched: `ClaimsExecuted` once anything was withdrawn,
    /// `ManagedBalanceOutstanding` while funds are managed; then as
    /// `set_weights`. Balances are never touched.
    pub fn migrate<V: AddressValidator>(&mut self, api: &V, msg: MigrateMsg) -> (r: Result<
        (),
        VestingError,
    >)
        requires
            old(self).wf(),
        ensures
            final(self).wf(),
            r is Err ==> final(self)@ == old(self)@,
            msg.weights is None ==> r is Ok && final(self)@ == old(self)@,
            msg.weights is Some ==> match migration_block(old(self)@) {
                Some(e) => r == Err::<(), _>(e),
                None => {
                    let w = pairs_view(msg.weights->Some_0@);
                    &&& !weights_valid(w) ==> r == Err::<(), _>(VestingError::InvalidWeights)
                    &&& weights_valid(w) && r is Err ==> r == Err::<(), _>(
                        VestingError::InvalidAddress,
                    )
                    &&& r is Ok ==> map_of(final(self)@.weights) == map_of(w) && final(self)@ == (
                    LedgerView { weights: final(self)@.weights, ..old(self)@ })
                },
            },
    {
        proof {
            crate::table::lemma_total_nonneg(self.claimed@);
        }
        match msg.weights {
            Some(weights) => {
                let total_claimed = self.get_total_claimed()?;
                if total_claimed != 0 {
                    return Err(VestingError::ClaimsExecuted);
                }
                if self.managed_balance != 0 {
                    return Err(VestingError::ManagedBalanceOutstanding);
                }
                self.set_weights(api, weights)
            },
            None => Ok(()),
        }
    }

    /// Reconciles the ledger with `current_balance`, the funds actually
    /// held: only the admin may; the managed balance becomes the funds
    /// held, the difference is split by weight and credited, and the
    /// rounding drift is corrected against the largest holder.
    pub fn execute_update_claims(&mut self, sender: String, current_balance: u128) -> (r: Result<
        (),
        VestingError,
    >)
        requires
            old(self).wf(),
        ensures
            final(self).wf(),
            update_claims_post(old(self)@, final(self)@, sender@, current_balance, r),
    {
        let ghost l = self@;
        if !self.is_admin(&sender) {
            return Err(VestingError::Unauthorized);
        }
        let managed = self.managed_balance;
        if managed > current_balance {
            return Err(VestingError::ManagedExceedsActual);
        }
        let delta = current_balance - managed;
        let shares = split_number_with_weights(delta, self.weights.to_vec())?;
        let ghost sh = pairs_view(shares@);
        let ghost m0 = map_of(l.balances);
        assert(split_spec(l.weights, delta) == Ok::<_, VestingError>(sh));
        let mut bal = self.balances.copy();
        let mut i: usize = 0;
        while i < shares.len()
            invariant
                self@ == l,
                self.wf(),
                is_admin_spec(l.admin, sender@),
                l.managed_balance <= current_balance,
                delta == current_balance - l.managed_balance,
                split_spec(l.weights, delta) == Ok::<_, VestingError>(sh),
                m0 == map_of(l.balances),
                sh == pairs_view(shares@),
                0 <= i <= shares@.len(),
                bal.wf(),
                credit_all(m0, sh.take(i as int)) == Some(map_of(bal@)),
                total(bal@) == total(l.balances) + total(sh.take(i as int)),
            decreases shares@.len() - i,
        {
            assert(sh.take(i + 1).drop_last() =~= sh.take(i as int));
            match bal.add(shares[i].0.clone(), shares[i].1) {
                Ok(()) => {},
                Err(e) => {
                    proof {
                        lemma_credit_all_prefix(m0, sh, i + 1);
                    }
                    return Err(e);
                },
            }
            i = i + 1;
        }
        assert(sh.take(i as int) =~= sh);
        let ghost m1 = map_of(bal@);
        let sum = bal.sum()?;
        let acc = bal.max_account();
        proof {
            lemma_max_holder(bal@);
            crate::table::lemma_total_nonneg(bal@);
            if exists|k: Seq<char>| is_max_key(m1, k) {
                assert(is_max_key(m1, max_holder(m1)));
            }
        }
        assert(reconcile_spec(l, sender@, current_balance) == correct_spec(
            m1,
            total(bal@),
            current_balance,
        ));
        let empty = String::new();
        assert(empty@ =~= Seq::<char>::empty());
        let ghost c = correct_spec(m1, total(bal@), current_balance);
        if current_balance > sum {
            if acc == empty {
                return Err(VestingError::InvalidAddress);
            }
            assert(acc@.len() > 0) by {
                if acc@.len() == 0 {
                    assert(acc@ =~= empty@);
                }
            }
            let ghost before = bal@;
            let ghost a = acc@;
            let added = bal.add(acc, current_balance - sum);
            assert(crate::table::amount_of(before, a) == m1[a]);
            if added.is_err() {
                return added;
            }
        } else if current_balance < sum {
            let ghost before = bal@;
            let taken = bal.sub(&acc, sum - current_balance);
            assert(crate::table::lookup(before, acc@) == if m1.contains_key(acc@) {
                Some(m1[acc@])
            } else {
                None
            });
            assert(max_holder(m1) == acc@);
            if taken.is_err() {
                return taken;
            }
            assert(c == Ok::<_, VestingError>(map_of(bal@)));
        }
        self.balances = bal;
        self.managed_balance = current_balance;
        Ok(())
    }
}

} // verus!
