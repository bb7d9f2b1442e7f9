//! A table from identities to amounts, kept sorted by identity: the
//! storage behind beneficiary balances, claimed totals and weights.
use vstd::prelude::*;
use crate::error::VestingError;
use crate::identity::{
    compare_ids, id_lt, lemma_id_lt_irreflexive, lemma_id_lt_transitive, pairs_view, KeyOrder,
};

verus! {

/// Entries strictly ascending by identity, so each identity occurs once.
pub open spec fn sorted(v: Seq<(Seq<char>, u128)>) -> bool {
    forall|i: int, j: int|
        #![trigger v[i], v[j]]
        0 <= i < j < v.len() ==> id_lt(v[i].0, v[j].0)
}

/// The map that the entries describe; where an identity occurs twice the
/// later entry wins.
pub open spec fn map_of(v: Seq<(Seq<char>, u128)>) -> Map<Seq<char>, u128>
    decreases v.len(),
{
    if v.len() == 0 {
        Map::empty()
    } else {
        map_of(v.drop_last()).insert(v.last().0, v.last().1)
    }
}

/// Sum of all amounts.
pub open spec fn total(v: Seq<(Seq<char>, u128)>) -> int
    decreases v.len(),
{
    if v.len() == 0 {
        0
    } else {
        total(v.drop_last()) + v.last().1
    }
}

/// The amount recorded for `k`, zero where none is.
pub open spec fn amount_of(v: Seq<(Seq<char>, u128)>, k: Seq<char>) -> int {
    if map_of(v).contains_key(k) {
        map_of(v)[k] as int
    } else {
        0
    }
}

/// The amount recorded for `k`, if any.
pub open spec fn lookup(v: Seq<(Seq<char>, u128)>, k: Seq<char>) -> Option<u128> {
    if map_of(v).contains_key(k) {
        Some(map_of(v)[k])
    } else {
        None
    }
}

/// `i` holds a largest positive amount, and every later entry holds less.
pub open spec fn is_max_index(v: Seq<(Seq<char>, u128)>, i: int) -> bool {
    &&& 0 <= i < v.len()
    &&& v[i].1 > 0
    &&& forall|j: int| 0 <= j < v.len() ==> #[trigger] v[j].1 <= v[i].1
    &&& forall|j: int| i < j < v.len() ==> #[trigger] v[j].1 < v[i].1
}

/// The identity holding the largest positive amount; among equal largest
/// amounts the greatest identity. The empty identity where no amount is
/// positive.
pub open spec fn max_account_spec(v: Seq<(Seq<char>, u128)>) -> Seq<char> {
    if exists|i: int| is_max_index(v, i) {
        v[choose|i: int| is_max_index(v, i)].0
    } else {
        Seq::empty()
    }
}

pub proof fn lemma_map_of_dom(v: Seq<(Seq<char>, u128)>, k: Seq<char>)
    ensures
        map_of(v).contains_key(k) <==> exists|i: int| 0 <= i < v.len() && v[i].0 == k,
    decreases v.len(),
{
    if v.len() > 0 {
        let d = v.drop_last();
        lemma_map_of_dom(d, k);
        if map_of(v).contains_key(k) {
            if k == v.last().0 {
                assert(v[v.len() - 1].0 == k);
            } else {
                let i = choose|i: int| 0 <= i < d.len() && d[i].0 == k;
                assert(v[i].0 == k);
            }
        }
        if exists|i: int| 0 <= i < v.len() && v[i].0 == k {
            let i = choose|i: int| 0 <= i < v.len() && v[i].0 == k;
            if i < v.len() - 1 {
                assert(d[i].0 == k);
            }
        }
    }
}

pub proof fn lemma_map_of_at(v: Seq<(Seq<char>, u128)>, i: int)
    requires
        sorted(v),
        0 <= i < v.len(),
    ensures
        map_of(v).contains_key(v[i].0),
        map_of(v)[v[i].0] == v[i].1,
    decreases v.len(),
{
    if i < v.len() - 1 {
        let d = v.drop_last();
        assert(id_lt(v[i].0, v[v.len() - 1].0));
        lemma_id_lt_irreflexive(v[i].0);
        assert(d[i] == v[i]);
        lemma_map_of_at(d, i);
    }
}

pub proof fn lemma_update(v: Seq<(Seq<char>, u128)>, i: int, e: (Seq<char>, u128))
    requires
        sorted(v),
        0 <= i < v.len(),
        e.0 == v[i].0,
    ensures
        sorted(v.update(i, e)),
        map_of(v.update(i, e)) == map_of(v).insert(e.0, e.1),
        total(v.update(i, e)) == total(v) - v[i].1 + e.1,
    decreases v.len(),
{
    let w = v.update(i, e);
    let d = v.drop_last();
    assert forall|a: int, b: int| #![trigger w[a], w[b]] 0 <= a < b < w.len() implies id_lt(
        w[a].0,
        w[b].0,
    ) by {
        assert(id_lt(v[a].0, v[b].0));
    }
    if i == v.len() - 1 {
        assert(w.drop_last() =~= d);
        assert(map_of(w) =~= map_of(v).insert(e.0, e.1));
    } else {
        assert(w.drop_last() =~= d.update(i, e));
        assert(d[i] == v[i]);
        lemma_update(d, i, e);
        assert(id_lt(v[i].0, v[v.len() - 1].0));
        lemma_id_lt_irreflexive(v[i].0);
        assert(map_of(w) =~= map_of(v).insert(e.0, e.1));
    }
}

pub proof fn lemma_insert(v: Seq<(Seq<char>, u128)>, p: int, e: (Seq<char>, u128))
    requires
        sorted(v),
        0 <= p <= v.len(),
        p > 0 ==> id_lt(v[p - 1].0, e.0),
        p < v.len() ==> id_lt(e.0, v[p].0),
    ensures
        !map_of(v).contains_key(e.0),
        sorted(v.insert(p, e)),
        map_of(v.insert(p, e)) == map_of(v).insert(e.0, e.1),
        total(v.insert(p, e)) == total(v) + e.1,
    decreases v.len(),
{
    let w = v.insert(p, e);
    assert forall|i: int| 0 <= i < p implies id_lt(#[trigger] v[i].0, e.0) by {
        if i < p - 1 {
            assert(id_lt(v[i].0, v[p - 1].0));
            lemma_id_lt_transitive(v[i].0, v[p - 1].0, e.0);
        }
    }
    assert forall|i: int| p <= i < v.len() implies id_lt(e.0, #[trigger] v[i].0) by {
        if i > p {
            assert(id_lt(v[p].0, v[i].0));
            lemma_id_lt_transitive(e.0, v[p].0, v[i].0);
        }
    }
    assert forall|i: int| 0 <= i < v.len() implies #[trigger] v[i].0 != e.0 by {
        lemma_id_lt_irreflexive(e.0);
        if i < p {
            assert(id_lt(v[i].0, e.0));
        } else {
            assert(id_lt(e.0, v[i].0));
        }
    }
    lemma_map_of_dom(v, e.0);
    assert forall|a: int, b: int| #![trigger w[a], w[b]] 0 <= a < b < w.len() implies id_lt(
        w[a].0,
        w[b].0,
    ) by {
        if b < p {
            assert(id_lt(v[a].0, v[b].0));
        } else if b == p {
            assert(id_lt(v[a].0, e.0));
        } else if a < p {
            assert(id_lt(v[a].0, v[b - 1].0));
        } else if a == p {
            assert(id_lt(e.0, v[b - 1].0));
        } else {
            assert(id_lt(v[a - 1].0, v[b - 1].0));
        }
    }
    if p == v.len() {
        assert(w.drop_last() =~= v);
    } else {
        let d = v.drop_last();
        assert(w.drop_last() =~= d.insert(p, e));
        assert(p > 0 ==> d[p - 1] == v[p - 1]);
        assert(p < d.len() ==> d[p] == v[p]);
        assert(forall|a: int, b: int| #![trigger d[a], d[b]] 0 <= a < b < d.len() ==> d[a] == v[a] && d[b] == v[b]);
        lemma_insert(d, p, e);
        assert(v[v.len() - 1].0 != e.0);
        assert(map_of(w) =~= map_of(v).insert(e.0, e.1));
    }
}

pub proof fn lemma_total_prefix(v: Seq<(Seq<char>, u128)>, j: int)
    requires
        0 <= j <= v.len(),
    ensures
        total(v) >= total(v.take(j)),
        total(v.take(j)) >= 0,
    decreases v.len(),
{
    if j == v.len() {
        assert(v.take(j) =~= v);
        lemma_total_nonneg(v);
    } else {
        let d = v.drop_last();
        assert(d.take(j) =~= v.take(j));
        lemma_total_prefix(d, j);
    }
}

pub proof fn lemma_total_nonneg(v: Seq<(Seq<char>, u128)>)
    ensures
        total(v) >= 0,
    decreases v.len(),
{
    if v.len() > 0 {
        lemma_total_nonneg(v.drop_last());
    }
}

pub proof fn lemma_max_index_unique(v: Seq<(Seq<char>, u128)>, i: int, j: int)
    requires
        is_max_index(v, i),
        is_max_index(v, j),
    ensures
        i == j,
{
    if i < j {
        assert(v[j].1 < v[i].1);
        assert(v[i].1 <= v[j].1);
    } else if j < i {
        assert(v[i].1 < v[j].1);
        assert(v[j].1 <= v[i].1);
    }
}

/// Outcome of taking `amount` from the amount of `k`.
pub open spec fn sub_result(v: Seq<(Seq<char>, u128)>, k: Seq<char>, amount: u128) -> Result<
    (),
    VestingError,
> {
    match lookup(v, k) {
        None => Err(VestingError::NotFound),
        Some(c) => if c < amount {
            Err(VestingError::Underflow)
        } else {
            Ok(())
        },
    }
}

/// Amounts by identity, ascending by identity.
#[derive(Debug, PartialEq, Eq)]
pub struct Table {
    pub entries: Vec<(String, u128)>,
}

impl View for Table {
    type V = Seq<(Seq<char>, u128)>;

    open spec fn view(&self) -> Seq<(Seq<char>, u128)> {
        pairs_view(self.entries@)
    }
}

impl Table {
    pub open spec fn wf(&self) -> bool {
        sorted(self@)
    }

    /// An empty table.
    pub fn new() -> (r: Table)
        ensures
            r@ == Seq::<(Seq<char>, u128)>::empty(),
            r.wf(),
    {
        Table { entries: Vec::new() }
    }

    /// A table with the same entries.
    pub fn copy(&self) -> (r: Table)
        ensures
            r@ == self@,
    {
        Table { entries: self.to_vec() }
    }

    /// The entries, ascending by identity.
    pub fn to_vec(&self) -> (r: Vec<(String, u128)>)
        ensures
            pairs_view(r@) == self@,
    {
        let mut out: Vec<(String, u128)> = Vec::new();
        let mut i: usize = 0;
        while i < self.entries.len()
            invariant
                0 <= i <= self.entries@.len(),
                pairs_view(out@) =~= self@.take(i as int),
            decreases self.entries@.len() - i,
        {
            let ghost before = out@;
            out.push((self.entries[i].0.clone(), self.entries[i].1));
            assert(pairs_view(out@) =~= pairs_view(before).push(self@[i as int]));
            assert(self@.take(i + 1) =~= self@.take(i as int).push(self@[i as int]));
            i = i + 1;
        }
        assert(self@.take(i as int) =~= self@);
        out
    }

    /// Index of the entry for `key`.
    pub fn find(&self, key: &String) -> (r: Option<usize>)
        requires
            self.wf(),
        ensures
            match r {
                Some(i) => i < self@.len() && self@[i as int].0 == key@ && lookup(self@, key@)
                    == Some(self@[i as int].1),
                None => lookup(self@, key@) is None,
            },
    {
        let mut i: usize = 0;
        while i < self.entries.len()
            invariant
                sorted(self@),
                0 <= i <= self.entries@.len(),
                forall|j: int| 0 <= j < i ==> (#[trigger] self@[j]).0 != key@,
            decreases self.entries@.len() - i,
        {
            if self.entries[i].0 == *key {
                proof {
                    lemma_map_of_at(self@, i as int);
                }
                return Some(i);
            }
            i = i + 1;
        }
        proof {
            lemma_map_of_dom(self@, key@);
        }
        None
    }

    /// The amount recorded for `key`, if any.
    pub fn get(&self, key: &String) -> (r: Option<u128>)
        requires
            self.wf(),
        ensures
            r == lookup(self@, key@),
    {
        match self.find(key) {
            Some(i) => Some(self.entries[i].1),
            None => None,
        }
    }

    /// Records `value` for `key`, in place of any amount recorded before.
    pub fn put(&mut self, key: String, value: u128)
        requires
            old(self).wf(),
        ensures
            final(self).wf(),
            map_of(final(self)@) == map_of(old(self)@).insert(key@, value),
            total(final(self)@) == total(old(self)@) - amount_of(old(self)@, key@) + value,
    {
        let ghost v = self@;
        let mut i: usize = 0;
        let mut stop = false;
        let mut equal = false;
        while !stop && i < self.entries.len()
            invariant
                self@ == v,
                sorted(v),
                0 <= i <= v.len(),
                forall|j: int| 0 <= j < i ==> id_lt((#[trigger] v[j]).0, key@),
                stop ==> i < v.len(),
                stop && equal ==> v[i as int].0 == key@,
                stop && !equal ==> id_lt(key@, v[i as int].0),
                !stop ==> !equal,
            decreases v.len() - i + (if stop { 0int } else { 1int }),
        {
            let c = compare_ids(&self.entries[i].0, &key);
            if c == KeyOrder::Less {
                i = i + 1;
            } else {
                stop = true;
                equal = c == KeyOrder::Equal;
            }
        }
        let ghost e = (key@, value);
        if equal {
            proof {
                lemma_map_of_at(v, i as int);
                lemma_update(v, i as int, e);
            }
            self.entries.set(i, (key, value));
            assert(self@ =~= v.update(i as int, e));
        } else {
            proof {
                lemma_insert(v, i as int, e);
            }
            self.entries.insert(i, (key, value));
            assert(self@ =~= v.insert(i as int, e));
        }
    }

    /// Adds `amount` to the amount of `key`, treating a missing entry as
    /// zero; `Overflow` where the sum does not fit.
    pub fn add(&mut self, key: String, amount: u128) -> (r: Result<(), VestingError>)
        requires
            old(self).wf(),
        ensures
            final(self).wf(),
            amount_of(old(self)@, key@) + amount > u128::MAX ==> r == Err::<(), _>(
                VestingError::Overflow,
            ) && final(self)@ == old(self)@,
            amount_of(old(self)@, key@) + amount <= u128::MAX ==> r is Ok && map_of(final(self)@)
                == map_of(old(self)@).insert(key@, (amount_of(old(self)@, key@) + amount) as u128)
                && total(final(self)@) == total(old(self)@) + amount,
    {
        let current = match self.get(&key) {
            Some(c) => c,
            None => 0,
        };
        match current.checked_add(amount) {
            Some(sum) => {
                self.put(key, sum);
                Ok(())
            },
            None => Err(VestingError::Overflow),
        }
    }

    /// Takes `amount` from the amount of `key`: `NotFound` where no entry
    /// exists, `Underflow` where the amount recorded is smaller.
    pub fn sub(&mut self, key: &String, amount: u128) -> (r: Result<(), VestingError>)
        requires
            old(self).wf(),
        ensures
            final(self).wf(),
            r == sub_result(old(self)@, key@, amount),
            r is Err ==> final(self)@ == old(self)@,
            r is Ok ==> map_of(final(self)@) == map_of(old(self)@).insert(
                key@,
                (amount_of(old(self)@, key@) - amount) as u128,
            ) && total(final(self)@) == total(old(self)@) - amount,
    {
        match self.get(key) {
            Some(current) => {
                if current < amount {
                    Err(VestingError::Underflow)
                } else {
                    self.put(key.clone(), current - amount);
                    Ok(())
                }
            },
            None => Err(VestingError::NotFound),
        }
    }

    /// Sum of all amounts; `Overflow` where it does not fit.
    pub fn sum(&self) -> (r: Result<u128, VestingError>)
        ensures
            total(self@) <= u128::MAX ==> r == Ok::<u128, VestingError>(total(self@) as u128),
            total(self@) > u128::MAX ==> r == Err::<u128, _>(VestingError::Overflow),
    {
        let ghost v = self@;
        let mut acc: u128 = 0;
        let mut i: usize = 0;
        while i < self.entries.len()
            invariant
                v == self@,
                0 <= i <= v.len(),
                acc == total(v.take(i as int)),
            decreases v.len() - i,
        {
            assert(v.take(i + 1).drop_last() =~= v.take(i as int));
            match acc.checked_add(self.entries[i].1) {
                Some(a) => {
                    acc = a;
                },
                None => {
                    proof {
                        lemma_total_prefix(v, i + 1);
                    }
                    return Err(VestingError::Overflow);
                },
            }
            i = i + 1;
        }
        assert(v.take(i as int) =~= v);
        Ok(acc)
    }

    /// The identity holding the largest positive amount; among equal
    /// largest amounts the greatest identity; the empty identity where no
    /// amount is positive.
    pub fn max_account(&self) -> (r: String)
        ensures
            r@ == max_account_spec(self@),
    {
        let ghost v = self@;
        let mut best: usize = 0;
        let mut found = false;
        let mut max: u128 = 0;
        let mut i: usize = 0;
        while i < self.entries.len()
            invariant
                v == self@,
                0 <= i <= v.len(),
                found ==> best < i && v[best as int].1 == max && max > 0,
                found ==> forall|j: int| best < j < i ==> #[trigger] v[j].1 < max,
                forall|j: int| 0 <= j < i ==> #[trigger] v[j].1 <= max,
                !found ==> max == 0,
            decreases v.len() - i,
        {
            let amount = self.entries[i].1;
            if amount > 0 && amount >= max {
                best = i;
                max = amount;
                found = true;
            }
            i = i + 1;
        }
        if found {
            assert(is_max_index(v, best as int));
            proof {
                let c = choose|k: int| is_max_index(v, k);
                lemma_max_index_unique(v, c, best as int);
            }
            self.entries[best].0.clone()
        } else {
            assert(!exists|k: int| is_max_index(v, k));
            let r = String::new();
            assert(r@ =~= Seq::<char>::empty());
            r
        }
    }

    /// The table that records each identity of `entries` with its amount;
    /// where an identity occurs twice the later entry wins.
    pub fn from_entries(entries: &Vec<(String, u128)>) -> (r: Table)
        ensures
            r.wf(),
            map_of(r@) == map_of(pairs_view(entries@)),
    {
        let ghost src = pairs_view(entries@);
        let mut t = Table::new();
        let mut i: usize = 0;
        while i < entries.len()
            invariant
                src == pairs_view(entries@),
                0 <= i <= entries@.len(),
                t.wf(),
                map_of(t@) == map_of(src.take(i as int)),
            decreases entries@.len() - i,
        {
            assert(src.take(i + 1).drop_last() =~= src.take(i as int));
            t.put(entries[i].0.clone(), entries[i].1);
            i = i + 1;
        }
        assert(src.take(i as int) =~= src);
        t
    }
}

} // verus!
