//! Fixed-point fractions with eighteen decimal places, held as their
//! atomics (the value times 10^18), and the weighted split of an amount.
use vstd::prelude::*;
use crate::error::VestingError;
use crate::identity::pairs_view;

verus! {

/// The atomics of the fraction one.
pub const DECIMAL_FRACTIONAL: u128 = 1_000_000_000_000_000_000;

/// The atomics of one half.
pub const HALF: u128 = 500_000_000_000_000_000;

/// Product of two fractions given by their atomics, rounded down, when it
/// fits in 128 bits.
pub open spec fn decimal_mul_spec(a: u128, b: u128) -> Option<u128> {
    let p = (a as int * b as int) / (DECIMAL_FRACTIONAL as int);
    if p <= u128::MAX {
        Some(p as u128)
    } else {
        None
    }
}

/// Relies on cosmwasm_std::Decimal::checked_mul: the 256-bit product of the
/// atomics divided by 10^18, or an error where that does not fit in 128 bits.
#[verifier::external_body]
fn decimal_checked_mul(a: u128, b: u128) -> (r: Option<u128>)
    ensures
        r == decimal_mul_spec(a, b),
{
    match cosmwasm_std::Decimal::raw(a).checked_mul(cosmwasm_std::Decimal::raw(b)) {
        Ok(d) => Some(d.atomics().u128()),
        Err(_) => None,
    }
}

/// Rounding of a fraction to the closest integer, halves rounding up.
pub open spec fn round_spec(n: u128) -> Result<u128, VestingError> {
    if n as int + HALF as int > u128::MAX {
        Err(VestingError::Overflow)
    } else {
        Ok(((n as int + HALF as int) / DECIMAL_FRACTIONAL as int) as u128)
    }
}

/// Rounds the fraction with atomics `n` to the closest integer:
/// `floor(n + 0.5)`.
pub fn round_dec_closest(n: u128) -> (r: Result<u128, VestingError>)
    ensures
        r == round_spec(n),
{
    match n.checked_add(HALF) {
        Some(added) => Ok(added / DECIMAL_FRACTIONAL),
        None => Err(VestingError::Overflow),
    }
}

/// The share of `amount` that the weight `w` gives: the amount as a
/// fraction, times the weight, rounded to the closest integer.
pub open spec fn share_spec(w: u128, amount: u128) -> Result<u128, VestingError> {
    if amount as int * DECIMAL_FRACTIONAL as int > u128::MAX {
        Err(VestingError::Overflow)
    } else {
        match decimal_mul_spec(w, (amount as int * DECIMAL_FRACTIONAL as int) as u128) {
            Some(p) => round_spec(p),
            None => Err(VestingError::Overflow),
        }
    }
}

/// Every weight of `ws` gives a share of `amount`.
pub open spec fn split_ok(ws: Seq<(Seq<char>, u128)>, amount: u128) -> bool {
    forall|i: int| 0 <= i < ws.len() ==> (#[trigger] share_spec(ws[i].1, amount)) is Ok
}

/// Each identity of `ws` with its share of `amount`, in the same order, or
/// `Overflow` where the amount as a fraction or a share does not fit.
pub open spec fn split_spec(ws: Seq<(Seq<char>, u128)>, amount: u128) -> Result<
    Seq<(Seq<char>, u128)>,
    VestingError,
> {
    if amount as int * DECIMAL_FRACTIONAL as int > u128::MAX {
        Err(VestingError::Overflow)
    } else if split_ok(ws, amount) {
        Ok(ws.map_values(|e: (Seq<char>, u128)| (e.0, share_spec(e.1, amount)->Ok_0)))
    } else {
        Err(VestingError::Overflow)
    }
}

/// Splits `amount` according to `weights` (atomics of fractions): each
/// identity with `round_dec_closest(weight * amount)`.
pub fn split_number_with_weights(amount: u128, weights: Vec<(String, u128)>) -> (r: Result<
    Vec<(String, u128)>,
    VestingError,
>)
    ensures
        match r {
            Ok(v) => split_spec(pairs_view(weights@), amount) == Ok::<_, VestingError>(pairs_view(v@)),
            Err(e) => split_spec(pairs_view(weights@), amount) == Err::<Seq<(Seq<char>, u128)>, _>(e),
        },
{
    let ghost ws = pairs_view(weights@);
    let dec_amount = match amount.checked_mul(DECIMAL_FRACTIONAL) {
        Some(d) => d,
        None => {
            return Err(VestingError::Overflow);
        },
    };
    let mut out: Vec<(String, u128)> = Vec::new();
    let mut i: usize = 0;
    while i < weights.len()
        invariant
            ws == pairs_view(weights@),
            dec_amount as int == amount as int * DECIMAL_FRACTIONAL as int,
            0 <= i <= weights@.len(),
            out@.len() == i,
            forall|j: int|
                0 <= j < i ==> (#[trigger] share_spec(ws[j].1, amount)) is Ok && pairs_view(out@)[j]
                    == (ws[j].0, share_spec(ws[j].1, amount)->Ok_0),
        decreases weights@.len() - i,
    {
        let share = match decimal_checked_mul(weights[i].1, dec_amount) {
            Some(s) => s,
            None => {
                assert(share_spec(ws[i as int].1, amount) is Err);
                return Err(VestingError::Overflow);
            },
        };
        let rounded = match round_dec_closest(share) {
            Ok(x) => x,
            Err(e) => {
                assert(share_spec(ws[i as int].1, amount) is Err);
                return Err(e);
            },
        };
        out.push((weights[i].0.clone(), rounded));
        i = i + 1;
    }
    assert(split_ok(ws, amount));
    assert(pairs_view(out@) =~= ws.map_values(
        |e: (Seq<char>, u128)| (e.0, share_spec(e.1, amount)->Ok_0),
    ));
    Ok(out)
}

} // verus!
