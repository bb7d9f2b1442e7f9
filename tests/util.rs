use cosmwasm_std::Decimal;
use cw_vesting_dmz::{round_dec_closest, split_number_with_weights, VestingError};

fn percent(x: u64) -> u128 {
    Decimal::percent(x).atomics().u128()
}

#[test]
fn test_round_dec_closest() {
    let n = percent(50);
    let rounded = round_dec_closest(n).unwrap();
    assert_eq!(rounded, 1u128);
}

#[test]
fn test_split_number_with_weights() {
    let amount = 100u128;
    let weights = vec![
        (String::from("addr1"), percent(50)),
        (String::from("addr2"), percent(50)),
    ];
    let shares = split_number_with_weights(amount, weights).unwrap();
    assert_eq!(shares, vec![(String::from("addr1"), 50u128), (String::from("addr2"), 50u128)]);
}

#[test]
fn round_dec_closest_rounds_halves_up_and_rest_to_nearest() {
    assert_eq!(round_dec_closest(0), Ok(0));
    assert_eq!(round_dec_closest(percent(49)), Ok(0));
    assert_eq!(round_dec_closest(percent(150)), Ok(2));
    assert_eq!(round_dec_closest(percent(249)), Ok(2));
    assert_eq!(round_dec_closest(u128::MAX), Err(VestingError::Overflow));
}

#[test]
fn split_multiplies_weight_by_amount() {
    // 3 * 0.5 = 1.5 rounds to 2; 3 * 0.25 = 0.75 rounds to 1
    let weights = vec![
        (String::from("a"), percent(50)),
        (String::from("b"), percent(25)),
        (String::from("c"), percent(25)),
    ];
    let shares = split_number_with_weights(3, weights).unwrap();
    assert_eq!(
        shares,
        vec![(String::from("a"), 2u128), (String::from("b"), 1u128), (String::from("c"), 1u128)]
    );
}

#[test]
fn split_of_an_amount_too_large_for_a_fraction_fails() {
    let weights = vec![(String::from("a"), percent(100))];
    let too_large = u128::MAX / 1_000_000_000_000_000_000u128 + 1;
    assert_eq!(split_number_with_weights(too_large, weights), Err(VestingError::Overflow));
    assert_eq!(split_number_with_weights(too_large, vec![]), Err(VestingError::Overflow));
}

#[test]
fn split_with_a_product_that_does_not_fit_fails() {
    // a weight of 2^100 atomics times 10^9 exceeds 128 bits
    let weights = vec![(String::from("a"), 1u128 << 100)];
    assert_eq!(split_number_with_weights(1_000_000_000, weights), Err(VestingError::Overflow));
}
