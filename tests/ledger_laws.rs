use cosmwasm_std::testing::MockApi;
use cosmwasm_std::{Api, Decimal};
use cw_vesting_dmz::{
    instantiate, AddressValidator, Denom, ExecuteMsg, InstantiateMsg, Ledger, MigrateMsg,
    QueryAnswer, QueryMsg, VestingError,
};

struct Host(MockApi);

impl AddressValidator for Host {
    fn addr_validate(&self, address: &String) -> bool {
        self.0.addr_validate(address).is_ok()
    }
}

fn api() -> Host {
    Host(MockApi::default())
}

fn percent(x: u64) -> u128 {
    Decimal::percent(x).atomics().u128()
}

fn ledger_with(weights: Vec<(String, u128)>) -> Ledger {
    let msg = InstantiateMsg {
        admin: None,
        managed_denom: Denom::Native("uusd".to_string()),
        weights,
    };
    instantiate(&api(), "admin".to_string(), msg).unwrap()
}

fn thirds() -> Vec<(String, u128)> {
    vec![
        ("addr0000".to_string(), 333_333_333_333_333_333u128),
        ("addr0001".to_string(), 333_333_333_333_333_333u128),
        ("addr0002".to_string(), 333_333_333_333_333_334u128),
    ]
}

fn quarters() -> Vec<(String, u128)> {
    vec![
        ("addr0000".to_string(), percent(25)),
        ("addr0001".to_string(), percent(25)),
        ("addr0002".to_string(), percent(25)),
        ("addr0003".to_string(), percent(25)),
    ]
}

#[test]
fn uneven_split_sums_exactly_to_funds_held() {
    let mut l = ledger_with(thirds());
    l.execute_update_claims("admin".to_string(), 100).unwrap();
    // each share is 33; the missing unit goes to the greatest of the equal holders
    assert_eq!(l.get_balance("addr0000".to_string()), Ok(33));
    assert_eq!(l.get_balance("addr0001".to_string()), Ok(33));
    assert_eq!(l.get_balance("addr0002".to_string()), Ok(34));
    assert_eq!(l.sum_balances(), Ok(100));
    assert_eq!(l.get_managed_balance(), 100);

    // more funds arrive: only the difference is split
    l.execute_update_claims("admin".to_string(), 250).unwrap();
    assert_eq!(l.get_balance("addr0000".to_string()), Ok(83));
    assert_eq!(l.get_balance("addr0001".to_string()), Ok(83));
    assert_eq!(l.get_balance("addr0002".to_string()), Ok(84));
    assert_eq!(l.sum_balances(), Ok(250));
    assert_eq!(l.get_managed_balance(), 250);
}

#[test]
fn reconciling_twice_with_the_same_funds_changes_nothing() {
    let mut l = ledger_with(thirds());
    l.execute_update_claims("admin".to_string(), 1_000_001).unwrap();
    let before = l.get_balances();
    l.execute_update_claims("admin".to_string(), 1_000_001).unwrap();
    assert_eq!(l.get_balances(), before);
    assert_eq!(l.get_managed_balance(), 1_000_001);
}

#[test]
fn withdrawals_keep_managed_balance_equal_to_the_sum_of_balances() {
    let mut l = ledger_with(thirds());
    l.execute_update_claims("admin".to_string(), 1_000_000).unwrap();
    for who in ["addr0001", "addr0000", "addr0002"] {
        let t = l.execute_withdraw(who.to_string()).unwrap();
        assert_eq!(t.recipient, who.to_string());
        assert_eq!(l.sum_balances(), Ok(l.get_managed_balance()));
    }
    assert_eq!(l.get_managed_balance(), 0);
    assert_eq!(l.get_total_claimed(), Ok(1_000_000));
}

#[test]
fn funds_below_the_managed_balance_are_refused() {
    let mut l = ledger_with(thirds());
    l.execute_update_claims("admin".to_string(), 1_000).unwrap();
    let before = l.get_balances();
    let err = l.execute_update_claims("admin".to_string(), 999).unwrap_err();
    assert_eq!(err, VestingError::ManagedExceedsActual);
    assert_eq!(l.get_balances(), before);
    assert_eq!(l.get_managed_balance(), 1_000);
}

#[test]
fn shortfall_with_no_positive_balance_has_no_holder_to_correct() {
    // four shares of 0.25 all round to zero, so the unit has no holder
    let mut l = ledger_with(quarters());
    let err = l.execute_update_claims("admin".to_string(), 1).unwrap_err();
    assert_eq!(err, VestingError::InvalidAddress);
    assert_eq!(l.get_managed_balance(), 0);
    assert_eq!(l.get_balances(), vec![]);
}

#[test]
fn excess_larger_than_the_largest_balance_underflows() {
    // four shares of 0.5 all round up to one: the excess of two exceeds
    // the largest balance, and the operation is refused as a whole
    let mut l = ledger_with(quarters());
    let err = l.execute_update_claims("admin".to_string(), 2).unwrap_err();
    assert_eq!(err, VestingError::Underflow);
    assert_eq!(l.get_managed_balance(), 0);
    assert_eq!(l.get_balances(), vec![]);
}

#[test]
fn migration_is_allowed_only_on_an_untouched_ledger() {
    let mut l = ledger_with(quarters());
    // nothing given: nothing changes
    l.migrate(&api(), MigrateMsg { weights: None }).unwrap();
    assert_eq!(l.get_weights(), quarters());
    // weights that do not sum to one are refused, the table stays
    let bad = vec![("addr0000".to_string(), percent(90))];
    assert_eq!(
        l.migrate(&api(), MigrateMsg { weights: Some(bad) }),
        Err(VestingError::InvalidWeights)
    );
    assert_eq!(l.get_weights(), quarters());
    // an untouched ledger takes new weights, replacing the old table
    let new = vec![("addr0009".to_string(), percent(100))];
    l.migrate(&api(), MigrateMsg { weights: Some(new.clone()) }).unwrap();
    assert_eq!(l.get_weights(), new);
}

#[test]
fn identities_refused_by_the_validator() {
    let msg = InstantiateMsg {
        admin: None,
        managed_denom: Denom::Native("uusd".to_string()),
        weights: vec![("ADDR0000".to_string(), percent(100))],
    };
    assert_eq!(instantiate(&api(), "admin".to_string(), msg).unwrap_err(), VestingError::InvalidAddress);
    let msg = InstantiateMsg {
        admin: Some("ab".to_string()),
        managed_denom: Denom::Native("uusd".to_string()),
        weights: vec![("addr0000".to_string(), percent(100))],
    };
    assert_eq!(instantiate(&api(), "admin".to_string(), msg).unwrap_err(), VestingError::InvalidAddress);
}

#[test]
fn instantiate_records_given_admin_and_starts_empty() {
    let msg = InstantiateMsg {
        admin: Some("boss".to_string()),
        managed_denom: Denom::Cw20("token".to_string()),
        weights: vec![("addr0001".to_string(), percent(60)), ("addr0000".to_string(), percent(40))],
    };
    let l = instantiate(&api(), "admin".to_string(), msg).unwrap();
    assert_eq!(l.get_admin(), Some("boss".to_string()));
    assert_eq!(l.get_managed_balance(), 0);
    assert_eq!(l.get_managed_denom(), Denom::Cw20("token".to_string()));
    // ascending by identity
    assert_eq!(
        l.get_weights(),
        vec![("addr0000".to_string(), percent(40)), ("addr0001".to_string(), percent(60))]
    );
}

#[test]
fn withdraw_of_an_unknown_beneficiary_is_not_found() {
    let mut l = ledger_with(quarters());
    assert_eq!(l.execute_withdraw("addr0009".to_string()).unwrap_err(), VestingError::NotFound);
}

#[test]
fn max_balance_account_of_an_empty_ledger_is_empty() {
    let l = ledger_with(quarters());
    assert_eq!(l.get_max_balance_account(), String::new());
}

#[test]
fn execute_dispatches_commands() {
    let mut l = ledger_with(quarters());
    assert!(ExecuteMsg::UpdateClaims {}.needs_current_balance());
    assert!(!ExecuteMsg::Claim {}.needs_current_balance());
    assert_eq!(l.execute(&api(), "admin".to_string(), ExecuteMsg::UpdateClaims {}, 400), Ok(None));
    let t = l.execute(&api(), "addr0003".to_string(), ExecuteMsg::Claim {}, 0).unwrap().unwrap();
    assert_eq!(t.amount, 100);
    assert_eq!(
        l.execute(&api(), "addr0001".to_string(), ExecuteMsg::SetAdmin { admin: "other".to_string() }, 0),
        Err(VestingError::Unauthorized)
    );
    assert_eq!(
        l.execute(&api(), "admin".to_string(), ExecuteMsg::SetAdmin { admin: "other".to_string() }, 0),
        Ok(None)
    );
    assert_eq!(l.get_admin(), Some("other".to_string()));
}

#[test]
fn queries_report_the_ledger() {
    let mut l = ledger_with(quarters());
    l.execute_update_claims("admin".to_string(), 400).unwrap();
    l.execute_withdraw("addr0000".to_string()).unwrap();
    match l.query(QueryMsg::PendingClaims {}).unwrap() {
        QueryAnswer::PendingClaims(c) => {
            assert_eq!(c.total, 300);
            assert_eq!(c.claims.len(), 4);
            assert_eq!(c.claims[0].address, "addr0000".to_string());
            assert_eq!(c.claims[0].amount, 0);
        }
        _ => panic!("wrong answer"),
    }
    match l.query(QueryMsg::Claimed { address: "addr0000".to_string() }).unwrap() {
        QueryAnswer::Claimed(c) => assert_eq!(c.amount, 100),
        _ => panic!("wrong answer"),
    }
    assert_eq!(l.query(QueryMsg::TotalClaimed {}), Ok(QueryAnswer::TotalClaimed(100)));
    assert_eq!(
        l.query(QueryMsg::PendingClaim { address: "nobody".to_string() }),
        Err(VestingError::NotFound)
    );
    match l.query(QueryMsg::Denom {}).unwrap() {
        QueryAnswer::Denom(d) => {
            assert_eq!(d.amount, 300);
            assert_eq!(d.managed_denom, Denom::Native("uusd".to_string()));
        }
        _ => panic!("wrong answer"),
    }
    assert_eq!(l.query(QueryMsg::Admin {}), Ok(QueryAnswer::Admin(Some("admin".to_string()))));
}
