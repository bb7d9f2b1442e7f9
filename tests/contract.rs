use cosmwasm_std::testing::MockApi;
use cosmwasm_std::{Api, Decimal};
use cw_vesting_dmz::{
    instantiate, AddressValidator, Denom, InstantiateMsg, Ledger, MigrateMsg, VestingError,
};

struct Host(MockApi);

impl AddressValidator for Host {
    fn addr_validate(&self, address: &String) -> bool {
        self.0.addr_validate(address).is_ok()
    }
}

fn api() -> Host {
    Host(MockApi::default())
}

/// Funds that the contract holds in every scenario.
const CONTRACT_BALANCE: u128 = 444_000_000;

fn percent(x: u64) -> u128 {
    Decimal::percent(x).atomics().u128()
}

fn ratio(n: u32, d: u32) -> u128 {
    Decimal::from_ratio(n, d).atomics().u128()
}

fn mock_contract(msg: InstantiateMsg) -> Result<Ledger, VestingError> {
    instantiate(&api(), "admin".to_string(), msg)
}

fn four_weights() -> Vec<(String, u128)> {
    vec![
        ("addr0000".to_string(), percent(10)),
        ("addr0001".to_string(), percent(20)),
        ("addr0002".to_string(), percent(30)),
        ("addr0003".to_string(), percent(40)),
    ]
}

fn new_weights() -> Vec<(String, u128)> {
    vec![
        ("addr0000".to_string(), percent(20)),
        ("addr0001".to_string(), percent(30)),
        ("addr0002".to_string(), percent(40)),
        ("addr0003".to_string(), percent(10)),
    ]
}

#[test]
fn instantiate_works_with_native() {
    let msg = InstantiateMsg {
        admin: None,
        managed_denom: Denom::Native("uusd".to_string()),
        weights: four_weights(),
    };
    match mock_contract(msg) {
        Ok(_) => {}
        Err(_) => panic!("Should not have failed"),
    }
}

#[test]
fn instantiate_works_with_cw20() {
    let msg = InstantiateMsg {
        admin: None,
        managed_denom: Denom::Cw20("token".to_string()),
        weights: four_weights(),
    };
    match mock_contract(msg) {
        Ok(_) => {}
        Err(_) => panic!("Should not have failed"),
    }
}

#[test]
fn instantiate_rejects_with_unmatched_weights() {
    let msg = InstantiateMsg {
        admin: None,
        managed_denom: Denom::Native("uusd".to_string()),
        weights: vec![
            ("addr0000".to_string(), percent(10)),
            ("addr0001".to_string(), percent(20)),
        ],
    };
    match mock_contract(msg) {
        Ok(_) => panic!("Should have failed"),
        Err(e) => assert_eq!(VestingError::InvalidWeights, e),
    }
}

#[test]
fn execute_update_claims_works() {
    let init_msg = InstantiateMsg {
        admin: None,
        managed_denom: Denom::Native("uusd".to_string()),
        weights: four_weights(),
    };
    let mut deps = mock_contract(init_msg).unwrap();

    // execute the update claims cannot be executed from a non-admin
    let res = deps.execute_update_claims("non-admin".to_string(), CONTRACT_BALANCE).unwrap_err();
    assert_eq!(VestingError::Unauthorized, res);

    // execute the update claims from admin
    deps.execute_update_claims("admin".to_string(), CONTRACT_BALANCE).unwrap();

    // check the balances
    let managed_balance = deps.get_managed_balance();
    assert_eq!(CONTRACT_BALANCE, managed_balance);
    assert_eq!(44_400_000u128, deps.get_balance("addr0000".to_string()).unwrap());
    assert_eq!(88_800_000u128, deps.get_balance("addr0001".to_string()).unwrap());
    assert_eq!(133_200_000u128, deps.get_balance("addr0002".to_string()).unwrap());
    assert_eq!(177_600_000u128, deps.get_balance("addr0003".to_string()).unwrap());
    assert_eq!(444_000_000u128, deps.sum_balances().unwrap());
}

#[test]
fn update_claims_with_non_dividing_weights() {
    // the weights do not divide the balance evenly, and both shares round
    // up, so the sum of the balances would exceed the funds held if the
    // rounding error were not corrected
    let init_msg = InstantiateMsg {
        admin: None,
        managed_denom: Denom::Native("uusd".to_string()),
        weights: vec![
            ("addr0000".to_string(), ratio(1, 512)),
            ("addr0001".to_string(), ratio(511, 512)),
        ],
    };
    let mut deps = mock_contract(init_msg).unwrap();

    deps.execute_update_claims("admin".to_string(), CONTRACT_BALANCE).unwrap();

    // the total managed balance is not disturbed by the rounding error
    assert_eq!(CONTRACT_BALANCE, deps.get_managed_balance());

    // balance 1 is rounded up as expected
    assert_eq!(867188u128, deps.get_balance("addr0000".to_string()).unwrap());

    // balance 2 is rounded up too, and the correction goes to it afterwards
    assert_eq!(443132812u128, deps.get_balance("addr0001".to_string()).unwrap());
}

#[test]
fn execute_withdraw_works() {
    let init_msg = InstantiateMsg {
        admin: None,
        managed_denom: Denom::Native("uusd".to_string()),
        weights: four_weights(),
    };
    let mut deps = mock_contract(init_msg).unwrap();

    deps.execute_update_claims("admin".to_string(), CONTRACT_BALANCE).unwrap();

    // withdraw for addr0000
    let transfer = deps.execute_withdraw("addr0000".to_string()).unwrap();
    assert_eq!(transfer.recipient, "addr0000".to_string());
    assert_eq!(transfer.amount, 44_400_000u128);
    assert_eq!(transfer.denom, Denom::Native("uusd".to_string()));

    assert_eq!(0u128, deps.get_balance("addr0000".to_string()).unwrap());
    assert_eq!(88_800_000u128, deps.get_balance("addr0001".to_string()).unwrap());
    assert_eq!(133_200_000u128, deps.get_balance("addr0002".to_string()).unwrap());
    assert_eq!(177_600_000u128, deps.get_balance("addr0003".to_string()).unwrap());
    assert_eq!(399_600_000u128, deps.get_managed_balance());

    // a second withdrawal finds nothing to claim
    let res = deps.execute_withdraw("addr0000".to_string()).unwrap_err();
    assert_eq!(res, VestingError::NothingToClaim);
}

#[test]
fn set_admin() {
    let init_msg = InstantiateMsg {
        admin: None,
        managed_denom: Denom::Native("uusd".to_string()),
        weights: four_weights(),
    };
    let mut deps = mock_contract(init_msg).unwrap();
    let api = api();

    // set the new admin
    deps.execute_set_admin(&api, "admin".to_string(), String::from("new_admin")).unwrap();
    assert_eq!(deps.get_admin().unwrap(), String::from("new_admin"));

    // setting the admin is not possible for a non-admin
    let res = deps
        .execute_set_admin(&api, "non-admin".to_string(), String::from("new_admin"))
        .unwrap_err();
    assert_eq!(res, VestingError::Unauthorized);
}

#[test]
fn test_set_new_weights_on_migration() {
    let init_msg = InstantiateMsg {
        admin: None,
        managed_denom: Denom::Native("uusd".to_string()),
        weights: four_weights(),
    };
    let mut deps = mock_contract(init_msg).unwrap();

    let msg = MigrateMsg { weights: Some(new_weights()) };

    // this works
    deps.migrate(&api(), msg).unwrap();
    assert_eq!(deps.get_weights(), new_weights());
}

#[test]
fn test_reject_new_weights_on_migration_if_contract_active() {
    let init_msg = InstantiateMsg {
        admin: None,
        managed_denom: Denom::Native("uusd".to_string()),
        weights: four_weights(),
    };
    let mut deps = mock_contract(init_msg).unwrap();
    let msg = MigrateMsg { weights: Some(new_weights()) };

    deps.execute_update_claims("admin".to_string(), CONTRACT_BALANCE).unwrap();

    // this does not work, as a managed balance is outstanding
    let res = deps.migrate(&api(), msg).unwrap_err();
    assert_eq!(res, VestingError::ManagedBalanceOutstanding);
    assert_eq!(deps.get_weights(), four_weights());
}

#[test]
fn test_reject_new_weights_on_migration_when_claims_executed() {
    let init_msg = InstantiateMsg {
        admin: None,
        managed_denom: Denom::Native("uusd".to_string()),
        weights: four_weights(),
    };
    let mut deps = mock_contract(init_msg).unwrap();
    let msg = MigrateMsg { weights: Some(new_weights()) };

    deps.execute_update_claims("admin".to_string(), CONTRACT_BALANCE).unwrap();

    // every account withdraws, so claims were executed
    deps.execute_withdraw("addr0000".to_string()).unwrap();
    deps.execute_withdraw("addr0001".to_string()).unwrap();
    deps.execute_withdraw("addr0002".to_string()).unwrap();
    deps.execute_withdraw("addr0003".to_string()).unwrap();

    // the managed balance is zero now
    assert_eq!(deps.get_managed_balance(), 0u128);

    // this does not work: the managed balance is zero but claims were executed
    let res = deps.migrate(&api(), msg).unwrap_err();
    assert_eq!(res, VestingError::ClaimsExecuted);
    assert_eq!(deps.get_weights(), four_weights());
}
