//! Weighted distribution ledger: beneficiaries receive shares of newly
//! arrived funds according to fixed-point weights, and the sum of their
//! claimable balances always equals the managed total.
pub mod contract;
pub mod distribution;
pub mod error;
pub mod fixed;
pub mod identity;
pub mod ledger;
pub mod msg;
pub mod table;

pub use contract::{instantiate, QueryAnswer};
pub use distribution::Transfer;
pub use error::VestingError;
pub use fixed::{round_dec_closest, split_number_with_weights, DECIMAL_FRACTIONAL};
pub use ledger::{validate_admin, validate_weights, AddressValidator, Denom, Ledger};
pub use msg::{
    ExecuteMsg, InstantiateMsg, MigrateMsg, QueryManagedDenomResponse, QueryMsg,
    QueryPendingClaimResponse, QueryPendingClaimsResponse, QueryWeightsResponse,
};
pub use table::Table;
