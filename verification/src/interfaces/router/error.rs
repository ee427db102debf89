//! Errors of the oracle router.
use vstd::prelude::*;
use crate::common::StdError;
use crate::num::{Uint256, Decimal256};

verus! {

#[derive(Clone, Debug)]
pub enum OracleRouterError {
    /// An error of the shared helpers.
    Std(StdError),
    /// "User {user} is not an authorized admin for this contract."
    Unauthorized { user: String },
    /// "Operation can't be run during normal condition."
    Normal,
    /// "All operations disabled except for status toggle when frozen."
    Frozen,
    /// "This token amount {amount} is too large. SNIP20 token amounts cannot exceed Uint128."
    TokenAmountTooLarge { amount: Uint256 },
    /// "This permit signed by user {addr} has been revoked."
    PermitRevoked { addr: String },
    /// "Unsupported symbol {symbol}."
    UnsupportedSymbol { symbol: String },
    /// "Router cannot be queried when it is deprecated."
    Deprecated,
    /// "Can't add oracle to key {key} because one already exists."
    ExistingOracle { key: String },
    /// "Reported price {actual} is not within expected deviation {deviation} of the expected price {expected}. Actual deviation {actual_deviation}."
    ProtectedPriceDeviation {
        actual: Uint256,
        expected: Uint256,
        deviation: Decimal256,
        actual_deviation: Decimal256,
    },
}

pub type OracleRouterResult<T> = Result<T, OracleRouterError>;

} // verus!
