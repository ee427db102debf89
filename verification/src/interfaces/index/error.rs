//! Errors of the index oracle.
use vstd::prelude::*;
use crate::common::StdError;
use crate::num::{Uint256, Decimal256};

verus! {

#[derive(Clone, Debug)]
pub enum IndexOracleError {
    /// An error of the shared helpers.
    Std(StdError),
    /// "User {user} is not an authorized admin for this contract."
    Unauthorized { user: String },
    /// "Operation can't be run during normal condition."
    Normal,
    /// "All operations disabled except for status toggle when frozen."
    Frozen,
    /// "This token amount {amount} is too large. SNIP20 token amounts cannot exceed Uint128."
    TokenAmountTooLarge { amount: Uint256 },
    /// "This permit signed by user {addr} has been revoked."
    PermitRevoked { addr: String },
    /// "Unsupported symbol {symbol}."
    UnsupportedSymbol { symbol: String },
    /// "Oracle cannot be queried when it is deprecated."
    Deprecated,
    /// "Recursive symbol {symbol} in basket."
    RecursiveSymbol { symbol: String },
    /// "Initial basket weights cannot be greater than 100%. Currently {weight}."
    InvalidBasketWeights { weight: Decimal256 },
    /// "The basket cannot be empty."
    EmptyBasket,
    /// "Cannot remove symbol that does not exist: {asset}."
    BasketAssetNotFound { asset: String },
    /// "Cannot modify basket or target when peg is frozen"
    FrozenPeg,
    /// "Cannot rollback oracle if it isn't frozen."
    RollbackNotFrozen,
    /// "Prices are still stale so oracle cannot be rolled back. (Oldest price is {oldest_price}.)"
    RollbackStale { oldest_price: u64 },
    /// "Peg {peg} has deviated too far from the last_peg value {last_value}. {deviation} > {threshold}."
    PegDeviation { peg: Decimal256, last_value: Decimal256, deviation: Decimal256, threshold: Decimal256 },
}

pub type IndexOracleResult<T> = Result<T, IndexOracleError>;

} // verus!
