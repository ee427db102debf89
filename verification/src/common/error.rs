//! The errors that the configuration and asset helpers of every oracle
//! report.
use vstd::prelude::*;
use vstd::string::*;
use crate::common::StdError;

verus! {

#[derive(Clone, Debug)]
pub enum CommonOracleError {
    /// A user (by address) lacks a permission.
    UnauthorizedPermission(String, String),
    InvalidRouterSymbol(String),
    NotSupportedKey(String),
    /// An asset (by address) is not stored.
    AssetNotFound(String),
    DisabledOracle,
}

impl CommonOracleError {
    /// The message of the error.
    pub open spec fn message(&self) -> Seq<char> {
        match self {
            CommonOracleError::InvalidRouterSymbol(s) => "Failed to query price for "@ + s@
                + " in router."@,
            CommonOracleError::NotSupportedKey(s) => s@ + " not in supported keys."@,
            CommonOracleError::AssetNotFound(s) => "Asset "@ + s@ + " not found."@,
            CommonOracleError::DisabledOracle =>
                "This oracle has been disabled. Only operation available is changing status."@,
            CommonOracleError::UnauthorizedPermission(u, p) => u@ + " does not have permission "@
                + p@ + "."@,
        }
    }

    pub fn to_string(&self) -> (r: String)
        ensures
            r@ == self.message(),
    {
        match self {
            CommonOracleError::InvalidRouterSymbol(s) => {
                let head = String::from_str("Failed to query price for ");
                head.concat(s.as_str()).concat(" in router.")
            },
            CommonOracleError::NotSupportedKey(s) => s.clone().concat(" not in supported keys."),
            CommonOracleError::AssetNotFound(s) => {
                let head = String::from_str("Asset ");
                head.concat(s.as_str()).concat(" not found.")
            },
            CommonOracleError::DisabledOracle => String::from_str(
                "This oracle has been disabled. Only operation available is changing status.",
            ),
            CommonOracleError::UnauthorizedPermission(u, p) => {
                u.clone().concat(" does not have permission ").concat(p.as_str()).concat(".")
            },
        }
    }

    /// The error as a generic error with its message.
    pub fn into_std(self) -> (r: StdError)
        ensures
            r.is_generic(self.message()),
    {
        StdError::GenericErr { msg: self.to_string() }
    }
}

} // verus!
