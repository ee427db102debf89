//! The messages of the mock price providers used in tests, and the admin
//! checks of their configuration.
use vstd::prelude::*;
use vstd::string::*;
use crate::common::{Contract, StdError, StdResult};
use crate::num::Uint256;

verus! {

pub struct BandInstantiateMsg {
    pub initial_prices: Vec<(String, String, u128)>,
    pub admin_auth: Contract,
    pub quote_symbol: Option<String>,
}

pub struct OjoInstantiateMsg {
    pub initial_prices: Vec<(String, String, Uint256)>,
    pub admin_auth: Contract,
    pub quote_symbol: Option<String>,
}

pub struct Config {
    pub admin_auth: Contract,
    pub quote_symbol: String,
    pub enabled: bool,
}

pub type ConfigResponse = Config;

impl Config {
    /// Fails where the user is neither an oracle admin nor a price bot;
    /// `is_admin` and `is_bot` are the outcomes of the two checks.
    pub fn require_admin_or_bot(&self, is_admin: StdResult<()>, is_bot: StdResult<()>) -> (r: StdResult<()>)
        ensures
            r is Ok <==> is_admin is Ok || is_bot is Ok,
            r matches Err(e) ==> e.is_generic("User is not an admin or bot."@),
    {
        if is_admin.is_err() && is_bot.is_err() {
            Err(StdError::generic_err(String::from_str("User is not an admin or bot.")))
        } else {
            Ok(())
        }
    }
}

pub enum BandExecuteMsg {
    SetStatus(bool),
    UpdateConfig { admin_auth: Option<Contract>, quote_symbol: Option<String> },
    SetPrice(BandMockPrice),
    SetPrices(Vec<BandMockPrice>),
}

pub struct BandMockPrice {
    pub base_symbol: String,
    pub quote_symbol: String,
    pub rate: u128,
    pub last_updated: Option<u64>,
}

pub struct MockPrice {
    pub base_symbol: String,
    pub quote_symbol: String,
    pub rate: Uint256,
    pub last_updated: Option<u64>,
}

pub enum OjoExecuteMsg {
    SetStatus(bool),
    UpdateConfig { admin_auth: Option<Contract>, quote_symbol: Option<String> },
    SetPrice(MockPrice),
    SetPrices(Vec<MockPrice>),
}

} // verus!
