//! Messages of the oracle router. Contract addresses arrive here already
//! validated.
use vstd::prelude::*;
use crate::common::Contract;
use crate::common::status::ContractStatus;
use crate::num::Uint256;
use crate::interfaces::providers::Provider;
use super::registry::ProtectedKeyInfo;

verus! {

pub enum ExecuteMsg {
    SetStatus(ContractStatus),
    UpdateProtectedKeys(Vec<(String, Uint256)>),
    UpdateConfig(UpdateConfig),
    UpdateRegistry(RegistryOperation),
    BatchUpdateRegistry(Vec<RegistryOperation>),
}

#[derive(Clone, Debug)]
pub struct Config {
    pub this: Contract,
    pub admin_auth: Contract,
    pub provider: Provider,
    pub quote_symbol: String,
}

pub enum RegistryOperation {
    RemoveKeys { keys: Vec<String> },
    SetKeys { oracle: Contract, keys: Vec<String> },
    SetProtection { infos: Vec<ProtectedKeyInfo> },
    RemoveProtection { keys: Vec<String> },
}

pub struct UpdateConfig {
    pub admin_auth: Option<Contract>,
    pub provider: Option<Provider>,
    pub quote_symbol: Option<String>,
}

pub enum QueryMsg {
    GetConfig {},
    /// Get oracle at that key
    GetOracle { key: String },
    /// Get price of oracle at that key
    GetPrice { key: String },
    GetOracles { keys: Vec<String> },
    GetPrices { keys: Vec<String> },
    GetKeys {},
    GetProtectedKeys {},
}

pub type KeysResponse = Vec<String>;

pub type ProtectedKeysResponse = Vec<ProtectedKeyInfo>;

pub struct ConfigResponse {
    pub config: Config,
    pub status: ContractStatus,
}

pub struct OracleResponse {
    pub key: String,
    pub oracle: Contract,
}

pub type OraclesResponse = Vec<OracleResponse>;

} // verus!
