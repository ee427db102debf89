//! Messages of the index oracle.
use vstd::prelude::*;
use crate::common::Contract;
use crate::common::status::ContractStatus;
use crate::num::{Uint256, Decimal256};
use crate::interfaces::index::{AssetSymbol, AssetWeights, Peg};

verus! {

/// A symbol of the basket and its initial weight.
pub type InitialBasketItem = (String, Decimal256);

#[derive(Debug)]
pub struct InstantiateMsg {
    pub router: Contract,
    pub basket: Vec<InitialBasketItem>,
    pub target: Uint256,
    pub symbol: String,
    pub when_stale: u64,
    pub deviation_threshold: Decimal256,
}

#[derive(Debug)]
pub enum ExecuteMsg {
    ComputeIndex {},
    Admin(AdminMsg),
}

#[derive(Debug)]
pub enum AdminMsg {
    UpdateStatus(ContractStatus),
    /// To remove assets that have been added, set the initial weight to be 0.
    /// All other weight values will cause the corresponding asset to be added or changed.
    /// Assets not included in the mod list will remain in the oracle until removed.
    ModBasket(Vec<InitialBasketItem>),
    UpdateConfig {
        symbol: Option<String>,
        router: Option<Contract>,
        when_stale: Option<u64>,
        deviation_threshold: Option<Decimal256>,
    },
    UpdateTarget(Uint256),
    UnfreezePeg {},
}

#[derive(Clone, Debug)]
pub enum QueryMsg {
    GetPrice { key: String },
    GetPrices { keys: Vec<String> },
    GetIndexData {},
    GetBasket {},
}

#[derive(Debug)]
pub struct IndexDataResponse {
    pub symbol: String,
    pub router: Contract,
    pub when_stale: u64,
    pub peg: Peg,
    pub basket: Vec<IndexAsset>,
}

#[derive(Debug)]
pub struct IndexAsset {
    pub symbol: AssetSymbol,
    pub weight: AssetWeights,
}

#[derive(Debug)]
pub struct BasketResponse {
    pub basket: Vec<(String, Decimal256, Decimal256)>,
}

} // verus!
