//! The first staking derivative oracle: its setup and the staking query it
//! sends.
use vstd::prelude::*;
use crate::common::Contract;

verus! {

pub struct InitMsg {
    pub supported_key: String,
    pub underlying_symbol: String,
    pub staking_derivative: Contract,
    pub router: Contract,
}

// We define a custom struct for each query response
pub struct Config {
    pub supported_key: String,
    pub underlying_symbol: String,
    pub router: Contract,
    pub staking_derivative: Contract,
    pub enabled: bool,
}

pub enum StakingDerivativeQueryMsg {
    // staking
    /// display the validator addresses, amount of bonded SCRT, amount of available SCRT not
    /// reserved for mature unbondings, amount of pending staking rewards not yet claimed,
    /// the derivative token supply, and the price of the derivative token in SCRT to 6 decimals
    StakingInfo {
        /// time in seconds since 01/01/1970.
        time: u64,
    },
}

} // verus!
