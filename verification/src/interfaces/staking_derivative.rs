//! The Shade staking derivative oracle: its configuration and the staking
//! info that it reads the derivative's price from.
use vstd::prelude::*;
use crate::common::Contract;

verus! {

pub struct StakingDerivativeConfig {
    pub token_decimals: u8,
    pub staking_derivative_token: Contract,
    pub underlying_symbol: String,
}

pub enum StakingDerivativeQueryMsg {
    // staking
    /// display the validator addresses, amount of bonded SCRT, amount of available SCRT not
    /// reserved for mature unbondings, amount of pending staking rewards not yet claimed,
    /// the derivative token supply, and the price of the derivative token in SCRT to 6 decimals
    StakingInfo {
        /// time in seconds since 01/01/1970.
        time: u64,
    },
}

/// validators and their weights
pub struct WeightedValidator {
    /// the validator's address
    pub validator: String,
    /// the validator's weight in whole percents
    pub weight: u8,
}

pub enum StakingDerivativeQueryAnswer {
    /// displays staking info
    StakingInfo {
        validators: Vec<WeightedValidator>,
        unbonding_time: u32,
        unbonding_batch_interval: u32,
        next_unbonding_batch_time: u64,
        unbond_amount_of_next_batch: u128,
        batch_unbond_in_progress: bool,
        bonded_scrt: u128,
        reserved_scrt: u128,
        available_scrt: u128,
        rewards: u128,
        total_derivative_token_supply: u128,
        /// price of derivative token in SCRT to 6 decimals
        price: u128,
    },
}

/// The price of 1 derivative token in underlying token (6 decimals), from
/// the derivative's staking info.
pub fn derivative_price(answer: StakingDerivativeQueryAnswer) -> (r: u128)
    ensures
        r == answer->price,
{
    match answer {
        StakingDerivativeQueryAnswer::StakingInfo { price, .. } => price,
    }
}

} // verus!
