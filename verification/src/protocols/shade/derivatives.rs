//! The Shade staking derivative and its staking info.
use vstd::prelude::*;

verus! {

/// The Shade staking derivative contract.
pub struct ShadeStakingDerivative;

pub enum StakingDerivativeQueryMsg {
    // staking
    /// display the validator addresses, amount of bonded SCRT, amount of available SCRT not
    /// reserved for mature unbondings, amount of pending staking rewards not yet claimed,
    /// the derivative token supply, and the price of the derivative token in SCRT to 6 decimals
    StakingInfo {
        /// time in seconds since 01/01/1970.
        time: u64,
    },
}

/// validators and their weights
pub struct WeightedValidator {
    /// the validator's address
    pub validator: String,
    /// the validator's weight in whole percents
    pub weight: u8,
}

pub struct StakingInfoResponse {
    /// validator addresses and their weights
    pub validators: Vec<WeightedValidator>,
    /// unbonding time
    pub unbonding_time: u32,
    /// minimum number of seconds between unbonding batches
    pub unbonding_batch_interval: u32,
    /// earliest time of next batch unbonding
    pub next_unbonding_batch_time: u64,
    /// amount of SCRT that will unbond in the next batch
    pub unbond_amount_of_next_batch: u128,
    /// true if a batch unbonding is in progress
    pub batch_unbond_in_progress: bool,
    /// amount of bonded SCRT
    pub bonded_scrt: u128,
    /// amount of SCRT reserved for mature unbondings
    pub reserved_scrt: u128,
    /// amount of available SCRT not reserved for mature unbondings
    pub available_scrt: u128,
    /// unclaimed staking rewards
    pub rewards: u128,
    /// total supply of derivative token
    pub total_derivative_token_supply: u128,
    /// price of derivative token in SCRT to 6 decimals
    pub price: u128,
}

impl ShadeStakingDerivative {
    /// The staking-info query, asked for time zero.
    pub fn staking_info_query() -> (r: StakingDerivativeQueryMsg)
        ensures
            r == (StakingDerivativeQueryMsg::StakingInfo { time: 0 }),
    {
        StakingDerivativeQueryMsg::StakingInfo { time: 0 }
    }
}

} // verus!
