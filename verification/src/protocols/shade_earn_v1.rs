//! Shade earn (v1) vaults: their queries and answers.
use vstd::prelude::*;
use vstd::string::*;
use crate::common::{Contract, StdError, StdResult};

verus! {

pub enum QueryMsg {
    GetConfig { config_type: ConfigType },
    GetDepositForShares { amount: u128 },
    GetSharesForDeposit { amount: u128 },
    CheckReward { timestamp: Option<u128> },
    EstimateDeployedBalance,
    EstimateReinvestReward { timestamp: Option<u128> },
}

pub enum ConfigType {
    General,
    Specific,
}

pub struct DeveloperInfo {
    pub address: String,
    pub fee: u128,
}

pub struct TreasuryInfo {
    pub address: String,
    pub fee: u128,
}

pub enum QueryAnswer {
    DepositForShares { amount: u128 },
    SharesForDeposit { amount: u128 },
    Reward { amount: u128 },
    EstimatedDeployedBalance { amount: u128 },
    EstimatedReinvestReward { amount: u128 },
}

pub struct GenericConfig {
    pub min_tokens_to_reinvest: u128,
    pub treasury_info: TreasuryInfo,
    pub dev_info: DeveloperInfo,
    pub reinvest_reward: u128,
    pub deposits_enabled: bool,
    pub owner: String,
    pub deposit_token: Contract,
    pub share_token: Contract,
}

/// The deposit that the vault's answer gives for an amount of shares; any
/// other answer is an error.
pub fn deposit_for_shares(answer: QueryAnswer) -> (r: StdResult<u128>)
    ensures
        answer matches QueryAnswer::DepositForShares { amount } ==> r == Ok::<u128, StdError>(amount),
        !(answer is DepositForShares) ==> (r matches Err(e) && e.is_generic(
            "An error occurred while trying to retrieve deposit for shares."@,
        )),
{
    match answer {
        QueryAnswer::DepositForShares { amount } => Ok(amount),
        _ => Err(StdError::generic_err(String::from_str(
            "An error occurred while trying to retrieve deposit for shares.",
        ))),
    }
}

/// The query for the vault's general configuration.
pub fn generic_config_query() -> (r: QueryMsg)
    ensures
        r matches QueryMsg::GetConfig { config_type } && config_type is General,
{
    QueryMsg::GetConfig { config_type: ConfigType::General }
}

} // verus!
