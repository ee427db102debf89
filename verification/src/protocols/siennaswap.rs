//! SiennaSwap exchange pairs.
use vstd::prelude::*;
use crate::common::Contract;

verus! {

pub struct SiennaSwapPairInfoResponse {
    pub pair_info: SiennaSwapPairInfo,
}

pub struct SiennaSwapPairInfo {
    pub liquidity_token: Contract,
    pub factory: Contract,
    pub pair: Pair,
    pub amount_0: u128,
    pub amount_1: u128,
    pub total_liquidity: u128,
    pub contract_version: u32,
}

pub enum SiennaSwapExchangeQueryMsg {
    PairInfo,
    SwapSimulation { offer: TokenTypeAmount },
}

pub enum SiennaDexTokenType {
    CustomToken { contract_addr: String, token_code_hash: String },
    NativeToken { denom: String },
}

pub struct Pair {
    pub token_0: SiennaDexTokenType,
    pub token_1: SiennaDexTokenType,
}

pub struct TokenTypeAmount {
    pub amount: u128,
    pub token: SiennaDexTokenType,
}

pub struct SwapSimulation {
    pub offer: TokenTypeAmount,
}

pub struct SimulationResponse {
    pub return_amount: u128,
    pub spread_amount: u128,
    pub commission_amount: u128,
}

} // verus!
