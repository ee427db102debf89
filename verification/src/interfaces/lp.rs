//! Liquidity-pool oracles: their configuration and the tokens of the pair
//! they price.
use vstd::prelude::*;
use vstd::string::*;
use crate::common::{Contract, StdError, StdResult};
use crate::protocols::siennaswap::{SiennaDexTokenType, SiennaSwapPairInfo};

verus! {

/// Pair is the LP pair & symbol is the key we'll use to
/// get the price of 1 side of the LP pair from our oracle router.
pub struct MarketData {
    /// Symbol of the token we are basing the other one off (will be used for oracle router)
    pub base_peg: String,
    /// Symbol of token we are interested in getting a price for (will be used for oracle router)
    pub symbol: String,
    pub pair: Contract,
}

pub struct PairData {
    pub lp_token: Contract,
    pub symbol_0: String,
    pub symbol_1: String,
    pub token0_decimals: u8,
    pub token1_decimals: u8,
}

/// The contract of a custom token.
pub open spec fn token_contract(t: SiennaDexTokenType) -> Contract
    recommends
        t is CustomToken,
{
    Contract { address: t->contract_addr, code_hash: t->token_code_hash }
}

/// The contracts of the two tokens of a SiennaSwap pair; a native token
/// cannot be resolved.
pub fn resolve_pair(info: &SiennaSwapPairInfo) -> (r: StdResult<(Contract, Contract)>)
    ensures
        r is Ok <==> info.pair.token_0 is CustomToken && info.pair.token_1 is CustomToken,
        r matches Ok(t) ==> t.0 == token_contract(info.pair.token_0) && t.1 == token_contract(info.pair.token_1),
        info.pair.token_0 is NativeToken ==> (r matches Err(e) && e.is_generic(
            "Could not resolve SiennaSwap token 1 info."@,
        )),
        info.pair.token_0 is CustomToken && info.pair.token_1 is NativeToken ==> (r matches Err(e)
            && e.is_generic("Could not resolve SiennaSwap token 2 info."@)),
{
    let token0 = match &info.pair.token_0 {
        SiennaDexTokenType::CustomToken { contract_addr, token_code_hash } => Contract::new(
            contract_addr.clone(),
            token_code_hash.clone(),
        ),
        SiennaDexTokenType::NativeToken { .. } => {
            return Err(StdError::generic_err(String::from_str("Could not resolve SiennaSwap token 1 info.")));
        },
    };
    let token1 = match &info.pair.token_1 {
        SiennaDexTokenType::CustomToken { contract_addr, token_code_hash } => Contract::new(
            contract_addr.clone(),
            token_code_hash.clone(),
        ),
        SiennaDexTokenType::NativeToken { .. } => {
            return Err(StdError::generic_err(String::from_str("Could not resolve SiennaSwap token 2 info.")));
        },
    };
    Ok((token0, token1))
}

} // verus!
