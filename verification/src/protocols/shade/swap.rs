//! ShadeSwap pairs: their queries, tokens, fees and simulations.
use vstd::prelude::*;
use vstd::string::*;
use crate::common::{Contract, StdError, StdResult};
use crate::common::asset::Asset;
use crate::num::{Uint256, Decimal256};

verus! {

/// Builds the queries of a ShadeSwap pair and reads its answers.
pub struct ShadeSwapQuerier;

pub enum QueryMsg {
    GetPairInfo {},
    SwapSimulation { offer: TokenAmount, exclude_fee: Option<bool> },
}

pub struct PairInfo {
    pub liquidity_token: Contract,
    pub factory: Option<Contract>,
    pub pair: TokenPair,
    pub amount_0: u128,
    pub amount_1: u128,
    pub total_liquidity: u128,
    pub contract_version: u32,
    pub fee_info: FeeInfo,
    pub stable_info: Option<StablePairInfoResponse>,
}

impl PairInfo {
    pub fn is_stableswap(&self) -> (r: bool)
        ensures
            r == self.pair.2,
    {
        self.pair.2
    }
}

pub struct StablePairInfoResponse {
    pub stable_params: StableParams,
    pub stable_token0_data: StableTokenData,
    pub stable_token1_data: StableTokenData,
    //p is optional so that the PairInfo query can still return even when the calculation of p fails
    pub p: Option<Decimal256>,
}

pub struct StableTokenData {
    pub oracle_key: String,
    pub decimals: u8,
}

pub struct CustomIterationControls {
    /// assumed to have same decimals as SignedDecimal
    pub epsilon: Uint256,
    pub max_iter_newton: u16,
    pub max_iter_bisect: u16,
}

pub struct StableParams {
    pub a: Decimal256,
    pub gamma1: Uint256,
    pub gamma2: Uint256,
    pub oracle: Contract,
    pub min_trade_size_x_for_y: Decimal256,
    pub min_trade_size_y_for_x: Decimal256,
    pub max_price_impact_allowed: Decimal256,
    pub custom_iteration_controls: Option<CustomIterationControls>,
}

pub struct SwapSimulationResponse {
    pub total_fee_amount: u128,
    pub lp_fee_amount: u128,
    pub shade_dao_fee_amount: u128,
    pub result: SwapResult,
    pub price: String,
}

pub struct SwapResult {
    pub return_amount: u128,
}

pub struct TokenAmount {
    pub token: TokenType,
    pub amount: u128,
}

pub struct TokenPairAmount {
    pub pair: TokenPair,
    pub amount_0: u128,
    pub amount_1: u128,
}

pub struct TokenPair(pub TokenType, pub TokenType, pub bool);

pub enum TokenType {
    CustomToken { contract_addr: String, token_code_hash: String, oracle_key: Option<String> },
    NativeToken { denom: String, oracle_key: Option<String> },
}

#[derive(Clone, Copy, Debug, PartialEq, Eq, Structural)]
pub struct Fee {
    pub nom: u64,
    pub denom: u64,
}

impl Fee {
    pub fn default() -> (r: Self)
        ensures
            r == (Fee { nom: 0, denom: 0 }),
    {
        Fee { nom: 0, denom: 0 }
    }
}

pub struct FeeInfo {
    pub shade_dao_address: String,
    pub lp_fee: Fee,
    pub shade_dao_fee: Fee,
    pub stable_lp_fee: Fee,
    pub stable_shade_dao_fee: Fee,
}

pub enum ShadeSwapQueryMsgResponse {
    GetPairInfo {
        liquidity_token: Contract,
        factory: Option<Contract>,
        pair: TokenPair,
        amount_0: u128,
        amount_1: u128,
        total_liquidity: u128,
        contract_version: u32,
        fee_info: FeeInfo,
        stable_info: Option<StablePairInfoResponse>,
    },
    SwapSimulation {
        total_fee_amount: u128,
        lp_fee_amount: u128,
        shade_dao_fee_amount: u128,
        result: SwapResult,
        price: String,
    },
}

impl ShadeSwapQuerier {
    /// The query for the pair's info.
    pub fn pair_info_query() -> (r: QueryMsg)
        ensures
            r is GetPairInfo,
    {
        QueryMsg::GetPairInfo {}
    }

    /// The pair info in the pair's answer; any other answer is an error.
    pub fn pair_info_from(resp: ShadeSwapQueryMsgResponse) -> (r: StdResult<PairInfo>)
        ensures
            r is Ok <==> resp is GetPairInfo,
            r matches Ok(p) ==> p.liquidity_token == resp->GetPairInfo_liquidity_token && p.amount_0
                == resp->GetPairInfo_amount_0 && p.amount_1 == resp->GetPairInfo_amount_1 && p.total_liquidity
                == resp->GetPairInfo_total_liquidity && p.contract_version == resp->GetPairInfo_contract_version,
            r matches Err(e) ==> e.is_generic("Unexpected response"@),
    {
        match resp {
            ShadeSwapQueryMsgResponse::GetPairInfo {
                liquidity_token,
                factory,
                pair,
                amount_0,
                amount_1,
                total_liquidity,
                contract_version,
                fee_info,
                stable_info,
            } => Ok(PairInfo {
                liquidity_token,
                factory,
                pair,
                amount_0,
                amount_1,
                total_liquidity,
                contract_version,
                fee_info,
                stable_info,
            }),
            _ => Err(StdError::generic_err(String::from_str("Unexpected response"))),
        }
    }

    /// The query that simulates swapping `amount` of the token `token`,
    /// without fees.
    pub fn swap_simulation_query(token: &Contract, amount: u128) -> (r: QueryMsg)
        ensures
            r matches QueryMsg::SwapSimulation { offer, exclude_fee } && exclude_fee == Some(true) && offer.amount
                == amount && offer.token == (TokenType::CustomToken {
                contract_addr: token.address,
                token_code_hash: token.code_hash,
                oracle_key: None,
            }),
    {
        let token = TokenType::CustomToken {
            contract_addr: token.address.clone(),
            token_code_hash: token.code_hash.clone(),
            oracle_key: None,
        };
        let offer = TokenAmount { token, amount };
        QueryMsg::SwapSimulation { offer, exclude_fee: Some(true) }
    }

    /// The simulation in the pair's answer; any other answer is an error.
    pub fn swap_simulation_from(resp: ShadeSwapQueryMsgResponse) -> (r: StdResult<SwapSimulationResponse>)
        ensures
            r is Ok <==> resp is SwapSimulation,
            r matches Ok(s) ==> s.total_fee_amount == resp->SwapSimulation_total_fee_amount && s.lp_fee_amount
                == resp->SwapSimulation_lp_fee_amount && s.shade_dao_fee_amount
                == resp->SwapSimulation_shade_dao_fee_amount && s.result == resp->SwapSimulation_result && s.price
                == resp->SwapSimulation_price,
            r matches Err(e) ==> e.is_generic("Unexpected response"@),
    {
        match resp {
            ShadeSwapQueryMsgResponse::SwapSimulation {
                total_fee_amount,
                lp_fee_amount,
                shade_dao_fee_amount,
                result,
                price,
            } => Ok(SwapSimulationResponse { total_fee_amount, lp_fee_amount, shade_dao_fee_amount, result, price }),
            _ => Err(StdError::generic_err(String::from_str("Unexpected response"))),
        }
    }

    /// The query that simulates swapping `amount` of a stableswap asset:
    /// stableswap assets are registered with an oracle key in the pair.
    pub fn stableswap_simulation_query(amount: u128, token: &Asset) -> (r: QueryMsg)
        ensures
            r matches QueryMsg::SwapSimulation { offer, exclude_fee } && exclude_fee == Some(true) && offer.amount
                == amount && offer.token == (TokenType::CustomToken {
                contract_addr: token.contract.address,
                token_code_hash: token.contract.code_hash,
                oracle_key: Some(token.quote_symbol),
            }),
    {
        let token = TokenType::CustomToken {
            contract_addr: token.contract.address.clone(),
            token_code_hash: token.contract.code_hash.clone(),
            oracle_key: Some(token.quote_symbol.clone()),
        };
        let offer = TokenAmount { token, amount };
        QueryMsg::SwapSimulation { offer, exclude_fee: Some(true) }
    }
}

impl TokenType {
    pub fn is_native_token(&self) -> (r: bool)
        ensures
            r == self is NativeToken,
    {
        match self {
            TokenType::NativeToken { .. } => true,
            TokenType::CustomToken { .. } => false,
        }
    }

    pub fn is_custom_token(&self) -> (r: bool)
        ensures
            r == self is CustomToken,
    {
        match self {
            TokenType::NativeToken { .. } => false,
            TokenType::CustomToken { .. } => true,
        }
    }

    pub fn into_contract(&self) -> (r: StdResult<Contract>)
        ensures
            r is Ok <==> self is CustomToken,
            r matches Ok(c) ==> c.address == self->contract_addr && c.code_hash == self->token_code_hash,
            r matches Err(e) ==> e.is_generic("Pair Error: Token pair is not a snip20 pair."@),
    {
        match self {
            TokenType::CustomToken { contract_addr, token_code_hash, .. } => Ok(Contract::new(
                contract_addr.clone(),
                token_code_hash.clone(),
            )),
            TokenType::NativeToken { .. } => Err(
                StdError::generic_err(String::from_str("Pair Error: Token pair is not a snip20 pair.")),
            ),
        }
    }

    /// Whether this is the custom token at `address`.
    pub open spec fn has_address(&self, address: Seq<char>) -> bool {
        self matches TokenType::CustomToken { contract_addr, .. } && contract_addr@ == address
    }

    pub fn eq_address(&self, address: &String) -> (r: bool)
        ensures
            r == self.has_address(address@),
    {
        match self {
            TokenType::CustomToken { contract_addr, .. } => *contract_addr == *address,
            TokenType::NativeToken { .. } => false,
        }
    }

    pub fn require_address_eq(&self, address: &String) -> (r: StdResult<()>)
        ensures
            r is Ok <==> self.has_address(address@),
            r matches Err(e) ==> e.is_generic("Pair Error: Token is not the expected token "@ + address@ + "."@),
    {
        if self.eq_address(address) {
            Ok(())
        } else {
            let msg = String::from_str("Pair Error: Token is not the expected token ").concat(address.as_str()).concat(".");
            Err(StdError::GenericErr { msg })
        }
    }
}

impl TokenPair {
    pub fn require_has_address(&self, address: &String) -> (r: StdResult<()>)
        ensures
            r is Ok <==> self.0.has_address(address@) || self.1.has_address(address@),
            r matches Err(e) ==> e.is_generic("Token "@ + address@ + " is not in pair."@),
    {
        let is_one = self.0.eq_address(address);
        let is_two = self.1.eq_address(address);
        if is_one || is_two {
            Ok(())
        } else {
            let msg = String::from_str("Token ").concat(address.as_str()).concat(" is not in pair.");
            Err(StdError::GenericErr { msg })
        }
    }

    pub fn require_has_addresses(&self, token_0: &String, token_1: &String) -> (r: StdResult<()>)
        ensures
            r is Ok <==> (self.0.has_address(token_0@) || self.1.has_address(token_0@)) && (self.0.has_address(token_1@)
                || self.1.has_address(token_1@)),
    {
        self.require_has_address(token_0)?;
        self.require_has_address(token_1)?;
        Ok(())
    }

    pub fn into_contracts(&self) -> (r: StdResult<[Contract; 2]>)
        ensures
            r is Ok <==> self.0 is CustomToken && self.1 is CustomToken,
            r matches Ok(cs) ==> cs[0].address == self.0->contract_addr && cs[0].code_hash == self.0->token_code_hash
                && cs[1].address == self.1->contract_addr && cs[1].code_hash == self.1->token_code_hash,
    {
        let token_a = self.0.into_contract()?;
        let token_b = self.1.into_contract()?;
        Ok([token_a, token_b])
    }
}

} // verus!
