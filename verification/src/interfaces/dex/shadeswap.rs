//! The ShadeSwap pair interface as the market oracles read it.
pub mod market;

use vstd::prelude::*;
use vstd::string::*;
use crate::common::{Contract, StdError, StdResult};

verus! {

pub enum ShadeSwapQueryMsg {
    GetPairInfo {},
    SwapSimulation { offer: TokenAmount, exclude_fee: Option<bool> },
}

pub struct PairInfoResponse {
    pub liquidity_token: Contract,
    pub factory: Option<Contract>,
    pub pair: TokenPair,
    pub amount_0: u128,
    pub amount_1: u128,
    pub total_liquidity: u128,
    pub contract_version: u32,
    pub fee_info: FeeInfo,
}

pub struct SwapSimulationResponse {
    pub total_fee_amount: u128,
    pub lp_fee_amount: u128,
    pub shade_dao_fee_amount: u128,
    pub result: SwapResult,
    pub price: String,
}

pub struct SwapResult {
    pub return_amount: u128,
}

pub struct TokenAmount {
    pub token: TokenType,
    pub amount: u128,
}

pub struct TokenPairAmount {
    pub pair: TokenPair,
    pub amount_0: u128,
    pub amount_1: u128,
}

pub struct TokenPair(pub TokenType, pub TokenType, pub bool);

pub enum TokenType {
    CustomToken { contract_addr: String, token_code_hash: String, oracle_key: Option<String> },
    NativeToken { denom: String, oracle_key: Option<String> },
}

#[derive(Clone, Copy, Debug, PartialEq, Eq, Structural)]
pub struct Fee {
    pub nom: u8,
    pub denom: u16,
}

impl Fee {
    pub fn default() -> (r: Self)
        ensures
            r == (Fee { nom: 0, denom: 0 }),
    {
        Fee { nom: 0, denom: 0 }
    }
}

pub struct FeeInfo {
    pub shade_dao_address: String,
    pub lp_fee: Fee,
    pub shade_dao_fee: Fee,
    pub stable_lp_fee: Fee,
    pub stable_shade_dao_fee: Fee,
}

impl TokenType {
    pub fn is_native_token(&self) -> (r: bool)
        ensures
            r == self is NativeToken,
    {
        match self {
            TokenType::NativeToken { .. } => true,
            TokenType::CustomToken { .. } => false,
        }
    }

    pub fn is_custom_token(&self) -> (r: bool)
        ensures
            r == self is CustomToken,
    {
        match self {
            TokenType::NativeToken { .. } => false,
            TokenType::CustomToken { .. } => true,
        }
    }

    pub fn into_contract(&self) -> (r: StdResult<Contract>)
        ensures
            r is Ok <==> self is CustomToken,
            r matches Ok(c) ==> c.address == self->contract_addr && c.code_hash == self->token_code_hash,
            r matches Err(e) ==> e.is_generic("Token pair is not a snip20 pair."@),
    {
        match self {
            TokenType::CustomToken { contract_addr, token_code_hash, .. } => Ok(Contract::new(
                contract_addr.clone(),
                token_code_hash.clone(),
            )),
            TokenType::NativeToken { .. } => Err(StdError::generic_err(String::from_str("Token pair is not a snip20 pair."))),
        }
    }

    /// Whether this is the custom token at `address`.
    pub open spec fn has_address(&self, address: Seq<char>) -> bool {
        self matches TokenType::CustomToken { contract_addr, .. } && contract_addr@ == address
    }

    pub fn eq_address(&self, address: &String) -> (r: bool)
        ensures
            r == self.has_address(address@),
    {
        match self {
            TokenType::CustomToken { contract_addr, .. } => *contract_addr == *address,
            TokenType::NativeToken { .. } => false,
        }
    }
}

impl TokenPair {
    pub fn require_has_address(&self, address: &String) -> (r: StdResult<()>)
        ensures
            r is Ok <==> self.0.has_address(address@) || self.1.has_address(address@),
            r matches Err(e) ==> e.is_generic("Token "@ + address@ + " is not in pair."@),
    {
        let is_one = self.0.eq_address(address);
        let is_two = self.1.eq_address(address);
        if is_one || is_two {
            Ok(())
        } else {
            let msg = String::from_str("Token ").concat(address.as_str()).concat(" is not in pair.");
            Err(StdError::GenericErr { msg })
        }
    }

    pub fn into_contracts(&self) -> (r: StdResult<[Contract; 2]>)
        ensures
            r is Ok <==> self.0 is CustomToken && self.1 is CustomToken,
            r matches Ok(cs) ==> cs[0].address == self.0->contract_addr && cs[0].code_hash == self.0->token_code_hash
                && cs[1].address == self.1->contract_addr && cs[1].code_hash == self.1->token_code_hash,
    {
        let token_a = self.0.into_contract()?;
        let token_b = self.1.into_contract()?;
        Ok([token_a, token_b])
    }
}

} // verus!
