//! SiennaSwap exchange pairs: their queries, tokens and simulations.
use vstd::prelude::*;
use vstd::string::*;
use crate::common::{Contract, StdError, StdResult};

verus! {

/// Builds the queries of a SiennaSwap exchange.
pub struct SiennaSwapQuerier;

pub struct PairInfoResponse {
    pub pair_info: PairInfo,
}

pub struct PairInfo {
    pub liquidity_token: Contract,
    pub factory: Contract,
    pub pair: Pair,
    pub amount_0: u128,
    pub amount_1: u128,
    pub total_liquidity: u128,
    pub contract_version: u32,
}

/// Interface for querying a SiennaSwap exchange contract.
pub enum QueryMsg {
    PairInfo,
    SwapSimulation { offer: TokenTypeAmount },
}

pub enum TokenType {
    CustomToken { contract_addr: String, token_code_hash: String },
    NativeToken { denom: String },
}

pub struct Pair {
    pub token_0: TokenType,
    pub token_1: TokenType,
}

pub struct TokenTypeAmount {
    pub amount: u128,
    pub token: TokenType,
}

pub struct SwapSimulation {
    pub offer: TokenTypeAmount,
}

pub struct SimulationResponse {
    pub return_amount: u128,
    pub spread_amount: u128,
    pub commission_amount: u128,
}

impl SiennaSwapQuerier {
    /// The query for the pair's info.
    pub fn pair_info_query() -> (r: QueryMsg)
        ensures
            r is PairInfo,
    {
        QueryMsg::PairInfo
    }

    /// The query that simulates swapping `amount` of the token `token`.
    pub fn swap_simulation_query(token: &Contract, amount: u128) -> (r: QueryMsg)
        ensures
            r matches QueryMsg::SwapSimulation { offer } && offer.amount == amount && offer.token
                == (TokenType::CustomToken { contract_addr: token.address, token_code_hash: token.code_hash }),
    {
        let token = TokenType::CustomToken { contract_addr: token.address.clone(), token_code_hash: token.code_hash.clone() };
        let offer = TokenTypeAmount { amount, token };
        QueryMsg::SwapSimulation { offer }
    }
}

impl TokenType {
    pub fn into_contract(&self) -> (r: StdResult<Contract>)
        ensures
            r is Ok <==> self is CustomToken,
            r matches Ok(c) ==> c.address == self->contract_addr && c.code_hash == self->token_code_hash,
            r matches Err(e) ==> e.is_generic("Token pair is not a snip20 pair."@),
    {
        match self {
            TokenType::CustomToken { contract_addr, token_code_hash } => Ok(Contract::new(
                contract_addr.clone(),
                token_code_hash.clone(),
            )),
            TokenType::NativeToken { .. } => Err(StdError::generic_err(String::from_str("Token pair is not a snip20 pair."))),
        }
    }

    /// Whether this is the custom token at `address`.
    pub open spec fn has_address(&self, address: Seq<char>) -> bool {
        self matches TokenType::CustomToken { contract_addr, .. } && contract_addr@ == address
    }

    pub fn eq_address(&self, address: &String) -> (r: bool)
        ensures
            r == self.has_address(address@),
    {
        match self {
            TokenType::CustomToken { contract_addr, .. } => *contract_addr == *address,
            TokenType::NativeToken { .. } => false,
        }
    }

    pub fn require_address_eq(&self, address: &String) -> (r: StdResult<()>)
        ensures
            r is Ok <==> self.has_address(address@),
            r matches Err(e) ==> e.is_generic("Pair Error: Token is not the expected token "@ + address@ + "."@),
    {
        if self.eq_address(address) {
            Ok(())
        } else {
            let msg = String::from_str("Pair Error: Token is not the expected token ").concat(address.as_str()).concat(".");
            Err(StdError::GenericErr { msg })
        }
    }
}

impl Pair {
    pub fn require_has_address(&self, address: &String) -> (r: StdResult<()>)
        ensures
            r is Ok <==> self.token_0.has_address(address@) || self.token_1.has_address(address@),
            r matches Err(e) ==> e.is_generic("Token "@ + address@ + " is not in pair."@),
    {
        let is_one = self.token_0.eq_address(address);
        let is_two = self.token_1.eq_address(address);
        if is_one || is_two {
            Ok(())
        } else {
            let msg = String::from_str("Token ").concat(address.as_str()).concat(" is not in pair.");
            Err(StdError::GenericErr { msg })
        }
    }

    pub fn require_has_addresses(&self, token_0: &String, token_1: &String) -> (r: StdResult<()>)
        ensures
            r is Ok <==> (self.token_0.has_address(token_0@) || self.token_1.has_address(token_0@)) && (
            self.token_0.has_address(token_1@) || self.token_1.has_address(token_1@)),
    {
        self.require_has_address(token_0)?;
        self.require_has_address(token_1)?;
        Ok(())
    }

    pub fn into_contracts(&self) -> (r: StdResult<[Contract; 2]>)
        ensures
            r is Ok <==> self.token_0 is CustomToken && self.token_1 is CustomToken,
            r matches Ok(cs) ==> cs[0].address == self.token_0->contract_addr && cs[0].code_hash
                == self.token_0->token_code_hash && cs[1].address == self.token_1->contract_addr && cs[1].code_hash
                == self.token_1->token_code_hash,
    {
        let token_a = self.token_0.into_contract()?;
        let token_b = self.token_1.into_contract()?;
        Ok([token_a, token_b])
    }
}

} // verus!
