//! Defines how we'll store Assets in our contracts.
//! We care most about the token decimals, the asset contract itself, and the symbol used
//! to query the price via our oracle system so we can query prices for them.
use vstd::prelude::*;
use vstd::string::*;
use crate::collections::StrMap;
use crate::common::{Contract, StdError, StdResult};
use crate::common::error::CommonOracleError;
use crate::common::math::{normalize_spec, normalize_ok, denormalize_spec, bankers_round_spec, TokenMath, denormalize};
use crate::num::{Uint256, u256_limit};

verus! {

#[derive(Clone, Debug)]
pub struct Asset {
    pub contract: Contract,
    pub decimals: u8,
    pub quote_symbol: String,
}

#[derive(Clone, Debug)]
pub enum AssetError {
    InvalidSymbol(String),
}

impl AssetError {
    /// The message of the error.
    pub open spec fn message(&self) -> Seq<char> {
        match self {
            AssetError::InvalidSymbol(s) => "Failed to query a price for "@ + s@
                + ". Cannot set quote symbol of asset to invalid symbol."@,
        }
    }

    pub fn to_string(&self) -> (r: String)
        ensures
            r@ == self.message(),
    {
        match self {
            AssetError::InvalidSymbol(s) => {
                let head = String::from_str("Failed to query a price for ");
                head.concat(s.as_str()).concat(". Cannot set quote symbol of asset to invalid symbol.")
            },
        }
    }

    /// The error as a generic error with its message.
    pub fn into_std(self) -> (r: StdError)
        ensures
            r.is_generic(self.message()),
    {
        StdError::GenericErr { msg: self.to_string() }
    }
}

impl Asset {
    pub fn new(contract: Contract, decimals: u8, quote_symbol: String) -> (r: Self)
        ensures
            r.contract == contract,
            r.decimals == decimals,
            r.quote_symbol == quote_symbol,
    {
        Asset { contract, decimals, quote_symbol }
    }

    /// An asset with empty address, code hash and symbol and no decimals.
    pub fn default() -> (r: Self)
        ensures
            r.contract.address@ == Seq::<char>::empty(),
            r.contract.code_hash@ == Seq::<char>::empty(),
            r.decimals == 0,
            r.quote_symbol@ == Seq::<char>::empty(),
    {
        Self {
            contract: Contract { address: String::new(), code_hash: String::new() },
            decimals: 0,
            quote_symbol: String::new(),
        }
    }

    pub fn duplicate(&self) -> (r: Self)
        ensures
            r == *self,
    {
        Asset { contract: self.contract.duplicate(), decimals: self.decimals, quote_symbol: self.quote_symbol.clone() }
    }

    /// Sets the quote symbol to `symbol` where the oracle could price it
    /// (`priced` is whether its price query succeeded).
    pub fn update_quote_symbol(&mut self, symbol: String, priced: bool) -> (r: StdResult<()>)
        ensures
            r is Ok <==> priced,
            r is Ok ==> final(self).quote_symbol == symbol && final(self).contract == old(self).contract
                && final(self).decimals == old(self).decimals,
            r is Err ==> *final(self) == *old(self),
            r matches Err(e) ==> e.is_generic(AssetError::InvalidSymbol(symbol).message()),
    {
        if !priced {
            return Err(AssetError::InvalidSymbol(symbol).into_std());
        } else {
            self.quote_symbol = symbol;
        }
        Ok(())
    }

    /// Normalizes the asset amount from being based off asset decimals -> 18 decimals.
    pub fn normalize_amount(&self, amount: &Uint256) -> (r: StdResult<Uint256>)
        requires
            self.decimals <= 77,
        ensures
            r is Ok <==> normalize_ok(amount@, self.decimals as nat),
            r matches Ok(v) ==> v@ == normalize_spec(amount@, self.decimals as nat),
            r matches Err(e) ==> e == StdError::Overflow,
    {
        TokenMath::normalize_value(amount, self.decimals)
    }

    /// Gets the amount of asset the amount normalized to 18 decimals represents.
    pub fn get_amount(&self, normalized_amount: &Uint256) -> (r: StdResult<Uint256>)
        requires
            self.decimals <= 18,
            bankers_round_spec(normalized_amount@, (18 - self.decimals) as nat) < u256_limit(),
        ensures
            r matches Ok(v) && v@ == denormalize_spec(normalized_amount@, self.decimals as nat),
    {
        Ok(denormalize(normalized_amount, self.decimals))
    }
}

/// An asset given by an unvalidated contract and the symbol of its price.
pub struct RawAsset {
    pub contract: Contract,
    pub quote_symbol: String,
}

impl RawAsset {
    pub fn new(contract: Contract, quote_symbol: String) -> (r: Self)
        ensures
            r.contract == contract,
            r.quote_symbol == quote_symbol,
    {
        RawAsset { contract, quote_symbol }
    }

    /// The asset, from the validated contract and the decimals of its token;
    /// `priced` is whether the oracle could price the quote symbol.
    pub fn into_asset(self, priced: bool, validated: Contract, decimals: u8) -> (r: StdResult<Asset>)
        ensures
            r is Ok <==> priced,
            r matches Ok(a) ==> a == (Asset { contract: validated, decimals, quote_symbol: self.quote_symbol }),
            r matches Err(e) ==> e.is_generic(AssetError::InvalidSymbol(self.quote_symbol).message()),
    {
        if !priced {
            return Err(AssetError::InvalidSymbol(self.quote_symbol).into_std());
        }
        Ok(Asset::new(validated, decimals, self.quote_symbol))
    }

    /// The asset, from the validated contract and the decimals of its token,
    /// without checking its symbol.
    pub fn into_asset_without_symbol_check(self, validated: Contract, decimals: u8) -> (r: StdResult<Asset>)
        ensures
            r matches Ok(a) && a == (Asset { contract: validated, decimals, quote_symbol: self.quote_symbol }),
    {
        Ok(Asset::new(validated, decimals, self.quote_symbol))
    }
}

/// Map of assets, keyed by the address of their contract.
pub struct Assets(pub StrMap<Asset>);

impl Assets {
    pub fn new() -> (r: Self)
        ensures
            r.0.view().is_empty(),
    {
        Assets(StrMap::new())
    }

    /// The stored asset at `address`.
    pub fn require_existing_asset(&self, address: &String) -> (r: StdResult<Asset>)
        ensures
            r is Ok <==> self.0.view().dom().contains(address@),
            r matches Ok(a) ==> a == self.0.view()[address@],
            r matches Err(e) ==> e.is_generic("Asset "@ + address@ + " not found."@),
    {
        match self.0.get(address) {
            Some(asset) => Ok(asset.duplicate()),
            None => Err(CommonOracleError::AssetNotFound(address.clone()).into_std()),
        }
    }

    /// Stores `asset` under its address unless an asset is stored there.
    pub fn may_set(&mut self, asset: &Asset) -> (r: StdResult<()>)
        ensures
            r is Ok,
            old(self).0.view().dom().contains(asset.contract.address@) ==> final(self).0.view() == old(self).0.view(),
            !old(self).0.view().dom().contains(asset.contract.address@) ==> final(self).0.view() == old(self).0.view().insert(
                asset.contract.address@,
                *asset,
            ),
    {
        if !self.0.contains_key(&asset.contract.address) {
            self.0.insert(asset.contract.address.clone(), asset.duplicate());
        }
        Ok(())
    }

    /// You can only update an existing asset's quote symbol because we assume their contract address, code hash, and token decimals are immutable.
    /// `priced` is whether the oracle could price `symbol`.
    pub fn update_existing_asset(&mut self, asset: &String, symbol: &str, priced: bool) -> (r: StdResult<()>)
        ensures
            r is Ok <==> old(self).0.view().dom().contains(asset@) && priced,
            r is Ok ==> final(self).0.view() == old(self).0.view().insert(
                asset@,
                Asset { quote_symbol: final(self).0.view()[asset@].quote_symbol, ..old(self).0.view()[asset@] },
            ) && final(self).0.view()[asset@].quote_symbol@ == symbol@,
            r is Err ==> final(self).0.view() == old(self).0.view(),
    {
        let mut existing_asset = self.require_existing_asset(asset)?;
        existing_asset.update_quote_symbol(String::from_str(symbol), priced)?;
        self.0.insert(asset.clone(), existing_asset);
        Ok(())
    }
}

/// A struct containing an amount of some token and the value of that amount.
#[derive(Clone, Copy, Debug)]
pub struct BtrValuedAmount {
    /// Token amount of valued asset (18 decimals).
    pub amount: Uint256,
    /// Value of token amount at time (18 decimals).
    pub value: Uint256,
}

impl BtrValuedAmount {
    pub fn default() -> (r: Self)
        ensures
            r.amount@ == 0,
            r.value@ == 0,
    {
        BtrValuedAmount { amount: Uint256::zero(), value: Uint256::zero() }
    }

    /// Adds an amount and its value; a sum that does not fit is an error.
    pub fn add(self, amount: &Uint256, value: &Uint256) -> (r: StdResult<Self>)
        ensures
            r is Ok <==> self.amount@ + amount@ < u256_limit() && self.value@ + value@ < u256_limit(),
            r matches Ok(s) ==> s.amount@ == self.amount@ + amount@ && s.value@ == self.value@ + value@,
            r matches Err(e) ==> e == StdError::Overflow,
    {
        let mut this = self;
        this.amount = match this.amount.checked_add(amount) {
            Some(a) => a,
            None => return Err(StdError::Overflow),
        };
        this.value = match this.value.checked_add(value) {
            Some(v) => v,
            None => return Err(StdError::Overflow),
        };
        Ok(this)
    }

    /// Adds the amount and value of another.
    pub fn add_another(&mut self, another: &BtrValuedAmount)
        requires
            old(self).amount@ + another.amount@ < u256_limit(),
            old(self).value@ + another.value@ < u256_limit(),
        ensures
            final(self).amount@ == old(self).amount@ + another.amount@,
            final(self).value@ == old(self).value@ + another.value@,
    {
        self.amount = self.amount.add(&another.amount);
        self.value = self.value.add(&another.value);
    }

    pub fn is_zero(&self) -> (r: bool)
        ensures
            r == (self.amount@ == 0 && self.value@ == 0),
    {
        let zero = Uint256::zero();
        self.amount.le(&zero) && self.value.le(&zero)
    }
}

} // verus!
