//! SecretSwap pairs: their assets and queries.
use vstd::prelude::*;
use crate::common::Contract;
use vstd::utf8::encode_utf8;

verus! {

pub struct Asset {
    pub info: AssetInfo,
    pub amount: u128,
}

impl Asset {
    pub fn is_native_token(&self) -> (r: bool)
        ensures
            r == self.info is NativeToken,
    {
        self.info.is_native_token()
    }

    /// The asset with its token address in canonical form;
    /// `canonical_addr` is that form of the token's address (unused for a
    /// native token).
    pub fn to_raw(&self, canonical_addr: Vec<u8>) -> (r: AssetRaw)
        ensures
            r.info == self.info.raw_form(canonical_addr),
            r.amount == self.amount,
    {
        AssetRaw { info: self.info.to_raw(canonical_addr), amount: self.amount }
    }
}

pub enum AssetInfo {
    Token { contract_addr: String, token_code_hash: String, viewing_key: String },
    NativeToken { denom: String },
}

impl AssetInfo {
    /// Two assets are the same token: the same contract address, or the same
    /// native denomination.
    pub open spec fn same_token(&self, other: &AssetInfo) -> bool {
        match (self, other) {
            (AssetInfo::Token { contract_addr: a, .. }, AssetInfo::Token { contract_addr: b, .. }) => a@ == b@,
            (AssetInfo::NativeToken { denom: a }, AssetInfo::NativeToken { denom: b }) => a@ == b@,
            _ => false,
        }
    }

    pub fn is_native_token(&self) -> (r: bool)
        ensures
            r == self is NativeToken,
    {
        match self {
            AssetInfo::NativeToken { .. } => true,
            AssetInfo::Token { .. } => false,
        }
    }

    pub fn equal(&self, asset: &AssetInfo) -> (r: bool)
        ensures
            r == self.same_token(asset),
    {
        match self {
            AssetInfo::Token { contract_addr, .. } => {
                let self_contract_addr = contract_addr;
                match asset {
                    AssetInfo::Token { contract_addr, .. } => *self_contract_addr == *contract_addr,
                    AssetInfo::NativeToken { .. } => false,
                }
            },
            AssetInfo::NativeToken { denom, .. } => {
                let self_denom = denom;
                match asset {
                    AssetInfo::Token { .. } => false,
                    AssetInfo::NativeToken { denom, .. } => *self_denom == *denom,
                }
            },
        }
    }

    /// The raw form of the asset, with `canonical_addr` for a token's address.
    pub open spec fn raw_form(&self, canonical_addr: Vec<u8>) -> AssetInfoRaw {
        match self {
            AssetInfo::Token { token_code_hash, viewing_key, .. } => AssetInfoRaw::Token {
                contract_addr: canonical_addr,
                token_code_hash: *token_code_hash,
                viewing_key: *viewing_key,
            },
            AssetInfo::NativeToken { denom } => AssetInfoRaw::NativeToken { denom: *denom },
        }
    }

    /// The asset with its token address in canonical form;
    /// `canonical_addr` is that form of the token's address (unused for a
    /// native token).
    pub fn to_raw(&self, canonical_addr: Vec<u8>) -> (r: AssetInfoRaw)
        ensures
            r == self.raw_form(canonical_addr),
    {
        match self {
            AssetInfo::NativeToken { denom } => AssetInfoRaw::NativeToken { denom: denom.clone() },
            AssetInfo::Token { token_code_hash, viewing_key, .. } => AssetInfoRaw::Token {
                contract_addr: canonical_addr,
                token_code_hash: token_code_hash.clone(),
                viewing_key: viewing_key.clone(),
            },
        }
    }

    /// What the asset shows as: its denomination or its contract address.
    pub fn to_string(&self) -> (r: String)
        ensures
            self matches AssetInfo::NativeToken { denom } ==> r == denom,
            self matches AssetInfo::Token { contract_addr, .. } ==> r == contract_addr,
    {
        match self {
            AssetInfo::NativeToken { denom } => denom.clone(),
            AssetInfo::Token { contract_addr, .. } => contract_addr.clone(),
        }
    }
}

/// An asset taken to its raw form and back, with the readable form of its
/// token address, is the same asset.
pub proof fn lemma_asset_info_raw_round_trip(info: AssetInfo, canonical_addr: Vec<u8>)
    ensures
        info matches AssetInfo::Token { contract_addr, .. } ==> info.raw_form(canonical_addr).normal_form(contract_addr)
            == info,
        info is NativeToken ==> forall|human_addr: String| #[trigger] info.raw_form(canonical_addr).normal_form(human_addr)
            == info,
{
}

pub struct AssetRaw {
    pub info: AssetInfoRaw,
    pub amount: u128,
}

impl AssetRaw {
    /// The asset with its token address in readable form; `human_addr` is
    /// that form of the token's canonical address (unused for a native
    /// token).
    pub fn to_normal(&self, human_addr: String) -> (r: Asset)
        ensures
            r.info == self.info.normal_form(human_addr),
            r.amount == self.amount,
    {
        Asset { info: self.info.to_normal(human_addr), amount: self.amount }
    }
}

pub enum AssetInfoRaw {
    /// A token by its canonical address.
    Token { contract_addr: Vec<u8>, token_code_hash: String, viewing_key: String },
    NativeToken { denom: String },
}

impl AssetInfoRaw {
    /// Two raw assets are the same token.
    pub open spec fn same_token(&self, other: &AssetInfoRaw) -> bool {
        match (self, other) {
            (AssetInfoRaw::Token { contract_addr: a, .. }, AssetInfoRaw::Token { contract_addr: b, .. }) => a@ == b@,
            (AssetInfoRaw::NativeToken { denom: a }, AssetInfoRaw::NativeToken { denom: b }) => a@ == b@,
            _ => false,
        }
    }

    /// The normal form of the asset, with `human_addr` for a token's address.
    pub open spec fn normal_form(&self, human_addr: String) -> AssetInfo {
        match self {
            AssetInfoRaw::Token { token_code_hash, viewing_key, .. } => AssetInfo::Token {
                contract_addr: human_addr,
                token_code_hash: *token_code_hash,
                viewing_key: *viewing_key,
            },
            AssetInfoRaw::NativeToken { denom } => AssetInfo::NativeToken { denom: *denom },
        }
    }

    /// The asset with its token address in readable form; `human_addr` is
    /// that form of the token's canonical address (unused for a native
    /// token).
    pub fn to_normal(&self, human_addr: String) -> (r: AssetInfo)
        ensures
            r == self.normal_form(human_addr),
    {
        match self {
            AssetInfoRaw::NativeToken { denom } => AssetInfo::NativeToken { denom: denom.clone() },
            AssetInfoRaw::Token { token_code_hash, viewing_key, .. } => AssetInfo::Token {
                contract_addr: human_addr,
                token_code_hash: token_code_hash.clone(),
                viewing_key: viewing_key.clone(),
            },
        }
    }

    /// The bytes that identify the asset: the UTF-8 bytes of a native
    /// denomination, or a token's canonical address.
    pub fn as_bytes(&self) -> (r: &[u8])
        ensures
            self matches AssetInfoRaw::NativeToken { denom } ==> r@ == encode_utf8(denom@),
            self matches AssetInfoRaw::Token { contract_addr, .. } ==> r@ == contract_addr@,
    {
        match self {
            AssetInfoRaw::NativeToken { denom } => denom.as_str().as_bytes(),
            AssetInfoRaw::Token { contract_addr, .. } => contract_addr.as_slice(),
        }
    }

    pub fn equal(&self, asset: &AssetInfoRaw) -> (r: bool)
        ensures
            r == self.same_token(asset),
    {
        match self {
            AssetInfoRaw::Token { contract_addr, .. } => {
                let self_contract_addr = contract_addr;
                match asset {
                    AssetInfoRaw::Token { contract_addr, .. } => bytes_equal(self_contract_addr, contract_addr),
                    AssetInfoRaw::NativeToken { .. } => false,
                }
            },
            AssetInfoRaw::NativeToken { denom, .. } => {
                let self_denom = denom;
                match asset {
                    AssetInfoRaw::Token { .. } => false,
                    AssetInfoRaw::NativeToken { denom, .. } => *self_denom == *denom,
                }
            },
        }
    }
}

/// Whether two byte strings are equal.
fn bytes_equal(a: &Vec<u8>, b: &Vec<u8>) -> (r: bool)
    ensures
        r == (a@ == b@),
{
    if a.len() != b.len() {
        return false;
    }
    let mut i: usize = 0;
    while i < a.len()
        invariant
            i <= a@.len() == b@.len(),
            forall|j: int| 0 <= j < i ==> a@[j] == b@[j],
        decreases a@.len() - i,
    {
        if a[i] != b[i] {
            return false;
        }
        i = i + 1;
    }
    assert(a@ =~= b@);
    true
}

pub struct SecretSwapPairInfo {
    pub asset_infos: [AssetInfo; 2],
    pub contract_addr: String,
    pub liquidity_token: String,
    pub token_code_hash: String,
    pub asset0_volume: u128,
    pub asset1_volume: u128,
    pub factory: Contract,
}

pub struct SecretSwapPoolResponse {
    pub assets: [Asset; 2],
    pub total_share: u128,
}

pub enum SecretSwapPairQueryMsg {
    Pair {},
    Pool {},
}

} // verus!
