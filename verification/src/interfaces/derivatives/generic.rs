//! Staking derivative oracle that calculate the price of 1 staking derivative token
//! based off its exchange rate with its underlying token.
use vstd::prelude::*;
use vstd::string::*;
use crate::collections::{StrMap, StrSet};
use crate::common::{StdError, StdResult};
use crate::common::asset::{Asset, Assets, RawAsset};
use crate::interfaces::common::config::CommonConfig;
use crate::interfaces::router::registry::{set_of, lemma_set_of_take};
use super::{process_rate_key, rate_key, has_rate_suffix, strip_rate};

verus! {

pub struct RawDerivativeData {
    pub key: String,
    /// The quote symbol in this asset should be for its underlying.
    /// Ex: stkd-SCRT asset should have the quote symbol for SCRT.
    pub staking_derivative: RawAsset,
}

pub struct DerivativeData {
    pub key: String,
    pub staking_derivative: Asset,
}

pub type DerivativesResponse = Vec<DerivativeData>;

/// The stored record of a derivative: the address of its token.
pub struct StoredDerivativeData {
    pub derivative: String,
}

impl StoredDerivativeData {
    pub fn duplicate(&self) -> (r: Self)
        ensures
            r == *self,
    {
        StoredDerivativeData { derivative: self.derivative.clone() }
    }
}

/// What the oracle keeps in storage: its assets, the derivative of each key
/// and the supported keys.
pub struct GenericDerivativesStore {
    pub assets: Assets,
    pub derivatives: StrMap<StoredDerivativeData>,
    pub supported_keys: StrSet,
}

pub struct StakingDerivativesOracle {
    pub config: CommonConfig,
}

impl StakingDerivativesOracle {
    /// The key that asks for the rate of `key`.
    pub fn create_rate_key(key: &str) -> (r: String)
        ensures
            r@ == key@ + " Rate"@,
    {
        rate_key(key)
    }

    /// Whether `key` asks for the rate, and the key with the trailing
    /// " Rate" removed.
    pub fn process_key(key: &str) -> (r: (bool, String))
        ensures
            r.0 == has_rate_suffix(key@),
            r.1@ == strip_rate(key@),
    {
        process_rate_key(key)
    }

    /// Stores the asset (unless one is stored at its address), records it as
    /// the derivative of `key` and supports the key.
    pub fn set_derivative_data(store: &mut GenericDerivativesStore, key: String, derivative: Asset) -> (r: StdResult<StoredDerivativeData>)
        ensures
            r matches Ok(d) && d.derivative == derivative.contract.address,
            old(store).assets.0.view().dom().contains(derivative.contract.address@) ==> final(store).assets.0.view()
                == old(store).assets.0.view(),
            !old(store).assets.0.view().dom().contains(derivative.contract.address@) ==> final(store).assets.0.view()
                == old(store).assets.0.view().insert(derivative.contract.address@, derivative),
            final(store).derivatives.view() == old(store).derivatives.view().insert(
                key@,
                StoredDerivativeData { derivative: derivative.contract.address },
            ),
            final(store).supported_keys.view() == old(store).supported_keys.view().insert(key@),
    {
        let _ = store.assets.may_set(&derivative);
        let data = StoredDerivativeData { derivative: derivative.contract.address.clone() };
        store.derivatives.insert(key.clone(), data.duplicate());
        let _ = CommonConfig::add_supported_key(&mut store.supported_keys, &key);
        Ok(data)
    }

    /// Validates the raw data (with the validated contract and decimals of
    /// its token, and whether its quote symbol is priced) and stores it.
    pub fn validate_and_set_derivative_data(
        &self,
        store: &mut GenericDerivativesStore,
        data: RawDerivativeData,
        priced: bool,
        validated: crate::common::Contract,
        decimals: u8,
    ) -> (r: StdResult<StoredDerivativeData>)
        ensures
            r is Ok <==> priced,
            r matches Ok(d) ==> d.derivative == validated.address && final(store).derivatives.view()
                == old(store).derivatives.view().insert(data.key@, d),
            r is Err ==> final(store).derivatives.view() == old(store).derivatives.view()
                && final(store).assets.0.view() == old(store).assets.0.view(),
    {
        let contract = data.staking_derivative.into_asset(priced, validated, decimals)?;
        Self::set_derivative_data(store, data.key, contract)
    }

    /// Drops the supported keys among `keys` and their derivatives.
    pub fn remove_keys(store: &mut GenericDerivativesStore, keys: Vec<String>) -> (r: StdResult<()>)
        ensures
            r is Ok,
            final(store).supported_keys.view() == old(store).supported_keys.view().difference(set_of(keys@)),
            final(store).derivatives.view() == old(store).derivatives.view().remove_keys(
                set_of(keys@).intersect(old(store).supported_keys.view()),
            ),
    {
        let ghost m0 = store.derivatives.view();
        let ghost s0 = store.supported_keys.view();
        let mut i: usize = 0;
        proof {
            assert(set_of(keys@.take(0)) =~= Set::<Seq<char>>::empty());
            assert(s0.difference(set_of(keys@.take(0))) =~= s0);
            assert(m0.remove_keys(set_of(keys@.take(0)).intersect(s0)) =~= m0);
        }
        while i < keys.len()
            invariant
                i <= keys@.len(),
                store.supported_keys.view() == s0.difference(set_of(keys@.take(i as int))),
                store.derivatives.view() == m0.remove_keys(set_of(keys@.take(i as int)).intersect(s0)),
            decreases keys@.len() - i,
        {
            proof {
                lemma_set_of_take(keys@, i as int);
            }
            if store.supported_keys.remove(&keys[i]) {
                let _ = store.derivatives.remove(&keys[i]);
            }
            assert(store.supported_keys.view() =~= s0.difference(set_of(keys@.take(i + 1))));
            assert(store.derivatives.view() =~= m0.remove_keys(set_of(keys@.take(i + 1)).intersect(s0)));
            i = i + 1;
        }
        proof {
            assert(keys@.take(keys@.len() as int) =~= keys@);
        }
        Ok(())
    }

    /// The derivative of `key` with its stored asset.
    pub fn get_derivative_data_resp(key: &String, store: &GenericDerivativesStore) -> (r: StdResult<DerivativeData>)
        ensures
            r is Ok <==> store.derivatives.view().dom().contains(key@) && store.assets.0.view().dom().contains(
                store.derivatives.view()[key@].derivative@,
            ),
            r matches Ok(d) ==> d.key == *key && d.staking_derivative == store.assets.0.view()[store.derivatives.view()[key@].derivative@],
            r matches Err(e) ==> e is NotFound,
    {
        let data = match store.derivatives.get(key) {
            Some(d) => d,
            None => return Err(StdError::NotFound { kind: String::from_str("StoredDerivativeData") }),
        };
        let staking_derivative = match store.assets.0.get(&data.derivative) {
            Some(a) => a.duplicate(),
            None => return Err(StdError::NotFound { kind: String::from_str("Asset") }),
        };
        Ok(DerivativeData { key: key.clone(), staking_derivative })
    }

    /// The derivative of every supported key, in the order of the list.
    pub fn get_supported_derivatives(store: &GenericDerivativesStore) -> (r: StdResult<DerivativesResponse>)
        ensures
            r matches Ok(v) ==> v@.len() == store.supported_keys.key_seq().len() && forall|i: int|
                0 <= i < v@.len() ==> (#[trigger] v@[i]).key@ == store.supported_keys.key_seq()[i],
            r matches Err(e) ==> e is NotFound,
    {
        let n = store.supported_keys.len();
        let mut out: Vec<DerivativeData> = Vec::new();
        let mut i: usize = 0;
        while i < n
            invariant
                i <= n,
                n == store.supported_keys.key_seq().len(),
                out@.len() == i,
                forall|j: int| 0 <= j < i ==> (#[trigger] out@[j]).key@ == store.supported_keys.key_seq()[j],
            decreases n - i,
        {
            let key = store.supported_keys.key_at(i);
            out.push(Self::get_derivative_data_resp(key, store)?);
            i = i + 1;
        }
        Ok(out)
    }
}

} // verus!
