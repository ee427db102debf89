//! Pair oracles use a liquidity pair to determine the price of a token in that pair.
use vstd::prelude::*;
use vstd::string::*;
use crate::collections::{StrMap, StrSet};
use crate::common::{Contract, StdError, StdResult};
use crate::common::asset::{Asset, Assets, RawAsset};
use crate::interfaces::common::config::CommonConfig;
use crate::interfaces::router::registry::{set_of, lemma_set_of_take};

verus! {

pub struct RawPairData {
    pub key: String,
    pub base_token: RawAsset,
    pub target_token: RawAsset,
    pub pair: Contract,
}

pub struct PairData {
    pub key: String,
    pub base_token: Asset,
    pub target_token: Asset,
    pub pair: Contract,
}

pub type PairsResponse = Vec<PairData>;

/// Pair is the LP pair & symbol is the key we'll use to
/// get the price of 1 side of the LP pair from our oracle router.
pub struct StoredPairData {
    pub base_token: String,
    pub target_token: String,
    pub pair: Contract,
}

/// What the oracle keeps in storage: its assets, the pair of each key and
/// the supported keys.
pub struct MarketPairsStore {
    pub assets: Assets,
    pub pairs: StrMap<StoredPairData>,
    pub supported_keys: StrSet,
}

pub struct LiquidityPairMarketOracle {
    pub config: CommonConfig,
}

impl LiquidityPairMarketOracle {
    /// Drops the supported keys among `keys` and their pairs.
    pub fn remove_keys(store: &mut MarketPairsStore, keys: Vec<String>) -> (r: StdResult<()>)
        ensures
            r is Ok,
            final(store).supported_keys.view() == old(store).supported_keys.view().difference(set_of(keys@)),
            final(store).pairs.view() == old(store).pairs.view().remove_keys(
                set_of(keys@).intersect(old(store).supported_keys.view()),
            ),
    {
        let ghost m0 = store.pairs.view();
        let ghost s0 = store.supported_keys.view();
        let mut i: usize = 0;
        proof {
            assert(set_of(keys@.take(0)) =~= Set::<Seq<char>>::empty());
            assert(s0.difference(set_of(keys@.take(0))) =~= s0);
            assert(m0.remove_keys(set_of(keys@.take(0)).intersect(s0)) =~= m0);
        }
        while i < keys.len()
            invariant
                i <= keys@.len(),
                store.supported_keys.view() == s0.difference(set_of(keys@.take(i as int))),
                store.pairs.view() == m0.remove_keys(set_of(keys@.take(i as int)).intersect(s0)),
            decreases keys@.len() - i,
        {
            proof {
                lemma_set_of_take(keys@, i as int);
            }
            if store.supported_keys.remove(&keys[i]) {
                let _ = store.pairs.remove(&keys[i]);
            }
            assert(store.supported_keys.view() =~= s0.difference(set_of(keys@.take(i + 1))));
            assert(store.pairs.view() =~= m0.remove_keys(set_of(keys@.take(i + 1)).intersect(s0)));
            i = i + 1;
        }
        proof {
            assert(keys@.take(keys@.len() as int) =~= keys@);
        }
        Ok(())
    }

    /// Stores the assets of the pair (those not stored yet), records the
    /// pair under `key` and supports the key.
    pub fn set_pair_data(store: &mut MarketPairsStore, key: String, base_token: Asset, target_token: Asset, pair: Contract) -> (r: StdResult<StoredPairData>)
        ensures
            r matches Ok(d) && d.base_token == base_token.contract.address && d.target_token
                == target_token.contract.address && d.pair == pair,
            final(store).pairs.view().dom() == old(store).pairs.view().dom().insert(key@),
            final(store).supported_keys.view() == old(store).supported_keys.view().insert(key@),
    {
        let _ = store.assets.may_set(&base_token);
        let _ = store.assets.may_set(&target_token);
        let data = StoredPairData {
            base_token: base_token.contract.address.clone(),
            target_token: target_token.contract.address.clone(),
            pair: pair.duplicate(),
        };
        let stored = StoredPairData {
            base_token: base_token.contract.address,
            target_token: target_token.contract.address,
            pair,
        };
        store.pairs.insert(key.clone(), stored);
        let _ = CommonConfig::add_supported_key(&mut store.supported_keys, &key);
        Ok(data)
    }

    /// Sets the quote symbol of a stored asset where the router prices it.
    pub fn update_asset_symbol(&self, store: &mut MarketPairsStore, asset: &Asset, priced: bool) -> (r: StdResult<()>)
        ensures
            r is Ok <==> old(store).assets.0.view().dom().contains(asset.contract.address@) && priced,
            r is Err ==> final(store).assets.0.view() == old(store).assets.0.view(),
    {
        store.assets.update_existing_asset(&asset.contract.address, asset.quote_symbol.as_str(), priced)
    }

    /// Validates the raw pair: the base token's symbol must be priced (the
    /// target token's is not checked); then stores it.
    pub fn validate_and_set_pair_data(
        &self,
        store: &mut MarketPairsStore,
        data: RawPairData,
        base: (bool, Contract, u8),
        target: (Contract, u8),
    ) -> (r: StdResult<StoredPairData>)
        ensures
            r is Ok <==> base.0,
            r matches Ok(d) ==> d.base_token == base.1.address && d.target_token == target.0.address
                && final(store).supported_keys.view() == old(store).supported_keys.view().insert(data.key@),
    {
        let pair = data.pair;
        let base_token = data.base_token.into_asset(base.0, base.1, base.2)?;
        let target_token = data.target_token.into_asset_without_symbol_check(target.0, target.1)?;
        Self::set_pair_data(store, data.key, base_token, target_token, pair)
    }

    /// The pair of `key` with its two stored assets.
    pub fn get_pair_data_resp(key: &String, store: &MarketPairsStore) -> (r: StdResult<PairData>)
        ensures
            r is Ok <==> store.pairs.view().dom().contains(key@) && store.assets.0.view().dom().contains(
                store.pairs.view()[key@].base_token@,
            ) && store.assets.0.view().dom().contains(store.pairs.view()[key@].target_token@),
            r matches Ok(d) ==> d.key == *key && d.base_token == store.assets.0.view()[store.pairs.view()[key@].base_token@]
                && d.target_token == store.assets.0.view()[store.pairs.view()[key@].target_token@],
            r matches Err(e) ==> e is NotFound,
    {
        let data = match store.pairs.get(key) {
            Some(d) => d,
            None => return Err(StdError::NotFound { kind: String::from_str("StoredPairData") }),
        };
        let base_token = match store.assets.0.get(&data.base_token) {
            Some(a) => a.duplicate(),
            None => return Err(StdError::NotFound { kind: String::from_str("Asset") }),
        };
        let target_token = match store.assets.0.get(&data.target_token) {
            Some(a) => a.duplicate(),
            None => return Err(StdError::NotFound { kind: String::from_str("Asset") }),
        };
        Ok(PairData { key: key.clone(), base_token, target_token, pair: data.pair.duplicate() })
    }

    /// The pair of every supported key, in the order of the list.
    pub fn get_supported_pairs(store: &MarketPairsStore) -> (r: StdResult<Vec<PairData>>)
        ensures
            r matches Ok(v) ==> v@.len() == store.supported_keys.key_seq().len() && forall|i: int|
                0 <= i < v@.len() ==> (#[trigger] v@[i]).key@ == store.supported_keys.key_seq()[i],
            r matches Err(e) ==> e is NotFound,
    {
        let n = store.supported_keys.len();
        let mut out: Vec<PairData> = Vec::new();
        let mut i: usize = 0;
        while i < n
            invariant
                i <= n,
                n == store.supported_keys.key_seq().len(),
                out@.len() == i,
                forall|j: int| 0 <= j < i ==> (#[trigger] out@[j]).key@ == store.supported_keys.key_seq()[j],
            decreases n - i,
        {
            let key = store.supported_keys.key_at(i);
            out.push(Self::get_pair_data_resp(key, store)?);
            i = i + 1;
        }
        Ok(out)
    }
}

} // verus!
