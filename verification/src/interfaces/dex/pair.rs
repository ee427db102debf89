//! Pair oracles calculate the price of 1 liquidity pair token.
use vstd::prelude::*;
use vstd::string::*;
use crate::collections::{StrMap, StrSet};
use crate::common::{Contract, StdError, StdResult, scale_to_18};
use crate::common::asset::{Asset, Assets, RawAsset};
use crate::common::math::{FairLpPriceInfo, LiquidityPoolMath, lp_spot_value, fair_lp_half_value};
use crate::num::u256_limit;
use crate::interfaces::common::OraclePrice;
use crate::interfaces::common::config::CommonConfig;
use crate::interfaces::providers::ReferenceData;
use crate::num::Uint256;
use crate::interfaces::router::registry::{set_of, lemma_set_of_take};

verus! {

pub struct RawPairData {
    pub key: String,
    pub token_0: RawAsset,
    pub token_1: RawAsset,
    pub pair: Contract,
}

pub struct PairData {
    pub key: String,
    pub token_0: Asset,
    pub token_1: Asset,
    pub pair: Contract,
}

pub type PairsResponse = Vec<PairData>;

/// Pair is the LP pair & symbol is the key we'll use to
/// get the price of 1 side of the LP pair from our oracle router.
pub struct StoredPairData {
    pub token_0: String,
    pub token_1: String,
    pub pair: Contract,
}

/// The decimals and the total supply of a token.
pub struct TokenInfo {
    pub decimals: u8,
    pub total_supply: Option<u128>,
}

/// What the oracle keeps in storage: its assets, the pair of each key and
/// the supported keys.
pub struct PairsStore {
    pub assets: Assets,
    pub pairs: StrMap<StoredPairData>,
    pub supported_keys: StrSet,
}

pub struct LiquidityPairOracle {
    pub config: CommonConfig,
}

/// The smaller of two times.
pub open spec fn min_u64(a: u64, b: u64) -> u64 {
    if a <= b {
        a
    } else {
        b
    }
}

/// The rate in a result of a price computation.
pub open spec fn rate_result(r: StdResult<ReferenceData>) -> Result<nat, StdError> {
    match r {
        Ok(d) => Ok(d.rate@),
        Err(e) => Err(e),
    }
}

impl LiquidityPairOracle {
    /// Stores the assets of the pair (those not stored yet), records the
    /// pair under `key` and supports the key.
    pub fn set_pair_data(store: &mut PairsStore, key: String, token_0: Asset, token_1: Asset, pair: Contract) -> (r: StdResult<StoredPairData>)
        ensures
            r matches Ok(d) && d.token_0 == token_0.contract.address && d.token_1 == token_1.contract.address
                && d.pair == pair,
            final(store).pairs.view().dom() == old(store).pairs.view().dom().insert(key@),
            final(store).supported_keys.view() == old(store).supported_keys.view().insert(key@),
            final(store).assets.0.view().dom() == old(store).assets.0.view().dom().insert(token_0.contract.address@).insert(
                token_1.contract.address@,
            ),
    {
        let _ = store.assets.may_set(&token_0);
        let _ = store.assets.may_set(&token_1);
        let data = StoredPairData {
            token_0: token_0.contract.address.clone(),
            token_1: token_1.contract.address.clone(),
            pair: pair.duplicate(),
        };
        let stored = StoredPairData { token_0: token_0.contract.address, token_1: token_1.contract.address, pair };
        store.pairs.insert(key.clone(), stored);
        let _ = CommonConfig::add_supported_key(&mut store.supported_keys, &key);
        proof {
            assert(store.assets.0.view().dom() =~= old(store).assets.0.view().dom().insert(token_0.contract.address@).insert(
                token_1.contract.address@,
            ));
        }
        Ok(data)
    }

    /// The price of one LP token from the reserves of the pair, the prices of
    /// its two tokens and the LP token's info. The update times are the
    /// older of the two prices'.
    pub fn calculate_lp_token_spot_rate(
        data: &PairData,
        lp_token_info: &TokenInfo,
        reserves_0: u128,
        reserves_1: u128,
        pair_prices: [&OraclePrice; 2],
    ) -> (r: StdResult<ReferenceData>)
        requires
            lp_token_info.total_supply is Some,
            data.token_0.decimals <= 77,
            data.token_1.decimals <= 77,
            lp_token_info.decimals <= 18,
            scale_to_18(lp_token_info.total_supply->0 as nat, lp_token_info.decimals as nat) <= u128::MAX,
        ensures
            rate_result(r) == lp_spot_value(
                reserves_0 as nat,
                pair_prices[0].data.rate@,
                data.token_0.decimals as nat,
                reserves_1 as nat,
                pair_prices[1].data.rate@,
                data.token_1.decimals as nat,
                lp_token_info.total_supply->0 as nat,
                lp_token_info.decimals as nat,
            ),
            r matches Ok(d) ==> d.last_updated_base == min_u64(
                pair_prices[0].data.last_updated_base,
                pair_prices[1].data.last_updated_base,
            ) && d.last_updated_quote == min_u64(
                pair_prices[0].data.last_updated_quote,
                pair_prices[1].data.last_updated_quote,
            ),
    {
        let total_supply = lp_token_info.total_supply.unwrap();
        let lp_token_decimals = lp_token_info.decimals;
        let price_0 = pair_prices[0].data();
        let price_1 = pair_prices[1].data();
        let a = FairLpPriceInfo { reserve: Uint256::from_u128(reserves_0), price: price_0.rate, decimals: data.token_0.decimals };
        let b = FairLpPriceInfo { reserve: Uint256::from_u128(reserves_1), price: price_1.rate, decimals: data.token_1.decimals };
        let rate = LiquidityPoolMath::get_lp_token_spot_price(a, b, total_supply, lp_token_decimals)?;
        let last_updated_base = if price_0.last_updated_base <= price_1.last_updated_base {
            price_0.last_updated_base
        } else {
            price_1.last_updated_base
        };
        let last_updated_quote = if price_0.last_updated_quote <= price_1.last_updated_quote {
            price_0.last_updated_quote
        } else {
            price_1.last_updated_quote
        };
        Ok(ReferenceData { rate, last_updated_base, last_updated_quote })
    }
}

/// Half the fair price of the LP token from the given reserves and the
/// prices of the two tokens.
pub open spec fn inferred_half_price(
    data: &PairData,
    lp_token_info: &TokenInfo,
    reserves_0: u128,
    reserves_1: u128,
    pair_prices: [&OraclePrice; 2],
) -> Result<nat, StdError> {
    fair_lp_half_value(
        reserves_0 as nat,
        pair_prices[0].data.rate@,
        data.token_0.decimals as nat,
        reserves_1 as nat,
        pair_prices[1].data.rate@,
        data.token_1.decimals as nat,
        lp_token_info.total_supply->0 as nat,
        lp_token_info.decimals as nat,
    )
}

impl LiquidityPairOracle {
    /// Infers the price of an LP token based on its expected reserves: the
    /// fair price of the pair, which values the reserves that the pair would
    /// hold at the given prices (twice the square root of the product of the
    /// normalized reserves times that of the prices, over the normalized
    /// supply). Does not work on the stableswap. The update times are the
    /// older of the two prices'.
    pub fn calculate_lp_token_inferred_rate(
        data: &PairData,
        lp_token_info: &TokenInfo,
        reserves_0: u128,
        reserves_1: u128,
        pair_prices: [&OraclePrice; 2],
    ) -> (r: StdResult<ReferenceData>)
        requires
            lp_token_info.total_supply is Some,
            data.token_0.decimals <= 77,
            data.token_1.decimals <= 77,
            lp_token_info.decimals <= 77,
            inferred_half_price(data, lp_token_info, reserves_0, reserves_1, pair_prices) matches Ok(h) ==> h * 2
                < u256_limit(),
        ensures
            rate_result(r) == match inferred_half_price(data, lp_token_info, reserves_0, reserves_1, pair_prices) {
                Ok(h) => Ok::<nat, StdError>(h * 2),
                Err(e) => Err(e),
            },
            r matches Ok(d) ==> d.last_updated_base == min_u64(
                pair_prices[0].data.last_updated_base,
                pair_prices[1].data.last_updated_base,
            ) && d.last_updated_quote == min_u64(
                pair_prices[0].data.last_updated_quote,
                pair_prices[1].data.last_updated_quote,
            ),
    {
        let total_supply = lp_token_info.total_supply.unwrap();
        let price_0 = pair_prices[0].data();
        let price_1 = pair_prices[1].data();
        let a = FairLpPriceInfo { reserve: Uint256::from_u128(reserves_0), price: price_0.rate, decimals: data.token_0.decimals };
        let b = FairLpPriceInfo { reserve: Uint256::from_u128(reserves_1), price: price_1.rate, decimals: data.token_1.decimals };
        let rate = LiquidityPoolMath::get_fair_lp_token_price(a, b, total_supply, lp_token_info.decimals)?;
        let last_updated_base = if price_0.last_updated_base <= price_1.last_updated_base {
            price_0.last_updated_base
        } else {
            price_1.last_updated_base
        };
        let last_updated_quote = if price_0.last_updated_quote <= price_1.last_updated_quote {
            price_0.last_updated_quote
        } else {
            price_1.last_updated_quote
        };
        Ok(ReferenceData { rate, last_updated_base, last_updated_quote })
    }

    /// Drops the supported keys among `keys` and their pairs.
    pub fn remove_keys(store: &mut PairsStore, keys: Vec<String>) -> (r: StdResult<()>)
        ensures
            r is Ok,
            final(store).supported_keys.view() == old(store).supported_keys.view().difference(set_of(keys@)),
            final(store).pairs.view() == old(store).pairs.view().remove_keys(
                set_of(keys@).intersect(old(store).supported_keys.view()),
            ),
    {
        let ghost m0 = store.pairs.view();
        let ghost s0 = store.supported_keys.view();
        let mut i: usize = 0;
        proof {
            assert(set_of(keys@.take(0)) =~= Set::<Seq<char>>::empty());
            assert(s0.difference(set_of(keys@.take(0))) =~= s0);
            assert(m0.remove_keys(set_of(keys@.take(0)).intersect(s0)) =~= m0);
        }
        while i < keys.len()
            invariant
                i <= keys@.len(),
                store.supported_keys.view() == s0.difference(set_of(keys@.take(i as int))),
                store.pairs.view() == m0.remove_keys(set_of(keys@.take(i as int)).intersect(s0)),
            decreases keys@.len() - i,
        {
            proof {
                lemma_set_of_take(keys@, i as int);
            }
            if store.supported_keys.remove(&keys[i]) {
                let _ = store.pairs.remove(&keys[i]);
            }
            assert(store.supported_keys.view() =~= s0.difference(set_of(keys@.take(i + 1))));
            assert(store.pairs.view() =~= m0.remove_keys(set_of(keys@.take(i + 1)).intersect(s0)));
            i = i + 1;
        }
        proof {
            assert(keys@.take(keys@.len() as int) =~= keys@);
        }
        Ok(())
    }

    /// Sets the quote symbol of a stored asset where the router prices it.
    pub fn update_asset_symbol(&self, store: &mut PairsStore, asset: &Asset, priced: bool) -> (r: StdResult<()>)
        ensures
            r is Ok <==> old(store).assets.0.view().dom().contains(asset.contract.address@) && priced,
            r is Err ==> final(store).assets.0.view() == old(store).assets.0.view(),
            r is Ok ==> final(store).assets.0.view()[asset.contract.address@].quote_symbol@ == asset.quote_symbol@,
    {
        store.assets.update_existing_asset(&asset.contract.address, asset.quote_symbol.as_str(), priced)
    }

    /// Validates the raw pair (with its validated contracts, the decimals of
    /// its tokens and whether their symbols are priced) and stores it.
    pub fn validate_and_set_pair_data(
        &self,
        store: &mut PairsStore,
        data: RawPairData,
        token_0: (bool, Contract, u8),
        token_1: (bool, Contract, u8),
    ) -> (r: StdResult<StoredPairData>)
        ensures
            r is Ok <==> token_0.0 && token_1.0,
            r matches Ok(d) ==> d.token_0 == token_0.1.address && d.token_1 == token_1.1.address
                && final(store).supported_keys.view() == old(store).supported_keys.view().insert(data.key@),
    {
        let pair = data.pair;
        let t0 = data.token_0.into_asset(token_0.0, token_0.1, token_0.2)?;
        let t1 = data.token_1.into_asset(token_1.0, token_1.1, token_1.2)?;
        Self::set_pair_data(store, data.key, t0, t1, pair)
    }

    /// The pair of `key` with its two stored assets.
    pub fn get_pair_data_resp(key: &String, store: &PairsStore) -> (r: StdResult<PairData>)
        ensures
            r is Ok <==> store.pairs.view().dom().contains(key@) && store.assets.0.view().dom().contains(
                store.pairs.view()[key@].token_0@,
            ) && store.assets.0.view().dom().contains(store.pairs.view()[key@].token_1@),
            r matches Ok(d) ==> d.key == *key && d.token_0 == store.assets.0.view()[store.pairs.view()[key@].token_0@]
                && d.token_1 == store.assets.0.view()[store.pairs.view()[key@].token_1@] && d.pair
                == store.pairs.view()[key@].pair,
            r matches Err(e) ==> e is NotFound,
    {
        let data = match store.pairs.get(key) {
            Some(d) => d,
            None => return Err(StdError::NotFound { kind: String::from_str("StoredPairData") }),
        };
        let token_0 = match store.assets.0.get(&data.token_0) {
            Some(a) => a.duplicate(),
            None => return Err(StdError::NotFound { kind: String::from_str("Asset") }),
        };
        let token_1 = match store.assets.0.get(&data.token_1) {
            Some(a) => a.duplicate(),
            None => return Err(StdError::NotFound { kind: String::from_str("Asset") }),
        };
        Ok(PairData { key: key.clone(), token_0, token_1, pair: data.pair.duplicate() })
    }

    /// The pair of every supported key, in the order of the list.
    pub fn get_supported_pairs(store: &PairsStore) -> (r: StdResult<PairsResponse>)
        ensures
            r matches Ok(v) ==> v@.len() == store.supported_keys.key_seq().len() && forall|i: int|
                0 <= i < v@.len() ==> (#[trigger] v@[i]).key@ == store.supported_keys.key_seq()[i],
            r matches Err(e) ==> e is NotFound,
    {
        let n = store.supported_keys.len();
        let mut out: Vec<PairData> = Vec::new();
        let mut i: usize = 0;
        while i < n
            invariant
                i <= n,
                n == store.supported_keys.key_seq().len(),
                out@.len() == i,
                forall|j: int| 0 <= j < i ==> (#[trigger] out@[j]).key@ == store.supported_keys.key_seq()[j],
            decreases n - i,
        {
            let key = store.supported_keys.key_at(i);
            out.push(Self::get_pair_data_resp(key, store)?);
            i = i + 1;
        }
        Ok(out)
    }
}

} // verus!
