//! A market oracle that prices one token of a ShadeSwap pair from the other.
use vstd::prelude::*;
use vstd::string::*;
use crate::collections::{StrMap, strings_view, position_of, lemma_swap_remove_unique};
use crate::common::{Contract, StdError, StdResult};
use crate::common::asset::Asset;
use crate::interfaces::router::registry::{set_of, lemma_set_of_take};
use super::TokenPair;

verus! {

pub struct ConfigResponse {
    pub router: Contract,
    pub enabled: bool,
}

pub struct MarketsResponse {
    pub markets: Vec<MarketDataResponse>,
}

pub struct MarketDataResponse {
    pub key: String,
    pub data: MarketData,
}

/// Pair is the LP pair & symbol is the key we'll use to
/// get the price of 1 side of the LP pair from our oracle router.
pub struct MarketData {
    /// The token we are basing the other one off
    pub base_asset: Asset,
    /// Address of token we are interested in getting a price for (will be used for oracle router)
    pub target_asset: String,
    pub target_asset_decimals: u8,
    pub pair: Contract,
}

/// What the oracle keeps in storage: the supported keys, in order, and the
/// market of each.
pub struct MarketsStore {
    pub supported_keys: Vec<String>,
    pub markets: StrMap<MarketData>,
}

pub struct ShadeswapMarketOracle {
    pub router: Contract,
    pub enabled: bool,
}

impl ShadeswapMarketOracle {
    /// Sets the status where one is given and the (validated) router where
    /// one is given.
    pub fn update_config(&mut self, status: Option<bool>, router: Option<Contract>) -> (r: StdResult<()>)
        ensures
            r is Ok,
            final(self).router == (match router {
                Some(c) => c,
                None => old(self).router,
            }),
            final(self).enabled == (match status {
                Some(s) => s,
                None => old(self).enabled,
            }),
    {
        if let Some(router) = router {
            self.router = router;
        }
        self.enabled = match status {
            Some(s) => s,
            None => self.enabled,
        };
        Ok(())
    }

    /// Drops the supported keys among `keys` and their markets; the list of
    /// supported keys keeps no key twice.
    pub fn remove_keys(store: &mut MarketsStore, keys: Vec<String>) -> (r: StdResult<()>)
        requires
            strings_view(old(store).supported_keys@).no_duplicates(),
        ensures
            r is Ok,
            strings_view(final(store).supported_keys@).no_duplicates(),
            strings_view(final(store).supported_keys@).to_set() == strings_view(old(store).supported_keys@).to_set().difference(
                set_of(keys@),
            ),
            final(store).markets.view() == old(store).markets.view().remove_keys(
                set_of(keys@).intersect(strings_view(old(store).supported_keys@).to_set()),
            ),
    {
        let ghost m0 = store.markets.view();
        let ghost s0 = strings_view(store.supported_keys@).to_set();
        let mut i: usize = 0;
        proof {
            assert(set_of(keys@.take(0)) =~= Set::<Seq<char>>::empty());
            assert(s0.difference(set_of(keys@.take(0))) =~= s0);
            assert(m0.remove_keys(set_of(keys@.take(0)).intersect(s0)) =~= m0);
        }
        while i < keys.len()
            invariant
                i <= keys@.len(),
                strings_view(store.supported_keys@).no_duplicates(),
                strings_view(store.supported_keys@).to_set() == s0.difference(set_of(keys@.take(i as int))),
                store.markets.view() == m0.remove_keys(set_of(keys@.take(i as int)).intersect(s0)),
            decreases keys@.len() - i,
        {
            proof {
                lemma_set_of_take(keys@, i as int);
            }
            let key = &keys[i];
            let ghost before = store.supported_keys@;
            match position_of(&store.supported_keys, key) {
                Some(pos) => {
                    let _ = store.markets.remove(key);
                    let _ = store.supported_keys.swap_remove(pos);
                    proof {
                        let sv = strings_view(before);
                        assert(sv[pos as int] == key@);
                        lemma_swap_remove_unique(sv, pos as int);
                        assert(strings_view(store.supported_keys@) =~= sv.update(pos as int, sv.last()).drop_last());
                        assert(sv.to_set().contains(key@));
                        assert(s0.contains(key@));
                    }
                },
                None => {
                    proof {
                        assert(!strings_view(before).to_set().contains(key@));
                        assert(!s0.contains(key@) || set_of(keys@.take(i as int)).contains(key@));
                    }
                },
            }
            assert(strings_view(store.supported_keys@).to_set() =~= s0.difference(set_of(keys@.take(i + 1))));
            assert(store.markets.view() =~= m0.remove_keys(set_of(keys@.take(i + 1)).intersect(s0)));
            i = i + 1;
        }
        proof {
            assert(keys@.take(keys@.len() as int) =~= keys@);
        }
        Ok(())
    }

    /// The token of the pair that the market prices: after checking that both
    /// the base asset and the target are in the pair and that both tokens are
    /// contracts, the one at the target address.
    pub fn select_target(tokens: &TokenPair, base_asset: &Asset, target_asset: &String) -> (r: StdResult<Contract>)
        ensures
            r is Ok <==> (tokens.0.has_address(base_asset.contract.address@) || tokens.1.has_address(
                base_asset.contract.address@,
            )) && (tokens.0.has_address(target_asset@) || tokens.1.has_address(target_asset@)) && tokens.0 is CustomToken
                && tokens.1 is CustomToken,
            r matches Ok(c) ==> c.address@ == target_asset@,
    {
        tokens.require_has_address(&base_asset.contract.address)?;
        tokens.require_has_address(target_asset)?;
        let contracts = tokens.into_contracts()?;
        // One is guaranteed to be the target asset because of the check above.
        if contracts[0].address == *target_asset {
            Ok(contracts[0].duplicate())
        } else {
            Ok(contracts[1].duplicate())
        }
    }

    /// The market of a (validated) base asset and the target token with its
    /// decimals, in the (validated) pair.
    pub fn fetch_market_data(&self, base_asset: Asset, target_asset: Contract, target_asset_decimals: u8, pair: Contract) -> (r: StdResult<MarketData>)
        ensures
            r matches Ok(m) && m == (MarketData {
                base_asset,
                target_asset: target_asset.address,
                target_asset_decimals,
                pair,
            }),
    {
        Ok(MarketData { base_asset, target_asset: target_asset.address, target_asset_decimals, pair })
    }

    /// Records the market of `key` and supports the key, at the end of the
    /// list where it is new.
    pub fn set_key(&self, store: &mut MarketsStore, key: String, data: MarketData) -> (r: StdResult<()>)
        requires
            strings_view(old(store).supported_keys@).no_duplicates(),
        ensures
            r is Ok,
            final(store).markets.view() == old(store).markets.view().insert(key@, data),
            strings_view(final(store).supported_keys@).no_duplicates(),
            strings_view(old(store).supported_keys@).contains(key@) ==> final(store).supported_keys@ == old(store).supported_keys@,
            !strings_view(old(store).supported_keys@).contains(key@) ==> final(store).supported_keys@ == old(store).supported_keys@.push(key),
    {
        store.markets.insert(key.clone(), data);
        if position_of(&store.supported_keys, &key).is_none() {
            let ghost before = store.supported_keys@;
            store.supported_keys.push(key);
            proof {
                assert(strings_view(store.supported_keys@) =~= strings_view(before).push(key@));
                crate::interfaces::index::lemma_push_no_duplicates(strings_view(before), key@);
            }
        }
        Ok(())
    }
}

} // verus!
