//! Staking derivative oracles calculate the price of 1 staking derivative token
//! based off its exchange rate with its underlying token.
use vstd::prelude::*;
use vstd::string::*;
use crate::collections::StrSet;
use crate::common::{StdError, StdResult};
use crate::num::{Decimal256, abs_diff_spec};
use crate::interfaces::common::config::CommonConfig;
use super::{process_rate_key, rate_key, has_rate_suffix, strip_rate};
pub use super::bot::{
    RawDerivativeData, DerivativeDataConfigUpdate, DerivativeData, DerivativeRate, DerivativeUpdates,
    ExecuteMsg, QueryMsg, DerivativesResponse, DerivativesStore, BotStakingDerivativesOracle,
    fresh_data, set_all_data, raw_keys, all_rates_nonzero, config_updated, update_all_configs,
    all_updates_known, rate_updated, zero_rate_error, not_found_derivative,
};
use super::bot::lemma_take_last;

verus! {

#[derive(Clone, Copy, Debug, PartialEq, Eq, Structural)]
pub enum BotPermission {
    UpdateRates,
}

impl BotPermission {
    pub fn to_string(&self) -> (r: String)
        ensures
            r@ == "SHADE_ORACLES_STRIDE_RATES_BOT"@,
    {
        match self {
            BotPermission::UpdateRates => String::from_str("SHADE_ORACLES_STRIDE_RATES_BOT"),
        }
    }
}

/// The change from the stored rate to `new_rate` is within the allowed
/// absolute change.
pub open spec fn change_allowed(rate: DerivativeRate, new_rate: Decimal256) -> bool {
    abs_diff_spec(rate.value@, new_rate@) <= rate.max_change@
}

impl DerivativeRate {
    /// Fails where the rate would change by more than its maximum change.
    pub fn require_valid_change(&self, now: u64, new_rate: Decimal256) -> (r: StdResult<()>)
        ensures
            r is Ok <==> change_allowed(*self, new_rate),
            r matches Err(e) ==> (e matches StdError::RateChangeTooLarge { max_change, change }
                && max_change == self.max_change && change@ == abs_diff_spec(self.value@, new_rate@)),
    {
        if self.value.eq(&new_rate) {
            return Ok(());
        }
        let change = Decimal256::new(self.value.atomics().abs_diff(&new_rate.atomics()));
        if change.gt(&self.max_change) {
            Err(StdError::RateChangeTooLarge { max_change: self.max_change, change })
        } else {
            Ok(())
        }
    }
}

/// Whether one pushed rate passes against the stored data `m`: its key is
/// stored and the rate changes by at most the allowed amount.
pub open spec fn stride_rate_passes(m: Map<Seq<char>, DerivativeData>, k: Seq<char>, rate: Decimal256) -> bool {
    m.dom().contains(k) && change_allowed(m[k].rate, rate)
}

/// The stored data after pushing the rates in order, or the position of the
/// first rate that does not pass.
pub open spec fn push_stride_rates(m: Map<Seq<char>, DerivativeData>, now: u64, rates: Seq<(String, Decimal256)>) -> Result<Map<Seq<char>, DerivativeData>, nat>
    decreases rates.len(),
{
    if rates.len() == 0 {
        Ok(m)
    } else {
        match push_stride_rates(m, now, rates.drop_last()) {
            Err(i) => Err(i),
            Ok(prev) => {
                let (k, rate) = rates.last();
                if stride_rate_passes(prev, k@, rate) {
                    Ok(prev.insert(k@, rate_updated(prev[k@], rate, now)))
                } else {
                    Err((rates.len() - 1) as nat)
                }
            },
        }
    }
}

/// The error that the pushed rate `rate` for `k` gives against `m`.
pub open spec fn stride_rate_error(m: Map<Seq<char>, DerivativeData>, k: Seq<char>, rate: Decimal256, e: StdError) -> bool {
    if !m.dom().contains(k) {
        e is NotFound
    } else {
        e matches StdError::RateChangeTooLarge { max_change, change } && max_change == m[k].rate.max_change
            && change@ == abs_diff_spec(m[k].rate.value@, rate@)
    }
}

/// A change is allowed exactly when the new rate lies within the maximum
/// change of the stored value, above it or below it.
pub proof fn lemma_change_allowed_meaning(rate: DerivativeRate, new_rate: Decimal256)
    ensures
        change_allowed(rate, new_rate) <==> (new_rate@ <= rate.value@ + rate.max_change@ && rate.value@ <= new_rate@
            + rate.max_change@),
{
}

/// One pushed rate is taken exactly when its key is stored and the rate
/// lies within the maximum change of the stored value, in either direction;
/// it is then stored with the time of the push.
pub proof fn lemma_stride_single_push(m: Map<Seq<char>, DerivativeData>, now: u64, key: String, rate: Decimal256)
    ensures
        ({
            let r = push_stride_rates(m, now, seq![(key, rate)]);
            &&& r is Ok <==> (m.dom().contains(key@) && rate@ <= m[key@].rate.value@ + m[key@].rate.max_change@
                && m[key@].rate.value@ <= rate@ + m[key@].rate.max_change@)
            &&& r matches Ok(m1) ==> m1[key@].rate.value == rate && m1[key@].rate.last_updated == now
                && m1[key@].rate.max_change == m[key@].rate.max_change
        }),
{
    let rates = seq![(key, rate)];
    assert(rates.drop_last() =~= Seq::<(String, Decimal256)>::empty());
    assert(rates.last() == (key, rate));
    assert(push_stride_rates(m, now, rates.drop_last()) == Ok::<Map<Seq<char>, DerivativeData>, nat>(m));
    assert(rates.len() == 1);
}

proof fn lemma_push_stride_rates_fails_at(m: Map<Seq<char>, DerivativeData>, now: u64, rates: Seq<(String, Decimal256)>, i: int)
    requires
        0 <= i < rates.len(),
        push_stride_rates(m, now, rates.take(i)) is Ok,
        !stride_rate_passes(push_stride_rates(m, now, rates.take(i))->Ok_0, rates[i].0@, rates[i].1),
    ensures
        push_stride_rates(m, now, rates) == Err::<Map<Seq<char>, DerivativeData>, nat>(i as nat),
    decreases rates.len(),
{
    if i == rates.len() - 1 {
        assert(rates.drop_last() =~= rates.take(i));
    } else {
        assert(rates.drop_last().take(i) =~= rates.take(i));
        lemma_push_stride_rates_fails_at(m, now, rates.drop_last(), i);
    }
}

/// A raw entry of a batch passes: the router prices its underlying key and
/// its initial rate is not zero.
pub open spec fn stride_entry_ok(raw: RawDerivativeData, priced: Set<Seq<char>>) -> bool {
    priced.contains(raw.underlying_key@) && raw.initial_rate@ != 0
}

/// The error of the first entry of a batch that does not pass.
pub open spec fn stride_entry_error(raw: RawDerivativeData, priced: Set<Seq<char>>, e: StdError) -> bool {
    if !priced.contains(raw.underlying_key@) {
        e.is_generic("Failed to query price for "@ + raw.underlying_key@ + " in router."@)
    } else {
        zero_rate_error(e)
    }
}

/// Every update names a stored key, and every new underlying key is priced
/// by the router.
pub open spec fn stride_update_ok(m: Map<Seq<char>, DerivativeData>, u: (String, DerivativeDataConfigUpdate), priced: Set<Seq<char>>) -> bool {
    m.dom().contains(u.0@) && (u.1.underlying_key matches Some(k) ==> priced.contains(k@))
}

pub struct StrideStakingDerivativesOracle {
    pub config: CommonConfig,
}

impl StrideStakingDerivativesOracle {
    /// The key that asks for the rate of `key`.
    pub fn create_rate_key(key: &str) -> (r: String)
        ensures
            r@ == key@ + " Rate"@,
    {
        rate_key(key)
    }

    /// Whether `key` asks for the rate, and the key with the trailing
    /// " Rate" removed.
    pub fn process_key(key: &str) -> (r: (bool, String))
        ensures
            r.0 == has_rate_suffix(key@),
            r.1@ == strip_rate(key@),
    {
        process_rate_key(key)
    }

    /// Stores the data of each raw entry, created at `now`, and supports its
    /// key. `priced` holds the underlying keys for which the router answered
    /// a price. The first entry that does not pass refuses the whole batch.
    pub fn set_derivatives(&self, store: &mut DerivativesStore, priced: &StrSet, now: u64, derivatives: Vec<RawDerivativeData>) -> (r: StdResult<()>)
        ensures
            r is Ok <==> forall|i: int| 0 <= i < derivatives@.len() ==> stride_entry_ok(#[trigger] derivatives@[i], priced.view()),
            r is Ok ==> final(store).derivatives.view() == set_all_data(old(store).derivatives.view(), derivatives@, now)
                && final(store).supported_keys.view() == old(store).supported_keys.view().union(raw_keys(derivatives@)),
            r is Err ==> final(store).derivatives.view() == old(store).derivatives.view()
                && final(store).supported_keys.view() == old(store).supported_keys.view(),
            r matches Err(e) ==> exists|i: int| 0 <= i < derivatives@.len() && !stride_entry_ok(
                #[trigger] derivatives@[i],
                priced.view(),
            ) && stride_entry_error(derivatives@[i], priced.view(), e),
    {
        let mut j: usize = 0;
        while j < derivatives.len()
            invariant
                j <= derivatives@.len(),
                forall|i: int| 0 <= i < j ==> stride_entry_ok(#[trigger] derivatives@[i], priced.view()),
            decreases derivatives@.len() - j,
        {
            let held = priced.contains(&derivatives[j].underlying_key);
            self.config.require_valid_router_symbol(derivatives[j].underlying_key.as_str(), held)?;
            if derivatives[j].initial_rate.is_zero() {
                return Err(StdError::generic_err(String::from_str("Rate must be greater than 0")));
            }
            j = j + 1;
        }
        let oracle = BotStakingDerivativesOracle { config: CommonConfig { router: self.config.router.duplicate(), enabled: self.config.enabled } };
        oracle.set_derivatives(store, now, derivatives)
    }

    /// Drops the supported keys among `keys` and their data.
    pub fn remove_keys(store: &mut DerivativesStore, keys: Vec<String>) -> (r: StdResult<()>)
        ensures
            r is Ok,
            final(store).supported_keys.view() == old(store).supported_keys.view().difference(
                crate::interfaces::router::registry::set_of(keys@),
            ),
            final(store).derivatives.view() == old(store).derivatives.view().remove_keys(
                crate::interfaces::router::registry::set_of(keys@).intersect(old(store).supported_keys.view()),
            ),
    {
        BotStakingDerivativesOracle::remove_keys(store, keys)
    }

    /// The stored data of `key`.
    pub fn get_derivative_data_resp(key: &String, store: &DerivativesStore) -> (r: StdResult<DerivativeData>)
        ensures
            r is Ok <==> store.derivatives.view().dom().contains(key@),
            r matches Ok(d) ==> d == store.derivatives.view()[key@],
            r matches Err(e) ==> e is NotFound,
    {
        BotStakingDerivativesOracle::get_derivative_data_resp(key, store)
    }

    /// Applies each configuration update to the stored data of its key; a new
    /// underlying key must be one the router prices (`priced`). The first
    /// update that does not pass refuses the whole batch.
    pub fn update_derivatives(&self, store: &mut DerivativesStore, priced: &StrSet, updates: Vec<(String, DerivativeDataConfigUpdate)>) -> (r: StdResult<()>)
        ensures
            r is Ok <==> forall|i: int| 0 <= i < updates@.len() ==> stride_update_ok(
                old(store).derivatives.view(),
                #[trigger] updates@[i],
                priced.view(),
            ),
            r is Ok ==> final(store).derivatives.view() == update_all_configs(old(store).derivatives.view(), updates@),
            r is Err ==> final(store).derivatives.view() == old(store).derivatives.view(),
            r matches Err(e) ==> exists|i: int| 0 <= i < updates@.len() && !stride_update_ok(
                old(store).derivatives.view(),
                #[trigger] updates@[i],
                priced.view(),
            ) && (e is NotFound || (updates@[i].1.underlying_key matches Some(k) && e.is_generic(
                "Failed to query price for "@ + k@ + " in router."@,
            ))),
            final(store).supported_keys.view() == old(store).supported_keys.view(),
    {
        let mut j: usize = 0;
        while j < updates.len()
            invariant
                j <= updates@.len(),
                forall|i: int| 0 <= i < j ==> stride_update_ok(store.derivatives.view(), #[trigger] updates@[i], priced.view()),
            decreases updates@.len() - j,
        {
            if !store.derivatives.contains_key(&updates[j].0) {
                return Err(not_found_derivative());
            }
            match &updates[j].1.underlying_key {
                Some(underlying_key) => {
                    let held = priced.contains(underlying_key);
                    self.config.require_valid_router_symbol(underlying_key.as_str(), held)?;
                },
                None => {},
            }
            j = j + 1;
        }
        let oracle = BotStakingDerivativesOracle { config: CommonConfig { router: self.config.router.duplicate(), enabled: self.config.enabled } };
        oracle.update_derivatives(store, updates)
    }

    /// Pushes each rate, at time `now`, after checking its change from the
    /// stored rate of its key. The first rate that fails refuses the batch;
    /// the caller then drops the changed state.
    pub fn update_rates(store: &mut DerivativesStore, now: u64, rates: Vec<(String, Decimal256)>) -> (r: StdResult<()>)
        ensures
            r is Ok <==> push_stride_rates(old(store).derivatives.view(), now, rates@) is Ok,
            r is Ok ==> final(store).derivatives.view() == push_stride_rates(old(store).derivatives.view(), now, rates@)->Ok_0,
            r matches Err(e) ==> {
                let i = push_stride_rates(old(store).derivatives.view(), now, rates@)->Err_0;
                &&& i < rates@.len()
                &&& push_stride_rates(old(store).derivatives.view(), now, rates@.take(i as int)) is Ok
                &&& final(store).derivatives.view() == push_stride_rates(old(store).derivatives.view(), now, rates@.take(i as int))->Ok_0
                &&& stride_rate_error(
                    push_stride_rates(old(store).derivatives.view(), now, rates@.take(i as int))->Ok_0,
                    rates@[i as int].0@,
                    rates@[i as int].1,
                    e,
                )
            },
            final(store).supported_keys.view() == old(store).supported_keys.view(),
    {
        let ghost m0 = store.derivatives.view();
        let mut i: usize = 0;
        proof {
            assert(rates@.take(0) =~= Seq::<(String, Decimal256)>::empty());
        }
        while i < rates.len()
            invariant
                i <= rates@.len(),
                m0 == old(store).derivatives.view(),
                push_stride_rates(m0, now, rates@.take(i as int)) == Ok::<Map<Seq<char>, DerivativeData>, nat>(store.derivatives.view()),
                store.supported_keys.view() == old(store).supported_keys.view(),
            decreases rates@.len() - i,
        {
            proof {
                lemma_take_last(rates@, i as int);
            }
            let key = &rates[i].0;
            let rate = rates[i].1;
            let mut data = match store.derivatives.get(key) {
                Some(d) => d.duplicate(),
                None => {
                    proof {
                        lemma_push_stride_rates_fails_at(m0, now, rates@, i as int);
                    }
                    return Err(not_found_derivative());
                },
            };
            match data.rate.require_valid_change(now, rate) {
                Err(e) => {
                    proof {
                        lemma_push_stride_rates_fails_at(m0, now, rates@, i as int);
                    }
                    return Err(e);
                },
                Ok(()) => {},
            }
            data.rate.last_updated = now;
            data.rate.value = rate;
            store.derivatives.insert(key.clone(), data);
            i = i + 1;
        }
        proof {
            assert(rates@.take(rates@.len() as int) =~= rates@);
        }
        Ok(())
    }

    /// The stored data of every supported key, in the order of the list.
    pub fn get_supported_derivatives(store: &DerivativesStore) -> (r: StdResult<DerivativesResponse>)
        ensures
            r is Ok <==> store.supported_keys.view().subset_of(store.derivatives.view().dom()),
            r matches Ok(v) ==> v@.len() == store.supported_keys.key_seq().len() && forall|i: int|
                0 <= i < v@.len() ==> #[trigger] v@[i] == store.derivatives.view()[store.supported_keys.key_seq()[i]],
            r matches Err(e) ==> e is NotFound,
    {
        BotStakingDerivativesOracle::get_supported_derivatives(store)
    }
}

} // verus!
