//! Staking derivative oracles calculate the price of 1 staking derivative token
//! based off its exchange rate with its underlying token.
//! Requires a bot with some permission to push the rates.
use vstd::prelude::*;
use vstd::string::*;
use crate::collections::{StrMap, StrSet};
use crate::common::{Contract, StdError, StdResult};
use crate::common::math::GeneralMath;
use crate::num::{Decimal256, u256_limit, decimal_unit, abs_diff_spec};
use crate::interfaces::common::OraclePrice;
use crate::interfaces::common::config::{CommonConfig, CommonConfigResponse};
use crate::interfaces::providers::ReferenceData;
use crate::interfaces::router::registry::set_of;
use super::{process_rate_key, rate_key, has_rate_suffix, strip_rate};

verus! {

pub struct RawDerivativeData {
    /// The key for this derivative.
    pub key: String,
    /// The key for the asset the derivative is for.
    pub underlying_key: String,
    pub initial_rate: Decimal256,
    pub rate_timeout: u64,
    pub rate_max_change: Decimal256,
}

pub struct DerivativeDataConfigUpdate {
    pub underlying_key: Option<String>,
    pub rate_timeout: Option<u64>,
    pub rate_max_change: Option<Decimal256>,
}

impl DerivativeDataConfigUpdate {
    pub fn new(underlying_key: Option<String>, rate_timeout: Option<u64>, rate_max_change: Option<Decimal256>) -> (r: Self)
        ensures
            r == (DerivativeDataConfigUpdate { underlying_key, rate_timeout, rate_max_change }),
    {
        Self { underlying_key, rate_max_change, rate_timeout }
    }
}

pub struct DerivativeData {
    pub key: String,
    pub underlying_key: String,
    pub rate: DerivativeRate,
}

#[derive(Clone, Copy, Debug)]
pub struct DerivativeRate {
    pub value: Decimal256,
    pub timeout: u64,
    pub last_updated: u64,
    pub max_change: Decimal256,
}

pub enum DerivativeUpdates {
    Rates(Vec<(String, Decimal256)>),
    Config(Vec<(String, DerivativeDataConfigUpdate)>),
}

pub enum ExecuteMsg {
    /// For setting and updating derivative data config.
    SetDerivatives(Vec<RawDerivativeData>),
    RemoveDerivatives(Vec<String>),
    /// A new router, already validated.
    UpdateConfig(Contract),
    UpdateDerivatives(DerivativeUpdates),
    SetStatus(bool),
}

pub enum QueryMsg {
    GetPrice { key: String },
    GetPrices { keys: Vec<String> },
    GetConfig {},
    GetDerivatives {},
}

pub type DerivativesResponse = Vec<DerivativeData>;

/// The error of a rate of zero: "Rate must be greater than 0".
pub open spec fn zero_rate_error(e: StdError) -> bool {
    e.is_generic("Rate must be greater than 0"@)
}

fn zero_rate_err() -> (e: StdError)
    ensures
        zero_rate_error(e),
{
    StdError::generic_err(String::from_str("Rate must be greater than 0"))
}

impl DerivativeRate {
    pub fn new(value: Decimal256, timeout: u64, last_updated: u64, max_change: Decimal256) -> (r: StdResult<Self>)
        ensures
            r is Ok <==> value@ != 0,
            r matches Ok(x) ==> x == (DerivativeRate { value, timeout, last_updated, max_change }),
            r matches Err(e) ==> zero_rate_error(e),
    {
        let mut rate = Self { value, timeout, last_updated, max_change };
        rate.set_value(value)?;
        Ok(rate)
    }

    pub fn set_value(&mut self, value: Decimal256) -> (r: StdResult<()>)
        ensures
            r is Ok <==> value@ != 0,
            r is Ok ==> *final(self) == (DerivativeRate { value, ..*old(self) }),
            r is Err ==> *final(self) == *old(self),
            r matches Err(e) ==> zero_rate_error(e),
    {
        if value.is_zero() {
            return Err(zero_rate_err());
        };
        self.value = value;
        Ok(())
    }

    /// Fails where the rate was last updated more than `timeout` seconds
    /// before `now`.
    pub fn require_fresh(&self, now: u64) -> (r: StdResult<()>)
        requires
            self.last_updated <= now,
        ensures
            r is Ok <==> now - self.last_updated <= self.timeout,
            r matches Err(e) ==> e == (StdError::StaleRate { last_updated: self.last_updated, now }),
    {
        if now - self.last_updated > self.timeout {
            Err(StdError::StaleRate { last_updated: self.last_updated, now })
        } else {
            Ok(())
        }
    }
}

impl DerivativeData {
    pub fn new(
        key: String,
        underlying_key: String,
        initial_rate: Decimal256,
        rate_max_change: Decimal256,
        rate_timeout: u64,
        last_updated: u64,
    ) -> (r: StdResult<Self>)
        ensures
            r is Ok <==> initial_rate@ != 0,
            r matches Ok(d) ==> d == (DerivativeData {
                key,
                underlying_key,
                rate: DerivativeRate {
                    value: initial_rate,
                    timeout: rate_timeout,
                    last_updated,
                    max_change: rate_max_change,
                },
            }),
            r matches Err(e) ==> zero_rate_error(e),
    {
        let rate = DerivativeRate::new(initial_rate, rate_timeout, last_updated, rate_max_change)?;
        Ok(Self { key, underlying_key, rate })
    }

    pub fn duplicate(&self) -> (r: Self)
        ensures
            r == *self,
    {
        DerivativeData { key: self.key.clone(), underlying_key: self.underlying_key.clone(), rate: self.rate }
    }
}

/// The data that a raw entry sets at time `now`.
pub open spec fn fresh_data(raw: RawDerivativeData, now: u64) -> DerivativeData {
    DerivativeData {
        key: raw.key,
        underlying_key: raw.underlying_key,
        rate: DerivativeRate {
            value: raw.initial_rate,
            timeout: raw.rate_timeout,
            last_updated: now,
            max_change: raw.rate_max_change,
        },
    }
}

/// `m` with the data of each raw entry stored under its key, a later entry
/// replacing an earlier one for the same key.
pub open spec fn set_all_data(m: Map<Seq<char>, DerivativeData>, raws: Seq<RawDerivativeData>, now: u64) -> Map<Seq<char>, DerivativeData>
    decreases raws.len(),
{
    if raws.len() == 0 {
        m
    } else {
        set_all_data(m, raws.drop_last(), now).insert(raws.last().key@, fresh_data(raws.last(), now))
    }
}

/// The keys of the raw entries.
pub open spec fn raw_keys(raws: Seq<RawDerivativeData>) -> Set<Seq<char>> {
    Set::new(|k: Seq<char>| exists|i: int| 0 <= i < raws.len() && #[trigger] raws[i].key@ == k)
}

/// Every raw entry has a nonzero initial rate.
pub open spec fn all_rates_nonzero(raws: Seq<RawDerivativeData>) -> bool {
    forall|i: int| 0 <= i < raws.len() ==> (#[trigger] raws[i]).initial_rate@ != 0
}

/// The data after a configuration update: a new underlying key and a new
/// timeout where given. (The maximum change is not updated.)
pub open spec fn config_updated(d: DerivativeData, u: DerivativeDataConfigUpdate) -> DerivativeData {
    DerivativeData {
        underlying_key: match u.underlying_key {
            Some(k) => k,
            None => d.underlying_key,
        },
        rate: DerivativeRate {
            timeout: match u.rate_timeout {
                Some(t) => t,
                None => d.rate.timeout,
            },
            ..d.rate
        },
        ..d
    }
}

/// `m` with each update applied in order.
pub open spec fn update_all_configs(m: Map<Seq<char>, DerivativeData>, updates: Seq<(String, DerivativeDataConfigUpdate)>) -> Map<Seq<char>, DerivativeData>
    decreases updates.len(),
{
    if updates.len() == 0 {
        m
    } else {
        let prev = update_all_configs(m, updates.drop_last());
        let (k, u) = updates.last();
        prev.insert(k@, config_updated(prev[k@], u))
    }
}

/// The update at `k` is the first one that names no stored key.
pub open spec fn first_unknown_update(m: Map<Seq<char>, DerivativeData>, updates: Seq<(String, DerivativeDataConfigUpdate)>, k: int) -> bool {
    &&& 0 <= k < updates.len()
    &&& !m.dom().contains(updates[k].0@)
    &&& forall|j: int| 0 <= j < k ==> m.dom().contains((#[trigger] updates[j]).0@)
}

/// Every update names a stored key.
pub open spec fn all_updates_known(m: Map<Seq<char>, DerivativeData>, updates: Seq<(String, DerivativeDataConfigUpdate)>) -> bool {
    forall|i: int| 0 <= i < updates.len() ==> m.dom().contains((#[trigger] updates[i]).0@)
}

/// The data after a pushed rate at time `now`.
pub open spec fn rate_updated(d: DerivativeData, rate: Decimal256, now: u64) -> DerivativeData {
    DerivativeData { rate: DerivativeRate { last_updated: now, value: rate, ..d.rate }, ..d }
}

/// Whether one pushed rate passes against the stored data `m`: its key is
/// stored and the rate is within the allowed change of the stored rate.
pub open spec fn rate_step_passes(m: Map<Seq<char>, DerivativeData>, k: Seq<char>, rate: Decimal256) -> bool {
    m.dom().contains(k) && GeneralMath::within_precision(rate@, m[k].rate.value@, m[k].rate.max_change@)
}

/// The stored data after pushing the rates in order, or the position of the
/// first rate that does not pass.
pub open spec fn push_rates(m: Map<Seq<char>, DerivativeData>, now: u64, rates: Seq<(String, Decimal256)>) -> Result<Map<Seq<char>, DerivativeData>, nat>
    decreases rates.len(),
{
    if rates.len() == 0 {
        Ok(m)
    } else {
        match push_rates(m, now, rates.drop_last()) {
            Err(i) => Err(i),
            Ok(prev) => {
                let (k, rate) = rates.last();
                if rate_step_passes(prev, k@, rate) {
                    Ok(prev.insert(k@, rate_updated(prev[k@], rate, now)))
                } else {
                    Err((rates.len() - 1) as nat)
                }
            },
        }
    }
}

/// One pushed rate is taken exactly when its key is stored and the rate
/// differs from the stored (nonzero) value, up or down, by less than the
/// value times one more than the maximum change (an 18-decimal fraction);
/// it is then stored with the time of the push.
pub proof fn lemma_derivative_single_push(m: Map<Seq<char>, DerivativeData>, now: u64, key: String, rate: Decimal256)
    requires
        m.dom().contains(key@) ==> m[key@].rate.value@ > 0,
    ensures
        ({
            let r = push_rates(m, now, seq![(key, rate)]);
            let b = m[key@].rate.value@;
            let a = rate@;
            let t = m[key@].rate.max_change@;
            &&& r is Ok <==> (m.dom().contains(key@) && (if a <= b {
                (b - a) * decimal_unit() < (t + 1) * b
            } else {
                (a - b) * decimal_unit() < (t + 1) * b
            }))
            &&& r matches Ok(m1) ==> m1[key@].rate.value == rate && m1[key@].rate.last_updated == now
        }),
{
    let rates = seq![(key, rate)];
    assert(rates.drop_last() =~= Seq::<(String, Decimal256)>::empty());
    assert(rates.last() == (key, rate));
    assert(push_rates(m, now, rates.drop_last()) == Ok::<Map<Seq<char>, DerivativeData>, nat>(m));
    assert(rates.len() == 1);
    if m.dom().contains(key@) {
        crate::common::math::lemma_within_precision_meaning(rate@, m[key@].rate.value@, m[key@].rate.max_change@);
    }
}

/// The relative change of a pushed rate can be measured at every step that
/// is reached: where the stored rate is zero the pushed one is zero too, and
/// the relative change fits.
pub open spec fn push_rates_computable(m: Map<Seq<char>, DerivativeData>, now: u64, rates: Seq<(String, Decimal256)>) -> bool
    decreases rates.len(),
{
    if rates.len() == 0 {
        true
    } else {
        push_rates_computable(m, now, rates.drop_last()) && match push_rates(m, now, rates.drop_last()) {
            Err(_) => true,
            Ok(prev) => {
                let (k, rate) = rates.last();
                prev.dom().contains(k@) ==> {
                    let b = prev[k@].rate.value@;
                    &&& b == 0 ==> rate@ == 0
                    &&& b != 0 ==> abs_diff_spec(rate@, b) * decimal_unit() / b < u256_limit()
                }
            },
        }
    }
}

/// The error that the pushed rate `rate` for `k` gives against `m`.
pub open spec fn push_rate_error(m: Map<Seq<char>, DerivativeData>, k: Seq<char>, rate: Decimal256, e: StdError) -> bool {
    if !m.dom().contains(k) {
        e is NotFound
    } else {
        e matches StdError::NotWithinPrecision { value, tolerance, expected, deviation } && value@ == rate@
            && tolerance@ == m[k].rate.max_change@ && expected@ == m[k].rate.value@ && deviation@
            == abs_diff_spec(rate@, m[k].rate.value@) * decimal_unit() / m[k].rate.value@
    }
}

pub(crate) proof fn lemma_take_last<A>(s: Seq<A>, i: int)
    requires
        0 <= i < s.len(),
    ensures
        s.take(i + 1).drop_last() == s.take(i),
        s.take(i + 1).last() == s[i],
{
    assert(s.take(i + 1).drop_last() =~= s.take(i));
}

/// What the oracle keeps in storage: the data of each derivative and the
/// supported keys.
pub struct DerivativesStore {
    pub derivatives: StrMap<DerivativeData>,
    pub supported_keys: StrSet,
}

pub fn not_found_derivative() -> (e: StdError)
    ensures
        e matches StdError::NotFound { kind } && kind@ == "DerivativeData"@,
{
    StdError::NotFound { kind: String::from_str("DerivativeData") }
}

pub struct BotStakingDerivativesOracle {
    pub config: CommonConfig,
}

impl BotStakingDerivativesOracle {
    /// Stores the data of each raw entry, created at `now`, and supports its
    /// key. A zero initial rate refuses the whole batch.
    pub fn set_derivatives(&self, store: &mut DerivativesStore, now: u64, derivatives: Vec<RawDerivativeData>) -> (r: StdResult<()>)
        ensures
            r is Ok <==> all_rates_nonzero(derivatives@),
            r is Ok ==> final(store).derivatives.view() == set_all_data(old(store).derivatives.view(), derivatives@, now)
                && final(store).supported_keys.view() == old(store).supported_keys.view().union(raw_keys(derivatives@)),
            r is Err ==> final(store).derivatives.view() == old(store).derivatives.view()
                && final(store).supported_keys.view() == old(store).supported_keys.view(),
            r matches Err(e) ==> zero_rate_error(e),
    {
        let mut j: usize = 0;
        while j < derivatives.len()
            invariant
                j <= derivatives@.len(),
                forall|i: int| 0 <= i < j ==> (#[trigger] derivatives@[i]).initial_rate@ != 0,
            decreases derivatives@.len() - j,
        {
            if derivatives[j].initial_rate.is_zero() {
                return Err(zero_rate_err());
            }
            j = j + 1;
        }
        let ghost m0 = store.derivatives.view();
        let ghost s0 = store.supported_keys.view();
        let mut i: usize = 0;
        proof {
            assert(derivatives@.take(0) =~= Seq::<RawDerivativeData>::empty());
            assert(s0.union(raw_keys(derivatives@.take(0))) =~= s0);
        }
        while i < derivatives.len()
            invariant
                i <= derivatives@.len(),
                all_rates_nonzero(derivatives@),
                store.derivatives.view() == set_all_data(m0, derivatives@.take(i as int), now),
                store.supported_keys.view() == s0.union(raw_keys(derivatives@.take(i as int))),
            decreases derivatives@.len() - i,
        {
            let raw = &derivatives[i];
            let data = DerivativeData::new(
                raw.key.clone(),
                raw.underlying_key.clone(),
                raw.initial_rate,
                raw.rate_max_change,
                raw.rate_timeout,
                now,
            ).unwrap();
            proof {
                lemma_take_last(derivatives@, i as int);
                let t = derivatives@.take(i + 1);
                assert forall|k: Seq<char>| #[trigger] raw_keys(t).contains(k) <==> raw_keys(derivatives@.take(i as int)).insert(raw.key@).contains(k) by {
                    if raw_keys(t).contains(k) {
                        let w = choose|w: int| 0 <= w < t.len() && #[trigger] t[w].key@ == k;
                        if w < i {
                            assert(derivatives@.take(i as int)[w].key@ == k);
                        }
                    }
                    if raw_keys(derivatives@.take(i as int)).contains(k) {
                        let w = choose|w: int| 0 <= w < i && #[trigger] derivatives@.take(i as int)[w].key@ == k;
                        assert(t[w].key@ == k);
                    }
                    if k == raw.key@ {
                        assert(t[i as int].key@ == k);
                    }
                }
                assert(raw_keys(t) =~= raw_keys(derivatives@.take(i as int)).insert(raw.key@));
            }
            let key = data.key.clone();
            let _ = CommonConfig::add_supported_key(&mut store.supported_keys, &key);
            store.derivatives.insert(key, data);
            proof {
                assert(store.supported_keys.view() =~= s0.union(raw_keys(derivatives@.take(i + 1))));
            }
            i = i + 1;
        }
        proof {
            assert(derivatives@.take(derivatives@.len() as int) =~= derivatives@);
        }
        Ok(())
    }

    /// Drops the supported keys among `keys` and their data.
    pub fn remove_keys(store: &mut DerivativesStore, keys: Vec<String>) -> (r: StdResult<()>)
        ensures
            r is Ok,
            final(store).supported_keys.view() == old(store).supported_keys.view().difference(set_of(keys@)),
            final(store).derivatives.view() == old(store).derivatives.view().remove_keys(
                set_of(keys@).intersect(old(store).supported_keys.view()),
            ),
    {
        let ghost m0 = store.derivatives.view();
        let ghost s0 = store.supported_keys.view();
        let mut i: usize = 0;
        proof {
            assert(set_of(keys@.take(0)) =~= Set::<Seq<char>>::empty());
            assert(s0.difference(set_of(keys@.take(0))) =~= s0);
            assert(m0.remove_keys(set_of(keys@.take(0)).intersect(s0)) =~= m0);
        }
        while i < keys.len()
            invariant
                i <= keys@.len(),
                store.supported_keys.view() == s0.difference(set_of(keys@.take(i as int))),
                store.derivatives.view() == m0.remove_keys(set_of(keys@.take(i as int)).intersect(s0)),
            decreases keys@.len() - i,
        {
            proof {
                crate::interfaces::router::registry::lemma_set_of_take(keys@, i as int);
            }
            if store.supported_keys.remove(&keys[i]) {
                let _ = store.derivatives.remove(&keys[i]);
            }
            assert(store.supported_keys.view() =~= s0.difference(set_of(keys@.take(i + 1))));
            assert(store.derivatives.view() =~= m0.remove_keys(set_of(keys@.take(i + 1)).intersect(s0)));
            i = i + 1;
        }
        proof {
            assert(keys@.take(keys@.len() as int) =~= keys@);
        }
        Ok(())
    }

    /// The stored data of `key`.
    pub fn get_derivative_data_resp(key: &String, store: &DerivativesStore) -> (r: StdResult<DerivativeData>)
        ensures
            r is Ok <==> store.derivatives.view().dom().contains(key@),
            r matches Ok(d) ==> d == store.derivatives.view()[key@],
            r matches Err(e) ==> e is NotFound,
    {
        match store.derivatives.get(key) {
            Some(d) => Ok(d.duplicate()),
            None => Err(not_found_derivative()),
        }
    }

    /// Applies each configuration update to the stored data of its key. A
    /// key without data refuses the whole batch.
    pub fn update_derivatives(&self, store: &mut DerivativesStore, updates: Vec<(String, DerivativeDataConfigUpdate)>) -> (r: StdResult<()>)
        ensures
            r is Ok <==> all_updates_known(old(store).derivatives.view(), updates@),
            r is Ok ==> final(store).derivatives.view() == update_all_configs(old(store).derivatives.view(), updates@),
            r is Err ==> exists|k: int| #[trigger] first_unknown_update(old(store).derivatives.view(), updates@, k)
                && final(store).derivatives.view() == update_all_configs(old(store).derivatives.view(), updates@.take(k)),
            r matches Err(e) ==> e is NotFound,
            final(store).supported_keys.view() == old(store).supported_keys.view(),
    {
        let ghost m0 = store.derivatives.view();
        let mut i: usize = 0;
        proof {
            assert(updates@.take(0) =~= Seq::<(String, DerivativeDataConfigUpdate)>::empty());
        }
        while i < updates.len()
            invariant
                i <= updates@.len(),
                m0 == old(store).derivatives.view(),
                forall|j: int| 0 <= j < i ==> m0.dom().contains((#[trigger] updates@[j]).0@),
                store.derivatives.view() == update_all_configs(m0, updates@.take(i as int)),
                store.derivatives.view().dom() == m0.dom(),
                store.supported_keys.view() == old(store).supported_keys.view(),
            decreases updates@.len() - i,
        {
            proof {
                lemma_take_last(updates@, i as int);
            }
            let key = &updates[i].0;
            let update = &updates[i].1;
            if !store.derivatives.contains_key(key) {
                proof {
                    assert(first_unknown_update(m0, updates@, i as int));
                }
                return Err(not_found_derivative());
            }
            let mut data = store.derivatives.get(key).unwrap().duplicate();
            match &update.underlying_key {
                Some(underlying_key) => {
                    data.underlying_key = underlying_key.clone();
                },
                None => {},
            }
            match update.rate_timeout {
                Some(rate_timeout) => {
                    data.rate.timeout = rate_timeout;
                },
                None => {},
            }
            store.derivatives.insert(key.clone(), data);
            proof {
                assert(store.derivatives.view().dom() =~= m0.dom());
            }
            i = i + 1;
        }
        proof {
            assert(updates@.take(updates@.len() as int) =~= updates@);
        }
        Ok(())
    }

    /// Pushes each rate, at time `now`, after checking it against the stored
    /// rate of its key and that rate's allowed change. The first rate that
    /// fails refuses the batch; the caller then drops the changed state.
    pub fn update_rates(store: &mut DerivativesStore, now: u64, rates: Vec<(String, Decimal256)>) -> (r: StdResult<()>)
        requires
            push_rates_computable(old(store).derivatives.view(), now, rates@),
        ensures
            r is Ok <==> push_rates(old(store).derivatives.view(), now, rates@) is Ok,
            r is Ok ==> final(store).derivatives.view() == push_rates(old(store).derivatives.view(), now, rates@)->Ok_0,
            r matches Err(e) ==> {
                let i = push_rates(old(store).derivatives.view(), now, rates@)->Err_0;
                &&& i < rates@.len()
                &&& push_rates(old(store).derivatives.view(), now, rates@.take(i as int)) is Ok
                &&& final(store).derivatives.view() == push_rates(old(store).derivatives.view(), now, rates@.take(i as int))->Ok_0
                &&& push_rate_error(
                    push_rates(old(store).derivatives.view(), now, rates@.take(i as int))->Ok_0,
                    rates@[i as int].0@,
                    rates@[i as int].1,
                    e,
                )
            },
            final(store).supported_keys.view() == old(store).supported_keys.view(),
    {
        let ghost m0 = store.derivatives.view();
        let mut i: usize = 0;
        proof {
            assert(rates@.take(0) =~= Seq::<(String, Decimal256)>::empty());
        }
        while i < rates.len()
            invariant
                i <= rates@.len(),
                m0 == old(store).derivatives.view(),
                push_rates_computable(m0, now, rates@),
                push_rates(m0, now, rates@.take(i as int)) == Ok::<Map<Seq<char>, DerivativeData>, nat>(store.derivatives.view()),
                store.supported_keys.view() == old(store).supported_keys.view(),
            decreases rates@.len() - i,
        {
            proof {
                lemma_take_last(rates@, i as int);
                lemma_push_rates_prefix(m0, now, rates@, i as int + 1);
            }
            let key = &rates[i].0;
            let rate = rates[i].1;
            let mut data = match store.derivatives.get(key) {
                Some(d) => d.duplicate(),
                None => {
                    proof {
                        lemma_push_rates_fails_at(m0, now, rates@, i as int);
                    }
                    return Err(not_found_derivative());
                },
            };
            let checked = GeneralMath::require_within_precision(
                &rate.atomics(),
                &data.rate.value.atomics(),
                &data.rate.max_change.atomics(),
            );
            match checked {
                Err(e) => {
                    proof {
                        lemma_push_rates_fails_at(m0, now, rates@, i as int);
                    }
                    return Err(e);
                },
                Ok(()) => {},
            }
            data.rate.last_updated = now;
            data.rate.value = rate;
            store.derivatives.insert(key.clone(), data);
            i = i + 1;
        }
        proof {
            assert(rates@.take(rates@.len() as int) =~= rates@);
        }
        Ok(())
    }
}

/// After a successful push, each key holds the last rate pushed for it,
/// updated at the time of the push.
pub proof fn lemma_pushed_derivative_rates_read_back(m: Map<Seq<char>, DerivativeData>, now: u64, rates: Seq<(String, Decimal256)>, i: int)
    requires
        push_rates(m, now, rates) is Ok,
        0 <= i < rates.len(),
        forall|j: int| i < j < rates.len() ==> (#[trigger] rates[j]).0@ != rates[i].0@,
    ensures
        push_rates(m, now, rates)->Ok_0.dom().contains(rates[i].0@),
        push_rates(m, now, rates)->Ok_0[rates[i].0@].rate.value == rates[i].1,
        push_rates(m, now, rates)->Ok_0[rates[i].0@].rate.last_updated == now,
    decreases rates.len(),
{
    let n = rates.len() - 1;
    if i < n {
        let d = rates.drop_last();
        assert forall|j: int| i < j < d.len() implies (#[trigger] d[j]).0@ != d[i].0@ by {
            assert(d[j] == rates[j]);
        }
        lemma_pushed_derivative_rates_read_back(m, now, d, i);
        assert(rates[n].0@ != rates[i].0@);
    }
}

/// The computability of pushing the rates carries over to each prefix.
proof fn lemma_push_rates_prefix(m: Map<Seq<char>, DerivativeData>, now: u64, rates: Seq<(String, Decimal256)>, n: int)
    requires
        0 <= n <= rates.len(),
        push_rates_computable(m, now, rates),
    ensures
        push_rates_computable(m, now, rates.take(n)),
    decreases rates.len(),
{
    if n < rates.len() {
        assert(rates.drop_last().take(n) =~= rates.take(n));
        lemma_push_rates_prefix(m, now, rates.drop_last(), n);
    } else {
        assert(rates.take(n) =~= rates);
    }
}

/// Where pushing the first `i` rates succeeds and the next fails, pushing
/// all of them fails at position `i`.
proof fn lemma_push_rates_fails_at(m: Map<Seq<char>, DerivativeData>, now: u64, rates: Seq<(String, Decimal256)>, i: int)
    requires
        0 <= i < rates.len(),
        push_rates(m, now, rates.take(i)) is Ok,
        !rate_step_passes(push_rates(m, now, rates.take(i))->Ok_0, rates[i].0@, rates[i].1),
    ensures
        push_rates(m, now, rates) == Err::<Map<Seq<char>, DerivativeData>, nat>(i as nat),
    decreases rates.len(),
{
    if i == rates.len() - 1 {
        assert(rates.drop_last() =~= rates.take(i));
    } else {
        assert(rates.drop_last().take(i) =~= rates.take(i));
        lemma_push_rates_fails_at(m, now, rates.drop_last(), i);
    }
}

/// The last price of the list for `key`, if any.
pub open spec fn last_price_for(prices: Seq<OraclePrice>, key: Seq<char>) -> Option<OraclePrice>
    decreases prices.len(),
{
    if prices.len() == 0 {
        None
    } else if prices.last().key@ == key {
        Some(prices.last())
    } else {
        last_price_for(prices.drop_last(), key)
    }
}

/// The rate is fresh at `now`.
pub open spec fn rate_is_fresh(d: DerivativeData, now: u64) -> bool {
    now - d.rate.last_updated <= d.rate.timeout
}

/// `out` is the price that the data gives: the rate itself where the key
/// asks for the rate, else the rate times the underlying price, with the
/// underlying price's update times.
pub open spec fn price_from_data(d: DerivativeData, underlying: Option<OraclePrice>, out: ReferenceData) -> bool {
    match underlying {
        None => out.rate@ == d.rate.value@ && out.last_updated_base == d.rate.last_updated
            && out.last_updated_quote == d.rate.last_updated,
        Some(p) => out.rate@ == p.data.rate@ * d.rate.value@ / decimal_unit() && out.last_updated_base
            == p.data.last_updated_base && out.last_updated_quote == p.data.last_updated_quote,
    }
}

/// The price of a derivative can be computed at `now`: the rate is not
/// dated after `now`, and the product with the underlying price fits.
pub open spec fn price_computable(d: DerivativeData, underlying: Option<OraclePrice>, now: u64) -> bool {
    &&& d.rate.last_updated <= now
    &&& underlying matches Some(p) ==> p.data.rate@ * d.rate.value@ / decimal_unit() < u256_limit()
}

/// The underlying price that the key needs: none for a rate key, else the
/// last of `prices` for the underlying key.
pub open spec fn needed_underlying(m: Map<Seq<char>, DerivativeData>, key: Seq<char>, prices: Seq<OraclePrice>) -> Option<OraclePrice> {
    if has_rate_suffix(key) {
        None
    } else {
        last_price_for(prices, m[strip_rate(key)].underlying_key@)
    }
}

/// Every key's data is stored and each key that is not a rate key has a
/// price for its underlying key among `prices`.
pub open spec fn prices_available(m: Map<Seq<char>, DerivativeData>, keys: Seq<String>, prices: Seq<OraclePrice>) -> bool {
    forall|i: int| 0 <= i < keys.len() ==> {
        &&& m.dom().contains(strip_rate((#[trigger] keys[i])@))
        &&& !has_rate_suffix(keys[i]@) ==> last_price_for(prices, m[strip_rate(keys[i]@)].underlying_key@) is Some
    }
}

/// The underlying keys that the keys that are not rate keys need.
pub open spec fn needed_keys(m: Map<Seq<char>, DerivativeData>, keys: Seq<String>) -> Set<Seq<char>> {
    Set::new(|u: Seq<char>| exists|i: int| 0 <= i < keys.len() && !has_rate_suffix((#[trigger] keys[i])@)
        && m[strip_rate(keys[i]@)].underlying_key@ == u)
}

/// The router keys that `keys` need, each once, in the order in which they
/// are first needed: the underlying key of each key that is not a rate key.
pub open spec fn needed_keys_in_order(m: Map<Seq<char>, DerivativeData>, keys: Seq<String>) -> Seq<Seq<char>>
    decreases keys.len(),
{
    if keys.len() == 0 {
        Seq::empty()
    } else {
        let prev = needed_keys_in_order(m, keys.drop_last());
        let k = keys.last()@;
        if has_rate_suffix(k) || prev.contains(m[strip_rate(k)].underlying_key@) {
            prev
        } else {
            prev.push(m[strip_rate(k)].underlying_key@)
        }
    }
}

/// The needed keys of one more key.
proof fn lemma_needed_keys_step(m: Map<Seq<char>, DerivativeData>, keys: Seq<String>, i: int)
    requires
        0 <= i < keys.len(),
    ensures
        needed_keys(m, keys.take(i + 1)) == if has_rate_suffix(keys[i]@) {
            needed_keys(m, keys.take(i))
        } else {
            needed_keys(m, keys.take(i)).insert(m[strip_rate(keys[i]@)].underlying_key@)
        },
{
    let a = keys.take(i + 1);
    let b = keys.take(i);
    assert forall|j: int| 0 <= j < i implies #[trigger] a[j] == b[j] by {}
    assert(a[i] == keys[i]);
    let target = if has_rate_suffix(keys[i]@) {
        needed_keys(m, b)
    } else {
        needed_keys(m, b).insert(m[strip_rate(keys[i]@)].underlying_key@)
    };
    assert forall|u: Seq<char>| #[trigger] needed_keys(m, a).contains(u) <==> target.contains(u) by {
        if needed_keys(m, a).contains(u) {
            let j = choose|j: int| 0 <= j < a.len() && !has_rate_suffix((#[trigger] a[j])@)
                && m[strip_rate(a[j]@)].underlying_key@ == u;
            if j < i {
                assert(b[j] == a[j]);
            }
        }
        if needed_keys(m, b).contains(u) {
            let j = choose|j: int| 0 <= j < b.len() && !has_rate_suffix((#[trigger] b[j])@)
                && m[strip_rate(b[j]@)].underlying_key@ == u;
            assert(a[j] == b[j]);
        }
    }
    assert(needed_keys(m, a) =~= target);
}

/// Finds the last price for `key`.
fn find_last_price<'a>(prices: &'a Vec<OraclePrice>, key: &String) -> (r: Option<&'a OraclePrice>)
    ensures
        r matches Some(p) ==> last_price_for(prices@, key@) == Some(*p),
        r is None ==> last_price_for(prices@, key@) is None,
{
    let mut i: usize = prices.len();
    proof {
        assert(prices@.take(prices@.len() as int) =~= prices@);
    }
    while i > 0
        invariant
            i <= prices@.len(),
            last_price_for(prices@, key@) == last_price_for(prices@.take(i as int), key@),
        decreases i,
    {
        proof {
            assert(prices@.take(i as int).drop_last() =~= prices@.take(i - 1));
        }
        if prices[i - 1].key == *key {
            return Some(&prices[i - 1]);
        }
        i = i - 1;
    }
    None
}

impl BotStakingDerivativesOracle {
    /// A new enabled oracle for the (validated) router, with nothing stored.
    pub fn instantiate(router: Contract) -> (r: (Self, DerivativesStore))
        ensures
            r.0.config.router == router,
            r.0.config.enabled,
            r.1.derivatives.view().is_empty(),
            r.1.supported_keys.view().is_empty(),
    {
        let (config, supported_keys) = CommonConfig::init(router);
        (BotStakingDerivativesOracle { config }, DerivativesStore { derivatives: StrMap::new(), supported_keys })
    }

    /// The key that asks for the rate of `key`.
    pub fn create_rate_key(key: &str) -> (r: String)
        ensures
            r@ == key@ + " Rate"@,
    {
        rate_key(key)
    }

    /// Whether `key` asks for the rate, and the key with the trailing
    /// " Rate" removed.
    pub fn process_key(key: &str) -> (r: (bool, String))
        ensures
            r.0 == has_rate_suffix(key@),
            r.1@ == strip_rate(key@),
    {
        process_rate_key(key)
    }

    /// The stored data of every supported key, in the order of the list.
    pub fn get_supported_derivatives(store: &DerivativesStore) -> (r: StdResult<DerivativesResponse>)
        ensures
            r is Ok <==> store.supported_keys.view().subset_of(store.derivatives.view().dom()),
            r matches Ok(v) ==> v@.len() == store.supported_keys.key_seq().len() && forall|i: int|
                0 <= i < v@.len() ==> #[trigger] v@[i] == store.derivatives.view()[store.supported_keys.key_seq()[i]],
            r matches Err(e) ==> e is NotFound,
    {
        let n = store.supported_keys.len();
        let mut out: Vec<DerivativeData> = Vec::new();
        let mut i: usize = 0;
        while i < n
            invariant
                i <= n,
                n == store.supported_keys.key_seq().len(),
                forall|k: Seq<char>| store.supported_keys.key_seq().contains(k)
                    <==> #[trigger] store.supported_keys.view().contains(k),
                out@.len() == i,
                forall|j: int| 0 <= j < i ==> #[trigger] out@[j] == store.derivatives.view()[store.supported_keys.key_seq()[j]],
                forall|j: int| 0 <= j < i ==> store.derivatives.view().dom().contains(
                    #[trigger] store.supported_keys.key_seq()[j],
                ),
            decreases n - i,
        {
            let key = store.supported_keys.key_at(i);
            match Self::get_derivative_data_resp(key, store) {
                Ok(d) => out.push(d),
                Err(e) => {
                    proof {
                        assert(store.supported_keys.view().contains(key@));
                    }
                    return Err(e);
                },
            }
            i = i + 1;
        }
        proof {
            assert forall|k: Seq<char>| store.supported_keys.view().contains(k) implies store.derivatives.view().dom().contains(k) by {
                assert(store.supported_keys.key_seq().contains(k));
                let j = choose|j: int| 0 <= j < store.supported_keys.key_seq().len() && store.supported_keys.key_seq()[j] == k;
                assert(store.derivatives.view().dom().contains(store.supported_keys.key_seq()[j]));
            }
        }
        Ok(out)
    }

    /// If price of underlying is provided, assume we want the price of the derivative, else
    /// assume we want the derivative rate itself.
    pub fn calculate_price(now: u64, data: &DerivativeData, underlying_price: Option<&OraclePrice>) -> (r: StdResult<ReferenceData>)
        requires
            price_computable(*data, match underlying_price {
                Some(p) => Some(*p),
                None => None,
            }, now),
        ensures
            r is Ok <==> rate_is_fresh(*data, now),
            r matches Ok(out) ==> price_from_data(*data, match underlying_price {
                Some(p) => Some(*p),
                None => None,
            }, out),
            r matches Err(e) ==> e == (StdError::StaleRate { last_updated: data.rate.last_updated, now }),
    {
        data.rate.require_fresh(now)?;
        match underlying_price {
            Some(price) => {
                let rate = data.rate.value.mul_uint(&price.data().rate);
                Ok(ReferenceData::new(rate, price.data().last_updated_base, price.data().last_updated_quote))
            },
            None => Ok(ReferenceData::new(
                data.rate.value.atomics(),
                data.rate.last_updated,
                data.rate.last_updated,
            )),
        }
    }

    /// The router key whose price `key` needs: none for a rate key, else the
    /// underlying key of its derivative.
    pub fn underlying_key_of(store: &DerivativesStore, key: &String) -> (r: StdResult<Option<String>>)
        ensures
            r is Ok <==> store.derivatives.view().dom().contains(strip_rate(key@)),
            r matches Ok(u) ==> (has_rate_suffix(key@) ==> u is None) && (!has_rate_suffix(key@) ==> (u
                matches Some(s) && s == store.derivatives.view()[strip_rate(key@)].underlying_key)),
            r matches Err(e) ==> e is NotFound,
    {
        let (is_rate, k) = Self::process_key(key.as_str());
        let stored = Self::get_derivative_data_resp(&k, store)?;
        if is_rate {
            Ok(None)
        } else {
            Ok(Some(stored.underlying_key))
        }
    }

    /// The price of `key`, given the router's price of its underlying key
    /// where it needs one.
    pub fn query_price(&self, store: &DerivativesStore, now: u64, key: String, underlying_price: Option<&OraclePrice>) -> (r: StdResult<OraclePrice>)
        requires
            store.derivatives.view().dom().contains(strip_rate(key@)) ==> price_computable(
                store.derivatives.view()[strip_rate(key@)],
                if has_rate_suffix(key@) {
                    None
                } else {
                    match underlying_price {
                        Some(p) => Some(*p),
                        None => None,
                    }
                },
                now,
            ),
            store.derivatives.view().dom().contains(strip_rate(key@)) && !has_rate_suffix(key@)
                ==> underlying_price is Some,
        ensures
            r is Ok <==> store.derivatives.view().dom().contains(strip_rate(key@)) && rate_is_fresh(
                store.derivatives.view()[strip_rate(key@)],
                now,
            ),
            r matches Ok(p) ==> p.key == key && price_from_data(
                store.derivatives.view()[strip_rate(key@)],
                if has_rate_suffix(key@) {
                    None
                } else {
                    match underlying_price {
                        Some(p) => Some(*p),
                        None => None,
                    }
                },
                p.data,
            ),
            r matches Err(e) ==> (!store.derivatives.view().dom().contains(strip_rate(key@)) && e is NotFound)
                || e == (StdError::StaleRate {
                    last_updated: store.derivatives.view()[strip_rate(key@)].rate.last_updated,
                    now,
                }),
    {
        let (is_rate, k) = Self::process_key(key.as_str());
        let stored_data = Self::get_derivative_data_resp(&k, store)?;
        let underlying = if is_rate {
            None
        } else {
            underlying_price
        };
        let data = Self::calculate_price(now, &stored_data, underlying)?;
        Ok(OraclePrice::new(key, data))
    }

    /// The router keys whose prices `keys` need, each once, in the order in
    /// which they are first needed. A key without stored data fails with the
    /// first such key.
    pub fn underlying_keys(store: &DerivativesStore, keys: &Vec<String>) -> (r: StdResult<Vec<String>>)
        ensures
            r is Ok <==> forall|i: int| 0 <= i < keys@.len() ==> store.derivatives.view().dom().contains(
                strip_rate((#[trigger] keys@[i])@),
            ),
            r matches Ok(out) ==> crate::collections::strings_view(out@).no_duplicates() && set_of(out@)
                == needed_keys(store.derivatives.view(), keys@) && crate::collections::strings_view(out@)
                == needed_keys_in_order(store.derivatives.view(), keys@),
            r matches Err(e) ==> e is NotFound,
    {
        let ghost m = store.derivatives.view();
        let mut out: Vec<String> = Vec::new();
        let mut i: usize = 0;
        proof {
            assert(set_of(out@) =~= needed_keys(m, keys@.take(0)));
        }
        while i < keys.len()
            invariant
                i <= keys@.len(),
                m == store.derivatives.view(),
                forall|j: int| 0 <= j < i ==> m.dom().contains(strip_rate((#[trigger] keys@[j])@)),
                crate::collections::strings_view(out@).no_duplicates(),
                set_of(out@) == needed_keys(m, keys@.take(i as int)),
                crate::collections::strings_view(out@) == needed_keys_in_order(m, keys@.take(i as int)),
            decreases keys@.len() - i,
        {
            let ghost before = out@;
            let u = Self::underlying_key_of(store, &keys[i])?;
            proof {
                lemma_needed_keys_step(m, keys@, i as int);
                lemma_take_last(keys@, i as int);
            }
            match u {
                Some(underlying) => {
                    if !crate::collections::contains_string(&out, &underlying) {
                        out.push(underlying);
                        proof {
                            let sv = crate::collections::strings_view(out@);
                            let bv = crate::collections::strings_view(before);
                            assert(sv =~= bv.push(underlying@));
                            assert forall|k: Seq<char>| #[trigger] set_of(out@).contains(k) <==> set_of(before).insert(underlying@).contains(k) by {
                                if sv.contains(k) {
                                    let j = choose|j: int| 0 <= j < sv.len() && sv[j] == k;
                                    if j < bv.len() {
                                        assert(bv[j] == k);
                                    }
                                }
                                if bv.contains(k) {
                                    let j = choose|j: int| 0 <= j < bv.len() && bv[j] == k;
                                    assert(sv[j] == k);
                                }
                                if k == underlying@ {
                                    assert(sv[bv.len() as int] == k);
                                }
                            }
                            assert(set_of(out@) =~= set_of(before).insert(underlying@));
                        }
                    } else {
                        proof {
                            assert(set_of(before).contains(underlying@));
                            assert(set_of(before).insert(underlying@) =~= set_of(before));
                        }
                    }
                },
                None => {},
            }
            i = i + 1;
        }
        proof {
            assert(keys@.take(keys@.len() as int) =~= keys@);
        }
        Ok(out)
    }

}

/// Each key followed by its rate key.
pub open spec fn with_rate_keys(keys: Seq<Seq<char>>) -> Seq<Seq<char>>
    decreases keys.len(),
{
    if keys.len() == 0 {
        Seq::empty()
    } else {
        with_rate_keys(keys.drop_last()).push(keys.last()).push(keys.last() + " Rate"@)
    }
}

/// The two stores hold the same data and keys.
pub open spec fn same_store(a: DerivativesStore, b: DerivativesStore) -> bool {
    a.derivatives.view() == b.derivatives.view() && a.supported_keys.view() == b.supported_keys.view()
}

/// Every key's price can be computed at `now` from the given underlying
/// prices.
pub open spec fn prices_computable(m: Map<Seq<char>, DerivativeData>, keys: Seq<String>, prices: Seq<OraclePrice>, now: u64) -> bool {
    forall|i: int| 0 <= i < keys.len() ==> price_computable(
        m[strip_rate((#[trigger] keys[i])@)],
        needed_underlying(m, keys[i]@, prices),
        now,
    )
}

/// The action recorded for an execute message: the prefix and the name.
pub fn action_name(prefix: &str, name: &str) -> (r: String)
    ensures
        r@ == prefix@ + name@,
{
    String::from_str(prefix).concat(name)
}

impl BotStakingDerivativesOracle {
    /// The prices of `keys`, in their order, given the router's prices of
    /// the underlying keys that `underlying_keys` listed for them. The first
    /// stale rate fails.
    pub fn query_prices(&self, store: &DerivativesStore, now: u64, keys: &Vec<String>, underlying_prices: &Vec<OraclePrice>) -> (r: StdResult<Vec<OraclePrice>>)
        requires
            prices_available(store.derivatives.view(), keys@, underlying_prices@),
            prices_computable(store.derivatives.view(), keys@, underlying_prices@, now),
        ensures
            r is Ok <==> forall|i: int| 0 <= i < keys@.len() ==> rate_is_fresh(
                store.derivatives.view()[strip_rate((#[trigger] keys@[i])@)],
                now,
            ),
            r matches Ok(v) ==> v@.len() == keys@.len() && forall|i: int| 0 <= i < keys@.len() ==> (#[trigger] v@[i]).key
                == keys@[i] && price_from_data(
                store.derivatives.view()[strip_rate(keys@[i]@)],
                needed_underlying(store.derivatives.view(), keys@[i]@, underlying_prices@),
                v@[i].data,
            ),
            r matches Err(e) ==> exists|i: int| 0 <= i < keys@.len() && !rate_is_fresh(
                store.derivatives.view()[strip_rate((#[trigger] keys@[i])@)],
                now,
            ) && e == (StdError::StaleRate {
                last_updated: store.derivatives.view()[strip_rate(keys@[i]@)].rate.last_updated,
                now,
            }),
    {
        let ghost m = store.derivatives.view();
        let mut out: Vec<OraclePrice> = Vec::new();
        let mut i: usize = 0;
        while i < keys.len()
            invariant
                i <= keys@.len(),
                m == store.derivatives.view(),
                prices_available(m, keys@, underlying_prices@),
                prices_computable(m, keys@, underlying_prices@, now),
                out@.len() == i,
                forall|j: int| 0 <= j < i ==> rate_is_fresh(m[strip_rate((#[trigger] keys@[j])@)], now),
                forall|j: int| 0 <= j < i ==> (#[trigger] out@[j]).key == keys@[j] && price_from_data(
                    m[strip_rate(keys@[j]@)],
                    needed_underlying(m, keys@[j]@, underlying_prices@),
                    out@[j].data,
                ),
            decreases keys@.len() - i,
        {
            let key = &keys[i];
            let (is_rate, k) = Self::process_key(key.as_str());
            assert(m.dom().contains(strip_rate(keys@[i as int]@)));
            let stored_data = store.derivatives.get(&k).unwrap();
            let underlying = if is_rate {
                None
            } else {
                let found = find_last_price(underlying_prices, &stored_data.underlying_key);
                assert(found is Some);
                found
            };
            assert(price_computable(m[strip_rate(keys@[i as int]@)], needed_underlying(m, keys@[i as int]@, underlying_prices@), now));
            let data = Self::calculate_price(now, stored_data, underlying)?;
            out.push(OraclePrice::new(key.clone(), data));
            i = i + 1;
        }
        Ok(out)
    }

    /// The configuration with every supported key followed by its rate key.
    pub fn query_config(&self, store: &DerivativesStore) -> (r: StdResult<CommonConfigResponse>)
        ensures
            r matches Ok(resp) && resp.config.router == self.config.router && resp.config.enabled == self.config.enabled
                && crate::collections::strings_view(resp.supported_keys@) == with_rate_keys(store.supported_keys.key_seq()),
    {
        let n = store.supported_keys.len();
        let mut supported_keys: Vec<String> = Vec::new();
        let mut i: usize = 0;
        while i < n
            invariant
                i <= n,
                n == store.supported_keys.key_seq().len(),
                crate::collections::strings_view(supported_keys@) == with_rate_keys(store.supported_keys.key_seq().take(i as int)),
            decreases n - i,
        {
            let key = store.supported_keys.key_at(i);
            let ghost before = supported_keys@;
            supported_keys.push(key.clone());
            supported_keys.push(Self::create_rate_key(key.as_str()));
            proof {
                let ks = store.supported_keys.key_seq();
                assert(ks.take(i + 1).drop_last() =~= ks.take(i as int));
                assert(crate::collections::strings_view(supported_keys@) =~= crate::collections::strings_view(before).push(key@).push(key@ + " Rate"@));
            }
            i = i + 1;
        }
        proof {
            assert(store.supported_keys.key_seq().take(n as int) =~= store.supported_keys.key_seq());
        }
        let config = CommonConfig { router: self.config.router.duplicate(), enabled: self.config.enabled };
        Ok(CommonConfigResponse { config, supported_keys })
    }

    /// Runs an execute message. `admin` is the outcome of the check that the
    /// sender is an oracle admin and `rate_permission` that of the check that
    /// the sender may push rates; each is consulted only where the message
    /// needs it. The result is the action to record.
    pub fn execute(
        &mut self,
        store: &mut DerivativesStore,
        now: u64,
        msg: ExecuteMsg,
        admin: StdResult<()>,
        rate_permission: StdResult<()>,
        prefix: &str,
    ) -> (r: StdResult<String>)
        requires
            old(self).config.enabled && rate_permission is Ok ==> (msg matches ExecuteMsg::UpdateDerivatives(
                DerivativeUpdates::Rates(rates),
            ) ==> push_rates_computable(old(store).derivatives.view(), now, rates@)),
        ensures
            msg matches ExecuteMsg::SetStatus(status) ==> (match admin {
                Err(e) => r == Err::<String, StdError>(e) && *final(self) == *old(self),
                Ok(_) => (r matches Ok(a) && a@ == prefix@ + "set_status"@) && final(self).config.enabled == status
                    && final(self).config.router == old(self).config.router,
            }) && same_store(*final(store), *old(store)),
            !(msg is SetStatus) && !old(self).config.enabled ==> (r matches Err(e) && e.is_generic(
                "This oracle has been disabled. Only operation available is changing status."@,
            )) && same_store(*final(store), *old(store)) && *final(self) == *old(self),
            !(msg is SetStatus) && !(msg is UpdateConfig) ==> *final(self) == *old(self),
            !(msg is SetStatus) && old(self).config.enabled ==> match msg {
                ExecuteMsg::UpdateDerivatives(DerivativeUpdates::Rates(rates)) => match rate_permission {
                    Err(e) => r == Err::<String, StdError>(e) && same_store(*final(store), *old(store))
                        && *final(self) == *old(self),
                    Ok(_) => (r is Ok <==> push_rates(old(store).derivatives.view(), now, rates@) is Ok) && (r
                        is Ok ==> (r matches Ok(a) && a@ == prefix@ + "update_derivative_rates"@)
                        && final(store).derivatives.view() == push_rates(old(store).derivatives.view(), now, rates@)->Ok_0
                        && final(store).supported_keys.view() == old(store).supported_keys.view()),
                },
                _ => match admin {
                    Err(e) => r == Err::<String, StdError>(e) && same_store(*final(store), *old(store))
                        && *final(self) == *old(self),
                    Ok(_) => match msg {
                        ExecuteMsg::SetDerivatives(data) => (r is Ok <==> all_rates_nonzero(data@)) && (r is Ok
                            ==> (r matches Ok(a) && a@ == prefix@ + "set_derivatives"@)
                            && final(store).derivatives.view() == set_all_data(old(store).derivatives.view(), data@, now)
                            && final(store).supported_keys.view() == old(store).supported_keys.view().union(raw_keys(data@))),
                        ExecuteMsg::RemoveDerivatives(keys) => (r matches Ok(a) && a@ == prefix@ + "remove_derivatives"@)
                            && final(store).supported_keys.view() == old(store).supported_keys.view().difference(set_of(keys@))
                            && final(store).derivatives.view() == old(store).derivatives.view().remove_keys(
                                set_of(keys@).intersect(old(store).supported_keys.view()),
                            ),
                        ExecuteMsg::UpdateDerivatives(DerivativeUpdates::Config(configs)) => (r is Ok
                            <==> all_updates_known(old(store).derivatives.view(), configs@)) && (r is Ok ==> (r matches Ok(a)
                            && a@ == prefix@ + "update_derivative_configs"@) && final(store).derivatives.view()
                            == update_all_configs(old(store).derivatives.view(), configs@)),
                        ExecuteMsg::UpdateConfig(router) => (r matches Ok(a) && a@ == prefix@ + "router_update"@)
                            && final(self).config.router == router && final(self).config.enabled == old(self).config.enabled
                            && same_store(*final(store), *old(store)),
                        _ => true,
                    },
                },
            },
    {
        match msg {
            ExecuteMsg::SetStatus(status) => {
                admin?;
                self.config.update_config(Some(status), None)?;
                Ok(action_name(prefix, "set_status"))
            },
            ExecuteMsg::SetDerivatives(data) => {
                self.config.require_enabled()?;
                admin?;
                self.set_derivatives(store, now, data)?;
                Ok(action_name(prefix, "set_derivatives"))
            },
            ExecuteMsg::RemoveDerivatives(keys) => {
                self.config.require_enabled()?;
                admin?;
                Self::remove_keys(store, keys)?;
                Ok(action_name(prefix, "remove_derivatives"))
            },
            ExecuteMsg::UpdateDerivatives(update) => {
                self.config.require_enabled()?;
                match update {
                    DerivativeUpdates::Rates(rates) => {
                        rate_permission?;
                        Self::update_rates(store, now, rates)?;
                        Ok(action_name(prefix, "update_derivative_rates"))
                    },
                    DerivativeUpdates::Config(configs) => {
                        admin?;
                        self.update_derivatives(store, configs)?;
                        Ok(action_name(prefix, "update_derivative_configs"))
                    },
                }
            },
            ExecuteMsg::UpdateConfig(new_router) => {
                self.config.require_enabled()?;
                admin?;
                self.config.update_config(None, Some(new_router))?;
                Ok(action_name(prefix, "router_update"))
            },
        }
    }
}

} // verus!
