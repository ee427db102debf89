//! Configurable oracle that allows for an entity with X permission to push Y prices.
use vstd::prelude::*;
use vstd::string::*;
use crate::collections::{StrMap, StrSet, strings_view, contains_string};
use crate::common::{Contract, StdError, StdResult};
use crate::common::math::GeneralMath;
use crate::num::{Decimal256, u256_limit, decimal_unit, abs_diff_spec};
use crate::interfaces::common::OraclePrice;
use crate::interfaces::common::config::{CommonConfig, CommonConfigResponse};
use crate::interfaces::providers::ReferenceData;
use crate::interfaces::router::registry::{set_of, lemma_set_of_take};
use crate::interfaces::derivatives::bot::{action_name, lemma_take_last};

verus! {

pub struct RawRateData {
    /// The key for this rate.
    pub key: String,
    /// Some initial rate.
    pub initial_rate: Decimal256,
    /// When this rate should be considered stale.
    pub timeout: u64,
    /// The maximum % change allowed for this rate per update.
    pub max_change: Decimal256,
    /// Permission required to update this rate.
    pub permission: String,
}

pub struct RateData {
    pub key: String,
    pub rate: Decimal256,
    pub last_updated: u64,
    pub timeout: u64,
    pub max_change: Decimal256,
    pub permission: String,
}

pub struct RateDataConfigUpdate {
    pub timeout: Option<u64>,
    pub max_change: Option<Decimal256>,
}

impl RateDataConfigUpdate {
    pub fn new(timeout: Option<u64>, max_change: Option<Decimal256>) -> (r: Self)
        ensures
            r == (RateDataConfigUpdate { timeout, max_change }),
    {
        Self { timeout, max_change }
    }
}

pub enum RateDataUpdate {
    Rates(Vec<(String, Decimal256)>),
    Config(Vec<(String, RateDataConfigUpdate)>),
}

pub enum ExecuteMsg {
    SetRates(Vec<RawRateData>),
    RemoveRates(Vec<String>),
    /// A new router, already validated.
    UpdateConfig(Contract),
    UpdateRates(RateDataUpdate),
    SetStatus(bool),
}

pub enum QueryMsg {
    GetPrice { key: String },
    GetPrices { keys: Vec<String> },
    GetConfig {},
    GetRates {},
}

pub type RatesResponse = Vec<RateData>;

/// A stored rate.
pub struct Data {
    pub rate: Decimal256,
    pub last_updated: u64,
    pub timeout: u64,
    pub max_change: Decimal256,
    pub permission: String,
}

impl Data {
    pub fn new(value: Decimal256, timeout: u64, last_updated: u64, max_change: Decimal256, permission: String) -> (r: StdResult<Self>)
        ensures
            r is Ok <==> value@ != 0,
            r matches Ok(d) ==> d == (Data { rate: value, last_updated, timeout, max_change, permission }),
            r matches Err(e) ==> e.is_generic("Rate must be greater than 0"@),
    {
        let mut rate = Self { timeout, last_updated, max_change, rate: Decimal256::zero(), permission };
        rate.set_value(value)?;
        Ok(rate)
    }

    pub fn set_value(&mut self, value: Decimal256) -> (r: StdResult<()>)
        ensures
            r is Ok <==> value@ != 0,
            r is Ok ==> final(self).rate == value && final(self).last_updated == old(self).last_updated
                && final(self).timeout == old(self).timeout && final(self).max_change == old(self).max_change
                && final(self).permission == old(self).permission,
            r is Err ==> *final(self) == *old(self),
            r matches Err(e) ==> e.is_generic("Rate must be greater than 0"@),
    {
        if value.is_zero() {
            return Err(StdError::generic_err(String::from_str("Rate must be greater than 0")));
        };
        self.rate = value;
        Ok(())
    }

    /// Fails where the rate was last updated more than `timeout` seconds
    /// before `now`.
    pub fn require_fresh(&self, now: u64) -> (r: StdResult<()>)
        requires
            self.last_updated <= now,
        ensures
            r is Ok <==> now - self.last_updated <= self.timeout,
            r matches Err(e) ==> e == (StdError::StaleRate { last_updated: self.last_updated, now }),
    {
        if now - self.last_updated > self.timeout {
            Err(StdError::StaleRate { last_updated: self.last_updated, now })
        } else {
            Ok(())
        }
    }

    pub fn duplicate(&self) -> (r: Self)
        ensures
            r == *self,
    {
        Data {
            rate: self.rate,
            last_updated: self.last_updated,
            timeout: self.timeout,
            max_change: self.max_change,
            permission: self.permission.clone(),
        }
    }
}

impl RateData {
    pub fn new(key: String, rate: Decimal256, last_updated: u64, timeout: u64, max_change: Decimal256, permission: String) -> (r: Self)
        ensures
            r == (RateData { key, rate, last_updated, timeout, max_change, permission }),
    {
        Self { key, rate, last_updated, timeout, max_change, permission }
    }
}

/// The stored rate that a raw entry sets at time `now`.
pub open spec fn fresh_rate(raw: RawRateData, now: u64) -> Data {
    Data {
        rate: raw.initial_rate,
        last_updated: now,
        timeout: raw.timeout,
        max_change: raw.max_change,
        permission: raw.permission,
    }
}

/// `m` with the rate of each raw entry stored under its key, a later entry
/// replacing an earlier one for the same key.
pub open spec fn set_all_rates(m: Map<Seq<char>, Data>, raws: Seq<RawRateData>, now: u64) -> Map<Seq<char>, Data>
    decreases raws.len(),
{
    if raws.len() == 0 {
        m
    } else {
        set_all_rates(m, raws.drop_last(), now).insert(raws.last().key@, fresh_rate(raws.last(), now))
    }
}

/// The keys of the raw entries.
pub open spec fn raw_rate_keys(raws: Seq<RawRateData>) -> Set<Seq<char>> {
    Set::new(|k: Seq<char>| exists|i: int| 0 <= i < raws.len() && #[trigger] raws[i].key@ == k)
}

/// Every raw entry has a nonzero initial rate.
pub open spec fn all_initial_rates_nonzero(raws: Seq<RawRateData>) -> bool {
    forall|i: int| 0 <= i < raws.len() ==> (#[trigger] raws[i]).initial_rate@ != 0
}

/// The stored rate after a configuration update: a new maximum change and
/// a new timeout where given.
pub open spec fn rate_config_updated(d: Data, u: RateDataConfigUpdate) -> Data {
    Data {
        max_change: match u.max_change {
            Some(c) => c,
            None => d.max_change,
        },
        timeout: match u.timeout {
            Some(t) => t,
            None => d.timeout,
        },
        ..d
    }
}

/// `m` with each configuration update applied in order.
pub open spec fn update_all_rate_configs(m: Map<Seq<char>, Data>, updates: Seq<(String, RateDataConfigUpdate)>) -> Map<Seq<char>, Data>
    decreases updates.len(),
{
    if updates.len() == 0 {
        m
    } else {
        let prev = update_all_rate_configs(m, updates.drop_last());
        let (k, u) = updates.last();
        prev.insert(k@, rate_config_updated(prev[k@], u))
    }
}

/// The update at `k` is the first one that names no stored key.
pub open spec fn first_unknown_rate_update(m: Map<Seq<char>, Data>, updates: Seq<(String, RateDataConfigUpdate)>, k: int) -> bool {
    &&& 0 <= k < updates.len()
    &&& !m.dom().contains(updates[k].0@)
    &&& forall|j: int| 0 <= j < k ==> m.dom().contains((#[trigger] updates[j]).0@)
}

/// Every update names a stored key.
pub open spec fn all_rate_updates_known(m: Map<Seq<char>, Data>, updates: Seq<(String, RateDataConfigUpdate)>) -> bool {
    forall|i: int| 0 <= i < updates.len() ==> m.dom().contains((#[trigger] updates[i]).0@)
}

/// Whether one pushed rate passes against the stored rates `m`.
pub open spec fn bot_rate_passes(m: Map<Seq<char>, Data>, k: Seq<char>, rate: Decimal256) -> bool {
    m.dom().contains(k) && GeneralMath::within_precision(rate@, m[k].rate@, m[k].max_change@)
}

/// The stored rates after pushing the rates in order, or the position of
/// the first rate that does not pass.
pub open spec fn push_bot_rates(m: Map<Seq<char>, Data>, now: u64, rates: Seq<(String, Decimal256)>) -> Result<Map<Seq<char>, Data>, nat>
    decreases rates.len(),
{
    if rates.len() == 0 {
        Ok(m)
    } else {
        match push_bot_rates(m, now, rates.drop_last()) {
            Err(i) => Err(i),
            Ok(prev) => {
                let (k, rate) = rates.last();
                if bot_rate_passes(prev, k@, rate) {
                    Ok(prev.insert(k@, Data { rate, last_updated: now, ..prev[k@] }))
                } else {
                    Err((rates.len() - 1) as nat)
                }
            },
        }
    }
}

/// The relative change of a pushed rate can be measured at every step that
/// is reached.
pub open spec fn push_bot_rates_computable(m: Map<Seq<char>, Data>, now: u64, rates: Seq<(String, Decimal256)>) -> bool
    decreases rates.len(),
{
    if rates.len() == 0 {
        true
    } else {
        push_bot_rates_computable(m, now, rates.drop_last()) && match push_bot_rates(m, now, rates.drop_last()) {
            Err(_) => true,
            Ok(prev) => {
                let (k, rate) = rates.last();
                prev.dom().contains(k@) ==> {
                    let b = prev[k@].rate@;
                    &&& b == 0 ==> rate@ == 0
                    &&& b != 0 ==> abs_diff_spec(rate@, b) * decimal_unit() / b < u256_limit()
                }
            },
        }
    }
}

/// The error that the pushed rate `rate` for `k` gives against `m`.
pub open spec fn bot_rate_error(m: Map<Seq<char>, Data>, k: Seq<char>, rate: Decimal256, e: StdError) -> bool {
    if !m.dom().contains(k) {
        e is NotFound
    } else {
        e matches StdError::NotWithinPrecision { value, tolerance, expected, deviation } && value@ == rate@
            && tolerance@ == m[k].max_change@ && expected@ == m[k].rate@ && deviation@ == abs_diff_spec(
            rate@,
            m[k].rate@,
        ) * decimal_unit() / m[k].rate@
    }
}

/// The permissions that pushing rates for the keys of `rates` needs: those
/// of the stored rates.
pub open spec fn needed_permissions(m: Map<Seq<char>, Data>, rates: Seq<(String, Decimal256)>) -> Set<Seq<char>> {
    Set::new(|p: Seq<char>| exists|i: int| 0 <= i < rates.len() && m.dom().contains((#[trigger] rates[i]).0@)
        && m[rates[i].0@].permission@ == p)
}

/// One pushed rate is taken exactly when its key is stored and the rate
/// differs from the stored (nonzero) rate, up or down, by less than that
/// rate times one more than the maximum change (an 18-decimal fraction): a
/// fall is judged as a rise is. It is then stored with the time of the push.
pub proof fn lemma_bot_single_push(m: Map<Seq<char>, Data>, now: u64, key: String, rate: Decimal256)
    requires
        m.dom().contains(key@) ==> m[key@].rate@ > 0,
    ensures
        ({
            let r = push_bot_rates(m, now, seq![(key, rate)]);
            let b = m[key@].rate@;
            let a = rate@;
            let t = m[key@].max_change@;
            &&& r is Ok <==> (m.dom().contains(key@) && (if a <= b {
                (b - a) * decimal_unit() < (t + 1) * b
            } else {
                (a - b) * decimal_unit() < (t + 1) * b
            }))
            &&& r matches Ok(m1) ==> m1[key@].rate == rate && m1[key@].last_updated == now
        }),
{
    let rates = seq![(key, rate)];
    assert(rates.drop_last() =~= Seq::<(String, Decimal256)>::empty());
    assert(rates.last() == (key, rate));
    assert(push_bot_rates(m, now, rates.drop_last()) == Ok::<Map<Seq<char>, Data>, nat>(m));
    assert(rates.len() == 1);
    if m.dom().contains(key@) {
        crate::common::math::lemma_within_precision_meaning(rate@, m[key@].rate@, m[key@].max_change@);
    }
}

proof fn lemma_push_bot_rates_fails_at(m: Map<Seq<char>, Data>, now: u64, rates: Seq<(String, Decimal256)>, i: int)
    requires
        0 <= i < rates.len(),
        push_bot_rates(m, now, rates.take(i)) is Ok,
        !bot_rate_passes(push_bot_rates(m, now, rates.take(i))->Ok_0, rates[i].0@, rates[i].1),
    ensures
        push_bot_rates(m, now, rates) == Err::<Map<Seq<char>, Data>, nat>(i as nat),
    decreases rates.len(),
{
    if i == rates.len() - 1 {
        assert(rates.drop_last() =~= rates.take(i));
    } else {
        assert(rates.drop_last().take(i) =~= rates.take(i));
        lemma_push_bot_rates_fails_at(m, now, rates.drop_last(), i);
    }
}

/// Once a push fails, the later rates are never measured.
proof fn lemma_push_bot_rates_after_failure(m: Map<Seq<char>, Data>, now: u64, rates: Seq<(String, Decimal256)>, n: int)
    requires
        0 <= n <= rates.len(),
        push_bot_rates(m, now, rates.take(n)) is Err,
        push_bot_rates_computable(m, now, rates.take(n)),
    ensures
        push_bot_rates(m, now, rates) is Err,
        push_bot_rates_computable(m, now, rates),
    decreases rates.len(),
{
    if n < rates.len() {
        assert(rates.drop_last().take(n) =~= rates.take(n));
        lemma_push_bot_rates_after_failure(m, now, rates.drop_last(), n);
    } else {
        assert(rates.take(n) =~= rates);
    }
}

proof fn lemma_push_bot_rates_prefix(m: Map<Seq<char>, Data>, now: u64, rates: Seq<(String, Decimal256)>, n: int)
    requires
        0 <= n <= rates.len(),
        push_bot_rates_computable(m, now, rates),
    ensures
        push_bot_rates_computable(m, now, rates.take(n)),
    decreases rates.len(),
{
    if n < rates.len() {
        assert(rates.drop_last().take(n) =~= rates.take(n));
        lemma_push_bot_rates_prefix(m, now, rates.drop_last(), n);
    } else {
        assert(rates.take(n) =~= rates);
    }
}

/// Pushing rates keeps the stored keys and the permission of each rate.
proof fn lemma_push_bot_rates_keeps(m: Map<Seq<char>, Data>, now: u64, rates: Seq<(String, Decimal256)>)
    requires
        push_bot_rates(m, now, rates) is Ok,
    ensures
        push_bot_rates(m, now, rates)->Ok_0.dom() == m.dom(),
        forall|k: Seq<char>| #[trigger] m.dom().contains(k) ==> push_bot_rates(m, now, rates)->Ok_0[k].permission
            == m[k].permission,
    decreases rates.len(),
{
    if rates.len() > 0 {
        lemma_push_bot_rates_keeps(m, now, rates.drop_last());
        let prev = push_bot_rates(m, now, rates.drop_last())->Ok_0;
        assert(push_bot_rates(m, now, rates)->Ok_0.dom() =~= prev.dom());
    }
}

/// What the oracle keeps in storage: the rate of each key and the supported
/// keys.
pub struct RatesStore {
    pub rates: StrMap<Data>,
    pub supported_keys: StrSet,
}

/// The two stores hold the same rates and keys.
pub open spec fn same_rates_store(a: RatesStore, b: RatesStore) -> bool {
    a.rates.view() == b.rates.view() && a.supported_keys.view() == b.supported_keys.view()
}

fn not_found_rate() -> (e: StdError)
    ensures
        e matches StdError::NotFound { kind } && kind@ == "Data"@,
{
    StdError::NotFound { kind: String::from_str("Data") }
}

pub struct BotRateOracle {
    pub config: CommonConfig,
}

impl BotRateOracle {
    /// A new enabled oracle for the (validated) router, with nothing stored.
    pub fn instantiate(router: Contract) -> (r: (Self, RatesStore))
        ensures
            r.0.config.router == router,
            r.0.config.enabled,
            r.1.rates.view().is_empty(),
            r.1.supported_keys.view().is_empty(),
    {
        let (config, supported_keys) = CommonConfig::init(router);
        (BotRateOracle { config }, RatesStore { rates: StrMap::new(), supported_keys })
    }

    /// Stores the rate of each raw entry, set at `now`, and supports its key.
    /// A zero initial rate refuses the whole batch.
    pub fn set_rates(&self, store: &mut RatesStore, now: u64, rates: Vec<RawRateData>) -> (r: StdResult<()>)
        ensures
            r is Ok <==> all_initial_rates_nonzero(rates@),
            r is Ok ==> final(store).rates.view() == set_all_rates(old(store).rates.view(), rates@, now)
                && final(store).supported_keys.view() == old(store).supported_keys.view().union(raw_rate_keys(rates@)),
            r is Err ==> same_rates_store(*final(store), *old(store)),
            r matches Err(e) ==> e.is_generic("Rate must be greater than 0"@),
    {
        let mut j: usize = 0;
        while j < rates.len()
            invariant
                j <= rates@.len(),
                forall|i: int| 0 <= i < j ==> (#[trigger] rates@[i]).initial_rate@ != 0,
            decreases rates@.len() - j,
        {
            if rates[j].initial_rate.is_zero() {
                return Err(StdError::generic_err(String::from_str("Rate must be greater than 0")));
            }
            j = j + 1;
        }
        let ghost m0 = store.rates.view();
        let ghost s0 = store.supported_keys.view();
        let mut i: usize = 0;
        proof {
            assert(s0.union(raw_rate_keys(rates@.take(0))) =~= s0);
        }
        while i < rates.len()
            invariant
                i <= rates@.len(),
                all_initial_rates_nonzero(rates@),
                store.rates.view() == set_all_rates(m0, rates@.take(i as int), now),
                store.supported_keys.view() == s0.union(raw_rate_keys(rates@.take(i as int))),
            decreases rates@.len() - i,
        {
            let raw = &rates[i];
            let data = Data::new(raw.initial_rate, raw.timeout, now, raw.max_change, raw.permission.clone()).unwrap();
            proof {
                lemma_take_last(rates@, i as int);
                let t = rates@.take(i + 1);
                let b = rates@.take(i as int);
                assert forall|k: Seq<char>| #[trigger] raw_rate_keys(t).contains(k) <==> raw_rate_keys(b).insert(raw.key@).contains(k) by {
                    if raw_rate_keys(t).contains(k) {
                        let w = choose|w: int| 0 <= w < t.len() && #[trigger] t[w].key@ == k;
                        if w < i {
                            assert(b[w].key@ == k);
                        }
                    }
                    if raw_rate_keys(b).contains(k) {
                        let w = choose|w: int| 0 <= w < b.len() && #[trigger] b[w].key@ == k;
                        assert(t[w].key@ == k);
                    }
                    if k == raw.key@ {
                        assert(t[i as int].key@ == k);
                    }
                }
                assert(raw_rate_keys(t) =~= raw_rate_keys(b).insert(raw.key@));
            }
            store.rates.insert(raw.key.clone(), data);
            let _ = CommonConfig::add_supported_key(&mut store.supported_keys, &raw.key);
            proof {
                assert(store.supported_keys.view() =~= s0.union(raw_rate_keys(rates@.take(i + 1))));
            }
            i = i + 1;
        }
        proof {
            assert(rates@.take(rates@.len() as int) =~= rates@);
        }
        Ok(())
    }

    /// Drops the supported keys among `keys` and their rates.
    pub fn remove_rates(store: &mut RatesStore, keys: Vec<String>) -> (r: StdResult<()>)
        ensures
            r is Ok,
            final(store).supported_keys.view() == old(store).supported_keys.view().difference(set_of(keys@)),
            final(store).rates.view() == old(store).rates.view().remove_keys(
                set_of(keys@).intersect(old(store).supported_keys.view()),
            ),
    {
        let ghost m0 = store.rates.view();
        let ghost s0 = store.supported_keys.view();
        let mut i: usize = 0;
        proof {
            assert(set_of(keys@.take(0)) =~= Set::<Seq<char>>::empty());
            assert(s0.difference(set_of(keys@.take(0))) =~= s0);
            assert(m0.remove_keys(set_of(keys@.take(0)).intersect(s0)) =~= m0);
        }
        while i < keys.len()
            invariant
                i <= keys@.len(),
                store.supported_keys.view() == s0.difference(set_of(keys@.take(i as int))),
                store.rates.view() == m0.remove_keys(set_of(keys@.take(i as int)).intersect(s0)),
            decreases keys@.len() - i,
        {
            proof {
                lemma_set_of_take(keys@, i as int);
            }
            if store.supported_keys.remove(&keys[i]) {
                let _ = store.rates.remove(&keys[i]);
            }
            assert(store.supported_keys.view() =~= s0.difference(set_of(keys@.take(i + 1))));
            assert(store.rates.view() =~= m0.remove_keys(set_of(keys@.take(i + 1)).intersect(s0)));
            i = i + 1;
        }
        proof {
            assert(keys@.take(keys@.len() as int) =~= keys@);
        }
        Ok(())
    }

    /// Applies each configuration update to the stored rate of its key. A key
    /// without a rate refuses the whole batch.
    pub fn update_rate_configs(&self, store: &mut RatesStore, updates: Vec<(String, RateDataConfigUpdate)>) -> (r: StdResult<()>)
        ensures
            r is Ok <==> all_rate_updates_known(old(store).rates.view(), updates@),
            r is Ok ==> final(store).rates.view() == update_all_rate_configs(old(store).rates.view(), updates@),
            r is Err ==> exists|k: int| #[trigger] first_unknown_rate_update(old(store).rates.view(), updates@, k)
                && final(store).rates.view() == update_all_rate_configs(old(store).rates.view(), updates@.take(k)),
            r matches Err(e) ==> e is NotFound,
            final(store).supported_keys.view() == old(store).supported_keys.view(),
    {
        let ghost m0 = store.rates.view();
        let mut i: usize = 0;
        proof {
            assert(updates@.take(0) =~= Seq::<(String, RateDataConfigUpdate)>::empty());
        }
        while i < updates.len()
            invariant
                i <= updates@.len(),
                m0 == old(store).rates.view(),
                forall|j: int| 0 <= j < i ==> m0.dom().contains((#[trigger] updates@[j]).0@),
                store.rates.view() == update_all_rate_configs(m0, updates@.take(i as int)),
                store.rates.view().dom() == m0.dom(),
                store.supported_keys.view() == old(store).supported_keys.view(),
            decreases updates@.len() - i,
        {
            proof {
                lemma_take_last(updates@, i as int);
            }
            let key = &updates[i].0;
            let update = &updates[i].1;
            if !store.rates.contains_key(key) {
                proof {
                    assert(first_unknown_rate_update(m0, updates@, i as int));
                }
                return Err(not_found_rate());
            }
            let mut data = store.rates.get(key).unwrap().duplicate();
            match update.max_change {
                Some(max_change) => {
                    data.max_change = max_change;
                },
                None => {},
            }
            match update.timeout {
                Some(timeout) => {
                    data.timeout = timeout;
                },
                None => {},
            }
            store.rates.insert(key.clone(), data);
            proof {
                assert(store.rates.view().dom() =~= m0.dom());
            }
            i = i + 1;
        }
        proof {
            assert(updates@.take(updates@.len() as int) =~= updates@);
        }
        Ok(())
    }

    /// Pushes each rate, at time `now`, after checking it against the stored
    /// rate of its key and that rate's allowed change; answers the
    /// permissions that the sender must hold for the rates to stand, each
    /// once. The first rate that fails refuses the batch; the caller then
    /// drops the changed state.
    pub fn update_rates(store: &mut RatesStore, now: u64, rates: Vec<(String, Decimal256)>) -> (r: StdResult<Vec<String>>)
        requires
            push_bot_rates_computable(old(store).rates.view(), now, rates@),
        ensures
            r is Ok <==> push_bot_rates(old(store).rates.view(), now, rates@) is Ok,
            r matches Ok(perms) ==> final(store).rates.view() == push_bot_rates(old(store).rates.view(), now, rates@)->Ok_0
                && strings_view(perms@).no_duplicates() && set_of(perms@) == needed_permissions(
                old(store).rates.view(),
                rates@,
            ),
            r matches Err(e) ==> {
                let i = push_bot_rates(old(store).rates.view(), now, rates@)->Err_0;
                &&& i < rates@.len()
                &&& push_bot_rates(old(store).rates.view(), now, rates@.take(i as int)) is Ok
                &&& final(store).rates.view() == push_bot_rates(old(store).rates.view(), now, rates@.take(i as int))->Ok_0
                &&& bot_rate_error(
                    push_bot_rates(old(store).rates.view(), now, rates@.take(i as int))->Ok_0,
                    rates@[i as int].0@,
                    rates@[i as int].1,
                    e,
                )
            },
            final(store).supported_keys.view() == old(store).supported_keys.view(),
    {
        let ghost m0 = store.rates.view();
        let mut required: Vec<String> = Vec::new();
        let mut i: usize = 0;
        proof {
            assert(rates@.take(0) =~= Seq::<(String, Decimal256)>::empty());
            assert(set_of(required@) =~= needed_permissions(m0, rates@.take(0)));
        }
        while i < rates.len()
            invariant
                i <= rates@.len(),
                m0 == old(store).rates.view(),
                push_bot_rates_computable(m0, now, rates@),
                push_bot_rates(m0, now, rates@.take(i as int)) == Ok::<Map<Seq<char>, Data>, nat>(store.rates.view()),
                store.supported_keys.view() == old(store).supported_keys.view(),
                strings_view(required@).no_duplicates(),
                set_of(required@) == needed_permissions(m0, rates@.take(i as int)),
            decreases rates@.len() - i,
        {
            proof {
                lemma_take_last(rates@, i as int);
                lemma_push_bot_rates_prefix(m0, now, rates@, i as int + 1);
                lemma_push_bot_rates_keeps(m0, now, rates@.take(i as int));
            }
            let key = &rates[i].0;
            let rate = rates[i].1;
            let mut data = match store.rates.get(key) {
                Some(d) => d.duplicate(),
                None => {
                    proof {
                        lemma_push_bot_rates_fails_at(m0, now, rates@, i as int);
                    }
                    return Err(not_found_rate());
                },
            };
            let ghost before = required@;
            if !contains_string(&required, &data.permission) {
                required.push(data.permission.clone());
            }
            proof {
                let t = rates@.take(i + 1);
                let b = rates@.take(i as int);
                let p = data.permission@;
                assert forall|j: int| 0 <= j < i implies #[trigger] t[j] == b[j] by {}
                assert forall|q: Seq<char>| #[trigger] needed_permissions(m0, t).contains(q) <==> needed_permissions(m0, b).insert(p).contains(q) by {
                    if needed_permissions(m0, t).contains(q) {
                        let w = choose|w: int| 0 <= w < t.len() && m0.dom().contains((#[trigger] t[w]).0@) && m0[t[w].0@].permission@ == q;
                        if w < i {
                            assert(b[w] == t[w]);
                        }
                    }
                    if needed_permissions(m0, b).contains(q) {
                        let w = choose|w: int| 0 <= w < b.len() && m0.dom().contains((#[trigger] b[w]).0@) && m0[b[w].0@].permission@ == q;
                        assert(t[w] == b[w]);
                    }
                    if q == p {
                        assert(t[i as int] == rates@[i as int]);
                        assert(m0.dom().contains(t[i as int].0@));
                    }
                }
                assert(needed_permissions(m0, t) =~= needed_permissions(m0, b).insert(p));
                let sv = strings_view(required@);
                let bv = strings_view(before);
                if sv.len() > bv.len() {
                    assert(sv =~= bv.push(p));
                }
                assert forall|q: Seq<char>| #[trigger] set_of(required@).contains(q) <==> set_of(before).insert(p).contains(q) by {
                    if sv.contains(q) {
                        let w = choose|w: int| 0 <= w < sv.len() && sv[w] == q;
                        if w < bv.len() {
                            assert(bv[w] == sv[w]);
                        }
                    }
                    if bv.contains(q) {
                        let w = choose|w: int| 0 <= w < bv.len() && bv[w] == q;
                        assert(sv[w] == bv[w]);
                    }
                    if q == p && sv.len() > bv.len() {
                        assert(sv[bv.len() as int] == q);
                    }
                }
                assert(set_of(required@) =~= set_of(before).insert(p));
            }
            let checked = GeneralMath::require_within_precision(
                &rate.atomics(),
                &data.rate.atomics(),
                &data.max_change.atomics(),
            );
            match checked {
                Err(e) => {
                    proof {
                        lemma_push_bot_rates_fails_at(m0, now, rates@, i as int);
                    }
                    return Err(e);
                },
                Ok(()) => {},
            }
            data.last_updated = now;
            data.rate = rate;
            store.rates.insert(key.clone(), data);
            i = i + 1;
        }
        proof {
            assert(rates@.take(rates@.len() as int) =~= rates@);
        }
        Ok(required)
    }
}

impl BotRateOracle {
    /// Whether the relative change of each pushed rate can be measured at
    /// every step that `update_rates` reaches: a rate pushed onto a zero rate
    /// is zero, and no change is too large to express as a decimal.
    pub fn rates_update_computable(store: &RatesStore, now: u64, rates: &Vec<(String, Decimal256)>) -> (r: bool)
        ensures
            r == push_bot_rates_computable(store.rates.view(), now, rates@),
    {
        let ghost m0 = store.rates.view();
        let mut cur: StrMap<Decimal256> = StrMap::new();
        let mut i: usize = 0;
        proof {
            assert(rates@.take(0) =~= Seq::<(String, Decimal256)>::empty());
        }
        while i < rates.len()
            invariant
                i <= rates@.len(),
                m0 == store.rates.view(),
                push_bot_rates(m0, now, rates@.take(i as int)) is Ok,
                push_bot_rates_computable(m0, now, rates@.take(i as int)),
                push_bot_rates(m0, now, rates@.take(i as int))->Ok_0.dom() == m0.dom(),
                forall|k: Seq<char>| #[trigger] m0.dom().contains(k) ==> push_bot_rates(m0, now, rates@.take(i as int))->Ok_0[k].max_change
                    == m0[k].max_change && push_bot_rates(m0, now, rates@.take(i as int))->Ok_0[k].rate == (if cur.view().dom().contains(k) {
                    cur.view()[k]
                } else {
                    m0[k].rate
                }),
            decreases rates@.len() - i,
        {
            proof {
                lemma_take_last(rates@, i as int);
            }
            let ghost prev = push_bot_rates(m0, now, rates@.take(i as int))->Ok_0;
            let key = &rates[i].0;
            let rate = rates[i].1;
            let data = match store.rates.get(key) {
                Some(d) => d,
                None => {
                    proof {
                        lemma_push_bot_rates_fails_at(m0, now, rates@.take(i + 1), i as int);
                        assert(rates@.take(i + 1).take(i as int) =~= rates@.take(i as int));
                        lemma_push_bot_rates_after_failure(m0, now, rates@, i + 1);
                    }
                    return true;
                },
            };
            let base = match cur.get(key) {
                Some(b) => *b,
                None => data.rate,
            };
            let a = rate.atomics();
            let b = base.atomics();
            assert(b@ == prev[key@].rate@);
            if b.is_zero() {
                if !a.is_zero() {
                    proof {
                        assert(!push_bot_rates_computable(m0, now, rates@.take(i + 1)));
                        if push_bot_rates_computable(m0, now, rates@) {
                            lemma_push_bot_rates_prefix(m0, now, rates@, i + 1);
                        }
                    }
                    return false;
                }
            } else if Decimal256::checked_from_ratio(&a.abs_diff(&b), &b).is_none() {
                proof {
                    assert(!push_bot_rates_computable(m0, now, rates@.take(i + 1)));
                    if push_bot_rates_computable(m0, now, rates@) {
                        lemma_push_bot_rates_prefix(m0, now, rates@, i + 1);
                    }
                }
                return false;
            }
            assert(push_bot_rates_computable(m0, now, rates@.take(i + 1)));
            let passes = GeneralMath::require_within_precision(&a, &b, &data.max_change.atomics()).is_ok();
            if !passes {
                proof {
                    lemma_push_bot_rates_fails_at(m0, now, rates@.take(i + 1), i as int);
                    assert(rates@.take(i + 1).take(i as int) =~= rates@.take(i as int));
                    lemma_push_bot_rates_after_failure(m0, now, rates@, i + 1);
                }
                return true;
            }
            cur.insert(key.clone(), rate);
            i = i + 1;
        }
        proof {
            assert(rates@.take(rates@.len() as int) =~= rates@);
        }
        true
    }
}

/// A stored rate is fresh at `now`.
pub open spec fn stored_rate_fresh(d: Data, now: u64) -> bool {
    now - d.last_updated <= d.timeout
}

/// `p` is the price of `key` from its stored rate.
pub open spec fn rate_price(d: Data, key: String, p: OraclePrice) -> bool {
    p.key == key && p.data.rate@ == d.rate@ && p.data.last_updated_base == d.last_updated
        && p.data.last_updated_quote == d.last_updated
}

/// The rate stored for `key`, if any, is not dated after `now`.
pub open spec fn rate_not_future(m: Map<Seq<char>, Data>, key: Seq<char>, now: u64) -> bool {
    m.dom().contains(key) ==> m[key].last_updated <= now
}

/// The error of a key whose rate is missing or stale.
pub open spec fn rate_query_error(m: Map<Seq<char>, Data>, key: Seq<char>, now: u64, e: StdError) -> bool {
    if !m.dom().contains(key) {
        e is NotFound
    } else {
        e == (StdError::StaleRate { last_updated: m[key].last_updated, now })
    }
}

impl BotRateOracle {
    /// The stored rate of `key` with its key.
    pub fn get_rate_data(key: &String, store: &RatesStore) -> (r: StdResult<RateData>)
        ensures
            r is Ok <==> store.rates.view().dom().contains(key@),
            r matches Ok(d) ==> {
                let s = store.rates.view()[key@];
                d == (RateData {
                    key: *key,
                    rate: s.rate,
                    last_updated: s.last_updated,
                    timeout: s.timeout,
                    max_change: s.max_change,
                    permission: s.permission,
                })
            },
            r matches Err(e) ==> e is NotFound,
    {
        match store.rates.get(key) {
            Some(data) => Ok(RateData::new(
                key.clone(),
                data.rate,
                data.last_updated,
                data.timeout,
                data.max_change,
                data.permission.clone(),
            )),
            None => Err(not_found_rate()),
        }
    }

    /// The stored rate of every supported key, in the order of the list.
    pub fn get_supported_rates(store: &RatesStore) -> (r: StdResult<RatesResponse>)
        ensures
            r is Ok <==> store.supported_keys.view().subset_of(store.rates.view().dom()),
            r matches Ok(v) ==> v@.len() == store.supported_keys.key_seq().len() && forall|i: int|
                0 <= i < v@.len() ==> (#[trigger] v@[i]).key@ == store.supported_keys.key_seq()[i] && v@[i].rate
                    == store.rates.view()[store.supported_keys.key_seq()[i]].rate,
            r matches Err(e) ==> e is NotFound,
    {
        let n = store.supported_keys.len();
        let mut out: Vec<RateData> = Vec::new();
        let mut i: usize = 0;
        while i < n
            invariant
                i <= n,
                n == store.supported_keys.key_seq().len(),
                forall|k: Seq<char>| store.supported_keys.key_seq().contains(k)
                    <==> #[trigger] store.supported_keys.view().contains(k),
                out@.len() == i,
                forall|j: int| 0 <= j < i ==> (#[trigger] out@[j]).key@ == store.supported_keys.key_seq()[j] && out@[j].rate
                    == store.rates.view()[store.supported_keys.key_seq()[j]].rate,
                forall|j: int| 0 <= j < i ==> store.rates.view().dom().contains(
                    #[trigger] store.supported_keys.key_seq()[j],
                ),
            decreases n - i,
        {
            let key = store.supported_keys.key_at(i);
            match Self::get_rate_data(key, store) {
                Ok(d) => out.push(d),
                Err(e) => {
                    proof {
                        assert(store.supported_keys.view().contains(key@));
                    }
                    return Err(e);
                },
            }
            i = i + 1;
        }
        proof {
            assert forall|k: Seq<char>| store.supported_keys.view().contains(k) implies store.rates.view().dom().contains(k) by {
                assert(store.supported_keys.key_seq().contains(k));
                let j = choose|j: int| 0 <= j < store.supported_keys.key_seq().len() && store.supported_keys.key_seq()[j] == k;
                assert(store.rates.view().dom().contains(store.supported_keys.key_seq()[j]));
            }
        }
        Ok(out)
    }

    /// The price of `key`: its stored rate, when fresh.
    pub fn query_price(&self, store: &RatesStore, now: u64, key: String) -> (r: StdResult<OraclePrice>)
        requires
            rate_not_future(store.rates.view(), key@, now),
        ensures
            r is Ok <==> store.rates.view().dom().contains(key@) && stored_rate_fresh(store.rates.view()[key@], now),
            r matches Ok(p) ==> rate_price(store.rates.view()[key@], key, p),
            r matches Err(e) ==> rate_query_error(store.rates.view(), key@, now, e),
    {
        let rate = match store.rates.get(&key) {
            Some(d) => d,
            None => return Err(not_found_rate()),
        };
        rate.require_fresh(now)?;
        Ok(OraclePrice::new(key, ReferenceData {
            rate: rate.rate.atomics(),
            last_updated_base: rate.last_updated,
            last_updated_quote: rate.last_updated,
        }))
    }

    /// The prices of `keys`, in their order. A missing or stale rate fails.
    pub fn query_prices(&self, store: &RatesStore, now: u64, keys: Vec<String>) -> (r: StdResult<Vec<OraclePrice>>)
        requires
            forall|i: int| 0 <= i < keys@.len() ==> rate_not_future(store.rates.view(), (#[trigger] keys@[i])@, now),
        ensures
            r is Ok <==> forall|i: int| 0 <= i < keys@.len() ==> store.rates.view().dom().contains((#[trigger] keys@[i])@)
                && stored_rate_fresh(store.rates.view()[keys@[i]@], now),
            r matches Ok(v) ==> v@.len() == keys@.len() && forall|i: int| 0 <= i < keys@.len() ==> rate_price(
                store.rates.view()[keys@[i]@],
                keys@[i],
                #[trigger] v@[i],
            ),
            r matches Err(e) ==> exists|i: int| 0 <= i < keys@.len() && rate_query_error(
                store.rates.view(),
                (#[trigger] keys@[i])@,
                now,
                e,
            ) && !(store.rates.view().dom().contains(keys@[i]@) && stored_rate_fresh(store.rates.view()[keys@[i]@], now)),
    {
        let mut out: Vec<OraclePrice> = Vec::new();
        let mut i: usize = 0;
        while i < keys.len()
            invariant
                i <= keys@.len(),
                forall|j: int| 0 <= j < keys@.len() ==> rate_not_future(store.rates.view(), (#[trigger] keys@[j])@, now),
                out@.len() == i,
                forall|j: int| 0 <= j < i ==> store.rates.view().dom().contains((#[trigger] keys@[j])@)
                    && stored_rate_fresh(store.rates.view()[keys@[j]@], now),
                forall|j: int| 0 <= j < i ==> rate_price(store.rates.view()[keys@[j]@], keys@[j], #[trigger] out@[j]),
            decreases keys@.len() - i,
        {
            let p = self.query_price(store, now, keys[i].clone())?;
            out.push(p);
            i = i + 1;
        }
        Ok(out)
    }

    /// The configuration with the supported keys in the order of the list.
    pub fn query_config(&self, store: &RatesStore) -> (r: StdResult<CommonConfigResponse>)
        ensures
            r matches Ok(resp) && resp.config.router == self.config.router && resp.config.enabled == self.config.enabled
                && strings_view(resp.supported_keys@) == store.supported_keys.key_seq(),
    {
        let n = store.supported_keys.len();
        let mut supported_keys: Vec<String> = Vec::new();
        let mut i: usize = 0;
        while i < n
            invariant
                i <= n,
                n == store.supported_keys.key_seq().len(),
                strings_view(supported_keys@) == store.supported_keys.key_seq().take(i as int),
            decreases n - i,
        {
            let key = store.supported_keys.key_at(i);
            let ghost before = supported_keys@;
            supported_keys.push(key.clone());
            proof {
                assert(strings_view(supported_keys@) =~= strings_view(before).push(key@));
                assert(store.supported_keys.key_seq().take(i + 1) =~= store.supported_keys.key_seq().take(i as int).push(key@));
            }
            i = i + 1;
        }
        proof {
            assert(store.supported_keys.key_seq().take(n as int) =~= store.supported_keys.key_seq());
        }
        let config = CommonConfig { router: self.config.router.duplicate(), enabled: self.config.enabled };
        Ok(CommonConfigResponse { config, supported_keys })
    }

    /// The permissions that pushing `rates` needs, each once: those of the
    /// stored rates of their keys.
    pub fn required_permissions(store: &RatesStore, rates: &Vec<(String, Decimal256)>) -> (r: Vec<String>)
        ensures
            strings_view(r@).no_duplicates(),
            set_of(r@) == needed_permissions(store.rates.view(), rates@),
    {
        let ghost m0 = store.rates.view();
        let mut required: Vec<String> = Vec::new();
        let mut i: usize = 0;
        proof {
            assert(set_of(required@) =~= needed_permissions(m0, rates@.take(0)));
        }
        while i < rates.len()
            invariant
                i <= rates@.len(),
                m0 == store.rates.view(),
                strings_view(required@).no_duplicates(),
                set_of(required@) == needed_permissions(m0, rates@.take(i as int)),
            decreases rates@.len() - i,
        {
            let ghost before = required@;
            let ghost t = rates@.take(i + 1);
            let ghost b = rates@.take(i as int);
            proof {
                assert forall|j: int| 0 <= j < i implies #[trigger] t[j] == b[j] by {}
                assert(t[i as int] == rates@[i as int]);
            }
            match store.rates.get(&rates[i].0) {
                Some(data) => {
                    if !contains_string(&required, &data.permission) {
                        required.push(data.permission.clone());
                    }
                    proof {
                        let p = data.permission@;
                        assert forall|q: Seq<char>| #[trigger] needed_permissions(m0, t).contains(q) <==> needed_permissions(m0, b).insert(p).contains(q) by {
                            if needed_permissions(m0, t).contains(q) {
                                let w = choose|w: int| 0 <= w < t.len() && m0.dom().contains((#[trigger] t[w]).0@) && m0[t[w].0@].permission@ == q;
                                if w < i {
                                    assert(b[w] == t[w]);
                                }
                            }
                            if needed_permissions(m0, b).contains(q) {
                                let w = choose|w: int| 0 <= w < b.len() && m0.dom().contains((#[trigger] b[w]).0@) && m0[b[w].0@].permission@ == q;
                                assert(t[w] == b[w]);
                            }
                        }
                        assert(needed_permissions(m0, t) =~= needed_permissions(m0, b).insert(p));
                        let sv = strings_view(required@);
                        let bv = strings_view(before);
                        if sv.len() > bv.len() {
                            assert(sv =~= bv.push(p));
                        }
                        assert forall|q: Seq<char>| #[trigger] set_of(required@).contains(q) <==> set_of(before).insert(p).contains(q) by {
                            if sv.contains(q) {
                                let w = choose|w: int| 0 <= w < sv.len() && sv[w] == q;
                                if w < bv.len() {
                                    assert(bv[w] == sv[w]);
                                }
                            }
                            if bv.contains(q) {
                                let w = choose|w: int| 0 <= w < bv.len() && bv[w] == q;
                                assert(sv[w] == bv[w]);
                            }
                            if q == p && sv.len() > bv.len() {
                                assert(sv[bv.len() as int] == q);
                            }
                        }
                        assert(set_of(required@) =~= set_of(before).insert(p));
                    }
                },
                None => {
                    proof {
                        assert forall|q: Seq<char>| #[trigger] needed_permissions(m0, t).contains(q) <==> needed_permissions(m0, b).contains(q) by {
                            if needed_permissions(m0, t).contains(q) {
                                let w = choose|w: int| 0 <= w < t.len() && m0.dom().contains((#[trigger] t[w]).0@) && m0[t[w].0@].permission@ == q;
                                if w < i {
                                    assert(b[w] == t[w]);
                                }
                            }
                            if needed_permissions(m0, b).contains(q) {
                                let w = choose|w: int| 0 <= w < b.len() && m0.dom().contains((#[trigger] b[w]).0@) && m0[b[w].0@].permission@ == q;
                                assert(t[w] == b[w]);
                            }
                        }
                        assert(needed_permissions(m0, t) =~= needed_permissions(m0, b));
                    }
                },
            }
            i = i + 1;
        }
        proof {
            assert(rates@.take(rates@.len() as int) =~= rates@);
        }
        required
    }

    /// Fails with the first permission of `permissions` that is not among
    /// `granted`, the permissions that the admin contract confirmed for
    /// `sender`.
    pub fn require_permissions(&self, sender: &String, permissions: &Vec<String>, granted: &StrSet) -> (r: StdResult<()>)
        ensures
            r is Ok <==> set_of(permissions@).subset_of(granted.view()),
            r matches Err(e) ==> exists|i: int| 0 <= i < permissions@.len() && !granted.view().contains(
                (#[trigger] permissions@[i])@,
            ) && e.is_generic(sender@ + " does not have permission "@ + permissions@[i]@ + "."@),
    {
        let mut i: usize = 0;
        while i < permissions.len()
            invariant
                i <= permissions@.len(),
                forall|j: int| 0 <= j < i ==> granted.view().contains((#[trigger] permissions@[j])@),
            decreases permissions@.len() - i,
        {
            let held = granted.contains(&permissions[i]);
            if !held {
                proof {
                    assert(strings_view(permissions@)[i as int] == permissions@[i as int]@);
                    assert(set_of(permissions@).contains(permissions@[i as int]@));
                }
            }
            self.config.require_permission(sender, &permissions[i], held)?;
            i = i + 1;
        }
        proof {
            assert forall|q: Seq<char>| set_of(permissions@).contains(q) implies granted.view().contains(q) by {
                let w = choose|w: int| 0 <= w < strings_view(permissions@).len() && strings_view(permissions@)[w] == q;
                assert(permissions@[w]@ == q);
            }
        }
        Ok(())
    }

    /// Runs an execute message. `admin` is the outcome of the check that the
    /// sender is an oracle admin, consulted only where the message needs it;
    /// `granted` holds the permissions that the admin contract confirmed for
    /// `sender` among those that `required_permissions` listed. The result is
    /// the action to record.
    pub fn execute(
        &mut self,
        store: &mut RatesStore,
        now: u64,
        msg: ExecuteMsg,
        admin: StdResult<()>,
        sender: &String,
        granted: &StrSet,
        prefix: &str,
    ) -> (r: StdResult<String>)
        requires
            old(self).config.enabled ==> (msg matches ExecuteMsg::UpdateRates(RateDataUpdate::Rates(rates))
                ==> push_bot_rates_computable(old(store).rates.view(), now, rates@)),
        ensures
            msg matches ExecuteMsg::SetStatus(status) ==> (match admin {
                Err(e) => r == Err::<String, StdError>(e) && *final(self) == *old(self),
                Ok(_) => (r matches Ok(a) && a@ == prefix@ + "set_status"@) && final(self).config.enabled == status
                    && final(self).config.router == old(self).config.router,
            }) && same_rates_store(*final(store), *old(store)),
            !(msg is SetStatus) && !old(self).config.enabled ==> (r matches Err(e) && e.is_generic(
                "This oracle has been disabled. Only operation available is changing status."@,
            )) && same_rates_store(*final(store), *old(store)) && *final(self) == *old(self),
            !(msg is SetStatus) && !(msg is UpdateConfig) ==> *final(self) == *old(self),
            !(msg is SetStatus) && old(self).config.enabled ==> match msg {
                ExecuteMsg::UpdateRates(RateDataUpdate::Rates(rates)) => (r is Ok <==> (push_bot_rates(
                    old(store).rates.view(),
                    now,
                    rates@,
                ) is Ok && needed_permissions(old(store).rates.view(), rates@).subset_of(granted.view()))) && (r is Ok
                    ==> (r matches Ok(a) && a@ == prefix@ + "update_rates"@) && final(store).rates.view()
                    == push_bot_rates(old(store).rates.view(), now, rates@)->Ok_0),
                _ => match admin {
                    Err(e) => r == Err::<String, StdError>(e) && same_rates_store(*final(store), *old(store))
                        && *final(self) == *old(self),
                    Ok(_) => match msg {
                        ExecuteMsg::SetRates(data) => (r is Ok <==> all_initial_rates_nonzero(data@)) && (r is Ok
                            ==> (r matches Ok(a) && a@ == prefix@ + "set_rates"@) && final(store).rates.view()
                            == set_all_rates(old(store).rates.view(), data@, now) && final(store).supported_keys.view()
                            == old(store).supported_keys.view().union(raw_rate_keys(data@))),
                        ExecuteMsg::RemoveRates(keys) => (r matches Ok(a) && a@ == prefix@ + "remove_rates"@)
                            && final(store).supported_keys.view() == old(store).supported_keys.view().difference(set_of(keys@))
                            && final(store).rates.view() == old(store).rates.view().remove_keys(
                                set_of(keys@).intersect(old(store).supported_keys.view()),
                            ),
                        ExecuteMsg::UpdateRates(RateDataUpdate::Config(configs)) => (r is Ok
                            <==> all_rate_updates_known(old(store).rates.view(), configs@)) && (r is Ok ==> (r matches Ok(a)
                            && a@ == prefix@ + "update_rate_configs"@) && final(store).rates.view()
                            == update_all_rate_configs(old(store).rates.view(), configs@)),
                        ExecuteMsg::UpdateConfig(router) => (r matches Ok(a) && a@ == prefix@ + "router_update"@)
                            && final(self).config.router == router && final(self).config.enabled == old(self).config.enabled
                            && same_rates_store(*final(store), *old(store)),
                        _ => true,
                    },
                },
            },
    {
        match msg {
            ExecuteMsg::SetStatus(status) => {
                admin?;
                self.config.update_config(Some(status), None)?;
                Ok(action_name(prefix, "set_status"))
            },
            ExecuteMsg::SetRates(data) => {
                self.config.require_enabled()?;
                admin?;
                self.set_rates(store, now, data)?;
                Ok(action_name(prefix, "set_rates"))
            },
            ExecuteMsg::RemoveRates(keys) => {
                self.config.require_enabled()?;
                admin?;
                Self::remove_rates(store, keys)?;
                Ok(action_name(prefix, "remove_rates"))
            },
            ExecuteMsg::UpdateRates(update) => {
                self.config.require_enabled()?;
                match update {
                    RateDataUpdate::Rates(rates) => {
                        let ghost m0 = store.rates.view();
                        let permissions = Self::update_rates(store, now, rates)?;
                        self.require_permissions(sender, &permissions, granted)?;
                        proof {
                            assert(needed_permissions(m0, rates@) == set_of(permissions@));
                        }
                        Ok(action_name(prefix, "update_rates"))
                    },
                    RateDataUpdate::Config(configs) => {
                        admin?;
                        self.update_rate_configs(store, configs)?;
                        Ok(action_name(prefix, "update_rate_configs"))
                    },
                }
            },
            ExecuteMsg::UpdateConfig(new_router) => {
                self.config.require_enabled()?;
                admin?;
                self.config.update_config(None, Some(new_router))?;
                Ok(action_name(prefix, "router_update"))
            },
        }
    }
}

/// After a successful push, each key holds the last rate pushed for it,
/// updated at the time of the push.
pub proof fn lemma_pushed_rates_read_back(m: Map<Seq<char>, Data>, now: u64, rates: Seq<(String, Decimal256)>, i: int)
    requires
        push_bot_rates(m, now, rates) is Ok,
        0 <= i < rates.len(),
        forall|j: int| i < j < rates.len() ==> (#[trigger] rates[j]).0@ != rates[i].0@,
    ensures
        push_bot_rates(m, now, rates)->Ok_0.dom().contains(rates[i].0@),
        push_bot_rates(m, now, rates)->Ok_0[rates[i].0@].rate == rates[i].1,
        push_bot_rates(m, now, rates)->Ok_0[rates[i].0@].last_updated == now,
    decreases rates.len(),
{
    let n = rates.len() - 1;
    if i < n {
        let d = rates.drop_last();
        assert forall|j: int| i < j < d.len() implies (#[trigger] d[j]).0@ != d[i].0@ by {
            assert(d[j] == rates[j]);
        }
        lemma_pushed_rates_read_back(m, now, d, i);
        assert(rates[n].0@ != rates[i].0@);
    }
}

} // verus!
