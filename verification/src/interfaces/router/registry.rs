//! The router's registry: which oracle answers for each key, and the keys
//! whose prices are held to an expected price.
use vstd::prelude::*;
use vstd::string::*;
use crate::collections::{StrMap, StrSet, strings_view};
use crate::common::{Contract, StdError, StdResult};
use crate::common::status::GlobalStatus;
use crate::num::{Uint256, Decimal256, u256_limit, decimal_unit, abs_diff_spec};
use crate::interfaces::common::OraclePrice;
use crate::interfaces::providers::ReferenceData;
use super::msg::{Config, RegistryOperation, UpdateConfig};
use super::error::OracleRouterError;

verus! {

pub struct OracleRouter {
    pub config: Config,
}

/// A key whose reported price must stay within `deviation` of `price`.
#[derive(Clone, Debug)]
pub struct ProtectedKeyInfo {
    pub key: String,
    pub deviation: Decimal256,
    pub price: Uint256,
}

impl ProtectedKeyInfo {
    pub fn new(key: String, deviation: Decimal256, price: Uint256) -> (r: Self)
        ensures
            r == (ProtectedKeyInfo { key, deviation, price }),
    {
        Self { key, deviation, price }
    }

    pub fn duplicate(&self) -> (r: Self)
        ensures
            r == *self,
    {
        ProtectedKeyInfo { key: self.key.clone(), deviation: self.deviation, price: self.price }
    }
}

/// The registry of oracles, keyed by the key each one answers for.
pub struct Oracle;

/// What the router keeps in storage besides its configuration.
pub struct RouterStore {
    /// List of explicity supported keys (keys registered to an oracle).
    pub keys: StrSet,
    /// The oracle registered for each key.
    pub oracles: StrMap<Contract>,
    pub protected_keys_list: StrSet,
    pub protected_keys: StrMap<ProtectedKeyInfo>,
}

impl Oracle {
    /// The oracle registered for `key`, if any.
    pub fn may_load(store: &RouterStore, key: &String) -> (r: Option<Contract>)
        ensures
            r is Some <==> store.oracles.view().dom().contains(key@),
            r matches Some(c) ==> c == store.oracles.view()[key@],
    {
        match store.oracles.get(key) {
            Some(c) => Some(c.duplicate()),
            None => None,
        }
    }
}

/// The keys of a list of strings, as a set.
pub open spec fn set_of(keys: Seq<String>) -> Set<Seq<char>> {
    Set::new(|k: Seq<char>| strings_view(keys).contains(k))
}

/// The keys of a list of protection infos, as a set.
pub open spec fn info_keys(infos: Seq<ProtectedKeyInfo>) -> Set<Seq<char>> {
    Set::new(|k: Seq<char>| exists|i: int| 0 <= i < infos.len() && #[trigger] infos[i].key@ == k)
}

/// `m` with every key of `keys` set to `v`.
pub open spec fn assign_keys<V>(m: Map<Seq<char>, V>, keys: Seq<String>, v: V) -> Map<Seq<char>, V> {
    Map::new(
        |k: Seq<char>| m.dom().contains(k) || set_of(keys).contains(k),
        |k: Seq<char>| if set_of(keys).contains(k) { v } else { m[k] },
    )
}

/// `m` with each info stored under its key, a later info replacing an
/// earlier one for the same key.
pub open spec fn protect_all(m: Map<Seq<char>, ProtectedKeyInfo>, infos: Seq<ProtectedKeyInfo>) -> Map<Seq<char>, ProtectedKeyInfo>
    decreases infos.len(),
{
    if infos.len() == 0 {
        m
    } else {
        protect_all(m, infos.drop_last()).insert(infos.last().key@, infos.last())
    }
}

/// The oracle that answers for `key`: the registered one, else the router
/// itself (which asks the provider).
pub open spec fn oracle_for(oracles: Map<Seq<char>, Contract>, this: Contract, key: Seq<char>) -> Contract {
    if oracles.dom().contains(key) {
        oracles[key]
    } else {
        this
    }
}

/// Whether a reported `price` passes the protection `info`: it equals the
/// expected price or deviates from it by at most the allowed fraction.
pub open spec fn within_deviation(info: ProtectedKeyInfo, price: nat) -> bool {
    let diff = abs_diff_spec(info.price@, price);
    diff == 0 || diff * decimal_unit() / info.price@ <= info.deviation@
}

/// The deviation test can be computed: a price that differs from the
/// expected one is measured against a nonzero expected price, and the
/// relative deviation fits.
pub open spec fn deviation_computable(info: ProtectedKeyInfo, price: nat) -> bool {
    let diff = abs_diff_spec(info.price@, price);
    diff == 0 || (info.price@ != 0 && diff * decimal_unit() / info.price@ < u256_limit())
}

pub(crate) proof fn lemma_set_of_take(keys: Seq<String>, i: int)
    requires
        0 <= i < keys.len(),
    ensures
        set_of(keys.take(i + 1)) == set_of(keys.take(i)).insert(keys[i]@),
        strings_view(keys.take(i + 1)) == strings_view(keys.take(i)).push(keys[i]@),
{
    let a = strings_view(keys.take(i + 1));
    let b = strings_view(keys.take(i));
    assert(a =~= b.push(keys[i]@));
    assert forall|x: Seq<char>| a.contains(x) <==> #[trigger] b.push(keys[i]@).contains(x) by {}
    assert(set_of(keys.take(i + 1)) =~= set_of(keys.take(i)).insert(keys[i]@)) by {
        assert forall|x: Seq<char>| #[trigger] set_of(keys.take(i + 1)).contains(x) <==> set_of(keys.take(i)).insert(keys[i]@).contains(x) by {
            if b.contains(x) {
                let j = choose|j: int| 0 <= j < b.len() && b[j] == x;
                assert(a[j] == x);
            }
            if x == keys[i]@ {
                assert(a[i] == x);
            }
            if a.contains(x) {
                let j = choose|j: int| 0 <= j < a.len() && a[j] == x;
                if j < i {
                    assert(b[j] == x);
                }
            }
        }
    }
}

proof fn lemma_info_keys_take(infos: Seq<ProtectedKeyInfo>, i: int)
    requires
        0 <= i < infos.len(),
    ensures
        info_keys(infos.take(i + 1)) == info_keys(infos.take(i)).insert(infos[i].key@),
        infos.take(i + 1).drop_last() == infos.take(i),
        infos.take(i + 1).last() == infos[i],
{
    let a = infos.take(i + 1);
    let b = infos.take(i);
    assert(a.drop_last() =~= b);
    assert forall|x: Seq<char>| #[trigger] info_keys(a).contains(x) <==> info_keys(b).insert(infos[i].key@).contains(x) by {
        if info_keys(a).contains(x) {
            let j = choose|j: int| 0 <= j < a.len() && #[trigger] a[j].key@ == x;
            if j < i {
                assert(b[j].key@ == x);
            }
        }
        if info_keys(b).contains(x) {
            let j = choose|j: int| 0 <= j < b.len() && #[trigger] b[j].key@ == x;
            assert(a[j].key@ == x);
        }
        if x == infos[i].key@ {
            assert(a[i].key@ == x);
        }
    }
    assert(info_keys(a) =~= info_keys(b).insert(infos[i].key@));
}

impl RouterStore {
    /// The empty registry that a new router starts with.
    pub fn init_storage() -> (r: Self)
        ensures
            r.keys.view().is_empty(),
            r.oracles.view().is_empty(),
            r.protected_keys_list.view().is_empty(),
            r.protected_keys.view().is_empty(),
    {
        RouterStore {
            keys: StrSet::new(),
            oracles: StrMap::new(),
            protected_keys_list: StrSet::new(),
            protected_keys: StrMap::new(),
        }
    }

    /// The list of keys is exactly the set of keys with an oracle, and the
    /// list of protected keys exactly the set of keys with a protection.
    pub open spec fn consistent(&self) -> bool {
        &&& self.keys.view() == self.oracles.view().dom()
        &&& self.protected_keys_list.view() == self.protected_keys.view().dom()
    }

    /// Removes every key of `keys` from `set` and from `map`.
    fn remove_all<V>(set: &mut StrSet, map: &mut StrMap<V>, keys: &Vec<String>)
        ensures
            final(set).view() == old(set).view().difference(set_of(keys@)),
            final(map).view() == old(map).view().remove_keys(set_of(keys@)),
    {
        let ghost s0 = set.view();
        let ghost m0 = map.view();
        let mut i: usize = 0;
        while i < keys.len()
            invariant
                i <= keys@.len(),
                set.view() == s0.difference(set_of(keys@.take(i as int))),
                map.view() == m0.remove_keys(set_of(keys@.take(i as int))),
            decreases keys@.len() - i,
        {
            proof {
                lemma_set_of_take(keys@, i as int);
            }
            let _ = map.remove(&keys[i]);
            let _ = set.remove(&keys[i]);
            assert(set.view() =~= s0.difference(set_of(keys@.take(i + 1))));
            assert(map.view() =~= m0.remove_keys(set_of(keys@.take(i + 1))));
            i = i + 1;
        }
        assert(keys@.take(keys@.len() as int) =~= keys@);
    }

    /// Applies one change to the registry.
    pub fn resolve_registry_operation(&mut self, operation: RegistryOperation) -> (r: StdResult<()>)
        ensures
            r is Ok,
            match operation {
                RegistryOperation::RemoveKeys { keys } => {
                    &&& final(self).keys.view() == old(self).keys.view().difference(set_of(keys@))
                    &&& final(self).oracles.view() == old(self).oracles.view().remove_keys(set_of(keys@))
                    &&& final(self).protected_keys_list.view() == old(self).protected_keys_list.view()
                    &&& final(self).protected_keys.view() == old(self).protected_keys.view()
                },
                RegistryOperation::SetKeys { oracle, keys } => {
                    &&& final(self).keys.view() == old(self).keys.view().union(set_of(keys@))
                    &&& final(self).oracles.view() == assign_keys(old(self).oracles.view(), keys@, oracle)
                    &&& final(self).protected_keys_list.view() == old(self).protected_keys_list.view()
                    &&& final(self).protected_keys.view() == old(self).protected_keys.view()
                },
                RegistryOperation::SetProtection { infos } => {
                    &&& final(self).keys.view() == old(self).keys.view()
                    &&& final(self).oracles.view() == old(self).oracles.view()
                    &&& final(self).protected_keys_list.view() == old(self).protected_keys_list.view().union(info_keys(infos@))
                    &&& final(self).protected_keys.view() == protect_all(old(self).protected_keys.view(), infos@)
                },
                RegistryOperation::RemoveProtection { keys } => {
                    &&& final(self).keys.view() == old(self).keys.view()
                    &&& final(self).oracles.view() == old(self).oracles.view()
                    &&& final(self).protected_keys_list.view() == old(self).protected_keys_list.view().difference(set_of(keys@))
                    &&& final(self).protected_keys.view() == old(self).protected_keys.view().remove_keys(set_of(keys@))
                },
            },
    {
        match operation {
            RegistryOperation::RemoveKeys { keys } => {
                Self::remove_all(&mut self.keys, &mut self.oracles, &keys);
            },
            RegistryOperation::SetKeys { oracle, keys } => {
                let ghost s0 = self.keys.view();
                let ghost m0 = self.oracles.view();
                let mut i: usize = 0;
                while i < keys.len()
                    invariant
                        i <= keys@.len(),
                        self.keys.view() == s0.union(set_of(keys@.take(i as int))),
                        self.oracles.view() == assign_keys(m0, keys@.take(i as int), oracle),
                        self.protected_keys_list.view() == old(self).protected_keys_list.view(),
                        self.protected_keys.view() == old(self).protected_keys.view(),
                    decreases keys@.len() - i,
                {
                    proof {
                        lemma_set_of_take(keys@, i as int);
                    }
                    self.oracles.insert(keys[i].clone(), oracle.duplicate());
                    let _ = self.keys.insert(keys[i].clone());
                    assert(self.keys.view() =~= s0.union(set_of(keys@.take(i + 1))));
                    assert(self.oracles.view() =~= assign_keys(m0, keys@.take(i + 1), oracle));
                    i = i + 1;
                }
                assert(keys@.take(keys@.len() as int) =~= keys@);
            },
            RegistryOperation::SetProtection { infos } => {
                let ghost s0 = self.protected_keys_list.view();
                let ghost m0 = self.protected_keys.view();
                let mut i: usize = 0;
                proof {
                    assert(infos@.take(0) =~= Seq::<ProtectedKeyInfo>::empty());
                    assert(info_keys(infos@.take(0)) =~= Set::<Seq<char>>::empty());
                    assert(s0.union(info_keys(infos@.take(0))) =~= s0);
                }
                while i < infos.len()
                    invariant
                        i <= infos@.len(),
                        self.protected_keys_list.view() == s0.union(info_keys(infos@.take(i as int))),
                        self.protected_keys.view() == protect_all(m0, infos@.take(i as int)),
                        self.keys.view() == old(self).keys.view(),
                        self.oracles.view() == old(self).oracles.view(),
                    decreases infos@.len() - i,
                {
                    proof {
                        lemma_info_keys_take(infos@, i as int);
                    }
                    let info = infos[i].duplicate();
                    let key = info.key.clone();
                    self.protected_keys.insert(key, info);
                    let _ = self.protected_keys_list.insert(infos[i].key.clone());
                    assert(self.protected_keys_list.view() =~= s0.union(info_keys(infos@.take(i + 1))));
                    i = i + 1;
                }
                assert(infos@.take(infos@.len() as int) =~= infos@);
            },
            RegistryOperation::RemoveProtection { keys } => {
                Self::remove_all(&mut self.protected_keys_list, &mut self.protected_keys, &keys);
            },
        }
        Ok(())
    }

    /// Sets the expected price of a protected key; an unprotected key is an
    /// error: "Can't update price for unprotected key `key`."
    pub fn update_protected_key(&mut self, key: &String, price: Uint256) -> (r: StdResult<()>)
        ensures
            r is Ok <==> old(self).protected_keys.view().dom().contains(key@),
            r is Ok ==> final(self).protected_keys.view() == old(self).protected_keys.view().insert(
                key@,
                ProtectedKeyInfo { price, ..old(self).protected_keys.view()[key@] },
            ),
            r is Err ==> final(self).protected_keys.view() == old(self).protected_keys.view(),
            r matches Err(e) ==> e.is_generic(
                "Can't update price for unprotected key "@ + key@ + "."@,
            ),
            final(self).keys.view() == old(self).keys.view(),
            final(self).oracles.view() == old(self).oracles.view(),
            final(self).protected_keys_list.view() == old(self).protected_keys_list.view(),
    {
        match self.protected_keys.get(key) {
            None => {
                let prefix = String::from_str("Can't update price for unprotected key ");
                let msg = prefix.concat(key.as_str()).concat(".");
                Err(StdError::GenericErr { msg })
            },
            Some(info) => {
                let updated = ProtectedKeyInfo { key: info.key.clone(), deviation: info.deviation, price };
                self.protected_keys.insert(key.clone(), updated);
                Ok(())
            },
        }
    }

    /// Checks a reported price against the protection of its key, if it has
    /// one.
    pub fn try_deviation_test(&self, price: &OraclePrice) -> (r: StdResult<()>)
        requires
            self.protected_keys.view().dom().contains(price.key@) ==> deviation_computable(
                self.protected_keys.view()[price.key@],
                price.data.rate@,
            ),
        ensures
            r is Ok <==> (!self.protected_keys.view().dom().contains(price.key@) || within_deviation(
                self.protected_keys.view()[price.key@],
                price.data.rate@,
            )),
            r matches Err(e) ==> {
                let info = self.protected_keys.view()[price.key@];
                e == StdError::ProtectedPriceDeviation {
                    actual: price.data.rate,
                    expected: info.price,
                    deviation: info.deviation,
                    actual_deviation: e->actual_deviation,
                } && e->actual_deviation@ == abs_diff_spec(info.price@, price.data.rate@)
                    * decimal_unit() / info.price@
            },
    {
        match self.protected_keys.get(&price.key) {
            None => Ok(()),
            Some(info) => {
                let rate = price.data.rate;
                let abs_diff = info.price.abs_diff(&rate);
                if abs_diff.is_zero() {
                    Ok(())
                } else {
                    let deviation = Decimal256::from_ratio(&abs_diff, &info.price);
                    if deviation.gt(&info.deviation) {
                        Err(StdError::ProtectedPriceDeviation {
                            actual: rate,
                            expected: info.price,
                            deviation: info.deviation,
                            actual_deviation: deviation,
                        })
                    } else {
                        Ok(())
                    }
                }
            },
        }
    }

    /// `info` is the protection of a listed protected key.
    pub open spec fn is_listed_protection(&self, info: ProtectedKeyInfo) -> bool {
        exists|k: Seq<char>|
            #![trigger self.protected_keys.view()[k]]
            self.protected_keys_list.view().contains(k) && self.protected_keys.view().dom().contains(k)
                && info == self.protected_keys.view()[k]
    }

    /// The protections of the listed protected keys that have one, in the
    /// order of the list.
    pub fn get_protected_keys(&self) -> (r: Vec<ProtectedKeyInfo>)
        ensures
            forall|j: int| 0 <= j < r@.len() ==> self.is_listed_protection(#[trigger] r@[j]),
            forall|k: Seq<char>| #[trigger] self.protected_keys_list.view().contains(k)
                && self.protected_keys.view().dom().contains(k) ==> r@.contains(
                self.protected_keys.view()[k],
            ),
    {
        let n = self.protected_keys_list.len();
        let mut out: Vec<ProtectedKeyInfo> = Vec::new();
        let mut i: usize = 0;
        while i < n
            invariant
                i <= n,
                n == self.protected_keys_list.key_seq().len(),
                forall|k: Seq<char>| self.protected_keys_list.key_seq().contains(k)
                    <==> #[trigger] self.protected_keys_list.view().contains(k),
                forall|j: int| 0 <= j < out@.len() ==> self.is_listed_protection(#[trigger] out@[j]),
                forall|j: int| 0 <= j < i ==> self.protected_keys.view().dom().contains(
                    #[trigger] self.protected_keys_list.key_seq()[j],
                ) ==> out@.contains(self.protected_keys.view()[self.protected_keys_list.key_seq()[j]]),
            decreases n - i,
        {
            let key = self.protected_keys_list.key_at(i);
            let ghost before = out@;
            match self.protected_keys.get(key) {
                Some(info) => {
                    out.push(info.duplicate());
                    proof {
                        let last = out@[before.len() as int];
                        assert(last == self.protected_keys.view()[key@]);
                        assert(self.is_listed_protection(last));
                        assert forall|j: int| 0 <= j < out@.len() implies self.is_listed_protection(#[trigger] out@[j]) by {
                            if j < before.len() {
                                assert(out@[j] == before[j]);
                            }
                        }
                        assert forall|j: int| 0 <= j < i + 1 && self.protected_keys.view().dom().contains(
                            #[trigger] self.protected_keys_list.key_seq()[j]) implies out@.contains(
                            self.protected_keys.view()[self.protected_keys_list.key_seq()[j]]) by {
                            if j < i {
                                let v = self.protected_keys.view()[self.protected_keys_list.key_seq()[j]];
                                assert(before.contains(v));
                                let w = choose|w: int| 0 <= w < before.len() && before[w] == v;
                                assert(out@[w] == v);
                            } else {
                                assert(out@[before.len() as int] == self.protected_keys.view()[key@]);
                            }
                        }
                    }
                },
                None => {},
            }
            i = i + 1;
        }
        proof {
            assert forall|k: Seq<char>| #[trigger] self.protected_keys_list.view().contains(k)
                && self.protected_keys.view().dom().contains(k) implies out@.contains(
                self.protected_keys.view()[k]) by {
                assert(self.protected_keys_list.key_seq().contains(k));
                let j = choose|j: int| 0 <= j < self.protected_keys_list.key_seq().len()
                    && self.protected_keys_list.key_seq()[j] == k;
            }
        }
        out
    }
}

/// Every change to the registry keeps the list of keys equal to the set of
/// keys with an oracle, and the list of protected keys equal to the set of
/// keys with a protection.
pub proof fn lemma_registry_stays_consistent(before: RouterStore, after: RouterStore, operation: RegistryOperation)
    requires
        before.consistent(),
        match operation {
            RegistryOperation::RemoveKeys { keys } => {
                &&& after.keys.view() == before.keys.view().difference(set_of(keys@))
                &&& after.oracles.view() == before.oracles.view().remove_keys(set_of(keys@))
                &&& after.protected_keys_list.view() == before.protected_keys_list.view()
                &&& after.protected_keys.view() == before.protected_keys.view()
            },
            RegistryOperation::SetKeys { oracle, keys } => {
                &&& after.keys.view() == before.keys.view().union(set_of(keys@))
                &&& after.oracles.view() == assign_keys(before.oracles.view(), keys@, oracle)
                &&& after.protected_keys_list.view() == before.protected_keys_list.view()
                &&& after.protected_keys.view() == before.protected_keys.view()
            },
            RegistryOperation::SetProtection { infos } => {
                &&& after.keys.view() == before.keys.view()
                &&& after.oracles.view() == before.oracles.view()
                &&& after.protected_keys_list.view() == before.protected_keys_list.view().union(info_keys(infos@))
                &&& after.protected_keys.view() == protect_all(before.protected_keys.view(), infos@)
            },
            RegistryOperation::RemoveProtection { keys } => {
                &&& after.keys.view() == before.keys.view()
                &&& after.oracles.view() == before.oracles.view()
                &&& after.protected_keys_list.view() == before.protected_keys_list.view().difference(set_of(keys@))
                &&& after.protected_keys.view() == before.protected_keys.view().remove_keys(set_of(keys@))
            },
        },
    ensures
        after.consistent(),
{
    match operation {
        RegistryOperation::RemoveKeys { keys } => {
            assert(after.keys.view() =~= after.oracles.view().dom());
        },
        RegistryOperation::SetKeys { oracle, keys } => {
            assert(after.keys.view() =~= after.oracles.view().dom());
        },
        RegistryOperation::SetProtection { infos } => {
            lemma_protect_all_dom(before.protected_keys.view(), infos@);
            assert(after.protected_keys_list.view() =~= after.protected_keys.view().dom());
        },
        RegistryOperation::RemoveProtection { keys } => {
            assert(after.protected_keys_list.view() =~= after.protected_keys.view().dom());
        },
    }
}

/// The registry reads back what was written: a key set to an oracle
/// answers with that oracle, a removed key falls back to the router itself,
/// and every other key keeps its oracle.
pub proof fn lemma_registry_read_after_write(
    m: Map<Seq<char>, Contract>,
    this: Contract,
    keys: Seq<String>,
    oracle: Contract,
    k: Seq<char>,
)
    ensures
        set_of(keys).contains(k) ==> oracle_for(assign_keys(m, keys, oracle), this, k) == oracle,
        set_of(keys).contains(k) ==> oracle_for(m.remove_keys(set_of(keys)), this, k) == this,
        !set_of(keys).contains(k) ==> oracle_for(assign_keys(m, keys, oracle), this, k) == oracle_for(m, this, k),
        !set_of(keys).contains(k) ==> oracle_for(m.remove_keys(set_of(keys)), this, k) == oracle_for(m, this, k),
{
}

/// Storing a list of protections adds exactly their keys.
proof fn lemma_protect_all_dom(m: Map<Seq<char>, ProtectedKeyInfo>, infos: Seq<ProtectedKeyInfo>)
    ensures
        protect_all(m, infos).dom() == m.dom().union(info_keys(infos)),
    decreases infos.len(),
{
    if infos.len() > 0 {
        lemma_protect_all_dom(m, infos.drop_last());
        lemma_info_keys_take(infos, infos.len() - 1);
        assert(infos.take(infos.len() - 1) =~= infos.drop_last());
        assert(infos.take(infos.len() as int) =~= infos);
        assert(protect_all(m, infos).dom() =~= m.dom().union(info_keys(infos)));
    } else {
        assert(info_keys(infos) =~= Set::<Seq<char>>::empty());
        assert(protect_all(m, infos).dom() =~= m.dom().union(info_keys(infos)));
    }
}

/// The oracles that answer for a list of keys, each with the keys it answers
/// for: `oracles[i]` answers for `keys[i]`.
pub struct OracleGroups {
    pub oracles: Vec<Contract>,
    pub keys: Vec<Vec<String>>,
}

/// Some oracle of the list is `c`.
pub open spec fn has_oracle(oracles: Seq<Contract>, c: Contract) -> bool {
    exists|a: int| 0 <= a < oracles.len() && #[trigger] oracles[a].same(&c)
}

/// `c` answers for some key of `keys`.
pub open spec fn answers_some_key(oracles: Map<Seq<char>, Contract>, this: Contract, keys: Seq<String>, c: Contract) -> bool {
    exists|i: int| 0 <= i < keys.len() && #[trigger] oracle_for(oracles, this, keys[i]@).same(&c)
}

/// The keys of `keys` that `c` answers for, in their order.
pub open spec fn keys_of_oracle(oracles: Map<Seq<char>, Contract>, this: Contract, keys: Seq<Seq<char>>, c: Contract) -> Seq<Seq<char>> {
    keys.filter(|k: Seq<char>| oracle_for(oracles, this, k).same(&c))
}

impl OracleRouter {
    /// The oracle that answers for `key`: the registered one, else the
    /// router itself.
    pub fn get_oracle(&self, store: &RouterStore, key: &String) -> (r: StdResult<Contract>)
        ensures
            r matches Ok(c) && c == oracle_for(store.oracles.view(), self.config.this, key@),
    {
        match Oracle::may_load(store, key) {
            Some(contract) => Ok(contract),
            None => Ok(self.config.this.duplicate()),
        }
    }

    /// Groups the keys by the oracle that answers for them: one group per
    /// distinct oracle, in the order of first appearance, each with its keys
    /// in their order.
    pub fn group_keys_by_oracle(&self, store: &RouterStore, keys: &Vec<String>) -> (r: StdResult<OracleGroups>)
        ensures
            r matches Ok(g) && {
                let m = store.oracles.view();
                let this = self.config.this;
                &&& g.oracles@.len() == g.keys@.len()
                &&& forall|a: int, b: int| #![trigger g.oracles@[a], g.oracles@[b]]
                    0 <= a < g.oracles@.len() && 0 <= b < g.oracles@.len() && a != b
                    ==> !g.oracles@[a].same(&g.oracles@[b])
                &&& forall|a: int| 0 <= a < g.oracles@.len() ==> strings_view(#[trigger] g.keys@[a]@)
                    == keys_of_oracle(m, this, strings_view(keys@), g.oracles@[a])
                &&& forall|a: int| 0 <= a < g.oracles@.len() ==> answers_some_key(m, this, keys@, #[trigger] g.oracles@[a])
                &&& forall|i: int| 0 <= i < keys@.len() ==> has_oracle(
                    g.oracles@,
                    oracle_for(m, this, #[trigger] keys@[i]@),
                )
            },
    {
        let ghost m = store.oracles.view();
        let ghost this = self.config.this;
        let mut oracles: Vec<Contract> = Vec::new();
        let mut lists: Vec<Vec<String>> = Vec::new();
        let mut i: usize = 0;
        while i < keys.len()
            invariant
                i <= keys@.len(),
                m == store.oracles.view(),
                this == self.config.this,
                oracles@.len() == lists@.len(),
                forall|a: int, b: int| #![trigger oracles@[a], oracles@[b]]
                    0 <= a < oracles@.len() && 0 <= b < oracles@.len() && a != b
                    ==> !oracles@[a].same(&oracles@[b]),
                forall|a: int| 0 <= a < oracles@.len() ==> strings_view(#[trigger] lists@[a]@)
                    == keys_of_oracle(m, this, strings_view(keys@.take(i as int)), oracles@[a]),
                forall|a: int| 0 <= a < oracles@.len() ==> answers_some_key(m, this, keys@, #[trigger] oracles@[a]),
                forall|j: int| 0 <= j < i ==> has_oracle(oracles@, oracle_for(m, this, #[trigger] keys@[j]@)),
            decreases keys@.len() - i,
        {
            let key = &keys[i];
            let oracle = self.get_oracle(store, key).unwrap();
            let ghost ks = strings_view(keys@.take(i as int));
            let ghost pred = |k: Seq<char>| oracle_for(m, this, k).same(&oracle);
            proof {
                lemma_set_of_take(keys@, i as int);
            }
            let mut found: Option<usize> = None;
            let mut a: usize = 0;
            while a < oracles.len()
                invariant
                    a <= oracles@.len(),
                    found matches Some(f) ==> f < oracles@.len() && oracles@[f as int].same(&oracle),
                    found is None ==> forall|b: int| 0 <= b < a ==> !(#[trigger] oracles@[b]).same(&oracle),
                decreases oracles@.len() - a,
            {
                if found.is_none() && oracles[a].equals(&oracle) {
                    found = Some(a);
                }
                a = a + 1;
            }
            let ghost o_before = oracles@;
            let ghost l_before = lists@;
            match found {
                Some(f) => {
                    let mut list = lists.remove(f);
                    list.push(key.clone());
                    lists.insert(f, list);
                    proof {
                        assert forall|b: int| 0 <= b < oracles@.len() implies strings_view(#[trigger] lists@[b]@)
                            == keys_of_oracle(m, this, strings_view(keys@.take(i + 1)), oracles@[b]) by {
                            let pb = |k: Seq<char>| oracle_for(m, this, k).same(&oracles@[b]);
                            ks.lemma_filter_push(key@, pb);
                            if b == f {
                                assert(lists@[b]@ == l_before[b]@.push(*key));
                                assert(strings_view(lists@[b]@) =~= strings_view(l_before[b]@).push(key@));
                            } else {
                                assert(lists@[b] == l_before[b]);
                                assert(!oracles@[b].same(&oracle_for(m, this, key@)));
                            }
                        }
                        assert forall|j: int| 0 <= j < i + 1 implies has_oracle(
                            oracles@,
                            oracle_for(m, this, #[trigger] keys@[j]@),
                        ) by {
                            if j == i {
                                assert(oracles@[f as int].same(&oracle_for(m, this, keys@[j]@)));
                            } else {
                                let c = choose|c: int| 0 <= c < o_before.len() && #[trigger] o_before[c].same(
                                    &oracle_for(m, this, keys@[j]@),
                                );
                                assert(has_oracle(o_before, oracle_for(m, this, keys@[j]@)));
                                assert(oracles@[c] == o_before[c]);
                            }
                        }
                    }
                },
                None => {
                    let mut list: Vec<String> = Vec::new();
                    list.push(key.clone());
                    oracles.push(oracle.duplicate());
                    lists.push(list);
                    proof {
                        let n = o_before.len() as int;
                        assert(answers_some_key(m, this, keys@, oracles@[n])) by {
                            assert(oracle_for(m, this, keys@[i as int]@).same(&oracles@[n]));
                        }
                        assert forall|a: int| 0 <= a < oracles@.len() implies answers_some_key(m, this, keys@, #[trigger] oracles@[a]) by {
                            if a < n {
                                assert(oracles@[a] == o_before[a]);
                            }
                        }
                        assert forall|b: int| 0 <= b < oracles@.len() implies strings_view(#[trigger] lists@[b]@)
                            == keys_of_oracle(m, this, strings_view(keys@.take(i + 1)), oracles@[b]) by {
                            let pb = |k: Seq<char>| oracle_for(m, this, k).same(&oracles@[b]);
                            ks.lemma_filter_push(key@, pb);
                            if b == n {
                                assert forall|j: int| 0 <= j < ks.len() implies !pb(#[trigger] ks[j]) by {
                                    assert(ks[j] == keys@[j]@);
                                    let c = choose|c: int| 0 <= c < o_before.len() && #[trigger] o_before[c].same(
                                        &oracle_for(m, this, keys@[j]@),
                                    );
                                    assert(!o_before[c].same(&oracle));
                                }
                                ks.lemma_all_neg_filter_empty(pb);
                                assert(strings_view(lists@[b]@) =~= seq![key@]);
                            } else {
                                assert(lists@[b] == l_before[b]);
                                assert(oracles@[b] == o_before[b]);
                                assert(!oracles@[b].same(&oracle_for(m, this, key@)));
                            }
                        }
                        assert forall|j: int| 0 <= j < i + 1 implies has_oracle(
                            oracles@,
                            oracle_for(m, this, #[trigger] keys@[j]@),
                        ) by {
                            if j == i {
                                assert(oracles@[n].same(&oracle_for(m, this, keys@[j]@)));
                            } else {
                                let c = choose|c: int| 0 <= c < o_before.len() && #[trigger] o_before[c].same(
                                    &oracle_for(m, this, keys@[j]@),
                                );
                                assert(has_oracle(o_before, oracle_for(m, this, keys@[j]@)));
                                assert(oracles@[c] == o_before[c]);
                            }
                        }
                    }
                },
            }
            i = i + 1;
        }
        proof {
            assert(keys@.take(keys@.len() as int) =~= keys@);
        }
        Ok(OracleGroups { oracles, keys: lists })
    }

    /// The configuration with the given changes; the contracts in `config`
    /// have been validated.
    pub fn update_config(self, config: UpdateConfig) -> (r: StdResult<Self>)
        ensures
            r matches Ok(s) && {
                &&& s.config.this == self.config.this
                &&& s.config.admin_auth == (match config.admin_auth {
                    Some(a) => a,
                    None => self.config.admin_auth,
                })
                &&& s.config.provider == (match config.provider {
                    Some(p) => p,
                    None => self.config.provider,
                })
                &&& s.config.quote_symbol == (match config.quote_symbol {
                    Some(q) => q,
                    None => self.config.quote_symbol,
                })
            },
    {
        let mut new_config = self.config;
        if let Some(admin_auth) = config.admin_auth {
            new_config.admin_auth = admin_auth;
        }
        if let Some(provider) = config.provider {
            new_config.provider = provider;
        }
        new_config.quote_symbol = match config.quote_symbol {
            Some(q) => q,
            None => new_config.quote_symbol,
        };
        Ok(OracleRouter { config: new_config })
    }

    /// The symbol pair that the provider is asked for `key`: the key against
    /// the router's quote symbol.
    pub fn provider_symbol_pair(&self, key: &String) -> (r: (String, String))
        ensures
            r.0 == *key,
            r.1 == self.config.quote_symbol,
    {
        (key.clone(), self.config.quote_symbol.clone())
    }

    /// The symbol pairs that the provider is asked for `keys`, in order.
    pub fn provider_symbol_pairs(&self, keys: &Vec<String>) -> (r: Vec<(String, String)>)
        ensures
            r@.len() == keys@.len(),
            forall|i: int| 0 <= i < keys@.len() ==> #[trigger] r@[i] == (keys@[i], self.config.quote_symbol),
    {
        let mut pairs: Vec<(String, String)> = Vec::new();
        let mut i: usize = 0;
        while i < keys.len()
            invariant
                i <= keys@.len(),
                pairs@.len() == i,
                forall|j: int| 0 <= j < i ==> #[trigger] pairs@[j] == (keys@[j], self.config.quote_symbol),
            decreases keys@.len() - i,
        {
            pairs.push(self.provider_symbol_pair(&keys[i]));
            i = i + 1;
        }
        pairs
    }

    /// The price of each key from the provider's answer for its symbol pair:
    /// `data[i]` answers for `keys[i]`.
    pub fn provider_prices(keys: &Vec<String>, data: &Vec<ReferenceData>) -> (r: Vec<OraclePrice>)
        requires
            keys@.len() <= data@.len(),
        ensures
            r@.len() == keys@.len(),
            forall|i: int| 0 <= i < keys@.len() ==> #[trigger] r@[i] == (OraclePrice { key: keys@[i], data: data@[i] }),
    {
        let mut prices: Vec<OraclePrice> = Vec::new();
        let mut i: usize = 0;
        while i < keys.len()
            invariant
                i <= keys@.len() <= data@.len(),
                prices@.len() == i,
                forall|j: int| 0 <= j < i ==> #[trigger] prices@[j] == (OraclePrice { key: keys@[j], data: data@[j] }),
            decreases keys@.len() - i,
        {
            prices.push(OraclePrice::new(keys[i].clone(), data[i]));
            i = i + 1;
        }
        prices
    }
}

impl GlobalStatus<OracleRouterError> for OracleRouter {
    open spec fn normal_error(&self) -> OracleRouterError {
        OracleRouterError::Normal
    }

    open spec fn deprecated_error(&self) -> OracleRouterError {
        OracleRouterError::Deprecated
    }

    open spec fn frozen_error(&self) -> OracleRouterError {
        OracleRouterError::Frozen
    }

    open spec fn is_not_found_error(&self, e: OracleRouterError) -> bool {
        e matches OracleRouterError::Std(StdError::NotFound { kind }) && kind@ == "global status"@
    }

    fn normal_err(&self) -> (e: OracleRouterError)
        ensures
            e == OracleRouterError::Normal,
    {
        OracleRouterError::Normal
    }

    fn deprecated_err(&self) -> (e: OracleRouterError)
        ensures
            e == OracleRouterError::Deprecated,
    {
        OracleRouterError::Deprecated
    }

    fn frozen_err(&self) -> (e: OracleRouterError)
        ensures
            e == OracleRouterError::Frozen,
    {
        OracleRouterError::Frozen
    }

    fn not_found(&self) -> (e: OracleRouterError)
        ensures
            e matches OracleRouterError::Std(StdError::NotFound { kind }) && kind@ == "global status"@,
    {
        OracleRouterError::Std(StdError::NotFound { kind: String::from_str("global status") })
    }
}

} // verus!
