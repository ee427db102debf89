//! Oracle for a pegged asset whose target value is derived from an index of assets
//!
pub mod error;
pub mod msg;

use vstd::prelude::*;
use vstd::string::*;
use crate::common::{Contract, StdError, StdResult};
use crate::common::status::{ContractStatus, GlobalStatus};
use crate::common::math::{muldiv, muldiv18, bankers_round, muldiv_ok, muldiv_spec, muldiv_err, bankers_round_spec, lemma_fixed_weight_reproduces_share};
use crate::collections::{StrMap, strings_view, contains_string, position_of, lemma_swap_remove_unique};
use crate::num::{Uint256, Decimal256, u256_limit, decimal_unit};
use crate::interfaces::common::OraclePrice;
use crate::interfaces::providers::ReferenceData;
use self::error::{IndexOracleError, IndexOracleResult};
use self::msg::InitialBasketItem;

verus! {

pub const SIX_HOURS: u64 = 21600u64;

#[derive(Clone, Debug)]
pub struct IndexOracleConfig {
    /// The only supported symbol of this oracle.
    /// Represents the index asset (i.e. "SILK").
    pub symbol: String,
    pub router: Contract,
    /// The time difference between now and when the price feeds were last updated where we consider the price feeds to have gone stale.
    pub when_stale: u64,
    pub deviation_threshold: Decimal256,
}

/// Symbol of an index asset
pub type AssetSymbol = String;

/// List of all the index asset symbols
pub struct AssetSymbols;

/// The initial weight and computed fixed weight of an asset.
#[derive(Clone, Copy, Debug)]
pub struct AssetWeights {
    /// Initial weight of the asset (out of 100%)
    pub initial: Decimal256,
    /// Fixed weight of the asset with respect to its value and percentage of peg
    pub fixed: Decimal256,
}

/// The weights of an asset as plain 18-decimal numbers, for math.
#[derive(Clone, Copy, Debug)]
pub struct BtrAssetWeights {
    pub initial: Uint256,
    pub fixed: Uint256,
}

/// The peg of the basket token
#[derive(Clone, Copy, Debug)]
pub struct Peg {
    /// Target value of the peg
    pub target: Uint256,
    /// Peg price of the index asset
    pub value: Uint256,
    /// Whether or not this value is frozen
    pub frozen: bool,
    /// When this value was last updated (in seconds)
    pub last_updated: u64,
}

/// The peg, in the form used for math.
#[derive(Clone, Copy, Debug)]
pub struct BtrPeg {
    pub target: Uint256,
    pub value: Uint256,
    pub frozen: bool,
    pub last_updated: u64,
}

impl BtrAssetWeights {
    pub fn new(initial: Uint256, fixed: Uint256) -> (r: Self)
        ensures
            r.initial == initial,
            r.fixed == fixed,
    {
        BtrAssetWeights { initial, fixed }
    }

    pub fn from_weights(w: AssetWeights) -> (r: Self)
        ensures
            r.initial@ == w.initial@,
            r.fixed@ == w.fixed@,
    {
        BtrAssetWeights { initial: w.initial.atomics(), fixed: w.fixed.atomics() }
    }

    pub fn into_weights(self) -> (r: AssetWeights)
        ensures
            r.initial@ == self.initial@,
            r.fixed@ == self.fixed@,
    {
        AssetWeights { initial: Decimal256::new(self.initial), fixed: Decimal256::new(self.fixed) }
    }
}

impl BtrPeg {
    pub fn new(target: Uint256, value: Uint256, frozen: bool, last_updated: u64) -> (r: Self)
        ensures
            r == (BtrPeg { target, value, frozen, last_updated }),
    {
        BtrPeg { target, value, frozen, last_updated }
    }

    pub fn into_peg(self) -> (r: Peg)
        ensures
            r == (Peg {
                target: self.target,
                value: self.value,
                frozen: self.frozen,
                last_updated: self.last_updated,
            }),
    {
        Peg { target: self.target, value: self.value, frozen: self.frozen, last_updated: self.last_updated }
    }
}

// ---------------------------------------------------------------------
// The mathematical model of the basket.
// ---------------------------------------------------------------------

/// The basket as a map from symbol to (initial weight, fixed weight).
pub open spec fn weights_view(b: Map<Seq<char>, BtrAssetWeights>) -> Map<Seq<char>, (nat, nat)> {
    b.map_values(|w: BtrAssetWeights| (w.initial@, w.fixed@))
}

/// The sum of the initial weights of a basket.
pub open spec fn initial_total(m: Map<Seq<char>, (nat, nat)>) -> nat {
    m.dom().fold(0nat, |acc: nat, k: Seq<char>| acc + m[k].0)
}

/// The symbols of a list of basket items.
pub open spec fn item_keys(items: Seq<InitialBasketItem>) -> Seq<Seq<char>> {
    items.map_values(|e: InitialBasketItem| e.0@)
}

/// The sum of the weights of a list of basket items.
pub open spec fn items_total(items: Seq<InitialBasketItem>) -> nat
    decreases items.len(),
{
    if items.len() == 0 {
        0
    } else {
        items_total(items.drop_last()) + items.last().1@
    }
}

/// The basket that a list of items with distinct symbols sets up: each
/// symbol with its weight as initial weight and a zero fixed weight.
pub open spec fn init_basket(items: Seq<InitialBasketItem>) -> Map<Seq<char>, (nat, nat)>
    decreases items.len(),
{
    if items.len() == 0 {
        Map::empty()
    } else {
        init_basket(items.drop_last()).insert(items.last().0@, (items.last().1@, 0nat))
    }
}

/// What a change of the basket acts on: the ordered symbols, the weights,
/// and the symbols newly added so far.
pub struct BasketState {
    pub symbols: Seq<Seq<char>>,
    pub weights: Map<Seq<char>, (nat, nat)>,
    pub added: Seq<Seq<char>>,
}

/// Removes the element at `i` by moving the last element into its place.
pub open spec fn swap_remove_spec<A>(s: Seq<A>, i: int) -> Seq<A> {
    s.update(i, s.last()).drop_last()
}

/// One item of a basket change: a symbol not yet in the basket with a
/// nonzero weight is added; a symbol in the basket with a zero weight is
/// removed; a nonzero weight becomes the initial weight of its symbol.
pub open spec fn mod_step(s: BasketState, k: Seq<char>, w: nat) -> BasketState {
    let in_basket = s.symbols.contains(k);
    let add = !in_basket && w != 0;
    let remove = in_basket && w == 0;
    let symbols1 = if add { s.symbols.push(k) } else { s.symbols };
    let added = if add { s.added.push(k) } else { s.added };
    let symbols2 = if remove { swap_remove_spec(symbols1, symbols1.index_of(k)) } else { symbols1 };
    let weights2 = if remove { s.weights.remove(k) } else { s.weights };
    let weights3 = if w != 0 {
        weights2.insert(k, (w, if weights2.dom().contains(k) { weights2[k].1 } else { 0 }))
    } else {
        weights2
    };
    BasketState { symbols: symbols2, weights: weights3, added }
}

/// The basket after a list of changes, one after another.
pub open spec fn mod_fold(s: BasketState, items: Seq<InitialBasketItem>) -> BasketState
    decreases items.len(),
{
    if items.len() == 0 {
        s
    } else {
        let prev = mod_fold(s, items.drop_last());
        mod_step(prev, items.last().0@, items.last().1@)
    }
}

/// Symbols without repeats that are exactly the keys of the weights.
pub open spec fn basket_consistent(symbols: Seq<Seq<char>>, weights: Map<Seq<char>, (nat, nat)>) -> bool {
    &&& symbols.no_duplicates()
    &&& symbols.to_set() == weights.dom()
}

/// Whether the fixed weight of the asset of `p` can be computed: the rate is
/// nonzero and `initial * value / rate` fits.
pub open spec fn fix_ok(m: Map<Seq<char>, (nat, nat)>, value: nat, p: OraclePrice) -> bool {
    muldiv_ok(m[p.key@].0, value, p.data.rate@)
}

/// Sets the fixed weight of the asset of `p` to `initial * value / rate`.
pub open spec fn fix_step(m: Map<Seq<char>, (nat, nat)>, value: nat, p: OraclePrice) -> Map<Seq<char>, (nat, nat)> {
    m.insert(p.key@, (m[p.key@].0, muldiv_spec(m[p.key@].0, value, p.data.rate@)))
}

pub open spec fn fix_fold(m: Map<Seq<char>, (nat, nat)>, value: nat, ps: Seq<OraclePrice>) -> Map<Seq<char>, (nat, nat)>
    decreases ps.len(),
{
    if ps.len() == 0 {
        m
    } else {
        fix_step(fix_fold(m, value, ps.drop_last()), value, ps.last())
    }
}

/// Every price of `ps` is of an asset of the basket.
pub open spec fn prices_in_basket(m: Map<Seq<char>, (nat, nat)>, ps: Seq<OraclePrice>) -> bool {
    forall|i: int| 0 <= i < ps.len() ==> m.dom().contains(#[trigger] ps[i].key@)
}


/// Weights that never overflow while the basket is set up: the sum of the
/// first `k` weights fits whenever no symbol repeats among the `k - 1`
/// before it.
pub open spec fn init_overflow_free(items: Seq<InitialBasketItem>) -> bool {
    forall|k: int|
        1 <= k <= items.len() && item_keys(items.take(k - 1)).no_duplicates() ==> #[trigger] items_total(
            items.take(k),
        ) < u256_limit()
}

proof fn lemma_items_prefix(items: Seq<InitialBasketItem>, i: int)
    requires
        0 <= i < items.len(),
    ensures
        items.take(i + 1).drop_last() == items.take(i),
        items.take(i + 1).last() == items[i],
        items_total(items.take(i + 1)) == items_total(items.take(i)) + items[i].1@,
        init_basket(items.take(i + 1)) == init_basket(items.take(i)).insert(items[i].0@, (items[i].1@, 0nat)),
        item_keys(items.take(i + 1)) == item_keys(items.take(i)).push(items[i].0@),
{
    assert(items.take(i + 1).drop_last() =~= items.take(i));
    assert(item_keys(items.take(i + 1)) =~= item_keys(items.take(i)).push(items[i].0@));
}

/// A sequence with one more element has no duplicates exactly when the
/// shorter one has none and does not hold the new element.
pub proof fn lemma_push_no_duplicates<A>(s: Seq<A>, x: A)
    ensures
        s.push(x).no_duplicates() <==> (s.no_duplicates() && !s.contains(x)),
{
    let t = s.push(x);
    if t.no_duplicates() {
        assert forall|a: int, b: int| 0 <= a < s.len() && 0 <= b < s.len() && a != b implies s[a] != s[b] by {
            assert(t[a] == s[a] && t[b] == s[b]);
        }
        if s.contains(x) {
            let a = choose|a: int| 0 <= a < s.len() && s[a] == x;
            assert(t[a] == t[s.len() as int]);
        }
    }
    if s.no_duplicates() && !s.contains(x) {
        assert forall|a: int, b: int| 0 <= a < t.len() && 0 <= b < t.len() && a != b implies t[a] != t[b] by {
            if a < s.len() && b < s.len() {
                assert(t[a] == s[a] && t[b] == s[b]);
            } else if a < s.len() {
                assert(t[a] == s[a]);
            } else {
                assert(t[b] == s[b]);
            }
        }
    }
}

proof fn lemma_weights_view_insert(m: Map<Seq<char>, BtrAssetWeights>, k: Seq<char>, w: BtrAssetWeights)
    ensures
        weights_view(m.insert(k, w)) == weights_view(m).insert(k, (w.initial@, w.fixed@)),
{
    assert(weights_view(m.insert(k, w)) =~= weights_view(m).insert(k, (w.initial@, w.fixed@)));
}

proof fn lemma_weights_view_remove(m: Map<Seq<char>, BtrAssetWeights>, k: Seq<char>)
    ensures
        weights_view(m.remove(k)) == weights_view(m).remove(k),
{
    assert(weights_view(m.remove(k)) =~= weights_view(m).remove(k));
}

/// The elements of a sequence with one more element.
pub proof fn lemma_push_to_set<A>(s: Seq<A>, x: A)
    ensures
        s.push(x).to_set() == s.to_set().insert(x),
{
    let t = s.push(x);
    assert forall|y: A| #[trigger] t.to_set().contains(y) <==> s.to_set().insert(x).contains(y) by {
        if t.contains(y) {
            let a = choose|a: int| 0 <= a < t.len() && t[a] == y;
            if a < s.len() {
                assert(s[a] == y);
            }
        }
        if s.contains(y) {
            let a = choose|a: int| 0 <= a < s.len() && s[a] == y;
            assert(t[a] == y);
        }
        if y == x {
            assert(t[s.len() as int] == y);
        }
    }
    assert(t.to_set() =~= s.to_set().insert(x));
}

proof fn lemma_prefix_duplicates(items: Seq<InitialBasketItem>, k: int)
    requires
        0 <= k <= items.len(),
        !item_keys(items.take(k)).no_duplicates(),
    ensures
        !item_keys(items).no_duplicates(),
{
    let p = item_keys(items.take(k));
    let (a, b) = choose|a: int, b: int| 0 <= a < p.len() && 0 <= b < p.len() && a != b && p[a] == p[b];
    assert(item_keys(items)[a] == p[a]);
    assert(item_keys(items)[b] == p[b]);
}

/// The price of the asset of `p` weighted by its fixed weight:
/// `fixed * rate / 10^18`.
pub open spec fn target_term(m: Map<Seq<char>, (nat, nat)>, p: OraclePrice) -> nat {
    muldiv_spec(m[p.key@].1, p.data.rate@, decimal_unit())
}

pub open spec fn target_ok(m: Map<Seq<char>, (nat, nat)>, p: OraclePrice) -> bool {
    muldiv_ok(m[p.key@].1, p.data.rate@, decimal_unit())
}

pub open spec fn all_target_ok(m: Map<Seq<char>, (nat, nat)>, ps: Seq<OraclePrice>) -> bool {
    forall|i: int| 0 <= i < ps.len() ==> target_ok(m, #[trigger] ps[i])
}

/// The sum of the weighted prices.
pub open spec fn target_sum(m: Map<Seq<char>, (nat, nat)>, ps: Seq<OraclePrice>) -> nat
    decreases ps.len(),
{
    if ps.len() == 0 {
        0
    } else {
        target_sum(m, ps.drop_last()) + target_term(m, ps.last())
    }
}

/// The value of the index for these prices: the sum of the weighted prices,
/// rounded to 9 decimal places.
pub open spec fn target_value(m: Map<Seq<char>, (nat, nat)>, ps: Seq<OraclePrice>) -> nat {
    bankers_round_spec(target_sum(m, ps), 9)
}

/// What computing the index needs of the prices to never overflow: each
/// running sum fits where its terms do, and so does the rounded total.
pub open spec fn target_computable(m: Map<Seq<char>, (nat, nat)>, ps: Seq<OraclePrice>) -> bool {
    &&& prices_in_basket(m, ps)
    &&& forall|k: int|
        1 <= k <= ps.len() && all_target_ok(m, ps.take(k)) ==> #[trigger] target_sum(m, ps.take(k))
            < u256_limit()
    &&& all_target_ok(m, ps) ==> target_value(m, ps) < u256_limit()
}

pub open spec fn min_u64(a: u64, b: u64) -> u64 {
    if a <= b {
        a
    } else {
        b
    }
}

/// The oldest base update of the prices, and `now` where that is older.
pub open spec fn oldest_base(ps: Seq<OraclePrice>, now: u64) -> u64
    decreases ps.len(),
{
    if ps.len() == 0 {
        now
    } else {
        min_u64(oldest_base(ps.drop_last(), now), ps.last().data.last_updated_base)
    }
}

/// The oldest quote update of the prices, and `now` where that is older.
pub open spec fn oldest_quote(ps: Seq<OraclePrice>, now: u64) -> u64
    decreases ps.len(),
{
    if ps.len() == 0 {
        now
    } else {
        min_u64(oldest_quote(ps.drop_last(), now), ps.last().data.last_updated_quote)
    }
}

/// When the price feeds were last updated: the oldest update among them.
pub open spec fn feeds_updated(ps: Seq<OraclePrice>, now: u64) -> u64 {
    min_u64(oldest_base(ps, now), oldest_quote(ps, now))
}

/// The time the feeds were last updated is no later than now nor than the
/// base or quote update of any price of the feed: one stale price makes the
/// whole feed stale.
pub proof fn lemma_feeds_updated_is_oldest(ps: Seq<OraclePrice>, now: u64)
    ensures
        feeds_updated(ps, now) <= now,
        forall|i: int| 0 <= i < ps.len() ==> feeds_updated(ps, now) <= (#[trigger] ps[i]).data.last_updated_base
            && feeds_updated(ps, now) <= ps[i].data.last_updated_quote,
    decreases ps.len(),
{
    if ps.len() > 0 {
        let d = ps.drop_last();
        lemma_feeds_updated_is_oldest(d, now);
        lemma_oldest_le_now(d, now);
        assert forall|i: int| 0 <= i < ps.len() implies feeds_updated(ps, now) <= (#[trigger] ps[i]).data.last_updated_base
            && feeds_updated(ps, now) <= ps[i].data.last_updated_quote by {
            if i < d.len() {
                assert(d[i] == ps[i]);
                lemma_oldest_bounds(d, now, i);
            } else {
                assert(ps[i] == ps.last());
            }
        }
    }
}

/// Each oldest update is no later than the update of any price.
proof fn lemma_oldest_bounds(ps: Seq<OraclePrice>, now: u64, i: int)
    requires
        0 <= i < ps.len(),
    ensures
        oldest_base(ps, now) <= ps[i].data.last_updated_base,
        oldest_quote(ps, now) <= ps[i].data.last_updated_quote,
    decreases ps.len(),
{
    if i < ps.len() - 1 {
        lemma_oldest_bounds(ps.drop_last(), now, i);
        assert(ps.drop_last()[i] == ps[i]);
    }
}

/// A price older than the staleness limit makes the feed stale, and so
/// freezes the peg that `compute_peg` values at that feed.
pub proof fn lemma_one_stale_price_makes_the_feed_stale(ps: Seq<OraclePrice>, now: u64, when_stale: u64, i: int)
    requires
        0 <= i < ps.len(),
        now - ps[i].data.last_updated_base > when_stale || now - ps[i].data.last_updated_quote > when_stale,
    ensures
        now - feeds_updated(ps, now) > when_stale,
{
    lemma_feeds_updated_is_oldest(ps, now);
    assert(feeds_updated(ps, now) <= ps[i].data.last_updated_base);
}

proof fn lemma_oldest_le_now(ps: Seq<OraclePrice>, now: u64)
    ensures
        oldest_base(ps, now) <= now,
        oldest_quote(ps, now) <= now,
    decreases ps.len(),
{
    if ps.len() > 0 {
        lemma_oldest_le_now(ps.drop_last(), now);
    }
}

proof fn lemma_prices_prefix(ps: Seq<OraclePrice>, i: int)
    requires
        0 <= i < ps.len(),
    ensures
        ps.take(i + 1).drop_last() == ps.take(i),
        ps.take(i + 1).last() == ps[i],
{
    assert(ps.take(i + 1).drop_last() =~= ps.take(i));
}

/// The fixed weights leave the assets and their initial weights alone.
proof fn lemma_fix_fold_shape(m: Map<Seq<char>, (nat, nat)>, v: nat, ps: Seq<OraclePrice>)
    requires
        prices_in_basket(m, ps),
    ensures
        fix_fold(m, v, ps).dom() == m.dom(),
        forall|k: Seq<char>| #[trigger] m.dom().contains(k) ==> fix_fold(m, v, ps)[k].0 == m[k].0,
    decreases ps.len(),
{
    if ps.len() > 0 {
        assert(prices_in_basket(m, ps.drop_last()));
        lemma_fix_fold_shape(m, v, ps.drop_last());
        let prev = fix_fold(m, v, ps.drop_last());
        assert(m.dom().contains(ps[ps.len() - 1].key@));
        assert(fix_fold(m, v, ps).dom() =~= m.dom());
    }
}

/// The weight of an asset after a rollback, before normalization:
/// `fixed * rate / target`.
pub open spec fn rollback_term(m: Map<Seq<char>, (nat, nat)>, p: OraclePrice, target: nat) -> nat {
    muldiv_spec(m[p.key@].1, p.data.rate@, target)
}

pub open spec fn rollback_ok(m: Map<Seq<char>, (nat, nat)>, ps: Seq<OraclePrice>, target: nat) -> bool {
    forall|i: int| 0 <= i < ps.len() ==> muldiv_ok(m[#[trigger] ps[i].key@].1, ps[i].data.rate@, target)
}

pub open spec fn rollback_total(m: Map<Seq<char>, (nat, nat)>, ps: Seq<OraclePrice>, target: nat) -> nat
    decreases ps.len(),
{
    if ps.len() == 0 {
        0
    } else {
        rollback_total(m, ps.drop_last(), target) + rollback_term(m, ps.last(), target)
    }
}

/// The initial weights after a rollback: each asset's rollback weight
/// normalized so that they add up to 100%.
pub open spec fn renormalize(m: Map<Seq<char>, (nat, nat)>, ps: Seq<OraclePrice>, target: nat, total: nat) -> Map<
    Seq<char>,
    (nat, nat),
>
    decreases ps.len(),
{
    if ps.len() == 0 {
        m
    } else {
        let prev = renormalize(m, ps.drop_last(), target, total);
        let p = ps.last();
        prev.insert(
            p.key@,
            (muldiv_spec(rollback_term(m, p, target), decimal_unit(), total), prev[p.key@].1),
        )
    }
}

proof fn lemma_renormalize_shape(m: Map<Seq<char>, (nat, nat)>, ps: Seq<OraclePrice>, target: nat, total: nat)
    requires
        prices_in_basket(m, ps),
    ensures
        renormalize(m, ps, target, total).dom() == m.dom(),
        forall|k: Seq<char>| #[trigger] m.dom().contains(k) ==> renormalize(m, ps, target, total)[k].1 == m[k].1,
    decreases ps.len(),
{
    if ps.len() > 0 {
        assert(prices_in_basket(m, ps.drop_last()));
        lemma_renormalize_shape(m, ps.drop_last(), target, total);
        assert(m.dom().contains(ps[ps.len() - 1].key@));
        assert(renormalize(m, ps, target, total).dom() =~= m.dom());
    }
}

proof fn lemma_rollback_term_le_total(m: Map<Seq<char>, (nat, nat)>, ps: Seq<OraclePrice>, target: nat, j: int)
    requires
        0 <= j < ps.len(),
    ensures
        rollback_term(m, ps[j], target) <= rollback_total(m, ps, target),
    decreases ps.len(),
{
    if j < ps.len() - 1 {
        lemma_rollback_term_le_total(m, ps.drop_last(), target, j);
    }
}

/// What a rollback needs of the prices to never overflow.
pub open spec fn rollback_computable(m: Map<Seq<char>, (nat, nat)>, ps: Seq<OraclePrice>, target: nat) -> bool {
    forall|k: int|
        1 <= k <= ps.len() && rollback_ok(m, ps.take(k), target) ==> #[trigger] rollback_total(
            m,
            ps.take(k),
            target,
        ) < u256_limit()
}

/// The function that adds up initial weights over a set of symbols.
pub open spec fn initial_adder(m: Map<Seq<char>, (nat, nat)>) -> spec_fn(nat, Seq<char>) -> nat {
    |acc: nat, k: Seq<char>| acc + m[k].0
}

proof fn lemma_initial_adder_commutative(m: Map<Seq<char>, (nat, nat)>)
    ensures
        vstd::set::fold::is_fun_commutative(initial_adder(m)),
{
    let f = initial_adder(m);
    assert forall|a1: Seq<char>, a2: Seq<char>, b: nat| #[trigger] f(f(b, a2), a1) == f(f(b, a1), a2) by {}
}

/// Adding the next key of a sequence without repeats to the sum over the
/// keys before it.
proof fn lemma_prefix_sum_step(ks: Seq<Seq<char>>, m: Map<Seq<char>, (nat, nat)>, j: int)
    requires
        ks.no_duplicates(),
        0 <= j < ks.len(),
    ensures
        ks.take(j + 1).to_set().fold(0nat, initial_adder(m)) == ks.take(j).to_set().fold(0nat, initial_adder(m))
            + m[ks[j]].0,
{
    broadcast use vstd::seq_lib::seq_to_set_is_finite;
    lemma_initial_adder_commutative(m);
    assert(ks.take(j + 1) =~= ks.take(j).push(ks[j]));
    lemma_push_to_set(ks.take(j), ks[j]);
    if ks.take(j).contains(ks[j]) {
        let a = choose|a: int| 0 <= a < ks.take(j).len() && ks.take(j)[a] == ks[j];
        assert(ks[a] == ks[j]);
    }
    vstd::set::fold::lemma_fold_insert(ks.take(j).to_set(), 0nat, initial_adder(m), ks[j]);
}

/// The sum over a prefix of the keys is at most the sum over a longer prefix.
proof fn lemma_prefix_sum_monotone(ks: Seq<Seq<char>>, m: Map<Seq<char>, (nat, nat)>, i: int, j: int)
    requires
        ks.no_duplicates(),
        0 <= i <= j <= ks.len(),
    ensures
        ks.take(i).to_set().fold(0nat, initial_adder(m)) <= ks.take(j).to_set().fold(0nat, initial_adder(m)),
    decreases j - i,
{
    if i < j {
        lemma_prefix_sum_monotone(ks, m, i, j - 1);
        lemma_prefix_sum_step(ks, m, j - 1);
    }
}

/// The sum of the initial weights of a basket, which must fit.
pub fn basket_initial_sum(basket: &StrMap<BtrAssetWeights>) -> (r: Uint256)
    requires
        initial_total(weights_view(basket.view())) < u256_limit(),
    ensures
        r@ == initial_total(weights_view(basket.view())),
{
    let n = basket.len();
    let ghost m = weights_view(basket.view());
    let ghost ks = basket.key_seq();
    let mut acc = Uint256::zero();
    let mut i: usize = 0;
    proof {
        broadcast use vstd::set::fold::lemma_fold_empty;
        assert(ks.take(0).to_set() =~= Set::<Seq<char>>::empty());
        assert(ks.take(n as int) =~= ks);
        assert(ks.to_set() =~= m.dom());
        lemma_prefix_sum_monotone(ks, m, 0, n as int);
    }
    while i < n
        invariant
            n == ks.len(),
            ks == basket.key_seq(),
            ks.no_duplicates(),
            m == weights_view(basket.view()),
            forall|k: Seq<char>| ks.contains(k) <==> #[trigger] basket.view().dom().contains(k),
            i <= n,
            acc@ == ks.take(i as int).to_set().fold(0nat, initial_adder(m)),
            ks.take(n as int).to_set().fold(0nat, initial_adder(m)) == initial_total(m),
            initial_total(m) < u256_limit(),
        decreases n - i,
    {
        let (_, w) = basket.entry_at(i);
        proof {
            lemma_prefix_sum_step(ks, m, i as int);
            lemma_prefix_sum_monotone(ks, m, i as int + 1, n as int);
            assert(m[ks[i as int]].0 == w.initial@);
        }
        acc = acc.add(&w.initial);
        i = i + 1;
    }
    acc
}

/// A basket change keeps the symbols and the weights consistent.
proof fn lemma_mod_step_consistent(s: BasketState, k: Seq<char>, w: nat)
    requires
        basket_consistent(s.symbols, s.weights),
    ensures
        basket_consistent(mod_step(s, k, w).symbols, mod_step(s, k, w).weights),
{
    let t = mod_step(s, k, w);
    let in_basket = s.symbols.contains(k);
    if !in_basket && w != 0 {
        lemma_push_no_duplicates(s.symbols, k);
        lemma_push_to_set(s.symbols, k);
        assert(t.weights.dom() =~= s.weights.dom().insert(k));
    } else if in_basket && w == 0 {
        let idx = s.symbols.index_of(k);
        lemma_swap_remove_unique(s.symbols, idx);
        assert(t.weights.dom() =~= s.weights.dom().remove(k));
    } else if w != 0 {
        assert(s.weights.dom().contains(k));
        assert(t.weights.dom() =~= s.weights.dom());
    }
}

/// Any list of basket changes keeps the symbols without repeats and equal to
/// the assets that have weights.
pub proof fn lemma_basket_changes_keep_consistency(s: BasketState, items: Seq<InitialBasketItem>)
    requires
        basket_consistent(s.symbols, s.weights),
    ensures
        basket_consistent(mod_fold(s, items).symbols, mod_fold(s, items).weights),
    decreases items.len(),
{
    if items.len() > 0 {
        lemma_basket_changes_keep_consistency(s, items.drop_last());
        lemma_mod_step_consistent(mod_fold(s, items.drop_last()), items.last().0@, items.last().1@);
    }
}

/// No item of `items` names the symbol `k`.
pub open spec fn not_named(items: Seq<InitialBasketItem>, k: Seq<char>) -> bool {
    forall|j: int| 0 <= j < items.len() ==> (#[trigger] items[j]).0@ != k
}

/// The item at `i` is the last one of `items` that names the symbol `k`.
pub open spec fn last_named_at(items: Seq<InitialBasketItem>, i: int, k: Seq<char>) -> bool {
    &&& 0 <= i < items.len()
    &&& items[i].0@ == k
    &&& forall|j: int| i < j < items.len() ==> (#[trigger] items[j]).0@ != k
}

/// A basket change gives each symbol that it names last with a nonzero
/// weight that initial weight, drops each symbol that it names last with a
/// zero weight, and keeps the weights of the symbols that it does not name.
pub proof fn lemma_basket_change_weights(s: BasketState, items: Seq<InitialBasketItem>, k: Seq<char>, i: int)
    requires
        basket_consistent(s.symbols, s.weights),
    ensures
        not_named(items, k) ==> mod_fold(s, items).weights.dom().contains(k) == s.weights.dom().contains(k)
            && (s.weights.dom().contains(k) ==> mod_fold(s, items).weights[k] == s.weights[k]),
        last_named_at(items, i, k) && items[i].1@ != 0 ==> mod_fold(s, items).weights.dom().contains(k)
            && mod_fold(s, items).weights[k].0 == items[i].1@,
        last_named_at(items, i, k) && items[i].1@ == 0 ==> !mod_fold(s, items).weights.dom().contains(k),
    decreases items.len(),
{
    if items.len() > 0 {
        let d = items.drop_last();
        let n = items.len() - 1;
        lemma_basket_changes_keep_consistency(s, d);
        let prev = mod_fold(s, d);
        let kl = items.last().0@;
        let wl = items.last().1@;
        assert(items[n] == items.last());
        if kl != k {
            if not_named(items, k) {
                assert forall|j: int| 0 <= j < d.len() implies (#[trigger] d[j]).0@ != k by {
                    assert(d[j] == items[j]);
                }
            }
            if last_named_at(items, i, k) {
                assert(i < n);
                assert forall|j: int| i < j < d.len() implies (#[trigger] d[j]).0@ != k by {
                    assert(d[j] == items[j]);
                }
                assert(d[i] == items[i]);
                assert(last_named_at(d, i, k));
            }
            lemma_basket_change_weights(s, d, k, i);
        } else {
            if last_named_at(items, i, k) {
                if i < n {
                    assert(items[n].0@ == k);
                }
                assert(i == n);
            }
            assert(prev.symbols.to_set() == prev.weights.dom());
            assert(prev.symbols.contains(k) == prev.symbols.to_set().contains(k));
        }
    }
}

/// The symbols that a list of basket items adds to a basket holding
/// `symbols`, in order: those with a nonzero weight not already held.
pub open spec fn added_symbols(symbols: Seq<Seq<char>>, items: Seq<InitialBasketItem>) -> Seq<Seq<char>>
    decreases items.len(),
{
    if items.len() == 0 {
        Seq::empty()
    } else {
        let prev = added_symbols(symbols, items.drop_last());
        if items.last().1@ != 0 && !symbols.contains(items.last().0@) {
            prev.push(items.last().0@)
        } else {
            prev
        }
    }
}

/// The symbols of a shorter list.
proof fn lemma_item_keys_drop_last(items: Seq<InitialBasketItem>)
    requires
        items.len() > 0,
        item_keys(items).no_duplicates(),
    ensures
        item_keys(items.drop_last()).no_duplicates(),
        not_named(items.drop_last(), items.last().0@),
{
    let d = items.drop_last();
    let n = items.len() - 1;
    assert(item_keys(d) =~= item_keys(items).drop_last());
    assert forall|j: int| 0 <= j < d.len() implies (#[trigger] d[j]).0@ != items.last().0@ by {
        assert(item_keys(items)[j] == d[j].0@);
        assert(item_keys(items)[n] == items.last().0@);
    }
}

/// A basket change whose items name distinct symbols: a symbol given a zero
/// weight leaves the basket; a symbol given a nonzero weight gets it as its
/// initial weight and keeps its fixed weight if it was held (else zero);
/// symbols that no item names keep their weights; and the symbols added are
/// exactly the newly held nonzero ones, in the order of the items.
pub proof fn lemma_basket_update_law(s: BasketState, items: Seq<InitialBasketItem>, i: int)
    requires
        basket_consistent(s.symbols, s.weights),
        item_keys(items).no_duplicates(),
    ensures
        basket_consistent(mod_fold(s, items).symbols, mod_fold(s, items).weights),
        0 <= i < items.len() && items[i].1@ == 0 ==> !mod_fold(s, items).weights.dom().contains(items[i].0@),
        0 <= i < items.len() && items[i].1@ != 0 ==> mod_fold(s, items).weights.dom().contains(items[i].0@)
            && mod_fold(s, items).weights[items[i].0@] == (items[i].1@, if s.weights.dom().contains(items[i].0@) {
                s.weights[items[i].0@].1
            } else {
                0nat
            }),
        forall|k: Seq<char>| #[trigger] not_named(items, k) ==> mod_fold(s, items).weights.dom().contains(k)
            == s.weights.dom().contains(k) && (s.weights.dom().contains(k) ==> mod_fold(s, items).weights[k]
            == s.weights[k]),
        mod_fold(s, items).added == s.added + added_symbols(s.symbols, items),
    decreases items.len(),
{
    lemma_basket_changes_keep_consistency(s, items);
    assert forall|k: Seq<char>| #[trigger] not_named(items, k) implies mod_fold(s, items).weights.dom().contains(k)
        == s.weights.dom().contains(k) && (s.weights.dom().contains(k) ==> mod_fold(s, items).weights[k]
        == s.weights[k]) by {
        lemma_basket_change_weights(s, items, k, 0);
    }
    if items.len() == 0 {
        assert(s.added + Seq::<Seq<char>>::empty() =~= s.added);
        return;
    }
    let d = items.drop_last();
    let n = items.len() - 1;
    lemma_item_keys_drop_last(items);
    lemma_basket_changes_keep_consistency(s, d);
    let prev = mod_fold(s, d);
    let kl = items.last().0@;
    let wl = items.last().1@;
    assert(items[n] == items.last());
    lemma_basket_change_weights(s, d, kl, 0);
    assert(prev.symbols.to_set() == prev.weights.dom());
    assert(prev.symbols.contains(kl) == prev.symbols.to_set().contains(kl));
    assert(s.symbols.to_set() == s.weights.dom());
    assert(s.symbols.contains(kl) == s.symbols.to_set().contains(kl));
    lemma_basket_update_law(s, d, i);
    if wl != 0 && !s.symbols.contains(kl) {
        assert(mod_fold(s, items).added =~= s.added + added_symbols(s.symbols, items));
    } else {
        assert(mod_fold(s, items).added =~= s.added + added_symbols(s.symbols, items));
    }
    if 0 <= i < n {
        assert(d[i] == items[i]);
        assert(item_keys(items)[i] == items[i].0@);
        assert(item_keys(items)[n] == kl);
        assert(items[i].0@ != kl);
    }
}

/// No two prices are for the same asset.
pub open spec fn price_keys_distinct(ps: Seq<OraclePrice>) -> bool {
    forall|i: int, j: int| 0 <= i < j < ps.len() ==> (#[trigger] ps[i]).key@ != (#[trigger] ps[j]).key@
}

/// The peg value times the initial weight of each priced asset, summed.
pub open spec fn share_sum(m: Map<Seq<char>, (nat, nat)>, value: nat, ps: Seq<OraclePrice>) -> nat
    decreases ps.len(),
{
    if ps.len() == 0 {
        0
    } else {
        share_sum(m, value, ps.drop_last()) + m[ps.last().key@].0 * value
    }
}

/// The rates of the prices, summed.
pub open spec fn rate_sum(ps: Seq<OraclePrice>) -> nat
    decreases ps.len(),
{
    if ps.len() == 0 {
        0
    } else {
        rate_sum(ps.drop_last()) + ps.last().data.rate@
    }
}

/// The weighted sum of prices reads the map only at the priced assets.
proof fn lemma_target_sum_frame(m: Map<Seq<char>, (nat, nat)>, k: Seq<char>, w: (nat, nat), ps: Seq<OraclePrice>)
    requires
        forall|i: int| 0 <= i < ps.len() ==> (#[trigger] ps[i]).key@ != k,
    ensures
        target_sum(m.insert(k, w), ps) == target_sum(m, ps),
    decreases ps.len(),
{
    if ps.len() > 0 {
        let d = ps.drop_last();
        assert forall|i: int| 0 <= i < d.len() implies (#[trigger] d[i]).key@ != k by {
            assert(d[i] == ps[i]);
        }
        lemma_target_sum_frame(m, k, w, d);
        assert(ps.last().key@ != k);
    }
}

/// Fixing the weights at a price feed and then valuing the basket at that
/// same feed gives back the peg value times the total initial weight of the
/// priced assets (18 decimals), rounded down by at most one unit and one
/// rate per asset.
pub proof fn lemma_fixing_reproduces_peg(m: Map<Seq<char>, (nat, nat)>, value: nat, ps: Seq<OraclePrice>)
    requires
        prices_in_basket(m, ps),
        price_keys_distinct(ps),
        forall|i: int| 0 <= i < ps.len() ==> (#[trigger] ps[i]).data.rate@ > 0,
    ensures
        target_sum(fix_fold(m, value, ps), ps) * decimal_unit() <= share_sum(m, value, ps),
        share_sum(m, value, ps) < target_sum(fix_fold(m, value, ps), ps) * decimal_unit() + ps.len() * decimal_unit()
            + rate_sum(ps) + 1,
    decreases ps.len(),
{
    if ps.len() > 0 {
        let d = ps.drop_last();
        let p = ps.last();
        let k = p.key@;
        assert forall|i: int| 0 <= i < d.len() implies m.dom().contains(#[trigger] d[i].key@) by {
            assert(d[i] == ps[i]);
        }
        assert forall|i: int, j: int| 0 <= i < j < d.len() implies (#[trigger] d[i]).key@ != (#[trigger] d[j]).key@ by {
            assert(d[i] == ps[i] && d[j] == ps[j]);
        }
        assert forall|i: int| 0 <= i < d.len() implies (#[trigger] d[i]).data.rate@ > 0 by {
            assert(d[i] == ps[i]);
        }
        lemma_fixing_reproduces_peg(m, value, d);
        let fd = fix_fold(m, value, d);
        lemma_fix_fold_shape(m, value, d);
        assert(fd[k].0 == m[k].0);
        let w = m[k].0;
        let fixed = muldiv_spec(w, value, p.data.rate@);
        assert(fix_fold(m, value, ps) == fd.insert(k, (fd[k].0, fixed)));
        assert forall|i: int| 0 <= i < d.len() implies (#[trigger] d[i]).key@ != k by {
            assert(d[i] == ps[i]);
            assert(ps[i].key@ != ps[ps.len() - 1].key@);
        }
        lemma_target_sum_frame(fd, k, (fd[k].0, fixed), d);
        lemma_fixed_weight_reproduces_share(w, value, p.data.rate@);
        let t = muldiv_spec(fixed, p.data.rate@, decimal_unit());
        assert(target_term(fix_fold(m, value, ps), p) == t);
        let sd = target_sum(fd, d);
        assert(target_sum(fix_fold(m, value, ps), ps) == sd + t);
        assert((sd + t) * decimal_unit() == sd * decimal_unit() + t * decimal_unit()) by (nonlinear_arith);
        assert(ps.len() * decimal_unit() == d.len() * decimal_unit() + decimal_unit()) by (nonlinear_arith)
            requires ps.len() == d.len() + 1;
    }
}

/// The initial weights of the priced assets, summed.
pub open spec fn priced_initial_sum(m: Map<Seq<char>, (nat, nat)>, ps: Seq<OraclePrice>) -> nat
    decreases ps.len(),
{
    if ps.len() == 0 {
        0
    } else {
        priced_initial_sum(m, ps.drop_last()) + m[ps.last().key@].0
    }
}

/// The renormalized rollback weights of the priced assets, summed.
pub open spec fn renorm_sum(m: Map<Seq<char>, (nat, nat)>, ps: Seq<OraclePrice>, target: nat, total: nat) -> nat
    decreases ps.len(),
{
    if ps.len() == 0 {
        0
    } else {
        renorm_sum(m, ps.drop_last(), target, total) + muldiv_spec(rollback_term(m, ps.last(), target), decimal_unit(), total)
    }
}

/// What the facts about a list hold of the list without its last price.
proof fn lemma_prices_drop_last(m: Map<Seq<char>, (nat, nat)>, ps: Seq<OraclePrice>)
    requires
        ps.len() > 0,
        prices_in_basket(m, ps),
        price_keys_distinct(ps),
    ensures
        prices_in_basket(m, ps.drop_last()),
        price_keys_distinct(ps.drop_last()),
        forall|i: int| 0 <= i < ps.len() - 1 ==> (#[trigger] ps.drop_last()[i]) == ps[i] && ps[i].key@ != ps.last().key@,
{
    let d = ps.drop_last();
    assert forall|i: int| 0 <= i < d.len() implies m.dom().contains(#[trigger] d[i].key@) by {
        assert(d[i] == ps[i]);
    }
    assert forall|i: int, j: int| 0 <= i < j < d.len() implies (#[trigger] d[i]).key@ != (#[trigger] d[j]).key@ by {
        assert(d[i] == ps[i] && d[j] == ps[j]);
    }
    assert forall|i: int| 0 <= i < ps.len() - 1 implies (#[trigger] d[i]) == ps[i] && ps[i].key@ != ps.last().key@ by {
        assert(ps[ps.len() - 1] == ps.last());
    }
}

/// Renormalizing sets the initial weight of each priced asset and keeps the
/// assets of the basket.
proof fn lemma_renormalize_values(m: Map<Seq<char>, (nat, nat)>, ps: Seq<OraclePrice>, target: nat, total: nat)
    requires
        prices_in_basket(m, ps),
        price_keys_distinct(ps),
    ensures
        renormalize(m, ps, target, total).dom() == m.dom(),
        forall|i: int| 0 <= i < ps.len() ==> renormalize(m, ps, target, total)[(#[trigger] ps[i]).key@].0
            == muldiv_spec(rollback_term(m, ps[i], target), decimal_unit(), total),
    decreases ps.len(),
{
    if ps.len() > 0 {
        let d = ps.drop_last();
        lemma_prices_drop_last(m, ps);
        lemma_renormalize_values(m, d, target, total);
        assert(m.dom().contains(ps[ps.len() - 1].key@));
        assert(renormalize(m, ps, target, total).dom() =~= m.dom());
        assert forall|i: int| 0 <= i < ps.len() implies renormalize(m, ps, target, total)[(#[trigger] ps[i]).key@].0
            == muldiv_spec(rollback_term(m, ps[i], target), decimal_unit(), total) by {
            if i < ps.len() - 1 {
                assert(d[i] == ps[i]);
            }
        }
    }
}

/// Summing over the priced assets reads a map only at their keys.
proof fn lemma_priced_sum_renormalized(m: Map<Seq<char>, (nat, nat)>, m1: Map<Seq<char>, (nat, nat)>, ps: Seq<OraclePrice>, target: nat, total: nat)
    requires
        forall|i: int| 0 <= i < ps.len() ==> m1[(#[trigger] ps[i]).key@].0 == muldiv_spec(
            rollback_term(m, ps[i], target),
            decimal_unit(),
            total,
        ),
    ensures
        priced_initial_sum(m1, ps) == renorm_sum(m, ps, target, total),
    decreases ps.len(),
{
    if ps.len() > 0 {
        let d = ps.drop_last();
        assert forall|i: int| 0 <= i < d.len() implies m1[(#[trigger] d[i]).key@].0 == muldiv_spec(
            rollback_term(m, d[i], target),
            decimal_unit(),
            total,
        ) by {
            assert(d[i] == ps[i]);
        }
        lemma_priced_sum_renormalized(m, m1, d, target, total);
        assert(ps[ps.len() - 1] == ps.last());
    }
}

/// Each renormalized weight is rounded down by less than one unit.
proof fn lemma_renorm_sum_bounds(m: Map<Seq<char>, (nat, nat)>, ps: Seq<OraclePrice>, target: nat, total: nat)
    requires
        total > 0,
    ensures
        renorm_sum(m, ps, target, total) * total <= rollback_total(m, ps, target) * decimal_unit(),
        rollback_total(m, ps, target) * decimal_unit() < renorm_sum(m, ps, target, total) * total + ps.len() * total + 1,
    decreases ps.len(),
{
    if ps.len() > 0 {
        let d = ps.drop_last();
        lemma_renorm_sum_bounds(m, d, target, total);
        let t = rollback_term(m, ps.last(), target);
        let x: int = (t * decimal_unit()) as int;
        let q = muldiv_spec(t, decimal_unit(), total);
        vstd::arithmetic::div_mod::lemma_fundamental_div_mod(x, total as int);
        vstd::arithmetic::div_mod::lemma_mod_bound(x, total as int);
        let r: int = x % (total as int);
        assert(q == x / (total as int));
        assert(q * total + r == x) by (nonlinear_arith)
            requires
                x == (total as int) * (x / (total as int)) + r,
                q == x / (total as int);
        let rs = renorm_sum(m, d, target, total);
        let rt = rollback_total(m, d, target);
        let n = d.len();
        assert(renorm_sum(m, ps, target, total) == rs + q);
        assert(rollback_total(m, ps, target) == rt + t);
        assert((rs + q) * total <= (rt + t) * decimal_unit()) by (nonlinear_arith)
            requires
                rs * total <= rt * decimal_unit(),
                q * total + r == t * decimal_unit(),
                r >= 0;
        assert((rt + t) * decimal_unit() < (rs + q) * total + (n + 1) * total + 1) by (nonlinear_arith)
            requires
                rt * decimal_unit() < rs * total + n * total + 1,
                q * total + r == t * decimal_unit(),
                r < total;
    }
}

/// The peg value times the initial weights of the priced assets is that
/// value times their sum.
proof fn lemma_share_sum_factors(m: Map<Seq<char>, (nat, nat)>, value: nat, ps: Seq<OraclePrice>)
    ensures
        share_sum(m, value, ps) == priced_initial_sum(m, ps) * value,
    decreases ps.len(),
{
    if ps.len() > 0 {
        lemma_share_sum_factors(m, value, ps.drop_last());
        let a = priced_initial_sum(m, ps.drop_last());
        let b = m[ps.last().key@].0;
        assert(priced_initial_sum(m, ps) == a + b);
        assert(share_sum(m, value, ps) == share_sum(m, value, ps.drop_last()) + b * value);
        assert((a + b) * value == a * value + b * value) by (nonlinear_arith);
    } else {
        assert(0 * value == 0) by (nonlinear_arith);
    }
}

/// A rollback resumes the peg at its frozen value: the renormalized initial
/// weights of the priced assets add up to 100% (10^18) less at most one unit
/// per asset, and the basket that the rollback leaves, valued at the same
/// prices, gives at most the frozen value and falls short of it only by the
/// rounding of each weight and each price (before the final rounding to 9
/// decimals).
pub proof fn lemma_rollback_resumes_peg(m: Map<Seq<char>, (nat, nat)>, value: nat, ps: Seq<OraclePrice>, target: nat)
    requires
        prices_in_basket(m, ps),
        price_keys_distinct(ps),
        forall|i: int| 0 <= i < ps.len() ==> (#[trigger] ps[i]).data.rate@ > 0,
        rollback_total(m, ps, target) > 0,
    ensures
        ({
            let total = rollback_total(m, ps, target);
            let m1 = renormalize(m, ps, target, total);
            let n = ps.len();
            let t = target_sum(fix_fold(m1, value, ps), ps);
            &&& priced_initial_sum(m1, ps) <= decimal_unit()
            &&& decimal_unit() <= priced_initial_sum(m1, ps) + n
            &&& t <= value
            &&& value * decimal_unit() < t * decimal_unit() + value * n + n * decimal_unit() + rate_sum(ps) + 1
        }),
{
    let total = rollback_total(m, ps, target);
    let m1 = renormalize(m, ps, target, total);
    let n = ps.len();
    let u = decimal_unit();
    lemma_renormalize_values(m, ps, target, total);
    lemma_priced_sum_renormalized(m, m1, ps, target, total);
    lemma_renorm_sum_bounds(m, ps, target, total);
    let sum = priced_initial_sum(m1, ps);
    assert(sum <= u) by (nonlinear_arith)
        requires
            sum * total <= total * u,
            total > 0;
    assert(u <= sum + n) by (nonlinear_arith)
        requires
            total * u < sum * total + n * total + 1,
            total > 0;
    assert(prices_in_basket(m1, ps)) by {
        assert forall|i: int| 0 <= i < ps.len() implies m1.dom().contains(#[trigger] ps[i].key@) by {}
    }
    lemma_fixing_reproduces_peg(m1, value, ps);
    lemma_share_sum_factors(m1, value, ps);
    let t = target_sum(fix_fold(m1, value, ps), ps);
    let rs = rate_sum(ps);
    assert(t <= value) by (nonlinear_arith)
        requires
            t * u <= sum * value,
            sum <= u,
            u > 0;
    assert(value * u < t * u + value * n + n * u + rs + 1) by (nonlinear_arith)
        requires
            sum * value < t * u + n * u + rs + 1,
            u <= sum + n;
}

proof fn lemma_mod_fold_prefix(s: BasketState, items: Seq<InitialBasketItem>, i: int)
    requires
        0 <= i < items.len(),
    ensures
        mod_fold(s, items.take(i + 1)) == mod_step(mod_fold(s, items.take(i)), items[i].0@, items[i].1@),
{
    assert(items.take(i + 1).drop_last() =~= items.take(i));
}

pub struct IndexOracle {
    pub config: IndexOracleConfig,
    pub asset_symbols: Vec<String>,
    pub basket: StrMap<BtrAssetWeights>,
    pub peg: BtrPeg,
}

impl IndexOracle {
    pub open spec fn symbols_view(&self) -> Seq<Seq<char>> {
        strings_view(self.asset_symbols@)
    }

    pub open spec fn basket_view(&self) -> Map<Seq<char>, (nat, nat)> {
        weights_view(self.basket.view())
    }

    /// The symbols have no repeats and are exactly the assets of the basket.
    pub open spec fn wf(&self) -> bool {
        basket_consistent(self.symbols_view(), self.basket_view())
    }

    /// Sets up the oracle from its symbol, router, staleness limit (in seconds),
    /// initial basket, target and the time (in seconds).
    pub fn init(
        index_symbol: String,
        router: Contract,
        when_stale: u64,
        weights: Vec<InitialBasketItem>,
        target: Uint256,
        deviation_threshold: Decimal256,
        time: u64,
    ) -> (r: IndexOracleResult<Self>)
        requires
            init_overflow_free(weights@),
        ensures
            weights@.len() == 0 ==> r matches Err(IndexOracleError::EmptyBasket),
            weights@.len() > 0 && !item_keys(weights@).no_duplicates() ==> exists|k: int|
                0 <= k < weights@.len() && #[trigger] item_keys(weights@.take(k)).no_duplicates()
                    && !item_keys(weights@.take(k + 1)).no_duplicates() && (r matches Err(
                    IndexOracleError::RecursiveSymbol { symbol },
                ) && symbol@ == weights@[k].0@),
            weights@.len() > 0 && item_keys(weights@).no_duplicates() && item_keys(weights@).contains(index_symbol@)
                ==> (r matches Err(IndexOracleError::RecursiveSymbol { symbol }) && symbol@ == index_symbol@),
            weights@.len() > 0 && item_keys(weights@).no_duplicates() && !item_keys(weights@).contains(index_symbol@)
                && items_total(weights@) != decimal_unit() ==> (r matches Err(
                IndexOracleError::InvalidBasketWeights { weight },
            ) && weight@ == items_total(weights@)),
            r is Ok <==> (weights@.len() > 0 && item_keys(weights@).no_duplicates() && !item_keys(
                weights@,
            ).contains(index_symbol@) && items_total(weights@) == decimal_unit()),
            r matches Ok(o) ==> {
                &&& o.wf()
                &&& o.config.symbol@ == index_symbol@
                &&& o.config.router == router
                &&& o.config.when_stale == when_stale
                &&& o.config.deviation_threshold == deviation_threshold
                &&& o.symbols_view() == item_keys(weights@)
                &&& o.basket_view() == init_basket(weights@)
                &&& o.peg == (BtrPeg { target, value: target, frozen: false, last_updated: time })
            },
    {
        if weights.len() == 0 {
            return Err(IndexOracleError::EmptyBasket);
        }
        let mut asset_symbols: Vec<String> = Vec::new();
        let mut weight_sum = Decimal256::zero();
        let mut basket: StrMap<BtrAssetWeights> = StrMap::new();
        let ghost items = weights@;
        let mut i: usize = 0;
        proof {
            assert(items.take(0) =~= Seq::<InitialBasketItem>::empty());
            assert(item_keys(items.take(0)) =~= Seq::<Seq<char>>::empty());
            assert(weights_view(basket.view()) =~= Map::<Seq<char>, (nat, nat)>::empty());
            assert(strings_view(asset_symbols@) =~= Seq::<Seq<char>>::empty());
        }
        while i < weights.len()
            invariant
                items == weights@,
                0 <= i <= items.len(),
                init_overflow_free(items),
                item_keys(items.take(i as int)).no_duplicates(),
                weight_sum@ == items_total(items.take(i as int)),
                strings_view(asset_symbols@) == item_keys(items.take(i as int)),
                weights_view(basket.view()) == init_basket(items.take(i as int)),
                basket.view().dom() == item_keys(items.take(i as int)).to_set(),
            decreases items.len() - i,
        {
            let sym = &weights[i].0;
            let weight = &weights[i].1;
            proof {
                lemma_items_prefix(items, i as int);
                lemma_push_no_duplicates(item_keys(items.take(i as int)), sym@);
                assert(items_total(items.take(i as int + 1)) < u256_limit());
            }
            let basket_item = BtrAssetWeights::new(weight.atomics(), Uint256::zero());
            weight_sum = weight_sum.checked_add(weight).unwrap();
            asset_symbols.push(sym.clone());
            if basket.contains_key(sym) {
                proof {
                    assert(item_keys(items.take(i as int)).contains(sym@));
                    lemma_prefix_duplicates(items, i as int + 1);
                    assert(item_keys(items.take(i as int)).no_duplicates());
                }
                return Err(IndexOracleError::RecursiveSymbol { symbol: sym.clone() });
            }
            proof {
                assert(!item_keys(items.take(i as int)).contains(sym@));
                lemma_weights_view_insert(basket.view(), sym@, basket_item);
            }
            basket.insert(sym.clone(), basket_item);
            proof {
                assert(strings_view(asset_symbols@) =~= item_keys(items.take(i as int + 1)));
                lemma_push_to_set(item_keys(items.take(i as int)), sym@);
                assert(basket.view().dom() =~= item_keys(items.take(i as int + 1)).to_set());
            }
            i = i + 1;
        }
        proof {
            assert(items.take(items.len() as int) =~= items);
        }
        if contains_string(&asset_symbols, &index_symbol) {
            return Err(IndexOracleError::RecursiveSymbol { symbol: index_symbol });
        }
        if !weight_sum.eq(&Decimal256::percent(100)) {
            return Err(IndexOracleError::InvalidBasketWeights { weight: weight_sum });
        }
        let peg = BtrPeg::new(target, target, false, time);
        let r = IndexOracle {
            config: IndexOracleConfig { symbol: index_symbol, router, when_stale, deviation_threshold },
            asset_symbols,
            peg,
            basket,
        };
        proof {
            assert(r.basket_view().dom() =~= r.basket.view().dom());
        }
        Ok(r)
    }

    /// The symbols and weights of the basket, with no symbol added yet.
    pub open spec fn basket_state(&self) -> BasketState {
        BasketState { symbols: self.symbols_view(), weights: self.basket_view(), added: Seq::empty() }
    }

    /// Updates the initial weights of the assets
    /// in the basket and returns the symbols of any newly added assets.
    pub fn update_basket(&mut self, new_basket: &Vec<InitialBasketItem>) -> (r: IndexOracleResult<Vec<String>>)
        requires
            old(self).wf(),
            !item_keys(new_basket@).contains(old(self).config.symbol@) ==> initial_total(
                mod_fold(old(self).basket_state(), new_basket@).weights,
            ) < u256_limit(),
        ensures
            final(self).wf(),
            final(self).config == old(self).config,
            final(self).peg == old(self).peg,
            item_keys(new_basket@).contains(old(self).config.symbol@) ==> exists|k: int|
                0 <= k < new_basket@.len() && new_basket@[k].0@ == old(self).config.symbol@
                    && !#[trigger] item_keys(new_basket@.take(k)).contains(old(self).config.symbol@)
                    && (r matches Err(IndexOracleError::RecursiveSymbol { symbol }) && symbol@
                    == old(self).config.symbol@)
                    && final(self).symbols_view() == mod_fold(old(self).basket_state(), new_basket@.take(k)).symbols
                    && final(self).basket_view() == mod_fold(old(self).basket_state(), new_basket@.take(k)).weights,
            !item_keys(new_basket@).contains(old(self).config.symbol@) ==> {
                let f = mod_fold(old(self).basket_state(), new_basket@);
                &&& final(self).symbols_view() == f.symbols
                &&& final(self).basket_view() == f.weights
                &&& initial_total(f.weights) == decimal_unit() ==> (r matches Ok(v) && strings_view(v@)
                    == f.added)
                &&& initial_total(f.weights) != decimal_unit() ==> (r matches Err(
                    IndexOracleError::InvalidBasketWeights { weight },
                ) && weight@ == initial_total(f.weights))
            },
    {
        let ghost s0 = self.basket_state();
        let ghost items = new_basket@;
        let ghost config0 = self.config;
        let ghost peg0 = self.peg;
        let ghost sym0 = self.config.symbol@;
        let mut new_symbols: Vec<String> = Vec::new();
        let mut i: usize = 0;
        proof {
            assert(items.take(0) =~= Seq::<InitialBasketItem>::empty());
            assert(item_keys(items.take(0)) =~= Seq::<Seq<char>>::empty());
            assert(strings_view(new_symbols@) =~= Seq::<Seq<char>>::empty());
        }
        while i < new_basket.len()
            invariant
                items == new_basket@,
                0 <= i <= items.len(),
                self.config == config0,
                self.peg == peg0,
                config0 == old(self).config,
                peg0 == old(self).peg,
                s0 == old(self).basket_state(),
                sym0 == config0.symbol@,
                s0.added == Seq::<Seq<char>>::empty(),
                !item_keys(items.take(i as int)).contains(sym0),
                self.symbols_view() == mod_fold(s0, items.take(i as int)).symbols,
                self.basket_view() == mod_fold(s0, items.take(i as int)).weights,
                strings_view(new_symbols@) == mod_fold(s0, items.take(i as int)).added,
                self.wf(),
            decreases items.len() - i,
        {
            let mod_sym = &new_basket[i].0;
            let mod_weight = &new_basket[i].1;
            let ghost st = mod_fold(s0, items.take(i as int));
            proof {
                lemma_mod_fold_prefix(s0, items, i as int);
                lemma_items_prefix(items, i as int);
                lemma_mod_step_consistent(st, mod_sym@, mod_weight@);
            }
            // Disallow recursive symbols
            if *mod_sym == self.config.symbol {
                proof {
                    assert(item_keys(items)[i as int] == sym0);
                }
                return Err(IndexOracleError::RecursiveSymbol { symbol: self.config.symbol.clone() });
            }
            let is_mod_sym_in_basket = contains_string(&self.asset_symbols, mod_sym);
            let weight_is_zero = mod_weight.is_zero();
            let ghost symbols_before = self.asset_symbols@;
            // gather new symbols for fetching
            if !is_mod_sym_in_basket && !weight_is_zero {
                new_symbols.push(mod_sym.clone());
                self.asset_symbols.push(mod_sym.clone());
                proof {
                    assert(strings_view(self.asset_symbols@) =~= strings_view(symbols_before).push(mod_sym@));
                    assert(strings_view(new_symbols@) =~= st.added.push(mod_sym@));
                }
            }
            // Symbol is to be removed and it existed before
            if is_mod_sym_in_basket && weight_is_zero {
                let pos = position_of(&self.asset_symbols, mod_sym).unwrap();
                proof {
                    let sv = strings_view(self.asset_symbols@);
                    assert(sv[pos as int] == mod_sym@);
                    let j = sv.index_of(mod_sym@);
                    assert(0 <= j < sv.len() && sv[j] == mod_sym@);
                    assert(j == pos);
                    assert(st.weights.dom().contains(mod_sym@));
                }
                let ghost sv_before = strings_view(self.asset_symbols@);
                self.asset_symbols.swap_remove(pos);
                proof {
                    assert(strings_view(self.asset_symbols@) =~= swap_remove_spec(sv_before, pos as int));
                    lemma_weights_view_remove(self.basket.view(), mod_sym@);
                }
                match self.basket.remove(mod_sym) {
                    None => {
                        return Err(IndexOracleError::BasketAssetNotFound { asset: mod_sym.clone() });
                    },
                    Some(_) => {},
                }
            }
            // add new/updated weights
            if !weight_is_zero {
                let fixed = match self.basket.get(mod_sym) {
                    Some(w) => w.fixed,
                    None => Uint256::zero(),
                };
                let item = BtrAssetWeights::new(mod_weight.atomics(), fixed);
                proof {
                    lemma_weights_view_insert(self.basket.view(), mod_sym@, item);
                }
                self.basket.insert(mod_sym.clone(), item);
            }
            proof {
                let t = mod_fold(s0, items.take(i as int + 1));
                assert(self.basket_view() =~= t.weights);
                assert(item_keys(items.take(i as int + 1)) =~= item_keys(items.take(i as int)).push(mod_sym@));
                let kp = item_keys(items.take(i as int + 1));
                if kp.contains(sym0) {
                    let a = choose|a: int| 0 <= a < kp.len() && #[trigger] kp[a] == sym0;
                    if a < i {
                        assert(item_keys(items.take(i as int))[a] == sym0);
                    }
                }
            }
            i = i + 1;
        }
        proof {
            assert(items.take(items.len() as int) =~= items);
        }
        // Verify new weights sum to 100%
        let weight_sum = basket_initial_sum(&self.basket);
        let unit = Uint256::from_u128(1_000_000_000_000_000_000);
        if !weight_sum.eq(&unit) {
            return Err(IndexOracleError::InvalidBasketWeights { weight: Decimal256::new(weight_sum) });
        }
        Ok(new_symbols)
    }

    /// Sets the fixed weight of each priced asset to `initial * peg value / rate`.
    pub fn compute_fixed_weights(&mut self, prices: &Vec<OraclePrice>) -> (r: StdResult<()>)
        requires
            old(self).wf(),
            prices_in_basket(old(self).basket_view(), prices@),
        ensures
            final(self).wf(),
            final(self).config == old(self).config,
            final(self).peg == old(self).peg,
            final(self).asset_symbols == old(self).asset_symbols,
            r is Ok <==> forall|i: int| 0 <= i < prices@.len() ==> fix_ok(old(self).basket_view(), old(self).peg.value@, #[trigger] prices@[i]),
            r is Ok ==> final(self).basket_view() == fix_fold(old(self).basket_view(), old(self).peg.value@, prices@),
            r matches Err(e) ==> exists|k: int| 0 <= k < prices@.len()
                && (forall|j: int| 0 <= j < k ==> fix_ok(old(self).basket_view(), old(self).peg.value@, #[trigger] prices@[j]))
                && !fix_ok(old(self).basket_view(), old(self).peg.value@, #[trigger] prices@[k])
                && e == muldiv_err(prices@[k].data.rate@)
                && final(self).basket_view() == fix_fold(old(self).basket_view(), old(self).peg.value@, prices@.take(k)),
    {
        let ghost m0 = self.basket_view();
        let ghost v = self.peg.value@;
        let ghost ps = prices@;
        let ghost syms0 = self.asset_symbols;
        let ghost config0 = self.config;
        let ghost peg0 = self.peg;
        let mut i: usize = 0;
        proof {
            assert(ps.take(0) =~= Seq::<OraclePrice>::empty());
        }
        while i < prices.len()
            invariant
                ps == prices@,
                0 <= i <= ps.len(),
                m0 == old(self).basket_view(),
                v == old(self).peg.value@,
                prices_in_basket(m0, ps),
                self.config == config0 && config0 == old(self).config,
                self.peg == peg0 && peg0 == old(self).peg,
                self.asset_symbols == syms0 && syms0 == old(self).asset_symbols,
                self.peg.value@ == v,
                forall|j: int| 0 <= j < i ==> fix_ok(m0, v, #[trigger] ps[j]),
                self.basket_view() == fix_fold(m0, v, ps.take(i as int)),
                self.wf(),
            decreases ps.len() - i,
        {
            let price = &prices[i];
            proof {
                lemma_prices_prefix(ps, i as int);
                assert(prices_in_basket(m0, ps.take(i as int)));
                lemma_fix_fold_shape(m0, v, ps.take(i as int));
                assert(m0.dom().contains(ps[i as int].key@));
            }
            let w = *self.basket.get(price.key()).unwrap();
            let fixed = match muldiv(&w.initial, &self.peg.value, &price.data.rate) {
                Ok(f) => f,
                Err(e) => {
                    return Err(e);
                },
            };
            let item = BtrAssetWeights::new(w.initial, fixed);
            proof {
                lemma_weights_view_insert(self.basket.view(), price.key@, item);
            }
            self.basket.insert(price.key.clone(), item);
            proof {
                assert(self.basket_view() =~= fix_fold(m0, v, ps.take(i as int + 1)));
                assert(self.basket_view().dom() =~= m0.dom());
            }
            i = i + 1;
        }
        proof {
            assert(ps.take(ps.len() as int) =~= ps);
        }
        Ok(())
    }

    /// The index value for the prices and when the feeds were last updated.
    fn _compute_target(&self, prices: &Vec<OraclePrice>, now: u64) -> (r: StdResult<(Uint256, u64)>)
        requires
            target_computable(self.basket_view(), prices@),
        ensures
            r is Ok <==> all_target_ok(self.basket_view(), prices@),
            r matches Ok((t, lu)) ==> t@ == target_value(self.basket_view(), prices@) && lu == feeds_updated(prices@, now),
            r matches Err(e) ==> e == StdError::Overflow,
    {
        let ghost m = self.basket_view();
        let ghost ps = prices@;
        let mut new_target = Uint256::zero();
        let mut last_updated_base = now;
        let mut last_updated_quote = now;
        let mut i: usize = 0;
        proof {
            assert(ps.take(0) =~= Seq::<OraclePrice>::empty());
        }
        while i < prices.len()
            invariant
                ps == prices@,
                m == self.basket_view(),
                0 <= i <= ps.len(),
                target_computable(m, ps),
                all_target_ok(m, ps.take(i as int)),
                new_target@ == target_sum(m, ps.take(i as int)),
                last_updated_base == oldest_base(ps.take(i as int), now),
                last_updated_quote == oldest_quote(ps.take(i as int), now),
            decreases ps.len() - i,
        {
            let price = &prices[i];
            proof {
                lemma_prices_prefix(ps, i as int);
                assert(m.dom().contains(ps[i as int].key@));
            }
            last_updated_base = if last_updated_base <= price.data.last_updated_base {
                last_updated_base
            } else {
                price.data.last_updated_base
            };
            last_updated_quote = if last_updated_quote <= price.data.last_updated_quote {
                last_updated_quote
            } else {
                price.data.last_updated_quote
            };
            let w = self.basket.get(price.key()).unwrap();
            let term = match muldiv18(&w.fixed, &price.data.rate) {
                Ok(t) => t,
                Err(e) => {
                    proof {
                        assert(!target_ok(m, ps[i as int]));
                    }
                    return Err(e);
                },
            };
            proof {
                assert(all_target_ok(m, ps.take(i as int + 1))) by {
                    assert forall|j: int| 0 <= j < ps.take(i as int + 1).len() implies target_ok(m, #[trigger] ps.take(i as int + 1)[j]) by {
                        if j < i {
                            assert(ps.take(i as int + 1)[j] == ps.take(i as int)[j]);
                        }
                    }
                }
                assert(target_sum(m, ps.take(i as int + 1)) < u256_limit());
            }
            new_target = new_target.add(&term);
            i = i + 1;
        }
        proof {
            assert(ps.take(ps.len() as int) =~= ps);
        }
        let last_updated_feeds = if last_updated_base <= last_updated_quote {
            last_updated_base
        } else {
            last_updated_quote
        };
        // Smooth out peg calculation to 10e-9 precision
        Ok((bankers_round(&new_target, 9), last_updated_feeds))
    }

    /// Whether the peg may be frozen or updated at `now` for these prices:
    /// the clock is not behind the last update where it is compared with it,
    /// and the index can be computed from the prices without overflow.
    pub open spec fn peg_computable(&self, prices: Option<Seq<OraclePrice>>, now: u64) -> bool {
        &&& (!self.peg.frozen && prices is None) ==> self.peg.last_updated <= now
        &&& (!self.peg.frozen && prices is Some) ==> target_computable(self.basket_view(), prices->0)
    }

    /// Computes the price of the index asset at `now` (in seconds). A frozen
    /// peg, or one without price feeds, keeps its value (and freezes once it
    /// has gone stale); otherwise the value follows the feeds unless they are
    /// stale, which freezes the peg instead.
    pub fn compute_peg(&mut self, prices: Option<&Vec<OraclePrice>>, now: u64) -> (r: StdResult<OraclePrice>)
        requires
            old(self).peg_computable(
                match prices {
                    Some(p) => Some(p@),
                    None => None,
                },
                now,
            ),
        ensures
            final(self).config == old(self).config,
            final(self).asset_symbols == old(self).asset_symbols,
            final(self).basket == old(self).basket,
            final(self).peg.target == old(self).peg.target,
            r matches Ok(p) ==> p.key@ == old(self).config.symbol@ && p.data.last_updated_base == now
                && p.data.last_updated_quote == now,
            (old(self).peg.frozen || prices is None) ==> {
                &&& r matches Ok(p) && p.data.rate == old(self).peg.value
                &&& final(self).peg == (BtrPeg {
                    frozen: old(self).peg.frozen || now - old(self).peg.last_updated > old(self).config.when_stale,
                    ..old(self).peg
                })
            },
            (!old(self).peg.frozen && prices is Some) ==> {
                let ps = prices->0;
                let m = old(self).basket_view();
                let lu = feeds_updated(ps@, now);
                &&& r is Ok <==> all_target_ok(m, ps@)
                &&& r matches Err(e) ==> e == StdError::Overflow && final(self).peg == old(self).peg
                &&& (r is Ok && now - lu > old(self).config.when_stale) ==> (r matches Ok(p) && p.data.rate
                    == old(self).peg.value && final(self).peg == (BtrPeg { frozen: true, ..old(self).peg }))
                &&& (r is Ok && now - lu <= old(self).config.when_stale) ==> (r matches Ok(p) && p.data.rate@
                    == target_value(m, ps@) && final(self).peg.value@ == target_value(m, ps@)
                    && final(self).peg.last_updated == now && final(self).peg.frozen == old(self).peg.frozen)
            },
    {
        let symbol = &self.config.symbol;
        let mut resp = OraclePrice::new(
            symbol.clone(),
            ReferenceData { rate: self.peg.value, last_updated_base: now, last_updated_quote: now },
        );
        if self.peg.frozen || prices.is_none() {
            // If peg is frozen or we aren't getting price feeds from provider, we use the last calculated value of the peg as the peg price.
            if !self.peg.frozen && now - self.peg.last_updated > self.config.when_stale {
                self.peg.frozen = true;
            }
            return Ok(resp);
        }
        let prices = prices.unwrap();
        let (new_target, last_updated_feeds) = match self._compute_target(prices, now) {
            Ok(t) => t,
            Err(e) => {
                return Err(e);
            },
        };
        proof {
            lemma_oldest_le_now(prices@, now);
        }
        // If the price feeds have gone stale, freeze the target peg and use its last calculated value.
        if now - last_updated_feeds > self.config.when_stale {
            self.peg.frozen = true;
            Ok(resp)
        } else {
            self.peg.last_updated = now;
            self.peg.value = new_target;
            resp.data.rate = new_target;
            Ok(resp)
        }
    }

    /// What a rollback at `now` needs to never overflow: a frozen peg
    /// computes the target at the prices, and, once the target is known and
    /// the feeds are fresh, the totals of the new weights.
    pub open spec fn rollback_computable_at(&self, prices: Seq<OraclePrice>, now: u64) -> bool {
        let m = self.basket_view();
        &&& self.peg.frozen ==> target_computable(m, prices)
        &&& (self.peg.frozen && all_target_ok(m, prices) && now - feeds_updated(prices, now) <= self.config.when_stale)
            ==> rollback_computable(m, prices, target_value(m, prices))
    }

    /// Unfreezes a frozen peg once the feeds are fresh again: the initial
    /// weights are reset so that the current prices give the current
    /// target, and the fixed weights are computed anew.
    pub fn rollback(&mut self, prices: &Vec<OraclePrice>, now: u64) -> (r: IndexOracleResult<()>)
        requires
            old(self).wf(),
            old(self).rollback_computable_at(prices@, now),
        ensures
            final(self).wf(),
            final(self).config == old(self).config,
            final(self).asset_symbols == old(self).asset_symbols,
            final(self).peg.target == old(self).peg.target,
            final(self).peg.value == old(self).peg.value,
            !old(self).peg.frozen ==> (r matches Err(IndexOracleError::RollbackNotFrozen)
                && final(self).basket_view() == old(self).basket_view() && final(self).peg == old(self).peg),
            old(self).peg.frozen ==> {
                let m = old(self).basket_view();
                let ps = prices@;
                let nt = target_value(m, ps);
                let lu = feeds_updated(ps, now);
                let total = rollback_total(m, ps, nt);
                let m1 = renormalize(m, ps, nt, total);
                let v = old(self).peg.value@;
                &&& !all_target_ok(m, ps) ==> (r matches Err(IndexOracleError::Std(e)) && e == StdError::Overflow
                    && final(self).basket_view() == m && final(self).peg == old(self).peg)
                &&& (all_target_ok(m, ps) && now - lu > old(self).config.when_stale) ==> (r matches Err(
                    IndexOracleError::RollbackStale { oldest_price },
                ) && oldest_price == lu && final(self).basket_view() == m && final(self).peg == old(self).peg)
                &&& (all_target_ok(m, ps) && now - lu <= old(self).config.when_stale && !rollback_ok(m, ps, nt)) ==> (
                r matches Err(IndexOracleError::Std(e)) && e == muldiv_err(nt) && final(self).basket_view() == m
                    && final(self).peg == old(self).peg)
                &&& (all_target_ok(m, ps) && now - lu <= old(self).config.when_stale && rollback_ok(m, ps, nt) && ps.len()
                    > 0 && total == 0) ==> (r matches Err(IndexOracleError::Std(e)) && e == StdError::DivideByZero
                    && final(self).basket_view() == m && final(self).peg == old(self).peg)
                &&& (all_target_ok(m, ps) && now - lu <= old(self).config.when_stale && rollback_ok(m, ps, nt) && (
                ps.len() == 0 || total != 0)) ==> {
                    &&& r is Ok <==> forall|i: int| 0 <= i < ps.len() ==> fix_ok(m1, v, #[trigger] ps[i])
                    &&& r is Ok ==> final(self).basket_view() == fix_fold(m1, v, ps) && !final(self).peg.frozen
                        && final(self).peg.last_updated == now
                    &&& r matches Err(IndexOracleError::Std(e)) ==> exists|k: int| 0 <= k < ps.len()
                        && (forall|j: int| 0 <= j < k ==> fix_ok(m1, v, #[trigger] ps[j])) && !fix_ok(m1, v, #[trigger] ps[k])
                        && e == muldiv_err(ps[k].data.rate@) && final(self).basket_view() == fix_fold(m1, v, ps.take(k))
                        && final(self).peg == old(self).peg
                    &&& r is Err ==> r matches Err(IndexOracleError::Std(_))
                }
            },
    {
        if self.peg.frozen != true {
            return Err(IndexOracleError::RollbackNotFrozen);
        }
        let ghost m = self.basket_view();
        let ghost ps = prices@;
        let (new_target, last_updated_feeds) = match self._compute_target(prices, now) {
            Ok(t) => t,
            Err(e) => {
                return Err(IndexOracleError::Std(e));
            },
        };
        let ghost nt = new_target@;
        proof {
            lemma_oldest_le_now(ps, now);
            assert(feeds_updated(ps, now) <= now);
        }
        if now - last_updated_feeds > self.config.when_stale {
            return Err(IndexOracleError::RollbackStale { oldest_price: last_updated_feeds });
        }
        let mut initial_weight_sum = Uint256::zero();
        let mut initial_weights: Vec<(String, Uint256)> = Vec::new();
        let mut i: usize = 0;
        proof {
            assert(ps.take(0) =~= Seq::<OraclePrice>::empty());
        }
        while i < prices.len()
            invariant
                ps == prices@,
                m == self.basket_view(),
                m == old(self).basket_view(),
                self.wf(),
                self.peg == old(self).peg,
                self.peg.frozen,
                self.config == old(self).config,
                self.asset_symbols == old(self).asset_symbols,
                all_target_ok(m, ps),
                now - feeds_updated(ps, now) <= old(self).config.when_stale,
                feeds_updated(ps, now) <= now,
                nt == new_target@,
                nt == target_value(m, ps),
                0 <= i <= ps.len(),
                prices_in_basket(m, ps),
                rollback_computable(m, ps, nt),
                rollback_ok(m, ps.take(i as int), nt),
                initial_weight_sum@ == rollback_total(m, ps.take(i as int), nt),
                initial_weights@.len() == i,
                forall|j: int| 0 <= j < i ==> (#[trigger] initial_weights@[j]).0@ == ps[j].key@
                    && initial_weights@[j].1@ == rollback_term(m, ps[j], nt),
            decreases ps.len() - i,
        {
            let price = &prices[i];
            proof {
                lemma_prices_prefix(ps, i as int);
                assert(m.dom().contains(ps[i as int].key@));
            }
            let w = self.basket.get(price.key()).unwrap();
            let new_weight = match muldiv(&w.fixed, &price.data.rate, &new_target) {
                Ok(v) => v,
                Err(e) => {
                    proof {
                        assert(!muldiv_ok(m[ps[i as int].key@].1, ps[i as int].data.rate@, nt));
                    }
                    return Err(IndexOracleError::Std(e));
                },
            };
            proof {
                assert(rollback_ok(m, ps.take(i as int + 1), nt)) by {
                    assert forall|j: int| 0 <= j < ps.take(i as int + 1).len() implies muldiv_ok(
                        m[#[trigger] ps.take(i as int + 1)[j].key@].1,
                        ps.take(i as int + 1)[j].data.rate@,
                        nt,
                    ) by {
                        if j < i {
                            assert(ps.take(i as int + 1)[j] == ps.take(i as int)[j]);
                        }
                    }
                }
                assert(rollback_total(m, ps.take(i as int + 1), nt) < u256_limit());
            }
            initial_weight_sum = initial_weight_sum.add(&new_weight);
            initial_weights.push((price.key.clone(), new_weight));
            i = i + 1;
        }
        proof {
            assert(ps.take(ps.len() as int) =~= ps);
        }
        let ghost total = initial_weight_sum@;
        let target_weight_sum = Uint256::from_u128(1_000_000_000_000_000_000);
        let mut j: usize = 0;
        proof {
            assert(renormalize(m, ps.take(0), nt, total) == m);
            lemma_renormalize_shape(m, ps, nt, total);
        }
        while j < initial_weights.len()
            invariant
                ps == prices@,
                nt == target_value(m, ps),
                all_target_ok(m, ps),
                now - feeds_updated(ps, now) <= old(self).config.when_stale,
                feeds_updated(ps, now) <= now,
                rollback_ok(m, ps, nt),
                total == rollback_total(m, ps, nt),
                initial_weight_sum@ == total,
                target_weight_sum@ == decimal_unit(),
                0 <= j <= ps.len(),
                initial_weights@.len() == ps.len(),
                prices_in_basket(m, ps),
                forall|k: int| 0 <= k < ps.len() ==> (#[trigger] initial_weights@[k]).0@ == ps[k].key@
                    && initial_weights@[k].1@ == rollback_term(m, ps[k], nt),
                j > 0 ==> total != 0,
                self.basket_view() == renormalize(m, ps.take(j as int), nt, total),
                self.asset_symbols == old(self).asset_symbols,
                self.config == old(self).config,
                self.peg == old(self).peg,
                self.peg.frozen,
                m == old(self).basket_view(),
                old(self).wf(),
                self.basket_view().dom() == m.dom(),
            decreases ps.len() - j,
        {
            let asset_symbol = &initial_weights[j].0;
            let initial_weight = &initial_weights[j].1;
            proof {
                lemma_prices_prefix(ps, j as int);
                lemma_rollback_term_le_total(m, ps, nt, j as int);
                assert(prices_in_basket(m, ps.take(j as int)));
                lemma_renormalize_shape(m, ps.take(j as int), nt, total);
                assert(m.dom().contains(ps[j as int].key@));
                if total != 0 {
                    assert(initial_weight@ * decimal_unit() / total <= decimal_unit()) by {
                        vstd::arithmetic::div_mod::lemma_div_is_ordered(
                            (initial_weight@ * decimal_unit()) as int,
                            (total * decimal_unit()) as int,
                            total as int,
                        );
                        vstd::arithmetic::mul::lemma_mul_inequality(
                            initial_weight@ as int,
                            total as int,
                            decimal_unit() as int,
                        );
                        vstd::arithmetic::div_mod::lemma_div_by_multiple(decimal_unit() as int, total as int);
                        vstd::arithmetic::mul::lemma_mul_is_commutative(total as int, decimal_unit() as int);
                    }
                }
            }
            let normalized_weight = match muldiv(initial_weight, &target_weight_sum, &initial_weight_sum) {
                Ok(v) => v,
                Err(e) => {
                    proof {
                        assert(j == 0);
                        assert(ps.take(0) =~= Seq::<OraclePrice>::empty());
                    }
                    return Err(IndexOracleError::Std(e));
                },
            };
            let fixed = self.basket.get(asset_symbol).unwrap().fixed;
            let item = BtrAssetWeights::new(normalized_weight, fixed);
            proof {
                lemma_weights_view_insert(self.basket.view(), asset_symbol@, item);
            }
            self.basket.insert(asset_symbol.clone(), item);
            proof {
                assert(self.basket_view() =~= renormalize(m, ps.take(j as int + 1), nt, total));
                assert(self.basket_view().dom() =~= m.dom());
            }
            j = j + 1;
        }
        proof {
            assert(ps.take(ps.len() as int) =~= ps);
            lemma_renormalize_shape(m, ps, nt, total);
            assert(self.basket_view().dom() =~= self.symbols_view().to_set());
        }
        match self.compute_fixed_weights(prices) {
            Ok(()) => {},
            Err(e) => {
                return Err(IndexOracleError::Std(e));
            },
        }
        self.peg.frozen = false;
        self.peg.last_updated = now;
        Ok(())
    }

    /// Fails when the peg value has drifted from the target by more than the
    /// deviation threshold (as a fraction of the target).
    pub fn require_peg_within_deviation(&self) -> (r: IndexOracleResult<()>)
        requires
            self.peg.target@ != 0,
            crate::num::abs_diff_spec(self.peg.target@, self.peg.value@) * decimal_unit() / self.peg.target@
                < u256_limit(),
        ensures
            ({
                let deviation = crate::num::abs_diff_spec(self.peg.target@, self.peg.value@) * decimal_unit()
                    / self.peg.target@;
                &&& r is Ok <==> deviation <= self.config.deviation_threshold@
                &&& r matches Err(e) ==> (e matches IndexOracleError::PegDeviation { peg, last_value, deviation: d, threshold }
                    && peg@ == self.peg.value@ && last_value@ == self.peg.target@ && d@ == deviation
                    && threshold == self.config.deviation_threshold)
            }),
    {
        let diff = self.peg.target.abs_diff(&self.peg.value);
        let expected = self.peg.target;
        let deviation = Decimal256::from_ratio(&diff, &expected);
        if deviation.gt(&self.config.deviation_threshold) {
            return Err(IndexOracleError::PegDeviation {
                peg: Decimal256::new(self.peg.value),
                last_value: Decimal256::new(self.peg.target),
                deviation,
                threshold: self.config.deviation_threshold,
            });
        }
        Ok(())
    }
}

impl GlobalStatus<IndexOracleError> for IndexOracle {
    open spec fn normal_error(&self) -> IndexOracleError {
        IndexOracleError::Normal
    }

    open spec fn deprecated_error(&self) -> IndexOracleError {
        IndexOracleError::Deprecated
    }

    open spec fn frozen_error(&self) -> IndexOracleError {
        IndexOracleError::Frozen
    }

    open spec fn is_not_found_error(&self, e: IndexOracleError) -> bool {
        e matches IndexOracleError::Std(StdError::NotFound { kind }) && kind@ == "global status"@
    }

    fn normal_err(&self) -> (e: IndexOracleError)
        ensures
            e == IndexOracleError::Normal,
    {
        IndexOracleError::Normal
    }

    fn deprecated_err(&self) -> (e: IndexOracleError)
        ensures
            e == IndexOracleError::Deprecated,
    {
        IndexOracleError::Deprecated
    }

    fn frozen_err(&self) -> (e: IndexOracleError)
        ensures
            e == IndexOracleError::Frozen,
    {
        IndexOracleError::Frozen
    }

    fn not_found(&self) -> (e: IndexOracleError)
        ensures
            e matches IndexOracleError::Std(StdError::NotFound { kind }) && kind@ == "global status"@,
    {
        IndexOracleError::Std(StdError::NotFound { kind: String::from_str("global status") })
    }
}

} // verus!
