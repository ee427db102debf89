//! Fixed prices and price feeds for tests.
use vstd::prelude::*;
use vstd::string::*;
use crate::num::{Decimal256, decimal_str_atomics};
use crate::interfaces::common::OraclePrice;
use crate::interfaces::providers::ReferenceData;

verus! {

pub struct PricesFixture;

pub const USD: &'static str = "USD";
pub const SILK: &'static str = "SILK";
pub const BTC: &'static str = "BTC";
pub const ETH: &'static str = "ETH";
pub const XAU: &'static str = "XAU";
pub const FRAX: &'static str = "FRAX";
pub const OSMO: &'static str = "OSMO";
pub const USDC: &'static str = "USDC";
pub const SHD: &'static str = "SHD";
pub const STRIDE: &'static str = "STRIDE";

impl PricesFixture {
    /// Two prices - USD at $1 and SILK at $1.05, at 18 decimals.
    pub fn basic_prices_1() -> (r: Vec<(&'static str, u128)>)
        ensures
            r@.len() == 2,
            r@[0].0@ == "USD"@ && r@[0].1 == 1_000_000_000_000_000_000,
            r@[1].0@ == "SILK"@ && r@[1].1 == 1_050_000_000_000_000_000,
    {
        vec![
            (USD, 1_000_000_000_000_000_000u128),  // $1
            (SILK, 105 * 10_000_000_000_000_000u128),  // $1.05
        ]
    }

    /// Eight prices - USD, BTC, ETH, XAU, FRAX, OSMO, USDC, and STRIDE
    pub fn basic_prices_2() -> (r: Vec<(&'static str, u128)>)
        ensures
            r@.len() == 8,
            r@[0].0@ == "USD"@ && r@[0].1 == 1_000_000_000_000_000_000,
            r@[1].0@ == "BTC"@ && r@[1].1 == 29_398_200_000_000_000_000_000,
            r@[2].0@ == "ETH"@ && r@[2].1 == 1_831_260_000_000_000_000_000,
            r@[3].0@ == "XAU"@ && r@[3].1 == 1_852_650_000_000_000_000_000,
            r@[4].0@ == "FRAX"@ && r@[4].1 == 1_000_000_000_000_000_000,
            r@[5].0@ == "OSMO"@ && r@[5].1 == 944_000_000_000_000_000,
            r@[6].0@ == "USDC"@ && r@[6].1 == 1_000_000_000_000_000_000,
            r@[7].0@ == "STRIDE"@ && r@[7].1 == 8_000_000_000_000_000_000,
    {
        vec![
            (USD, 100 * 10_000_000_000_000_000u128),  // $1
            (BTC, 2_939_820 * 10_000_000_000_000_000u128),  // $29398.2
            (ETH, 183_126 * 10_000_000_000_000_000u128),  // $1831.26
            (XAU, 185_265 * 10_000_000_000_000_000u128),  // $1852.65
            (FRAX, 100 * 10_000_000_000_000_000u128),  // $1
            (OSMO, 944 * 1_000_000_000_000_000u128),  // $0.944
            (USDC, 100 * 10_000_000_000_000_000u128),  // $1
            (STRIDE, 800 * 10_000_000_000_000_000u128),  // $8
        ]
    }
}

/// The string is a decimal whose atomics fit in 128 bits.
pub open spec fn is_price_str(s: Seq<char>) -> bool {
    decimal_str_atomics(s) matches Some(a) && a <= u128::MAX
}

/// Reference data of the price written as a decimal string, updated at
/// `last_updated`.
pub fn price_data(price: &str, last_updated: u64) -> (r: ReferenceData)
    requires
        is_price_str(price@),
    ensures
        Some(r.rate@) == decimal_str_atomics(price@),
        r.last_updated_base == last_updated,
        r.last_updated_quote == last_updated,
{
    let price = Decimal256::from_str(price).unwrap();
    ReferenceData { rate: price.atomics(), last_updated_base: last_updated, last_updated_quote: last_updated }
}

/// Reference data of the price written as a decimal string, or `None`
/// where it is not such a decimal.
pub fn checked_price_data(price: &str, last_updated: u64) -> (r: Option<ReferenceData>)
    ensures
        r is Some <==> is_price_str(price@),
        r matches Some(d) ==> Some(d.rate@) == decimal_str_atomics(price@) && d.last_updated_base == last_updated
            && d.last_updated_quote == last_updated,
{
    match Decimal256::from_str(price) {
        Some(d) => {
            if d.atomics().to_u128().is_some() {
                Some(price_data(price, last_updated))
            } else {
                None
            }
        },
        None => None,
    }
}

/// A price for each (key, price, time) item.
pub fn generate_price_feed(items: Vec<(&str, &str, u64)>) -> (r: Vec<OraclePrice>)
    requires
        forall|i: int| 0 <= i < items@.len() ==> is_price_str((#[trigger] items@[i]).1@),
    ensures
        r@.len() == items@.len(),
        forall|i: int| 0 <= i < items@.len() ==> (#[trigger] r@[i]).key@ == items@[i].0@ && Some(r@[i].data.rate@)
            == decimal_str_atomics(items@[i].1@) && r@[i].data.last_updated_base == items@[i].2
            && r@[i].data.last_updated_quote == items@[i].2,
{
    let mut prices: Vec<OraclePrice> = Vec::new();
    let mut i: usize = 0;
    while i < items.len()
        invariant
            i <= items@.len(),
            forall|j: int| 0 <= j < items@.len() ==> is_price_str((#[trigger] items@[j]).1@),
            prices@.len() == i,
            forall|j: int| 0 <= j < i ==> (#[trigger] prices@[j]).key@ == items@[j].0@ && Some(prices@[j].data.rate@)
                == decimal_str_atomics(items@[j].1@) && prices@[j].data.last_updated_base == items@[j].2
                && prices@[j].data.last_updated_quote == items@[j].2,
        decreases items@.len() - i,
    {
        let item = items[i];
        prices.push(OraclePrice::new(String::from_str(item.0), price_data(item.1, item.2)));
        i = i + 1;
    }
    prices
}

/// A price for each (key, price, time) item, or `None` where some price
/// string is not a decimal whose atomics fit in 128 bits.
pub fn checked_price_feed(items: Vec<(&str, &str, u64)>) -> (r: Option<Vec<OraclePrice>>)
    ensures
        r is Some <==> forall|i: int| 0 <= i < items@.len() ==> is_price_str((#[trigger] items@[i]).1@),
        r matches Some(v) ==> v@.len() == items@.len(),
{
    let mut i: usize = 0;
    while i < items.len()
        invariant
            i <= items@.len(),
            forall|j: int| 0 <= j < i ==> is_price_str((#[trigger] items@[j]).1@),
        decreases items@.len() - i,
    {
        if checked_price_data(items[i].1, items[i].2).is_none() {
            return None;
        }
        i = i + 1;
    }
    Some(generate_price_feed(items))
}

} // verus!
