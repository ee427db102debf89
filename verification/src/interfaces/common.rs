//! The query API that every oracle answers and the price it reports.
pub mod config;
pub mod querier;
pub mod status;

use vstd::prelude::*;
use crate::interfaces::providers::{ReferenceData, BtrReferenceData};
use crate::common::{StdError, StdResult};
pub use crate::common::{throw_unsupported_symbol_error, is_disabled};

verus! {

/// Default Query API for all oracles.
///
/// Every oracle must support these 2 methods in addition to any specific ones it wants to support.
#[derive(Clone, Debug)]
pub enum OracleQuery {
    /// Returns PriceResponse
    GetPrice { key: String },
    /// Returns PricesResponse
    GetPrices { keys: Vec<String> },
}

pub type PriceResponse = OraclePrice;

pub type PricesResponse = Vec<OraclePrice>;

/// The price of a key.
#[derive(Clone, Debug)]
pub struct OraclePrice {
    pub key: String,
    pub data: ReferenceData,
}

impl OraclePrice {
    pub fn new(key: String, reference_data: ReferenceData) -> (r: Self)
        ensures
            r.key == key,
            r.data == reference_data,
    {
        OraclePrice { key, data: reference_data }
    }

    pub fn key(&self) -> (r: &String)
        ensures
            *r == self.key,
    {
        &self.key
    }

    pub fn data(&self) -> (r: &ReferenceData)
        ensures
            *r == self.data,
    {
        &self.data
    }
}

/// Variant of OraclePrice that is optimized for math.
#[derive(Clone, Debug)]
pub struct BtrOraclePrice {
    pub key: String,
    pub data: BtrReferenceData,
}

impl BtrOraclePrice {
    pub fn from_oracle_price(o: OraclePrice) -> (r: Self)
        ensures
            r.key == o.key,
            r.data == (BtrReferenceData {
                rate: o.data.rate,
                last_updated_base: o.data.last_updated_base,
                last_updated_quote: o.data.last_updated_quote,
            }),
    {
        BtrOraclePrice { key: o.key, data: BtrReferenceData::from_reference_data(o.data) }
    }

    pub fn into_oracle_price(self) -> (r: OraclePrice)
        ensures
            r.key == self.key,
            r.data == (ReferenceData {
                rate: self.data.rate,
                last_updated_base: self.data.last_updated_base,
                last_updated_quote: self.data.last_updated_quote,
            }),
    {
        OraclePrice { key: self.key, data: ReferenceData::from_btr(self.data) }
    }

    pub fn key(&self) -> (r: &String)
        ensures
            *r == self.key,
    {
        &self.key
    }

    pub fn data(&self) -> (r: &BtrReferenceData)
        ensures
            *r == self.data,
    {
        &self.data
    }

    /// The rate of the price, at 18 decimals.
    pub fn price(&self) -> (r: crate::num::Uint256)
        ensures
            r == self.data.rate,
    {
        self.data.rate
    }

    /// Seconds since the fresher of the base and the quote was updated; a
    /// quote dated after `now` is left out.
    pub open spec fn time_since_updated_spec(&self, now: u64) -> nat {
        let since_base = (now - self.data.last_updated_base) as nat;
        let since_quote = (now - self.data.last_updated_quote) as nat;
        if self.data.last_updated_quote > now || since_base <= since_quote {
            since_base
        } else {
            since_quote
        }
    }

    /// Seconds since the fresher of the base and the quote was updated
    /// (`now` is the current time in seconds). Band sets the quote time of
    /// USD to the largest `u64` rather than never updating it: a quote dated
    /// after `now` gives no age, and the age of the base is returned.
    pub fn time_since_updated(&self, now: u64) -> (r: StdResult<u64>)
        requires
            self.data.last_updated_base <= now,
        ensures
            r matches Ok(t) && t == self.time_since_updated_spec(now),
            self.data.last_updated_quote == u64::MAX && now < u64::MAX ==> r == Ok::<u64, StdError>(
                (now - self.data.last_updated_base) as u64,
            ),
    {
        let base = self.data().last_updated_base;
        let quote = self.data().last_updated_quote;
        let time_since_base = now - base;
        if quote > now {
            return Ok(time_since_base);
        }
        let time_since_quote = now - quote;
        let time_since_updated = if time_since_base <= time_since_quote {
            time_since_base
        } else {
            time_since_quote
        };
        Ok(time_since_updated)
    }

    /// Whether the price is older than `delay_tolerance` seconds.
    pub fn is_stale_price(&self, delay_tolerance: u64, now: u64) -> (r: StdResult<bool>)
        requires
            self.data.last_updated_base <= now,
        ensures
            r matches Ok(b) && b == (self.time_since_updated_spec(now) > delay_tolerance),
    {
        let t = self.time_since_updated(now)?;
        if t > delay_tolerance {
            return Ok(true);
        }
        Ok(false)
    }
}

} // verus!
