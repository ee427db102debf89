//! Price providers (Band and Ojo) and the data they report.
pub mod mock;

use vstd::prelude::*;
use vstd::string::*;
use crate::num::Uint256;
use crate::common::{Contract, StdError};

verus! {

/// A rate and when its base and quote were last updated (in seconds).
#[derive(Clone, Copy, Debug)]
pub struct ReferenceData {
    pub rate: Uint256,
    pub last_updated_base: u64,
    pub last_updated_quote: u64,
}

/// Reference data as an Ojo provider reports it.
#[derive(Clone, Copy, Debug)]
pub struct OjoReferenceData {
    pub rate: Uint256,
    pub last_updated_base: u64,
    pub last_updated_quote: u64,
}

/// Variant of ReferenceData that is optimized for math.
#[derive(Clone, Copy, Debug)]
pub struct BtrReferenceData {
    pub rate: Uint256,
    pub last_updated_base: u64,
    pub last_updated_quote: u64,
}

impl ReferenceData {
    pub fn new(rate: Uint256, last_updated_base: u64, last_updated_quote: u64) -> (r: Self)
        ensures
            r == (ReferenceData { rate, last_updated_base, last_updated_quote }),
    {
        ReferenceData { rate, last_updated_base, last_updated_quote }
    }

    /// Data updated at `time` (in seconds).
    pub fn now(rate: Uint256, time: u64) -> (r: Self)
        ensures
            r == (ReferenceData { rate, last_updated_base: time, last_updated_quote: time }),
    {
        ReferenceData { rate, last_updated_base: time, last_updated_quote: time }
    }

    /// A zero rate last updated at time zero.
    pub fn default() -> (r: Self)
        ensures
            r.rate@ == 0,
            r.last_updated_base == 0,
            r.last_updated_quote == 0,
    {
        ReferenceData { rate: Uint256::zero(), last_updated_base: 0, last_updated_quote: 0 }
    }

    pub fn from_ojo(r: OjoReferenceData) -> (o: Self)
        ensures
            o == (ReferenceData {
                rate: r.rate,
                last_updated_base: r.last_updated_base,
                last_updated_quote: r.last_updated_quote,
            }),
    {
        ReferenceData {
            rate: r.rate,
            last_updated_base: r.last_updated_base,
            last_updated_quote: r.last_updated_quote,
        }
    }

    pub fn from_btr(r: BtrReferenceData) -> (o: Self)
        ensures
            o == (ReferenceData {
                rate: r.rate,
                last_updated_base: r.last_updated_base,
                last_updated_quote: r.last_updated_quote,
            }),
    {
        ReferenceData {
            rate: r.rate,
            last_updated_base: r.last_updated_base,
            last_updated_quote: r.last_updated_quote,
        }
    }
}

impl BtrReferenceData {
    pub fn from_reference_data(r: ReferenceData) -> (o: Self)
        ensures
            o == (BtrReferenceData {
                rate: r.rate,
                last_updated_base: r.last_updated_base,
                last_updated_quote: r.last_updated_quote,
            }),
    {
        BtrReferenceData {
            rate: r.rate,
            last_updated_base: r.last_updated_base,
            last_updated_quote: r.last_updated_quote,
        }
    }
}

/// Queries that a Band provider answers.
#[derive(Clone, Debug)]
pub enum BandQueryMsg {
    GetReferenceData { base_symbol: String, quote_symbol: String },
    GetReferenceDataBulk { base_symbols: Vec<String>, quote_symbols: Vec<String> },
    GetPrice { key: String },
    GetPrices { keys: Vec<String> },
    GetConfig {},
}

/// Queries that an Ojo provider answers.
#[derive(Debug)]
pub enum OjoQueryMsg {
    GetReferenceData { symbol_pair: (String, String) },
    GetReferenceDataBulk { symbol_pairs: Vec<(String, String)> },
    GetMedianReferenceData { symbol_pair: (String, String) },
    GetMedianReferenceDataBulk { symbol_pairs: Vec<(String, String)> },
    GetPrice { key: String },
    GetPrices { keys: Vec<String> },
    GetConfig {},
}

/// A provider given by unvalidated contract addresses.
#[derive(Clone, Debug)]
pub enum RawProvider {
    Band(Contract),
    Ojo(Contract),
}

#[derive(Clone, Debug)]
pub enum Provider {
    Band(Contract),
    Ojo(Contract),
}

impl RawProvider {
    /// The provider with the contract that the address check gave back.
    pub fn into_valid(self, validated: Contract) -> (r: Provider)
        ensures
            self is Band ==> r == Provider::Band(validated),
            self is Ojo ==> r == Provider::Ojo(validated),
    {
        match self {
            RawProvider::Band(_) => Provider::Band(validated),
            RawProvider::Ojo(_) => Provider::Ojo(validated),
        }
    }
}

impl Provider {
    /// Band has no median prices: the median queries fail for it with
    /// `ProviderError::Unimplemented`; Ojo answers them.
    pub fn require_median_support(&self) -> (r: Result<(), ProviderError>)
        ensures
            r is Ok <==> self is Ojo,
            r matches Err(e) ==> e == ProviderError::Unimplemented,
    {
        match self {
            Provider::Band(_) => Err(ProviderError::Unimplemented),
            Provider::Ojo(_) => Ok(()),
        }
    }

    /// The symbol pairs split into the base and quote lists of Band's bulk query.
    pub fn split_symbol_pairs(symbols: &Vec<(String, String)>) -> (r: (Vec<String>, Vec<String>))
        ensures
            r.0@.len() == symbols@.len(),
            r.1@.len() == symbols@.len(),
            forall|i: int| 0 <= i < symbols@.len() ==> #[trigger] r.0@[i]@ == symbols@[i].0@
                && r.1@[i]@ == symbols@[i].1@,
    {
        let mut base_symbols: Vec<String> = Vec::new();
        let mut quote_symbols: Vec<String> = Vec::new();
        let mut i: usize = 0;
        while i < symbols.len()
            invariant
                i <= symbols@.len(),
                base_symbols@.len() == i,
                quote_symbols@.len() == i,
                forall|j: int| 0 <= j < i ==> #[trigger] base_symbols@[j]@ == symbols@[j].0@
                    && quote_symbols@[j]@ == symbols@[j].1@,
            decreases symbols@.len() - i,
        {
            let ghost pb = base_symbols@;
            let ghost pq = quote_symbols@;
            base_symbols.push(symbols[i].0.clone());
            quote_symbols.push(symbols[i].1.clone());
            assert forall|j: int| 0 <= j < i + 1 implies #[trigger] base_symbols@[j]@ == symbols@[j].0@
                && quote_symbols@[j]@ == symbols@[j].1@ by {
                if j < i {
                    assert(base_symbols@[j] == pb[j]);
                    assert(quote_symbols@[j] == pq[j]);
                    assert(pb[j]@ == symbols@[j].0@ && pq[j]@ == symbols@[j].1@);
                }
            }
            i = i + 1;
        }
        (base_symbols, quote_symbols)
    }
}

#[derive(Clone, Copy, Debug, PartialEq, Eq, Structural)]
pub enum ProviderError {
    Unimplemented,
}

impl ProviderError {
    pub fn to_string(&self) -> (r: String)
        ensures
            r@ == "Unimplemented"@,
    {
        String::from_str("Unimplemented")
    }

    pub fn into_std(self) -> (r: StdError)
        ensures
            r.is_generic("Unimplemented"@),
    {
        StdError::GenericErr { msg: self.to_string() }
    }
}

} // verus!
