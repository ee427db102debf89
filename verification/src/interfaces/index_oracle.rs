//! The messages and stored basket of an index oracle: one symbol priced as a
//! weighted basket of others.
use vstd::prelude::*;
use vstd::string::*;
use crate::collections::StrMap;
use crate::common::{StdError, StdResult};
use crate::num::{Decimal256, Uint256};

verus! {

/// Config doesn't need list of symbols, supported keys. or dependencies.
pub struct InstantiateMsg {
    /// (symbol, weight)
    pub basket: Vec<(String, Decimal256)>,
    pub target: u128,
    pub symbol: String,
}

pub enum ExecuteMsg {
    /// Asset with weight 0 will be removed, all others are added or changed.
    /// (symbol, weight)
    ModBasket { basket: Vec<(String, Decimal256)> },
    UpdateTarget { new_target: Option<u128> },
}

pub enum QueryMsg {
    GetPrice { key: String },
    GetPrices { keys: Vec<String> },
    GetConfig {},
    Basket {},
    GetTarget {},
}

/// The only symbol supported by the index oracle.
pub struct Symbol(pub String);

/// (sym, weight, constant)
pub type BasketResponseItem = (String, Decimal256, u128);

pub struct BasketResponse {
    pub basket: Vec<BasketResponseItem>,
}

pub struct TargetResponse {
    pub target: u128,
}

/// (weight, constant)
pub type BtrBasketItem = (Uint256, Uint256);

pub type BasketSymbol = String;

/// The list of the basket's symbols.
pub struct BasketSymbols;

/// The weight and constant of each symbol of the basket.
pub struct BtrBasket;

pub struct Target(pub u128);

impl BtrBasket {
    /// The weight and constant of each of `symbols`, in their order; a
    /// symbol without an item fails.
    pub fn load_basket(items: &StrMap<BtrBasketItem>, symbols: &Vec<String>) -> (r: StdResult<Vec<(BasketSymbol, Uint256, Uint256)>>)
        ensures
            r is Ok <==> forall|i: int| 0 <= i < symbols@.len() ==> items.view().dom().contains((#[trigger] symbols@[i])@),
            r matches Ok(v) ==> v@.len() == symbols@.len() && forall|i: int| 0 <= i < symbols@.len() ==> {
                let e = #[trigger] v@[i];
                &&& e.0 == symbols@[i]
                &&& e.1 == items.view()[symbols@[i]@].0
                &&& e.2 == items.view()[symbols@[i]@].1
            },
            r matches Err(e) ==> e is NotFound,
    {
        let mut basket: Vec<(BasketSymbol, Uint256, Uint256)> = Vec::new();
        let mut i: usize = 0;
        while i < symbols.len()
            invariant
                i <= symbols@.len(),
                basket@.len() == i,
                forall|j: int| 0 <= j < i ==> items.view().dom().contains((#[trigger] symbols@[j])@),
                forall|j: int| 0 <= j < i ==> {
                    let e = #[trigger] basket@[j];
                    &&& e.0 == symbols@[j]
                    &&& e.1 == items.view()[symbols@[j]@].0
                    &&& e.2 == items.view()[symbols@[j]@].1
                },
            decreases symbols@.len() - i,
        {
            let item = match items.get(&symbols[i]) {
                Some(item) => *item,
                None => return Err(StdError::NotFound { kind: String::from_str("BtrBasketItem") }),
            };
            basket.push((symbols[i].clone(), item.0, item.1));
            i = i + 1;
        }
        Ok(basket)
    }
}

} // verus!
