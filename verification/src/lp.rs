//! Prices of liquidity-pool tokens from the reserves and prices of the two
//! pooled tokens, with amounts held as 128-bit integers.
use vstd::prelude::*;
use crate::num::{Uint256, u256_limit, isqrt_spec};
use crate::common::{StdError, StdResult, normalize_price, scale_to_18, sqrt};

verus! {

/// The reserve of one pooled token, its price (18 decimals) and its decimals.
pub struct FairLpPriceInfo {
    pub reserve: u128,
    pub price: u128,
    pub decimals: u8,
}

/// The inputs that the computation accepts without a panic: no token has
/// more than 18 decimals and each amount scaled to 18 decimals fits in 128
/// bits.
pub open spec fn lp_inputs_fit(a: FairLpPriceInfo, b: FairLpPriceInfo, total_supply: u128, lp_token_decimals: u8) -> bool {
    &&& a.decimals <= 18
    &&& b.decimals <= 18
    &&& lp_token_decimals <= 18
    &&& scale_to_18(a.reserve as nat, a.decimals as nat) <= u128::MAX
    &&& scale_to_18(b.reserve as nat, b.decimals as nat) <= u128::MAX
    &&& scale_to_18(total_supply as nat, lp_token_decimals as nat) <= u128::MAX
}

/// The spot price of one LP token: the value of both reserves over the
/// supply, all scaled to 18 decimals, or the error that stops it.
pub open spec fn lp_spot_price_result(a: FairLpPriceInfo, b: FairLpPriceInfo, total_supply: u128, lp_token_decimals: u8) -> Result<nat, StdError> {
    let total: nat = scale_to_18(a.reserve as nat, a.decimals as nat) * (a.price as nat)
        + scale_to_18(b.reserve as nat, b.decimals as nat) * (b.price as nat);
    let supply = scale_to_18(total_supply as nat, lp_token_decimals as nat);
    if total >= u256_limit() {
        Err(StdError::Overflow)
    } else if supply == 0 {
        Err(StdError::DivideByZero)
    } else if total / supply > u128::MAX {
        Err(StdError::ConversionOverflow)
    } else {
        Ok(total / supply)
    }
}

/// The fair price of one LP token: twice the product of the square roots of
/// the product of the reserves and of the product of the prices, over the
/// supply, or the error that stops it.
pub open spec fn fair_lp_price_result(a: FairLpPriceInfo, b: FairLpPriceInfo, total_supply: u128, lp_token_decimals: u8) -> Result<nat, StdError> {
    let r = isqrt_spec(
        scale_to_18(a.reserve as nat, a.decimals as nat) * scale_to_18(b.reserve as nat, b.decimals as nat),
    );
    let p = isqrt_spec((a.price as nat) * (b.price as nat));
    let supply = scale_to_18(total_supply as nat, lp_token_decimals as nat);
    if supply == 0 {
        Err(StdError::DivideByZero)
    } else if r * p / supply * 2 >= u256_limit() {
        Err(StdError::Overflow)
    } else if r * p / supply * 2 > u128::MAX {
        Err(StdError::ConversionOverflow)
    } else {
        Ok(r * p / supply * 2)
    }
}

/// The number in a result of a computation on `u128`.
pub open spec fn u128_result(r: StdResult<u128>) -> Result<nat, StdError> {
    match r {
        Ok(v) => Ok(v as nat),
        Err(e) => Err(e),
    }
}

/// A `Uint256` narrowed to 128 bits.
fn narrow(x: &Uint256) -> (r: StdResult<u128>)
    ensures
        x@ <= u128::MAX ==> r == Ok::<u128, StdError>(x@ as u128),
        x@ > u128::MAX ==> r == Err::<u128, StdError>(StdError::ConversionOverflow),
{
    match x.to_u128() {
        Some(v) => Ok(v),
        None => Err(StdError::ConversionOverflow),
    }
}

/// Calculates the spot price of an LP token
pub fn get_lp_token_spot_price(a: FairLpPriceInfo, b: FairLpPriceInfo, total_supply: u128, lp_token_decimals: u8) -> (r: StdResult<u128>)
    requires
        lp_inputs_fit(a, b, total_supply, lp_token_decimals),
    ensures
        u128_result(r) == lp_spot_price_result(a, b, total_supply, lp_token_decimals),
{
    let normalized_reserve1 = Uint256::from_u128(normalize_price(a.reserve, a.decimals));
    let normalized_reserve2 = Uint256::from_u128(normalize_price(b.reserve, b.decimals));
    let normalized_supply = Uint256::from_u128(normalize_price(total_supply, lp_token_decimals));
    let safe_price_a = Uint256::from_u128(a.price);
    let safe_price_b = Uint256::from_u128(b.price);
    proof {
        assert(normalized_reserve1@ * safe_price_a@ < u256_limit()) by (nonlinear_arith)
            requires normalized_reserve1@ <= u128::MAX, safe_price_a@ <= u128::MAX;
        assert(normalized_reserve2@ * safe_price_b@ < u256_limit()) by (nonlinear_arith)
            requires normalized_reserve2@ <= u128::MAX, safe_price_b@ <= u128::MAX;
    }
    let total_value_a = normalized_reserve1.checked_mul(&safe_price_a).unwrap();
    let total_value_b = normalized_reserve2.checked_mul(&safe_price_b).unwrap();
    let lp_total_value = match total_value_a.checked_add(&total_value_b) {
        Some(v) => v,
        None => return Err(StdError::Overflow),
    };
    let rate = match lp_total_value.checked_div(&normalized_supply) {
        Some(v) => v,
        None => return Err(StdError::DivideByZero),
    };
    narrow(&rate)
}

/// Calculates the price of an LP token based on https://blog.alphafinance.io/fair-lp-token-pricing/.
///
/// Assumes token prices are normalized to 10^18.
pub fn get_fair_lp_token_price(a: FairLpPriceInfo, b: FairLpPriceInfo, total_supply: u128, lp_token_decimals: u8) -> (r: StdResult<u128>)
    requires
        lp_inputs_fit(a, b, total_supply, lp_token_decimals),
    ensures
        u128_result(r) == fair_lp_price_result(a, b, total_supply, lp_token_decimals),
{
    let normalized_reserve1 = Uint256::from_u128(normalize_price(a.reserve, a.decimals));
    let normalized_reserve2 = Uint256::from_u128(normalize_price(b.reserve, b.decimals));
    let normalized_supply = Uint256::from_u128(normalize_price(total_supply, lp_token_decimals));
    proof {
        assert(normalized_reserve1@ * normalized_reserve2@ < u256_limit()) by (nonlinear_arith)
            requires normalized_reserve1@ <= u128::MAX, normalized_reserve2@ <= u128::MAX;
        assert((a.price as nat) * (b.price as nat) < u256_limit()) by (nonlinear_arith);
    }
    let reserves = normalized_reserve1.checked_mul(&normalized_reserve2).unwrap();
    let r = sqrt(&reserves).unwrap();
    let safe_price_a = Uint256::from_u128(a.price);
    let safe_price_b = Uint256::from_u128(b.price);
    let prices = safe_price_a.checked_mul(&safe_price_b).unwrap();
    let p = sqrt(&prices).unwrap();
    proof {
        let lim: nat = 340282366920938463463374607431768211456nat;
        assert(reserves@ < lim * lim) by (nonlinear_arith)
            requires reserves@ == normalized_reserve1@ * normalized_reserve2@,
                normalized_reserve1@ < lim, normalized_reserve2@ < lim;
        assert(prices@ < lim * lim) by (nonlinear_arith)
            requires prices@ == safe_price_a@ * safe_price_b@, safe_price_a@ < lim, safe_price_b@ < lim;
        assert(r@ < lim) by (nonlinear_arith)
            requires r@ * r@ <= reserves@, reserves@ < lim * lim;
        assert(p@ < lim) by (nonlinear_arith)
            requires p@ * p@ <= prices@, prices@ < lim * lim;
        assert(r@ * p@ < u256_limit()) by (nonlinear_arith)
            requires r@ < lim, p@ < lim, lim * lim == u256_limit();
    }
    let rp = r.checked_mul(&p).unwrap();
    let q = match rp.checked_div(&normalized_supply) {
        Some(v) => v,
        None => return Err(StdError::DivideByZero),
    };
    let two = Uint256::from_u128(2);
    let doubled = match q.checked_mul(&two) {
        Some(v) => v,
        None => return Err(StdError::Overflow),
    };
    narrow(&doubled)
}

/// The spot price of an LP token reads the supply in the LP token's own
/// decimals: ten times the supply counted with one more decimal place gives
/// the same price.
pub proof fn lemma_lp_token_spot_price_reads_supply_decimals(a: FairLpPriceInfo, b: FairLpPriceInfo, total_supply: u128, lp_token_decimals: u8)
    requires
        lp_token_decimals < 18,
        total_supply * 10 <= u128::MAX,
    ensures
        lp_spot_price_result(a, b, (total_supply * 10) as u128, (lp_token_decimals + 1) as u8) == lp_spot_price_result(
            a,
            b,
            total_supply,
            lp_token_decimals,
        ),
{
    crate::common::math::lemma_scale_one_more_decimal(total_supply as nat, lp_token_decimals as nat);
}

/// The fair price of an LP token reads the supply in the LP token's own
/// decimals: ten times the supply counted with one more decimal place gives
/// the same price.
pub proof fn lemma_fair_lp_token_price_reads_supply_decimals(a: FairLpPriceInfo, b: FairLpPriceInfo, total_supply: u128, lp_token_decimals: u8)
    requires
        lp_token_decimals < 18,
        total_supply * 10 <= u128::MAX,
    ensures
        fair_lp_price_result(a, b, (total_supply * 10) as u128, (lp_token_decimals + 1) as u8) == fair_lp_price_result(
            a,
            b,
            total_supply,
            lp_token_decimals,
        ),
{
    crate::common::math::lemma_scale_one_more_decimal(total_supply as nat, lp_token_decimals as nat);
}

/// The spot price of an LP token is the dollar value of the pool per token:
/// the price times the supply (scaled from the LP token's decimals to 18)
/// is at most the value of both reserves (scaled to 18 decimals), and one
/// more unit of price would exceed it.
pub proof fn lemma_lp_token_spot_price_prices_the_pool(a: FairLpPriceInfo, b: FairLpPriceInfo, total_supply: u128, lp_token_decimals: u8, price: nat)
    requires
        lp_spot_price_result(a, b, total_supply, lp_token_decimals) == Ok::<nat, StdError>(price),
    ensures
        ({
            let value = scale_to_18(a.reserve as nat, a.decimals as nat) * (a.price as nat) + scale_to_18(
                b.reserve as nat,
                b.decimals as nat,
            ) * (b.price as nat);
            let supply = scale_to_18(total_supply as nat, lp_token_decimals as nat);
            &&& supply > 0
            &&& price * supply <= value
            &&& value < (price + 1) * supply
        }),
{
    let value = scale_to_18(a.reserve as nat, a.decimals as nat) * (a.price as nat) + scale_to_18(
        b.reserve as nat,
        b.decimals as nat,
    ) * (b.price as nat);
    let supply = scale_to_18(total_supply as nat, lp_token_decimals as nat);
    vstd::arithmetic::div_mod::lemma_fundamental_div_mod(value as int, supply as int);
    vstd::arithmetic::div_mod::lemma_mod_bound(value as int, supply as int);
    let r: int = (value as int) % (supply as int);
    assert(price * supply <= value && value < (price + 1) * supply) by (nonlinear_arith)
        requires
            value == (supply as int) * price + r,
            0 <= r < supply;
}

/// The fair price of an LP token does not depend on which token of the pair
/// comes first.
pub proof fn lemma_fair_lp_token_price_symmetric(a: FairLpPriceInfo, b: FairLpPriceInfo, total_supply: u128, lp_token_decimals: u8)
    ensures
        fair_lp_price_result(a, b, total_supply, lp_token_decimals) == fair_lp_price_result(
            b,
            a,
            total_supply,
            lp_token_decimals,
        ),
{
    let ra = scale_to_18(a.reserve as nat, a.decimals as nat);
    let rb = scale_to_18(b.reserve as nat, b.decimals as nat);
    vstd::arithmetic::mul::lemma_mul_is_commutative(ra as int, rb as int);
    vstd::arithmetic::mul::lemma_mul_is_commutative(a.price as int, b.price as int);
}

/// The spot price of an LP token does not depend on which token of the pair
/// comes first.
pub proof fn lemma_lp_token_spot_price_symmetric(a: FairLpPriceInfo, b: FairLpPriceInfo, total_supply: u128, lp_token_decimals: u8)
    ensures
        lp_spot_price_result(a, b, total_supply, lp_token_decimals) == lp_spot_price_result(
            b,
            a,
            total_supply,
            lp_token_decimals,
        ),
{
}

} // verus!
