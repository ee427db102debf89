use shade_oracles::common::asset::Asset;
use shade_oracles::common::math::{FairLpPriceInfo as BigInfo, LiquidityPoolMath};
use shade_oracles::common::{Contract, StdError};
use shade_oracles::interfaces::common::OraclePrice;
use shade_oracles::interfaces::dex::pair::{LiquidityPairOracle, PairData, TokenInfo};
use shade_oracles::interfaces::providers::ReferenceData;
use shade_oracles::lp::{get_fair_lp_token_price, get_lp_token_spot_price, FairLpPriceInfo};
use shade_oracles::num::Uint256;

const UNIT: u128 = 1_000_000_000_000_000_000;

fn info(reserve: u128, price: u128, decimals: u8) -> FairLpPriceInfo {
    FairLpPriceInfo { reserve, price, decimals }
}

#[test]
fn spot_price_of_a_balanced_pool() {
    // 1000 A at $2 (6 decimals) and 2000 B at $1 (18 decimals), 100 LP tokens (18 decimals).
    let a = info(1000 * 1_000_000, 2 * UNIT, 6);
    let b = info(2000 * UNIT, UNIT, 18);
    let price = get_lp_token_spot_price(a, b, 100 * UNIT, 18).unwrap();
    assert_eq!(price, 40 * UNIT);
}

#[test]
fn fair_price_of_a_balanced_pool() {
    let a = info(1000 * 1_000_000, 2 * UNIT, 6);
    let b = info(2000 * UNIT, UNIT, 18);
    // r = sqrt(1000e18 * 2000e18) = 1414.21e18, p = sqrt(2e18 * 1e18) = 1.41421e18,
    // 2 * r * p / supply = 2 * 2000e36 / 100e18 = 40e18 (rounded down by the roots).
    let price = get_fair_lp_token_price(a, b, 100 * UNIT, 18).unwrap();
    assert!(price <= 40 * UNIT && price > 40 * UNIT - 1_000_000);
    // The fair price does not depend on the order of the tokens.
    let a = info(1000 * 1_000_000, 2 * UNIT, 6);
    let b = info(2000 * UNIT, UNIT, 18);
    assert_eq!(get_fair_lp_token_price(b, a, 100 * UNIT, 18).unwrap(), price);
}

#[test]
fn lp_prices_of_an_empty_supply_divide_by_zero() {
    let a = info(1, UNIT, 18);
    let b = info(1, UNIT, 18);
    assert!(matches!(get_lp_token_spot_price(a, b, 0, 18), Err(StdError::DivideByZero)));
    let a = info(1, UNIT, 18);
    let b = info(1, UNIT, 18);
    assert!(matches!(get_fair_lp_token_price(a, b, 0, 18), Err(StdError::DivideByZero)));
}

#[test]
fn lp_price_that_does_not_fit_128_bits() {
    let a = info(u128::MAX / 2, u128::MAX, 18);
    let b = info(0, 0, 18);
    assert!(matches!(get_lp_token_spot_price(a, b, 1, 18), Err(StdError::ConversionOverflow)));
}

#[test]
fn big_spot_price_and_overflow() {
    let a = BigInfo { reserve: Uint256::from_u128(1000 * 1_000_000), price: Uint256::from_u128(2 * UNIT), decimals: 6 };
    let b = BigInfo { reserve: Uint256::from_u128(2000 * UNIT), price: Uint256::from_u128(UNIT), decimals: 18 };
    let p = LiquidityPoolMath::get_lp_token_spot_price(a, b, 100 * UNIT, 18).unwrap();
    assert_eq!(p.to_u128(), Some(40 * UNIT));
    let a = BigInfo { reserve: Uint256::from_u128(u128::MAX), price: Uint256::from_u128(u128::MAX), decimals: 18 };
    let b = BigInfo { reserve: Uint256::from_u128(u128::MAX), price: Uint256::from_u128(u128::MAX), decimals: 18 };
    assert!(matches!(LiquidityPoolMath::get_lp_token_spot_price(a, b, 1, 18), Err(StdError::Overflow)));
}

fn asset(addr: &str, decimals: u8) -> Asset {
    Asset::new(Contract::new(addr.to_string(), "h".to_string()), decimals, "SYM".to_string())
}

#[test]
fn pair_oracle_spot_rate_takes_the_older_updates() {
    let data = PairData {
        key: "A/B LP".to_string(),
        token_0: asset("a", 6),
        token_1: asset("b", 18),
        pair: Contract::new("pair".to_string(), "h".to_string()),
    };
    let lp = TokenInfo { decimals: 18, total_supply: Some(100 * UNIT) };
    let p0 = OraclePrice::new("A".to_string(), ReferenceData::new(Uint256::from_u128(2 * UNIT), 10, 30));
    let p1 = OraclePrice::new("B".to_string(), ReferenceData::new(Uint256::from_u128(UNIT), 20, 5));
    let r = LiquidityPairOracle::calculate_lp_token_spot_rate(&data, &lp, 1000 * 1_000_000, 2000 * UNIT, [&p0, &p1]).unwrap();
    assert_eq!(r.rate.to_u128(), Some(40 * UNIT));
    assert_eq!(r.last_updated_base, 10);
    assert_eq!(r.last_updated_quote, 5);
    let inferred = LiquidityPairOracle::calculate_lp_token_inferred_rate(&data, &lp, 1000 * 1_000_000, 2000 * UNIT, [&p0, &p1]).unwrap();
    // Twice sqrt(1000e18 * 2000e18) * sqrt(2e18 * 1e18) / 100e18, each root rounded down.
    assert_eq!(inferred.rate.to_u128(), Some(39_999_999_999_999_999_976));
    assert_eq!(inferred.last_updated_base, 10);
    assert_eq!(inferred.last_updated_quote, 5);
}
