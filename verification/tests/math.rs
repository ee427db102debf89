use shade_oracles::common::math::{FairLpPriceInfo, LiquidityPoolMath};
use shade_oracles::common::sqrt;
use shade_oracles::num::{Decimal256, Uint256};

fn u(x: &Uint256) -> u128 {
    x.to_u128().unwrap()
}

#[test]
fn test_get_fair_lp_token_price_1() {
    // Hardcoded data from USDC.e - WAVAX pool on Trader Joe
    let price_info_1 = FairLpPriceInfo {
        reserve: Uint256::from_u128(108206619407191u128),
        price: Uint256::from_u128(10u128.pow(18)),
        decimals: 6,
    };

    let price_info_2 = FairLpPriceInfo {
        reserve: Uint256::from_u128(1234341142020098415888219u128),
        price: Uint256::from_u128(87u128 * 10u128.pow(18)),
        decimals: 18,
    };

    let total_supply = 9856618006458893260;

    let fair_lp_token_price =
        LiquidityPoolMath::get_fair_lp_token_price(price_info_1, price_info_2, total_supply, 18);

    let expected = 21872892226771994653562412u128;
    let actual = fair_lp_token_price.unwrap();
    let diff = Uint256::from_u128(expected).abs_diff(&actual);
    let deviation = Decimal256::from_ratio(&diff, &Uint256::from_u128(expected));
    assert!(deviation.lt(&Decimal256::from_ratio(&Uint256::from_u128(1u128), &Uint256::from_u128(10u128.pow(10)))))
}

#[test]
fn sqrt_of_small_numbers() {
    for (v, r) in [(0u128, 0u128), (1, 1), (2, 1), (3, 1), (4, 2), (8, 2), (9, 3), (15, 3), (16, 4), (17, 4)] {
        assert_eq!(u(&sqrt(&Uint256::from_u128(v)).unwrap()), r, "sqrt({})", v);
    }
}

#[test]
fn sqrt_of_large_numbers() {
    let big = u128::MAX;
    let r = u(&sqrt(&Uint256::from_u128(big)).unwrap());
    assert_eq!(r, 18446744073709551615u128);
    let square = Uint256::from_u128(1_000_000_007u128 * 1_000_000_007u128);
    assert_eq!(u(&sqrt(&square).unwrap()), 1_000_000_007u128);
    let below = Uint256::from_u128(1_000_000_007u128 * 1_000_000_007u128 - 1);
    assert_eq!(u(&sqrt(&below).unwrap()), 1_000_000_006u128);
}
