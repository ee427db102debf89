use shade_oracles::interfaces::common::{BtrOraclePrice, OraclePrice};
use shade_oracles::interfaces::providers::ReferenceData;
use shade_oracles::common::asset::{Asset, BtrValuedAmount};
use shade_oracles::common::math::{bankers_round, muldiv, GeneralMath, TokenMath};
use shade_oracles::common::{get_precision, is_disabled, normalize_price, throw_unsupported_symbol_error, Contract, StdError};
use shade_oracles::num::{exp10, Decimal256, Uint256};

const UNIT: u128 = 1_000_000_000_000_000_000;

fn u(x: u128) -> Uint256 {
    Uint256::from_u128(x)
}

#[test]
fn muldiv_rounds_down_and_reports_errors() {
    assert_eq!(muldiv(&u(7), &u(3), &u(2)).unwrap().to_u128(), Some(10));
    assert!(matches!(muldiv(&u(7), &u(3), &u(0)), Err(StdError::DivideByZero)));
    let big = exp10(70);
    assert!(matches!(muldiv(&big, &big, &u(1)), Err(StdError::Overflow)));
}

#[test]
fn bankers_rounding_goes_to_even_on_halves() {
    assert_eq!(bankers_round(&u(125), 1).to_u128(), Some(120));
    assert_eq!(bankers_round(&u(135), 1).to_u128(), Some(140));
    assert_eq!(bankers_round(&u(136), 1).to_u128(), Some(140));
    assert_eq!(bankers_round(&u(134), 1).to_u128(), Some(130));
    assert_eq!(bankers_round(&u(50), 2).to_u128(), Some(0));
    assert_eq!(bankers_round(&u(150), 2).to_u128(), Some(200));
}

#[test]
fn normalizing_and_back_is_the_identity() {
    let usdc = Asset::new(Contract::new("usdc".to_string(), "h".to_string()), 6, "USDC".to_string());
    let n = TokenMath::normalize_asset_amount(&usdc, &u(1_234_567)).unwrap();
    assert_eq!(n.to_u128(), Some(1_234_567 * 1_000_000_000_000));
    assert_eq!(TokenMath::get_asset_amount(&usdc, &n).unwrap().to_u128(), Some(1_234_567));
    assert_eq!(usdc.normalize_amount(&u(5)).unwrap().to_u128(), Some(5_000_000_000_000));
    // Half of the smallest unit rounds to even.
    assert_eq!(usdc.get_amount(&u(2_500_000_000_000)).unwrap().to_u128(), Some(2));
    assert_eq!(usdc.get_amount(&u(3_500_000_000_000)).unwrap().to_u128(), Some(4));
    // More than 18 decimals divide.
    assert_eq!(TokenMath::normalize_value(&u(123_456), 20).unwrap().to_u128(), Some(1234));
}

#[test]
fn within_precision() {
    // 1.04 is within 5% of 1.0, 1.06 is not.
    assert!(GeneralMath::require_within_precision(&u(104 * UNIT / 100), &u(UNIT), &u(UNIT / 20)).is_ok());
    assert!(GeneralMath::require_within_precision(&u(0), &u(0), &u(0)).is_ok());
    match GeneralMath::require_within_precision(&u(106 * UNIT / 100), &u(UNIT), &u(UNIT / 20)) {
        Err(StdError::NotWithinPrecision { deviation, .. }) => {
            assert_eq!(deviation.atomics().to_u128(), Some(UNIT * 6 / 100))
        }
        other => panic!("unexpected {:?}", other),
    }
}

#[test]
fn small_helpers() {
    assert_eq!(get_precision(6), 1_000_000);
    assert_eq!(normalize_price(5, 6), 5_000_000_000_000);
    assert!(is_disabled(true).is_ok());
    assert!(matches!(is_disabled(false), Err(StdError::GenericErr { msg }) if msg == "Deprecated oracle."));
    assert!(matches!(throw_unsupported_symbol_error("FOO".to_string()), StdError::GenericErr { msg } if msg == "FOO is not supported as a key."));
}

#[test]
fn decimals_from_ratios_and_strings() {
    assert_eq!(Decimal256::from_ratio(&u(1), &u(3)).atomics().to_u128(), Some(333_333_333_333_333_333));
    assert!(Decimal256::checked_from_ratio(&u(1), &u(0)).is_none());
    assert_eq!(Decimal256::from_str("1.0196").unwrap().atomics().to_u128(), Some(1_019_600_000_000_000_000));
    assert!(Decimal256::from_str("abc").is_none());
    assert_eq!(Decimal256::percent(25).mul_uint(&u(400)).to_u128(), Some(100));
    assert_eq!(u(99).isqrt().to_u128(), Some(9));
}

#[test]
fn valued_amounts_add_up() {
    let mut a = BtrValuedAmount::default();
    assert!(a.is_zero());
    a = a.add(&u(5), &u(10)).unwrap();
    let b = BtrValuedAmount { amount: u(1), value: u(2) };
    a.add_another(&b);
    assert_eq!(a.amount.to_u128(), Some(6));
    assert_eq!(a.value.to_u128(), Some(12));
    assert!(!a.is_zero());
    let max = exp10(77);
    let big = BtrValuedAmount { amount: max, value: u(0) };
    assert!(matches!(big.add(&max, &u(0)), Err(StdError::Overflow)));
}

#[test]
fn a_quote_dated_after_now_is_left_out_of_the_age() {
    let price = |base: u64, quote: u64| {
        BtrOraclePrice::from_oracle_price(OraclePrice::new("USD".to_string(), ReferenceData::new(Uint256::from_u128(1), base, quote)))
    };
    assert_eq!(price(100, u64::MAX).time_since_updated(1000).unwrap(), 900);
    assert_eq!(price(100, 400).time_since_updated(1000).unwrap(), 600);
    assert_eq!(price(700, 400).time_since_updated(1000).unwrap(), 300);
    assert!(!price(100, u64::MAX).is_stale_price(900, 1000).unwrap());
    assert!(price(100, u64::MAX).is_stale_price(899, 1000).unwrap());
}
