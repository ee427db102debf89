use shade_oracles::common::Contract;
use shade_oracles::interfaces::common::OraclePrice;
use shade_oracles::interfaces::index::{IndexOracle, SIX_HOURS};
use shade_oracles::interfaces::index::msg::InitialBasketItem;
use shade_oracles::num::{Decimal256, Uint256, exp10};
use shade_oracles::unit_test_interface::prices::generate_price_feed;

fn basic_basket() -> Vec<InitialBasketItem> {
    vec![
        ("USD".to_string(), Decimal256::percent(25)),
        ("EURO".to_string(), Decimal256::percent(25)),
        ("GDP".to_string(), Decimal256::percent(25)),
        ("JPY".to_string(), Decimal256::percent(25)),
    ]
}

fn feed_0() -> Vec<OraclePrice> {
    generate_price_feed(vec![
        ("USD", "1.00", 0),
        ("EURO", "1.0196", 0),
        ("GDP", "1.208", 0),
        ("JPY", "0.0074", 0),
    ])
}

fn feed_1() -> Vec<OraclePrice> {
    generate_price_feed(vec![
        ("USD", "1.00", 0),
        ("EURO", "1.30", 0),
        ("GDP", "1.208", 0),
        ("JPY", "0.0074", 0),
    ])
}

fn feed_2() -> Vec<OraclePrice> {
    generate_price_feed(vec![
        ("USD", "1.00", 0),
        ("EURO", "0.0196", 0),
        ("GDP", "1.208", 0),
        ("JPY", "0.0074", 0),
    ])
}

fn feed_3() -> Vec<OraclePrice> {
    generate_price_feed(vec![
        ("USD", "1.00", 0),
        ("EURO", "1.0526", 0),
        ("GDP", "1.075", 0),
        ("JPY", "0.0094", 0),
    ])
}

fn u(x: &Uint256) -> u128 {
    x.to_u128().unwrap()
}

/// Asserts that `actual` is within `deviation` (a fraction at 18 decimals)
/// of `expected`, relative to `expected`.
fn assert_within_deviation(actual: &Uint256, expected: &Uint256, deviation: &Uint256) {
    let a = u(actual);
    let e = u(expected);
    let diff = if a > e { a - e } else { e - a };
    let relative = diff * 1_000_000_000_000_000_000u128 / e;
    assert!(
        relative <= u(deviation),
        "{} is not within {} of {}",
        a,
        u(deviation),
        e
    );
}

fn target_105() -> Uint256 {
    Uint256::from_u128(105 * 10_000_000_000_000_000u128)
}

fn basic_index_init(target: Uint256) -> IndexOracle {
    IndexOracle::init(
        "SILK".to_string(),
        Contract::new(String::new(), String::new()),
        SIX_HOURS,
        basic_basket(),
        target,
        Decimal256::percent(10),
        0,
    )
    .unwrap()
}

#[test]
fn index_test_1() {
    let target = target_105();
    let mut index_oracle = basic_index_init(target);
    index_oracle.compute_fixed_weights(&feed_0()).unwrap();
    index_oracle.compute_peg(Some(&feed_0()), 0).unwrap();

    assert_within_deviation(&index_oracle.peg.value, &target, &exp10(16));

    index_oracle.compute_peg(Some(&feed_1()), 0).unwrap();

    let target = Uint256::from_u128(112 * 10_000_000_000_000_000u128);
    assert_within_deviation(&index_oracle.peg.value, &target, &exp10(16));
}

#[test]
fn freeze_1() {
    let target = target_105();
    let mut index_oracle = basic_index_init(target);
    index_oracle.compute_fixed_weights(&feed_0()).unwrap();

    index_oracle.compute_peg(Some(&feed_0()), 0).unwrap();

    assert_within_deviation(&index_oracle.peg.value, &target, &exp10(16));

    let new_timestamp = SIX_HOURS + 10u64;

    index_oracle.compute_peg(Some(&feed_1()), new_timestamp).unwrap();

    assert!(index_oracle.peg.frozen);
    assert_eq!(index_oracle.peg.last_updated, 0u64);
    assert_within_deviation(&index_oracle.peg.value, &target, &exp10(16));
}

#[test]
fn rollback_1() {
    let target = target_105();
    let mut index_oracle = basic_index_init(target);
    index_oracle.compute_fixed_weights(&feed_2()).unwrap();

    index_oracle.compute_peg(Some(&feed_2()), 0).unwrap();

    assert_within_deviation(&index_oracle.peg.value, &target, &exp10(16));

    let new_timestamp = SIX_HOURS + 10u64;

    index_oracle.compute_peg(Some(&feed_3()), new_timestamp).unwrap();

    assert!(index_oracle.peg.frozen);
    assert_eq!(index_oracle.peg.last_updated, 0u64);
    assert_within_deviation(&index_oracle.peg.value, &target, &exp10(16));

    index_oracle.rollback(&feed_3(), 0).unwrap();
    index_oracle.compute_peg(Some(&feed_3()), 0).unwrap();

    assert!(!index_oracle.peg.frozen);
    assert_eq!(index_oracle.peg.last_updated, 0u64);
    assert_within_deviation(&index_oracle.peg.value, &target, &exp10(16));
}
