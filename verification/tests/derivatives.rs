use shade_oracles::collections::StrSet;
use shade_oracles::common::{Contract, StdError};
use shade_oracles::interfaces::common::OraclePrice;
use shade_oracles::interfaces::derivatives::bot::{
    BotStakingDerivativesOracle, DerivativeDataConfigUpdate, DerivativeRate, DerivativeUpdates, ExecuteMsg,
    RawDerivativeData,
};
use shade_oracles::interfaces::derivatives::stride::{BotPermission, StrideStakingDerivativesOracle};
use shade_oracles::interfaces::providers::ReferenceData;
use shade_oracles::num::{Decimal256, Uint256};

const UNIT: u128 = 1_000_000_000_000_000_000;

fn dec(atomics: u128) -> Decimal256 {
    Decimal256::new(Uint256::from_u128(atomics))
}

fn raw(key: &str, underlying: &str, rate: u128) -> RawDerivativeData {
    RawDerivativeData {
        key: key.to_string(),
        underlying_key: underlying.to_string(),
        initial_rate: dec(rate),
        rate_timeout: 100,
        rate_max_change: Decimal256::percent(10),
    }
}

fn setup() -> (BotStakingDerivativesOracle, shade_oracles::interfaces::derivatives::bot::DerivativesStore) {
    let (oracle, mut store) = BotStakingDerivativesOracle::instantiate(Contract::new("router".to_string(), "h".to_string()));
    oracle
        .set_derivatives(&mut store, 1000, vec![raw("stkd-SCRT", "SCRT", 12 * UNIT / 10)])
        .unwrap();
    (oracle, store)
}

#[test]
fn rate_keys_round_trip() {
    let key = BotStakingDerivativesOracle::create_rate_key("stkd-SCRT");
    assert_eq!(key, "stkd-SCRT Rate");
    assert_eq!(BotStakingDerivativesOracle::process_key(&key), (true, "stkd-SCRT".to_string()));
    assert_eq!(BotStakingDerivativesOracle::process_key("stkd-SCRT"), (false, "stkd-SCRT".to_string()));
    // Every trailing " Rate" is removed.
    assert_eq!(BotStakingDerivativesOracle::process_key("X Rate Rate"), (true, "X".to_string()));
    assert_eq!(BotStakingDerivativesOracle::process_key("Rate"), (false, "Rate".to_string()));
    assert_eq!(StrideStakingDerivativesOracle::process_key(" Rate"), (true, "".to_string()));
}

#[test]
fn zero_initial_rate_is_refused() {
    let (oracle, mut store) = setup();
    let r = oracle.set_derivatives(&mut store, 1000, vec![raw("a", "A", UNIT), raw("b", "B", 0)]);
    match r {
        Err(StdError::GenericErr { msg }) => assert_eq!(msg, "Rate must be greater than 0"),
        other => panic!("unexpected {:?}", other),
    }
    // Nothing of the refused batch is stored.
    assert!(!store.supported_keys.contains(&"a".to_string()));
    assert!(DerivativeRate::new(dec(0), 1, 1, dec(1)).is_err());
}

#[test]
fn rate_key_price_is_the_rate() {
    let (oracle, store) = setup();
    let p = oracle.query_price(&store, 1050, "stkd-SCRT Rate".to_string(), None).unwrap();
    assert_eq!(p.key, "stkd-SCRT Rate");
    assert_eq!(p.data.rate.to_u128(), Some(12 * UNIT / 10));
    assert_eq!(p.data.last_updated_base, 1000);
}

#[test]
fn derivative_price_is_rate_times_underlying() {
    let (oracle, store) = setup();
    assert_eq!(
        BotStakingDerivativesOracle::underlying_key_of(&store, &"stkd-SCRT".to_string()).unwrap(),
        Some("SCRT".to_string())
    );
    let underlying = OraclePrice::new("SCRT".to_string(), ReferenceData::new(Uint256::from_u128(5 * UNIT), 7, 8));
    let p = oracle.query_price(&store, 1050, "stkd-SCRT".to_string(), Some(&underlying)).unwrap();
    assert_eq!(p.data.rate.to_u128(), Some(6 * UNIT));
    assert_eq!(p.data.last_updated_base, 7);
    assert_eq!(p.data.last_updated_quote, 8);
}

#[test]
fn stale_rate_is_refused() {
    let (oracle, store) = setup();
    match oracle.query_price(&store, 1101, "stkd-SCRT Rate".to_string(), None) {
        Err(StdError::StaleRate { last_updated, now }) => {
            assert_eq!(last_updated, 1000);
            assert_eq!(now, 1101);
        }
        other => panic!("unexpected {:?}", other),
    }
    // Exactly at the timeout the rate is still fresh.
    assert!(oracle.query_price(&store, 1100, "stkd-SCRT Rate".to_string(), None).is_ok());
    // An unknown key is not found.
    assert!(matches!(
        oracle.query_price(&store, 1000, "other".to_string(), None),
        Err(StdError::NotFound { .. })
    ));
}

#[test]
fn prices_keep_the_order_of_the_keys() {
    let (oracle, mut store) = setup();
    oracle.set_derivatives(&mut store, 1000, vec![raw("stkd-ATOM", "ATOM", UNIT)]).unwrap();
    let keys = vec!["stkd-ATOM".to_string(), "stkd-SCRT Rate".to_string(), "stkd-SCRT".to_string()];
    let needed = BotStakingDerivativesOracle::underlying_keys(&store, &keys).unwrap();
    assert_eq!(needed, vec!["ATOM".to_string(), "SCRT".to_string()]);
    let underlying = vec![
        OraclePrice::new("ATOM".to_string(), ReferenceData::new(Uint256::from_u128(10 * UNIT), 1, 1)),
        OraclePrice::new("SCRT".to_string(), ReferenceData::new(Uint256::from_u128(UNIT), 2, 2)),
    ];
    let prices = oracle.query_prices(&store, 1000, &keys, &underlying).unwrap();
    assert_eq!(prices.len(), 3);
    assert_eq!(prices[0].data.rate.to_u128(), Some(10 * UNIT));
    assert_eq!(prices[1].data.rate.to_u128(), Some(12 * UNIT / 10));
    assert_eq!(prices[2].data.rate.to_u128(), Some(12 * UNIT / 10));
    assert_eq!(prices[2].key, "stkd-SCRT");
}

#[test]
fn pushed_rates_must_stay_within_the_allowed_change() {
    let (_, mut store) = setup();
    // 1.2 -> 1.3 is an 8.3% change, within 10%.
    BotStakingDerivativesOracle::update_rates(&mut store, 1010, vec![("stkd-SCRT".to_string(), dec(13 * UNIT / 10))]).unwrap();
    let d = BotStakingDerivativesOracle::get_derivative_data_resp(&"stkd-SCRT".to_string(), &store).unwrap();
    assert_eq!(d.rate.value.atomics().to_u128(), Some(13 * UNIT / 10));
    assert_eq!(d.rate.last_updated, 1010);
    // 1.3 -> 1.5 is a 15% change.
    match BotStakingDerivativesOracle::update_rates(&mut store, 1020, vec![("stkd-SCRT".to_string(), dec(15 * UNIT / 10))]) {
        Err(StdError::NotWithinPrecision { value, tolerance, expected, deviation }) => {
            assert_eq!(value.to_u128(), Some(15 * UNIT / 10));
            assert_eq!(tolerance.to_u128(), Some(UNIT / 10));
            assert_eq!(expected.to_u128(), Some(13 * UNIT / 10));
            assert_eq!(deviation.atomics().to_u128(), Some(153846153846153846));
        }
        other => panic!("unexpected {:?}", other),
    }
    assert!(matches!(
        BotStakingDerivativesOracle::update_rates(&mut store, 1020, vec![("nope".to_string(), dec(UNIT))]),
        Err(StdError::NotFound { .. })
    ));
}

#[test]
fn execute_checks_status_admin_and_permission() {
    let (mut oracle, mut store) = setup();
    let denied = || Err(StdError::generic_err("denied".to_string()));
    // The admin check refuses.
    let r = oracle.execute(&mut store, 1000, ExecuteMsg::RemoveDerivatives(vec!["stkd-SCRT".to_string()]), denied(), Ok(()), "bot_");
    assert!(matches!(r, Err(StdError::GenericErr { .. })));
    assert!(store.supported_keys.contains(&"stkd-SCRT".to_string()));
    // The rate permission is what rate pushes need.
    let r = oracle.execute(
        &mut store,
        1010,
        ExecuteMsg::UpdateDerivatives(DerivativeUpdates::Rates(vec![("stkd-SCRT".to_string(), dec(UNIT * 11 / 10))])),
        denied(),
        Ok(()),
        "bot_",
    );
    assert_eq!(r.unwrap(), "bot_update_derivative_rates");
    // Disabling leaves only status changes.
    assert_eq!(oracle.execute(&mut store, 1010, ExecuteMsg::SetStatus(false), Ok(()), Ok(()), "bot_").unwrap(), "bot_set_status");
    match oracle.execute(&mut store, 1010, ExecuteMsg::RemoveDerivatives(vec![]), Ok(()), Ok(()), "bot_") {
        Err(StdError::GenericErr { msg }) => {
            assert_eq!(msg, "This oracle has been disabled. Only operation available is changing status.")
        }
        other => panic!("unexpected {:?}", other),
    }
    oracle.execute(&mut store, 1010, ExecuteMsg::SetStatus(true), Ok(()), Ok(()), "bot_").unwrap();
    let r = oracle.execute(
        &mut store,
        1010,
        ExecuteMsg::UpdateDerivatives(DerivativeUpdates::Config(vec![(
            "stkd-SCRT".to_string(),
            DerivativeDataConfigUpdate::new(Some("uSCRT".to_string()), Some(5), Some(Decimal256::percent(50))),
        )])),
        Ok(()),
        denied(),
        "bot_",
    );
    assert_eq!(r.unwrap(), "bot_update_derivative_configs");
    let d = BotStakingDerivativesOracle::get_derivative_data_resp(&"stkd-SCRT".to_string(), &store).unwrap();
    assert_eq!(d.underlying_key, "uSCRT");
    assert_eq!(d.rate.timeout, 5);
    // The maximum change is not updated by a configuration update.
    assert_eq!(d.rate.max_change.atomics().to_u128(), Some(UNIT / 10));
    let r = oracle.execute(&mut store, 1010, ExecuteMsg::RemoveDerivatives(vec!["stkd-SCRT".to_string()]), Ok(()), Ok(()), "bot_");
    assert_eq!(r.unwrap(), "bot_remove_derivatives");
    assert!(!store.supported_keys.contains(&"stkd-SCRT".to_string()));
}

#[test]
fn config_lists_each_key_and_its_rate_key() {
    let (oracle, store) = setup();
    let resp = oracle.query_config(&store).unwrap();
    assert_eq!(resp.supported_keys, vec!["stkd-SCRT".to_string(), "stkd-SCRT Rate".to_string()]);
    assert!(resp.config.enabled);
}

#[test]
fn stride_rates_change_by_an_absolute_amount() {
    let (oracle, mut store) = BotStakingDerivativesOracle::instantiate(Contract::new("r".to_string(), "h".to_string()));
    let stride = StrideStakingDerivativesOracle { config: oracle.config };
    let mut priced = StrSet::new();
    priced.insert("OSMO".to_string());
    match stride.set_derivatives(&mut store, &priced, 0, vec![raw("Stride ATOM", "ATOM", UNIT)]) {
        Err(StdError::GenericErr { msg }) => assert_eq!(msg, "Failed to query price for ATOM in router."),
        other => panic!("unexpected {:?}", other),
    }
    stride.set_derivatives(&mut store, &priced, 0, vec![raw("Stride OSMO", "OSMO", UNIT)]).unwrap();
    // A change of 0.1 is allowed (maximum change 0.1), 0.2 is not.
    StrideStakingDerivativesOracle::update_rates(&mut store, 5, vec![("Stride OSMO".to_string(), dec(11 * UNIT / 10))]).unwrap();
    match StrideStakingDerivativesOracle::update_rates(&mut store, 6, vec![("Stride OSMO".to_string(), dec(13 * UNIT / 10))]) {
        Err(StdError::RateChangeTooLarge { max_change, change }) => {
            assert_eq!(max_change.atomics().to_u128(), Some(UNIT / 10));
            assert_eq!(change.atomics().to_u128(), Some(2 * UNIT / 10));
        }
        other => panic!("unexpected {:?}", other),
    }
    assert_eq!(BotPermission::UpdateRates.to_string(), "SHADE_ORACLES_STRIDE_RATES_BOT");
}
