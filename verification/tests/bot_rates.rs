use shade_oracles::collections::StrSet;
use shade_oracles::common::{Contract, StdError};
use shade_oracles::interfaces::bot::{BotRateOracle, ExecuteMsg, RateDataConfigUpdate, RateDataUpdate, RawRateData};
use shade_oracles::interfaces::common::config::BotPermission;
use shade_oracles::num::{Decimal256, Uint256};

const UNIT: u128 = 1_000_000_000_000_000_000;

fn dec(atomics: u128) -> Decimal256 {
    Decimal256::new(Uint256::from_u128(atomics))
}

fn raw(key: &str, rate: u128, permission: &str) -> RawRateData {
    RawRateData {
        key: key.to_string(),
        initial_rate: dec(rate),
        timeout: 60,
        max_change: Decimal256::percent(5),
        permission: permission.to_string(),
    }
}

fn setup() -> (BotRateOracle, shade_oracles::interfaces::bot::RatesStore) {
    let (oracle, mut store) = BotRateOracle::instantiate(Contract::new("router".to_string(), "h".to_string()));
    oracle
        .set_rates(&mut store, 100, vec![raw("IST", UNIT, "IST_BOT"), raw("EUR", 11 * UNIT / 10, "FX_BOT")])
        .unwrap();
    (oracle, store)
}

#[test]
fn rates_are_priced_while_fresh() {
    let (oracle, store) = setup();
    let p = oracle.query_price(&store, 160, "IST".to_string()).unwrap();
    assert_eq!(p.data.rate.to_u128(), Some(UNIT));
    assert_eq!(p.data.last_updated_base, 100);
    assert!(matches!(oracle.query_price(&store, 161, "IST".to_string()), Err(StdError::StaleRate { .. })));
    let ps = oracle.query_prices(&store, 150, vec!["EUR".to_string(), "IST".to_string(), "EUR".to_string()]).unwrap();
    assert_eq!(ps.len(), 3);
    assert_eq!(ps[0].key, "EUR");
    assert_eq!(ps[0].data.rate.to_u128(), Some(11 * UNIT / 10));
    assert_eq!(ps[1].data.rate.to_u128(), Some(UNIT));
    assert!(matches!(oracle.query_prices(&store, 150, vec!["XAU".to_string()]), Err(StdError::NotFound { .. })));
}

#[test]
fn pushing_rates_needs_every_permission_involved() {
    let (mut oracle, mut store) = setup();
    let rates = vec![("IST".to_string(), dec(102 * UNIT / 100)), ("EUR".to_string(), dec(11 * UNIT / 10))];
    let needed = BotRateOracle::required_permissions(&store, &rates);
    assert_eq!(needed, vec!["IST_BOT".to_string(), "FX_BOT".to_string()]);
    let mut granted = StrSet::new();
    granted.insert("IST_BOT".to_string());
    let sender = "bot".to_string();
    let r = oracle.execute(
        &mut store,
        120,
        ExecuteMsg::UpdateRates(RateDataUpdate::Rates(rates)),
        Ok(()),
        &sender,
        &granted,
        "rates_",
    );
    match r {
        Err(StdError::GenericErr { msg }) => assert_eq!(msg, "bot does not have permission FX_BOT."),
        other => panic!("unexpected {:?}", other),
    }
    let (mut oracle, mut store) = setup();
    granted.insert("FX_BOT".to_string());
    let rates = vec![("IST".to_string(), dec(102 * UNIT / 100))];
    let r = oracle.execute(&mut store, 120, ExecuteMsg::UpdateRates(RateDataUpdate::Rates(rates)), Ok(()), &sender, &granted, "rates_");
    assert_eq!(r.unwrap(), "rates_update_rates");
    let d = BotRateOracle::get_rate_data(&"IST".to_string(), &store).unwrap();
    assert_eq!(d.rate.atomics().to_u128(), Some(102 * UNIT / 100));
    assert_eq!(d.last_updated, 120);
}

#[test]
fn configs_and_removal() {
    let (mut oracle, mut store) = setup();
    let sender = "admin".to_string();
    let granted = StrSet::new();
    let r = oracle.execute(
        &mut store,
        120,
        ExecuteMsg::UpdateRates(RateDataUpdate::Config(vec![("IST".to_string(), RateDataConfigUpdate::new(Some(5), None))])),
        Ok(()),
        &sender,
        &granted,
        "rates_",
    );
    assert_eq!(r.unwrap(), "rates_update_rate_configs");
    assert_eq!(BotRateOracle::get_rate_data(&"IST".to_string(), &store).unwrap().timeout, 5);
    assert!(matches!(
        oracle.update_rate_configs(&mut store, vec![("XAU".to_string(), RateDataConfigUpdate::new(None, None))]),
        Err(StdError::NotFound { .. })
    ));
    BotRateOracle::remove_rates(&mut store, vec!["IST".to_string(), "XAU".to_string()]).unwrap();
    let all = BotRateOracle::get_supported_rates(&store).unwrap();
    assert_eq!(all.len(), 1);
    assert_eq!(all[0].key, "EUR");
    let cfg = oracle.query_config(&store).unwrap();
    assert_eq!(cfg.supported_keys, vec!["EUR".to_string()]);
}

#[test]
fn bot_permission_names() {
    assert_eq!(BotPermission::UpdateStrideRates.to_string(), "SHADE_ORACLES_STRIDE_RATES_BOT");
    assert_eq!(BotPermission::UpdatePersistenceRates.to_string(), "SHADE_ORACLES_PERSISTENCE_RATES_BOT");
    assert_eq!(BotPermission::UpdateQuicksilverRates.to_string(), "SHADE_ORACLES_QUICKSILVER_RATES_BOT");
    assert_eq!(BotPermission::UpdateLidoRates.to_string(), "SHADE_ORACLES_LIDO_RATES_BOT");
    assert_eq!(BotPermission::UpdateIstPrice.to_string(), "SHADE_ORACLES_IST_PRICE_BOT");
}

#[test]
fn pushed_rates_are_measurable_unless_the_change_overflows() {
    let (oracle, mut store) = setup();
    let ok = vec![("IST".to_string(), dec(102 * UNIT / 100)), ("XAU".to_string(), dec(UNIT))];
    assert!(BotRateOracle::rates_update_computable(&store, 120, &ok));
    // A change so large that its ratio to the stored rate leaves 256 bits.
    let huge = Decimal256::new(Uint256::from_be_bytes([0xff; 32]));
    oracle.set_rates(&mut store, 100, vec![raw("TINY", 1, "X")]).unwrap();
    let too_big = vec![("TINY".to_string(), huge)];
    assert!(!BotRateOracle::rates_update_computable(&store, 120, &too_big));
    // A refused push stops the batch, so what follows is never measured.
    let stops = vec![("XAU".to_string(), dec(UNIT)), ("TINY".to_string(), huge)];
    assert!(BotRateOracle::rates_update_computable(&store, 120, &stops));
}

#[test]
fn config_updates_apply_in_order_until_an_unknown_key() {
    let (oracle, mut store) = setup();
    let r = oracle.update_rate_configs(
        &mut store,
        vec![
            ("IST".to_string(), RateDataConfigUpdate::new(Some(5), None)),
            ("XAU".to_string(), RateDataConfigUpdate::new(Some(7), None)),
            ("EUR".to_string(), RateDataConfigUpdate::new(Some(9), None)),
        ],
    );
    assert!(matches!(r, Err(StdError::NotFound { .. })));
    assert_eq!(BotRateOracle::get_rate_data(&"IST".to_string(), &store).unwrap().timeout, 5);
    assert_eq!(BotRateOracle::get_rate_data(&"EUR".to_string(), &store).unwrap().timeout, 60);
}

#[test]
fn a_refused_admin_message_leaves_the_oracle_as_it_was() {
    let (mut oracle, mut store) = setup();
    let sender = "intruder".to_string();
    let refused = Err(StdError::generic_err("not an admin".to_string()));
    let r = oracle.execute(
        &mut store,
        120,
        ExecuteMsg::UpdateConfig(Contract::new("other".to_string(), "h".to_string())),
        refused,
        &sender,
        &StrSet::new(),
        "rates_",
    );
    assert!(r.is_err());
    assert_eq!(oracle.config.router.address, "router");
    assert!(oracle.config.enabled);
}
