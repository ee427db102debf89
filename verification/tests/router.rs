use shade_oracles::common::{Contract, StdError};
use shade_oracles::interfaces::common::OraclePrice;
use shade_oracles::interfaces::providers::{Provider, ReferenceData};
use shade_oracles::interfaces::common::querier::group_oracle_responses;
use shade_oracles::interfaces::router::msg::{Config, OracleResponse, RegistryOperation, UpdateConfig};
use shade_oracles::interfaces::router::registry::{OracleRouter, ProtectedKeyInfo, RouterStore};
use shade_oracles::num::{Decimal256, Uint256};

fn contract(a: &str) -> Contract {
    Contract::new(a.to_string(), format!("{}-hash", a))
}

fn router() -> OracleRouter {
    OracleRouter {
        config: Config {
            this: contract("router"),
            admin_auth: contract("admin"),
            provider: Provider::Band(contract("band")),
            quote_symbol: "USD".to_string(),
        },
    }
}

fn keys(ks: &[&str]) -> Vec<String> {
    ks.iter().map(|k| k.to_string()).collect()
}

fn price(key: &str, rate: u128) -> OraclePrice {
    OraclePrice::new(key.to_string(), ReferenceData::new(Uint256::from_u128(rate), 1, 1))
}

#[test]
fn registry_reads_back_what_was_written() {
    let router = router();
    let mut store = RouterStore::init_storage();
    store
        .resolve_registry_operation(RegistryOperation::SetKeys {
            oracle: contract("oracle_a"),
            keys: keys(&["SCRT", "ATOM"]),
        })
        .unwrap();
    let got = router.get_oracle(&store, &"SCRT".to_string()).unwrap();
    assert!(got.equals(&contract("oracle_a")));
    // A key without an oracle is answered by the router itself.
    let got = router.get_oracle(&store, &"ETH".to_string()).unwrap();
    assert!(got.equals(&contract("router")));
    assert!(store.keys.contains(&"ATOM".to_string()));

    store
        .resolve_registry_operation(RegistryOperation::RemoveKeys { keys: keys(&["SCRT"]) })
        .unwrap();
    let got = router.get_oracle(&store, &"SCRT".to_string()).unwrap();
    assert!(got.equals(&contract("router")));
    assert!(!store.keys.contains(&"SCRT".to_string()));
    assert!(store.keys.contains(&"ATOM".to_string()));
    assert_eq!(store.keys.len(), 1);
    assert_eq!(store.oracles.len(), 1);
}

#[test]
fn set_keys_replaces_the_oracle_of_a_key() {
    let router = router();
    let mut store = RouterStore::init_storage();
    store
        .resolve_registry_operation(RegistryOperation::SetKeys { oracle: contract("a"), keys: keys(&["K"]) })
        .unwrap();
    store
        .resolve_registry_operation(RegistryOperation::SetKeys { oracle: contract("b"), keys: keys(&["K"]) })
        .unwrap();
    assert!(router.get_oracle(&store, &"K".to_string()).unwrap().equals(&contract("b")));
    assert_eq!(store.keys.len(), 1);
}

fn protected_store(expected: u128, deviation_percent: u64) -> RouterStore {
    let mut store = RouterStore::init_storage();
    store
        .resolve_registry_operation(RegistryOperation::SetProtection {
            infos: vec![ProtectedKeyInfo::new(
                "SILK".to_string(),
                Decimal256::percent(deviation_percent),
                Uint256::from_u128(expected),
            )],
        })
        .unwrap();
    store
}

#[test]
fn deviation_test_passes_within_the_protection() {
    let store = protected_store(1_000_000_000_000_000_000, 5);
    // 4% away passes, the expected price itself passes, unprotected keys pass.
    assert!(store.try_deviation_test(&price("SILK", 1_040_000_000_000_000_000)).is_ok());
    assert!(store.try_deviation_test(&price("SILK", 1_000_000_000_000_000_000)).is_ok());
    assert!(store.try_deviation_test(&price("USD", 7)).is_ok());
    // Exactly 5% away passes too.
    assert!(store.try_deviation_test(&price("SILK", 950_000_000_000_000_000)).is_ok());
}

#[test]
fn deviation_test_fails_beyond_the_protection() {
    let store = protected_store(1_000_000_000_000_000_000, 5);
    match store.try_deviation_test(&price("SILK", 1_060_000_000_000_000_000)) {
        Err(StdError::ProtectedPriceDeviation { actual, expected, deviation, actual_deviation }) => {
            assert_eq!(actual.to_u128(), Some(1_060_000_000_000_000_000));
            assert_eq!(expected.to_u128(), Some(1_000_000_000_000_000_000));
            assert_eq!(deviation.atomics().to_u128(), Some(50_000_000_000_000_000));
            assert_eq!(actual_deviation.atomics().to_u128(), Some(60_000_000_000_000_000));
        }
        other => panic!("unexpected {:?}", other),
    }
}

#[test]
fn protected_keys_can_be_updated_and_removed() {
    let mut store = protected_store(1_000_000_000_000_000_000, 5);
    store.update_protected_key(&"SILK".to_string(), Uint256::from_u128(2_000_000_000_000_000_000)).unwrap();
    assert!(store.try_deviation_test(&price("SILK", 2_000_000_000_000_000_000)).is_ok());
    assert!(store.try_deviation_test(&price("SILK", 1_000_000_000_000_000_000)).is_err());
    match store.update_protected_key(&"USD".to_string(), Uint256::from_u128(1)) {
        Err(StdError::GenericErr { msg }) => assert_eq!(msg, "Can't update price for unprotected key USD."),
        other => panic!("unexpected {:?}", other),
    }
    let infos = store.get_protected_keys();
    assert_eq!(infos.len(), 1);
    assert_eq!(infos[0].key, "SILK");
    store
        .resolve_registry_operation(RegistryOperation::RemoveProtection { keys: keys(&["SILK"]) })
        .unwrap();
    assert!(store.try_deviation_test(&price("SILK", 1)).is_ok());
    assert_eq!(store.get_protected_keys().len(), 0);
}

#[test]
fn keys_are_grouped_by_oracle_in_order() {
    let router = router();
    let mut store = RouterStore::init_storage();
    store
        .resolve_registry_operation(RegistryOperation::SetKeys { oracle: contract("a"), keys: keys(&["A1", "A2"]) })
        .unwrap();
    store
        .resolve_registry_operation(RegistryOperation::SetKeys { oracle: contract("b"), keys: keys(&["B1"]) })
        .unwrap();
    let groups = router.group_keys_by_oracle(&store, &keys(&["B1", "X", "A1", "A2", "Y"])).unwrap();
    assert_eq!(groups.oracles.len(), 3);
    assert!(groups.oracles[0].equals(&contract("b")));
    assert!(groups.oracles[1].equals(&contract("router")));
    assert!(groups.oracles[2].equals(&contract("a")));
    assert_eq!(groups.keys[0], keys(&["B1"]));
    assert_eq!(groups.keys[1], keys(&["X", "Y"]));
    assert_eq!(groups.keys[2], keys(&["A1", "A2"]));
}

#[test]
fn config_updates_and_provider_prices() {
    let router = router();
    let router = router
        .update_config(UpdateConfig { admin_auth: None, provider: None, quote_symbol: Some("EUR".to_string()) })
        .unwrap();
    assert_eq!(router.config.quote_symbol, "EUR");
    assert!(router.config.admin_auth.equals(&contract("admin")));
    let pairs = router.provider_symbol_pairs(&keys(&["SCRT", "ATOM"]));
    assert_eq!(pairs, vec![("SCRT".to_string(), "EUR".to_string()), ("ATOM".to_string(), "EUR".to_string())]);
    let data = vec![ReferenceData::new(Uint256::from_u128(5), 1, 2), ReferenceData::new(Uint256::from_u128(6), 3, 4)];
    let prices = OracleRouter::provider_prices(&keys(&["SCRT", "ATOM"]), &data);
    assert_eq!(prices.len(), 2);
    assert_eq!(prices[1].key, "ATOM");
    assert_eq!(prices[1].data.rate.to_u128(), Some(6));
    assert_eq!(prices[1].data.last_updated_quote, 4);
}

#[test]
fn router_answers_are_grouped_by_oracle() {
    let resp = |k: &str, o: &str| OracleResponse { key: k.to_string(), oracle: contract(o) };
    let resps = vec![resp("BTC", "band"), resp("stkd-SCRT", "bot"), resp("ETH", "band"), resp("SHD", "index")];
    let g = group_oracle_responses(&resps);
    assert_eq!(g.oracles.len(), 3);
    assert_eq!(g.oracles[0].address, "band");
    assert_eq!(g.keys[0], vec!["BTC".to_string(), "ETH".to_string()]);
    assert_eq!(g.oracles[1].address, "bot");
    assert_eq!(g.keys[1], vec!["stkd-SCRT".to_string()]);
    assert_eq!(g.oracles[2].address, "index");
    assert_eq!(g.keys[2], vec!["SHD".to_string()]);
    assert!(group_oracle_responses(&vec![]).oracles.is_empty());
}
