use shade_oracles::common::asset::{Asset, AssetError, Assets, RawAsset};
use shade_oracles::common::error::CommonOracleError;
use shade_oracles::common::querier::require_admin_or_bot;
use shade_oracles::common::{Contract, StdError};
use shade_oracles::interfaces::common::config::CommonConfig;
use shade_oracles::interfaces::lp::resolve_pair;
use shade_oracles::protocols::secretswap::{AssetInfo, AssetInfoRaw};
use shade_oracles::protocols::shade::swap::{QueryMsg, ShadeSwapQuerier, ShadeSwapQueryMsgResponse, SwapResult, TokenPair, TokenType};
use shade_oracles::protocols::shade_earn_v1::{deposit_for_shares, QueryAnswer};
use shade_oracles::protocols::siennaswap::{Pair, SiennaDexTokenType, SiennaSwapPairInfo};
use shade_oracles::unit_test_interface::prices::{checked_price_data, PricesFixture};

fn contract(a: &str) -> Contract {
    Contract::new(a.to_string(), "hash".to_string())
}

fn custom(a: &str) -> SiennaDexTokenType {
    SiennaDexTokenType::CustomToken { contract_addr: a.to_string(), token_code_hash: "hash".to_string() }
}

fn sienna_info(t0: SiennaDexTokenType, t1: SiennaDexTokenType) -> SiennaSwapPairInfo {
    SiennaSwapPairInfo {
        liquidity_token: contract("lp"),
        factory: contract("factory"),
        pair: Pair { token_0: t0, token_1: t1 },
        amount_0: 0,
        amount_1: 0,
        total_liquidity: 0,
        contract_version: 1,
    }
}

#[test]
fn sienna_pairs_resolve_only_to_custom_tokens() {
    let (a, b) = resolve_pair(&sienna_info(custom("a"), custom("b"))).unwrap();
    assert_eq!(a.address, "a");
    assert_eq!(b.address, "b");
    let native = SiennaDexTokenType::NativeToken { denom: "uscrt".to_string() };
    match resolve_pair(&sienna_info(native, custom("b"))) {
        Err(StdError::GenericErr { msg }) => assert_eq!(msg, "Could not resolve SiennaSwap token 1 info."),
        other => panic!("unexpected {:?}", other),
    }
    let native = SiennaDexTokenType::NativeToken { denom: "uscrt".to_string() };
    match resolve_pair(&sienna_info(custom("a"), native)) {
        Err(StdError::GenericErr { msg }) => assert_eq!(msg, "Could not resolve SiennaSwap token 2 info."),
        other => panic!("unexpected {:?}", other),
    }
}

#[test]
fn secretswap_assets_compare_by_address_or_denom() {
    let t = |a: &str| AssetInfo::Token { contract_addr: a.to_string(), token_code_hash: "x".to_string(), viewing_key: "k".to_string() };
    let n = |d: &str| AssetInfo::NativeToken { denom: d.to_string() };
    assert!(t("a").equal(&t("a")));
    assert!(!t("a").equal(&t("b")));
    assert!(!t("a").equal(&n("a")));
    assert!(n("uscrt").equal(&n("uscrt")));
    assert!(n("uscrt").is_native_token());
    assert!(!t("a").is_native_token());
    assert_eq!(t("addr").to_string(), "addr");
    let r = AssetInfoRaw::Token { contract_addr: vec![1, 2, 3], token_code_hash: "x".to_string(), viewing_key: "k".to_string() };
    let r2 = AssetInfoRaw::Token { contract_addr: vec![1, 2, 4], token_code_hash: "y".to_string(), viewing_key: "j".to_string() };
    assert!(r.equal(&r));
    assert!(!r.equal(&r2));
}

#[test]
fn shadeswap_tokens_and_answers() {
    let t = |a: &str| TokenType::CustomToken { contract_addr: a.to_string(), token_code_hash: "h".to_string(), oracle_key: None };
    let pair = TokenPair(t("a"), TokenType::NativeToken { denom: "uscrt".to_string(), oracle_key: None }, false);
    assert!(pair.require_has_address(&"a".to_string()).is_ok());
    match pair.require_has_address(&"z".to_string()) {
        Err(StdError::GenericErr { msg }) => assert_eq!(msg, "Token z is not in pair."),
        other => panic!("unexpected {:?}", other),
    }
    match pair.into_contracts() {
        Err(StdError::GenericErr { msg }) => assert_eq!(msg, "Pair Error: Token pair is not a snip20 pair."),
        other => panic!("unexpected {:?}", other),
    }
    match t("a").require_address_eq(&"b".to_string()) {
        Err(StdError::GenericErr { msg }) => assert_eq!(msg, "Pair Error: Token is not the expected token b."),
        other => panic!("unexpected {:?}", other),
    }
    let answer = ShadeSwapQueryMsgResponse::SwapSimulation {
        total_fee_amount: 1,
        lp_fee_amount: 2,
        shade_dao_fee_amount: 3,
        result: SwapResult { return_amount: 4 },
        price: "1.5".to_string(),
    };
    let sim = ShadeSwapQuerier::swap_simulation_from(answer).unwrap();
    assert_eq!(sim.result.return_amount, 4);
    let answer = ShadeSwapQueryMsgResponse::SwapSimulation {
        total_fee_amount: 1,
        lp_fee_amount: 2,
        shade_dao_fee_amount: 3,
        result: SwapResult { return_amount: 4 },
        price: "1.5".to_string(),
    };
    assert!(matches!(ShadeSwapQuerier::pair_info_from(answer), Err(StdError::GenericErr { msg }) if msg == "Unexpected response"));
    match ShadeSwapQuerier::swap_simulation_query(&contract("tok"), 77) {
        QueryMsg::SwapSimulation { offer, exclude_fee } => {
            assert_eq!(offer.amount, 77);
            assert_eq!(exclude_fee, Some(true));
        }
        _ => panic!("wrong query"),
    }
}

#[test]
fn earn_vault_answers() {
    assert_eq!(deposit_for_shares(QueryAnswer::DepositForShares { amount: 9 }).unwrap(), 9);
    match deposit_for_shares(QueryAnswer::Reward { amount: 9 }) {
        Err(StdError::GenericErr { msg }) => {
            assert_eq!(msg, "An error occurred while trying to retrieve deposit for shares.")
        }
        other => panic!("unexpected {:?}", other),
    }
}

#[test]
fn error_messages() {
    assert_eq!(CommonOracleError::InvalidRouterSymbol("X".to_string()).to_string(), "Failed to query price for X in router.");
    assert_eq!(CommonOracleError::NotSupportedKey("X".to_string()).to_string(), "X not in supported keys.");
    assert_eq!(CommonOracleError::AssetNotFound("addr".to_string()).to_string(), "Asset addr not found.");
    assert_eq!(
        CommonOracleError::DisabledOracle.to_string(),
        "This oracle has been disabled. Only operation available is changing status."
    );
    assert_eq!(
        CommonOracleError::UnauthorizedPermission("u".to_string(), "p".to_string()).to_string(),
        "u does not have permission p."
    );
    assert_eq!(
        AssetError::InvalidSymbol("S".to_string()).to_string(),
        "Failed to query a price for S. Cannot set quote symbol of asset to invalid symbol."
    );
    let denied = || Err(StdError::generic_err("no".to_string()));
    assert!(require_admin_or_bot(denied(), Ok(())).is_ok());
    assert!(matches!(require_admin_or_bot(denied(), denied()), Err(StdError::GenericErr { msg }) if msg == "User is not an admin or bot."));
}

#[test]
fn assets_are_kept_once_per_address() {
    let mut assets = Assets::new();
    let a = Asset::new(contract("tok"), 6, "TOK".to_string());
    assets.may_set(&a).unwrap();
    let b = Asset::new(contract("tok"), 18, "OTHER".to_string());
    assets.may_set(&b).unwrap();
    assert_eq!(assets.require_existing_asset(&"tok".to_string()).unwrap().decimals, 6);
    assert!(assets.update_existing_asset(&"tok".to_string(), "NEW", false).is_err());
    assets.update_existing_asset(&"tok".to_string(), "NEW", true).unwrap();
    assert_eq!(assets.require_existing_asset(&"tok".to_string()).unwrap().quote_symbol, "NEW");
    match assets.require_existing_asset(&"none".to_string()) {
        Err(StdError::GenericErr { msg }) => assert_eq!(msg, "Asset none not found."),
        other => panic!("unexpected {:?}", other),
    }
    let raw = RawAsset::new(contract("x"), "X".to_string());
    assert!(raw.into_asset(false, contract("x"), 6).is_err());
}

#[test]
fn config_checks() {
    let (mut config, mut keys) = CommonConfig::init(contract("router"));
    assert!(config.require_enabled().is_ok());
    assert!(CommonConfig::require_supported_key(&keys, &"K".to_string()).is_err());
    CommonConfig::add_supported_key(&mut keys, &"K".to_string()).unwrap();
    assert!(CommonConfig::require_supported_key(&keys, &"K".to_string()).is_ok());
    config.update_config(Some(false), None).unwrap();
    assert!(config.require_enabled().is_err());
    assert!(config.require_permission(&"u".to_string(), &"p".to_string(), true).is_ok());
    let resp = config.get_resp(&keys).unwrap();
    assert_eq!(resp.supported_keys, vec!["K".to_string()]);
}

#[test]
fn price_fixtures() {
    let p1 = PricesFixture::basic_prices_1();
    assert_eq!(p1, vec![("USD", 1_000_000_000_000_000_000), ("SILK", 1_050_000_000_000_000_000)]);
    let p2 = PricesFixture::basic_prices_2();
    assert_eq!(p2.len(), 8);
    assert_eq!(p2[1], ("BTC", 29_398_200_000_000_000_000_000));
    assert_eq!(p2[5], ("OSMO", 944_000_000_000_000_000));
    assert_eq!(p2[7].0, "STRIDE");
    let d = checked_price_data("1.25", 7).unwrap();
    assert_eq!(d.rate.to_u128(), Some(1_250_000_000_000_000_000));
    assert_eq!(d.last_updated_base, 7);
    assert!(checked_price_data("x", 7).is_none());
}

#[test]
fn raw_asset_bytes_identify_the_asset() {
    let native = AssetInfoRaw::NativeToken { denom: "uscrt".to_string() };
    assert_eq!(native.as_bytes(), b"uscrt");
    let token = AssetInfoRaw::Token { contract_addr: vec![7, 8, 9], token_code_hash: "h".to_string(), viewing_key: "k".to_string() };
    assert_eq!(token.as_bytes(), &[7u8, 8, 9][..]);
}

#[test]
fn assets_round_trip_through_raw_form() {
    let token = AssetInfo::Token { contract_addr: "secret1abc".to_string(), token_code_hash: "h".to_string(), viewing_key: "k".to_string() };
    let raw = token.to_raw(vec![1, 2, 3]);
    assert!(matches!(&raw, AssetInfoRaw::Token { contract_addr, token_code_hash, viewing_key }
        if contract_addr == &vec![1u8, 2, 3] && token_code_hash == "h" && viewing_key == "k"));
    let back = raw.to_normal("secret1abc".to_string());
    assert!(back.equal(&token));
    let native = AssetInfo::NativeToken { denom: "uscrt".to_string() };
    let raw_native = native.to_raw(vec![]);
    assert!(matches!(&raw_native, AssetInfoRaw::NativeToken { denom } if denom == "uscrt"));
    let asset = shade_oracles::protocols::secretswap::Asset { info: native, amount: 42 };
    let raw_asset = asset.to_raw(vec![9]);
    assert_eq!(raw_asset.amount, 42);
    let normal = raw_asset.to_normal("ignored".to_string());
    assert_eq!(normal.amount, 42);
    assert!(matches!(normal.info, AssetInfo::NativeToken { ref denom } if denom == "uscrt"));
}
