use options_trading::exchange_rate_provider::{
    default_exchange_rate_provider_admin_address, ExchangeRateProvider,
};
use options_trading::{Address, Asset};

fn create_test_address(suffix: &str) -> Address {
    let base = "0x123456789012345678901234567890123456789";
    let full_address = format!("{}{}", base, suffix);
    // Ensure address is exactly 42 characters by padding/truncating
    let padded = format!("{:0<42}", full_address);
    Address::from(&padded[..42]).unwrap()
}

#[test]
fn test_get_rate_default_btc_usdt() {
    let provider = ExchangeRateProvider::new();
    let rate = provider.get_rate(&Asset::BTC, &Asset::USDT);

    // Should have some rate set for BTC/USDT
    assert!(rate.is_some());
    assert!(rate.unwrap() > 0);
}

#[test]
fn test_get_rate_non_existent_pair() {
    let provider = ExchangeRateProvider::new();

    // Distinct closed-set pairs are initialized (to 0)
    let rate = provider.get_rate(&Asset::ETH, &Asset::BTC);
    assert!(rate.is_some());
}

#[test]
fn test_set_rate_success() {
    let admin_addr = default_exchange_rate_provider_admin_address();

    let mut provider = ExchangeRateProvider::new();
    let result = provider.set_rate(Asset::ETH, Asset::USDT, 3_000, admin_addr);
    assert!(result.is_ok());

    // Verify the rate was set
    let rate = provider.get_rate(&Asset::ETH, &Asset::USDT);
    assert_eq!(rate, Some(3_000));
}

#[test]
fn test_set_rate_unauthorized() {
    let unauthorized_addr = create_test_address("999");

    let mut provider = ExchangeRateProvider::new();
    let result = provider.set_rate(Asset::ETH, Asset::USDT, 3_000, unauthorized_addr);

    assert!(result.is_err());
    assert_eq!(
        result.unwrap_err(),
        "caller not authorized to update exchange rate"
    );
}

#[test]
fn test_set_multiple_rates() {
    let admin_addr = default_exchange_rate_provider_admin_address();

    let mut provider = ExchangeRateProvider::new();

    // Set multiple rates
    provider
        .set_rate(Asset::ETH, Asset::USDT, 3_000, admin_addr.clone())
        .unwrap();
    provider
        .set_rate(Asset::SOL, Asset::USDT, 100, admin_addr.clone())
        .unwrap();
    provider
        .set_rate(Asset::APPLE, Asset::USDT, 150, admin_addr)
        .unwrap();

    // Verify all rates
    assert_eq!(provider.get_rate(&Asset::ETH, &Asset::USDT), Some(3_000));
    assert_eq!(provider.get_rate(&Asset::SOL, &Asset::USDT), Some(100));
    assert_eq!(provider.get_rate(&Asset::APPLE, &Asset::USDT), Some(150));
}

#[test]
fn test_update_existing_rate() {
    let admin_addr = default_exchange_rate_provider_admin_address();

    let mut provider = ExchangeRateProvider::new();

    // Set initial rate for a unique pair
    provider
        .set_rate(Asset::SOL, Asset::ETH, 30, admin_addr.clone())
        .unwrap();

    // Update the rate
    provider
        .set_rate(Asset::SOL, Asset::ETH, 35, admin_addr)
        .unwrap();

    // Verify the rate was updated
    assert_eq!(provider.get_rate(&Asset::SOL, &Asset::ETH), Some(35));
}

#[test]
fn test_cross_asset_rates() {
    let admin_addr = default_exchange_rate_provider_admin_address();

    let mut provider = ExchangeRateProvider::new();

    // Set BTC/ETH rate (how many ETH for 1 BTC)
    provider
        .set_rate(Asset::BTC, Asset::ETH, 25, admin_addr.clone())
        .unwrap();

    // Set ETH/BTC rate (a distinct entry for the reverse direction)
    provider
        .set_rate(Asset::ETH, Asset::BTC, 4, admin_addr)
        .unwrap();

    assert_eq!(provider.get_rate(&Asset::BTC, &Asset::ETH), Some(25));
    assert_eq!(provider.get_rate(&Asset::ETH, &Asset::BTC), Some(4));
}

#[test]
fn test_rate_precision() {
    let admin_addr = default_exchange_rate_provider_admin_address();

    let mut provider = ExchangeRateProvider::new();

    // Set a precise rate and read back exactly the same value
    provider
        .set_rate(Asset::BTC, Asset::USDT, 67_432, admin_addr)
        .unwrap();

    assert_eq!(provider.get_rate(&Asset::BTC, &Asset::USDT), Some(67_432));
}

#[test]
fn test_zero_rate() {
    let admin_addr = default_exchange_rate_provider_admin_address();

    let mut provider = ExchangeRateProvider::new();

    // Set zero rate (could represent temporarily unavailable pair)
    provider
        .set_rate(Asset::ETH, Asset::USDT, 0, admin_addr)
        .unwrap();

    assert_eq!(provider.get_rate(&Asset::ETH, &Asset::USDT), Some(0));
}

#[test]
fn test_concurrent_read_access() {
    // Two simultaneous readers of the same provider see the same rate
    let provider = ExchangeRateProvider::new();
    let reader1 = &provider;
    let reader2 = &provider;

    let rate1 = reader1.get_rate(&Asset::BTC, &Asset::USDT);
    let rate2 = reader2.get_rate(&Asset::BTC, &Asset::USDT);

    assert_eq!(rate1, rate2);
    assert!(rate1.is_some());
}

#[test]
fn test_same_asset_pair() {
    let provider = ExchangeRateProvider::new();

    // Same asset pairs should not be initialized (the constructor skips them)
    let rate = provider.get_rate(&Asset::BTC, &Asset::BTC);
    assert_eq!(rate, None);
}

#[test]
fn test_asset_pair_from() {
    let pair = options_trading::exchange_rate_provider::AssetPair::from(Asset::BTC, Asset::USDT);
    assert_eq!(pair.base, Asset::BTC);
    assert_eq!(pair.quote, Asset::USDT);
}
