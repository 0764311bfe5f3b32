use options_trading::exchange::SpotAction;
use options_trading::exchange_rate_provider::ExchangeRateProvider;
use options_trading::{Address, Asset, Exchange, User};

fn create_test_address(suffix: &str) -> Address {
    let base = "0x123456789012345678901234567890123456789";
    let full_address = format!("{}{}", base, suffix);
    // Ensure address is exactly 42 characters by padding/truncating
    let padded = format!("{:0<42}", full_address);
    Address::from(&padded[..42]).unwrap()
}

fn setup_exchange_with_users() -> (Exchange, Address, ExchangeRateProvider) {
    let mut exchange = Exchange::new();

    let trader_addr = create_test_address("1");

    let mut trader = User::new(trader_addr.clone());
    trader.add_asset(&Asset::USDT, 100_000); // 100k USDT
    trader.add_asset(&Asset::BTC, 5); // 5 BTC
    trader.add_asset(&Asset::ETH, 50); // 50 ETH

    exchange.add_escrow_asset(&Asset::USDT, 1_000_000); // 1M USDT
    exchange.add_escrow_asset(&Asset::BTC, 100); // 100 BTC
    exchange.add_escrow_asset(&Asset::ETH, 1_000); // 1000 ETH

    exchange.add_user(trader);

    // The provider starts with the BTC/USDT rate at 100,000.
    let provider = ExchangeRateProvider::new();

    (exchange, trader_addr, provider)
}

#[test]
fn test_spot_buy_success() {
    let (mut exchange, trader_addr, provider) = setup_exchange_with_users();

    // Buy 1 BTC with USDT at 100,000 USDT/BTC rate
    let result = exchange.spot_trade_current_price(
        &Asset::BTC,
        &Asset::USDT,
        1,
        &SpotAction::BUY,
        trader_addr.clone(),
        &provider,
    );

    assert!(result.is_ok(), "Error: {:?}", result.unwrap_err());

    // Check trader received 1 BTC and paid 100,000 USDT
    let trader = exchange.get_user_or_error_immutable(&trader_addr).unwrap();
    assert_eq!(trader.get_balance(&Asset::BTC), 6); // 5 + 1
    assert_eq!(trader.get_balance(&Asset::USDT), 0); // 100k - 100k

    // Check escrow gave 1 BTC and received 100,000 USDT
    assert_eq!(exchange.escrow_user.get_balance(&Asset::BTC), 99); // 100 - 1
    assert_eq!(exchange.escrow_user.get_balance(&Asset::USDT), 1_100_000); // 1M + 100k
}

#[test]
fn test_spot_sell_success() {
    let (mut exchange, trader_addr, provider) = setup_exchange_with_users();

    // Sell 2 BTC for USDT at 100,000 USDT/BTC rate
    let result = exchange.spot_trade_current_price(
        &Asset::BTC,
        &Asset::USDT,
        2,
        &SpotAction::SELL,
        trader_addr.clone(),
        &provider,
    );

    assert!(result.is_ok());

    // Check trader gave 2 BTC and received 200,000 USDT
    let trader = exchange.get_user_or_error_immutable(&trader_addr).unwrap();
    assert_eq!(trader.get_balance(&Asset::BTC), 3); // 5 - 2
    assert_eq!(trader.get_balance(&Asset::USDT), 300_000); // 100k + 200k

    // Check escrow received 2 BTC and gave 200,000 USDT
    assert_eq!(exchange.escrow_user.get_balance(&Asset::BTC), 102); // 100 + 2
    assert_eq!(exchange.escrow_user.get_balance(&Asset::USDT), 800_000); // 1M - 200k
}

#[test]
fn test_spot_buy_insufficient_funds() {
    let (mut exchange, trader_addr, provider) = setup_exchange_with_users();

    // Try to buy 2 BTC but only have 100k USDT (need 200k)
    let result = exchange.spot_trade_current_price(
        &Asset::BTC,
        &Asset::USDT,
        2,
        &SpotAction::BUY,
        trader_addr.clone(),
        &provider,
    );

    assert!(result.is_err());
    assert!(result
        .unwrap_err()
        .contains("Transfer failed: sender doesn't have enough"));

    // Balances should remain unchanged
    let trader = exchange.get_user_or_error_immutable(&trader_addr).unwrap();
    assert_eq!(trader.get_balance(&Asset::BTC), 5);
    assert_eq!(trader.get_balance(&Asset::USDT), 100_000);
}

#[test]
fn test_spot_sell_insufficient_assets() {
    let (mut exchange, trader_addr, provider) = setup_exchange_with_users();

    // Try to sell 10 BTC but only have 5
    let result = exchange.spot_trade_current_price(
        &Asset::BTC,
        &Asset::USDT,
        10,
        &SpotAction::SELL,
        trader_addr.clone(),
        &provider,
    );

    // Should fail due to insufficient BTC
    assert!(result.is_err());
    assert!(result
        .unwrap_err()
        .contains("Transfer failed: sender doesn't have enough"));

    // The failed trade leaves every balance exactly as it was.
    let trader = exchange.get_user_or_error_immutable(&trader_addr).unwrap();
    assert_eq!(trader.get_balance(&Asset::BTC), 5);
    assert_eq!(trader.get_balance(&Asset::USDT), 100_000);
    assert_eq!(exchange.escrow_user.get_balance(&Asset::BTC), 100);
    assert_eq!(exchange.escrow_user.get_balance(&Asset::USDT), 1_000_000);
}

#[test]
fn test_spot_trade_user_not_found() {
    let mut exchange = Exchange::new();
    let provider = ExchangeRateProvider::new();
    let non_existent_addr = create_test_address("999");

    let result = exchange.spot_trade_current_price(
        &Asset::BTC,
        &Asset::USDT,
        1,
        &SpotAction::BUY,
        non_existent_addr,
        &provider,
    );

    assert!(result.is_err());
    assert_eq!(result.unwrap_err(), "User not found");
}

#[test]
fn test_spot_trade_exchange_rate_not_found() {
    let (mut exchange, trader_addr, provider) = setup_exchange_with_users();

    // Trade with a pair that has a 0 rate (all closed pairs default to 0 except BTC/USDT)
    let result = exchange.spot_trade_current_price(
        &Asset::ETH,
        &Asset::BTC,
        1,
        &SpotAction::BUY,
        trader_addr,
        &provider,
    );

    // This should work with rate 0 (buying 1 ETH costs 0 BTC)
    assert!(result.is_ok());
}

#[test]
fn test_spot_trade_missing_pair_reports_error() {
    let (mut exchange, trader_addr, provider) = setup_exchange_with_users();

    // Pairs with an open-variant asset are never in the initial table.
    let result = exchange.spot_trade_current_price(
        &Asset::OTHER("GOLD".to_string()),
        &Asset::USDT,
        1,
        &SpotAction::BUY,
        trader_addr,
        &provider,
    );
    assert_eq!(result.unwrap_err(), "Exchange rate not found");
}

#[test]
fn test_multiple_spot_trades() {
    let (mut exchange, trader_addr, provider) = setup_exchange_with_users();

    // First trade: Buy 1 BTC (spends the full 100k USDT)
    let result1 = exchange.spot_trade_current_price(
        &Asset::BTC,
        &Asset::USDT,
        1,
        &SpotAction::BUY,
        trader_addr.clone(),
        &provider,
    );
    assert!(result1.is_ok());

    // Second trade: Sell 2 BTC
    let result2 = exchange.spot_trade_current_price(
        &Asset::BTC,
        &Asset::USDT,
        2,
        &SpotAction::SELL,
        trader_addr.clone(),
        &provider,
    );
    assert!(result2.is_ok());

    // Check final balances
    let trader = exchange.get_user_or_error_immutable(&trader_addr).unwrap();
    assert_eq!(trader.get_balance(&Asset::BTC), 4); // 5 + 1 - 2
    assert_eq!(trader.get_balance(&Asset::USDT), 200_000); // 100k - 100k + 200k
}

#[test]
fn test_spot_trade_conservation() {
    let (mut exchange, trader_addr, provider) = setup_exchange_with_users();

    // T BUY 1 BTC, then SELL 2 BTC, per the spot conservation scenario.
    exchange
        .spot_trade_current_price(
            &Asset::BTC,
            &Asset::USDT,
            1,
            &SpotAction::BUY,
            trader_addr.clone(),
            &provider,
        )
        .unwrap();
    {
        let trader = exchange.get_user_or_error_immutable(&trader_addr).unwrap();
        assert_eq!(trader.get_balance(&Asset::BTC), 6);
        assert_eq!(trader.get_balance(&Asset::USDT), 0);
        assert_eq!(exchange.escrow_user.get_balance(&Asset::BTC), 99);
        assert_eq!(exchange.escrow_user.get_balance(&Asset::USDT), 1_100_000);
    }
    exchange
        .spot_trade_current_price(
            &Asset::BTC,
            &Asset::USDT,
            2,
            &SpotAction::SELL,
            trader_addr.clone(),
            &provider,
        )
        .unwrap();
    let trader = exchange.get_user_or_error_immutable(&trader_addr).unwrap();
    assert_eq!(trader.get_balance(&Asset::BTC), 4);
    assert_eq!(trader.get_balance(&Asset::USDT), 200_000);
    assert_eq!(exchange.escrow_user.get_balance(&Asset::BTC), 101);
    assert_eq!(exchange.escrow_user.get_balance(&Asset::USDT), 900_000);

    // The per-asset totals over trader and escrow are conserved throughout.
    assert_eq!(
        trader.get_balance(&Asset::BTC) + exchange.escrow_user.get_balance(&Asset::BTC),
        105
    );
    assert_eq!(
        trader.get_balance(&Asset::USDT) + exchange.escrow_user.get_balance(&Asset::USDT),
        1_100_000
    );
}

#[test]
fn test_spot_buy_then_sell_round_trip() {
    let (mut exchange, trader_addr, provider) = setup_exchange_with_users();

    // BUY x then SELL x of the same pair at the same rate returns the
    // caller to the starting balances.
    exchange
        .spot_trade_current_price(
            &Asset::BTC,
            &Asset::USDT,
            1,
            &SpotAction::BUY,
            trader_addr.clone(),
            &provider,
        )
        .unwrap();
    exchange
        .spot_trade_current_price(
            &Asset::BTC,
            &Asset::USDT,
            1,
            &SpotAction::SELL,
            trader_addr.clone(),
            &provider,
        )
        .unwrap();

    let trader = exchange.get_user_or_error_immutable(&trader_addr).unwrap();
    assert_eq!(trader.get_balance(&Asset::BTC), 5);
    assert_eq!(trader.get_balance(&Asset::USDT), 100_000);
    assert_eq!(exchange.escrow_user.get_balance(&Asset::BTC), 100);
    assert_eq!(exchange.escrow_user.get_balance(&Asset::USDT), 1_000_000);
}
