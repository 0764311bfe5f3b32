use chrono::Utc;
use options_trading::{Address, Asset, Exchange, ListingOption, ListingType, User};

fn create_test_address(suffix: &str) -> Address {
    let base = "0x123456789012345678901234567890123456789";
    let full_address = format!("{}{}", base, suffix);
    Address::from(&full_address).unwrap()
}

fn days_from_now(days: i64) -> i64 {
    Utc::now().timestamp() + days * 86_400
}

fn create_test_option(grantor_address: Address) -> ListingOption {
    ListingOption {
        listing_id: 0, // Will be set by market
        base_asset: Asset::BTC,
        quote_asset: Asset::USDT,
        listing_type: ListingType::CALL,
        strike_price: 50_000,
        ask_price: 500,
        bid_price: 490,
        expiration_time: days_from_now(30),
        grantor_address,
        beneficiary_address: None,
        exercise_amount: 1,
        is_purchased: false,
        is_unlisted: false,
        is_exercised: false,
    }
}

fn setup_market_with_users() -> (Exchange, Address, Address) {
    let mut market = Exchange::new();

    let seller_addr = create_test_address("1");
    let buyer_addr = create_test_address("2");

    let mut seller = User::new(seller_addr.clone());
    seller.add_asset(&Asset::USDT, 20_000_000); // 20M USDT for collateral
    seller.add_asset(&Asset::BTC, 10);

    let mut buyer = User::new(buyer_addr.clone());
    buyer.add_asset(&Asset::USDT, 100_000); // 100k USDT for purchasing
    buyer.add_asset(&Asset::ETH, 100);

    market.add_user(seller);
    market.add_user(buyer);

    (market, seller_addr, buyer_addr)
}

#[test]
fn test_market_creation() {
    let market = Exchange::new();

    assert!(market.users.is_empty());
    assert!(market.listings.is_empty());
    assert_eq!(market.next_listing_id, 1);
    assert_eq!(market.beneficiary_fee_bps, 10);
    assert_eq!(market.grantor_fee_bps, 10);
}

#[test]
fn test_get_fees() {
    let market = Exchange::new();
    let premium = 1000;

    // Default fees are 10 bps = 0.1%
    assert_eq!(market.get_beneficiary_fee(premium), 1); // 1000 * 0.001
    assert_eq!(market.get_grantor_fee(premium), 1);
}

#[test]
fn test_set_beneficiary_fee_bps_success() {
    let mut market = Exchange::new();
    let admin_addr = market.market_admin_address.clone();

    let result = market.set_beneficiary_fee_bps(50, admin_addr);
    assert!(result.is_ok());
    assert_eq!(market.beneficiary_fee_bps, 50);
}

#[test]
fn test_set_beneficiary_fee_bps_unauthorized() {
    let mut market = Exchange::new();
    let unauthorized_addr = create_test_address("1");

    let result = market.set_beneficiary_fee_bps(50, unauthorized_addr);
    assert!(result.is_err());
    assert_eq!(result.unwrap_err(), "Only market admin only");
    assert_eq!(market.beneficiary_fee_bps, 10); // Should remain unchanged
}

#[test]
fn test_set_beneficiary_fee_bps_invalid() {
    let mut market = Exchange::new();
    let admin_addr = market.market_admin_address.clone();

    let result = market.set_beneficiary_fee_bps(10_001, admin_addr);
    assert!(result.is_err());
    assert_eq!(result.unwrap_err(), "Invalid bps, must be between 0 - 10.000");
    assert_eq!(market.beneficiary_fee_bps, 10); // Should remain unchanged
}

#[test]
fn test_set_fee_bps_boundary() {
    let mut market = Exchange::new();
    let admin_addr = market.market_admin_address.clone();

    // Exactly 10_000 basis points is accepted; one more is rejected.
    assert!(market.set_beneficiary_fee_bps(10_000, admin_addr.clone()).is_ok());
    assert_eq!(market.beneficiary_fee_bps, 10_000);
    assert!(market.set_grantor_fee_bps(10_000, admin_addr.clone()).is_ok());
    assert_eq!(market.grantor_fee_bps, 10_000);
    let result = market.set_grantor_fee_bps(10_001, admin_addr);
    assert_eq!(result.unwrap_err(), "Invalid bps, must be between 0 - 10.000");
    assert_eq!(market.grantor_fee_bps, 10_000);
}

#[test]
fn test_list_option_success() {
    let (mut market, seller_addr, _) = setup_market_with_users();
    let option = create_test_option(seller_addr.clone());

    let result = market.list_option(seller_addr.clone(), option);
    assert!(result.is_ok());

    let listing_id = result.unwrap();
    assert_eq!(listing_id, 1);
    assert_eq!(market.next_listing_id, 2);
    assert!(market.has_listing(listing_id));

    // Check that collateral was deducted (1 BTC for CALL option)
    let seller = market.get_user_or_error_immutable(&seller_addr).unwrap();
    assert_eq!(seller.get_balance(&Asset::BTC), 9); // 10 - 1 BTC collateral

    // Check escrow received collateral
    assert_eq!(market.escrow_user.get_balance(&Asset::BTC), 1);
}

#[test]
fn test_list_option_insufficient_collateral() {
    let mut market = Exchange::new();
    let seller_addr = create_test_address("1");

    let mut seller = User::new(seller_addr.clone());
    // No BTC at all: not enough for the CALL option's collateral of 1 BTC
    seller.add_asset(&Asset::USDT, 1_000_000); // Plenty of USDT but not needed for CALL
    market.add_user(seller);

    let option = create_test_option(seller_addr.clone());
    let result = market.list_option(seller_addr, option);

    assert!(result.is_err());
    assert_eq!(
        result.unwrap_err(),
        "Insufficient base asset balance to cover CALL option"
    );
}

#[test]
fn test_list_option_user_not_found() {
    let mut market = Exchange::new();
    let seller_addr = create_test_address("1");
    let option = create_test_option(seller_addr.clone());

    let result = market.list_option(seller_addr, option);
    assert!(result.is_err());
    assert_eq!(result.unwrap_err(), "User not found");
}

#[test]
fn test_unlist_option_success() {
    let (mut market, seller_addr, _) = setup_market_with_users();
    let option = create_test_option(seller_addr.clone());

    let listing_id = market.list_option(seller_addr.clone(), option).unwrap();

    let result = market.unlist_option(listing_id, seller_addr.clone());
    assert!(result.is_ok());

    // Listing should be removed
    assert!(!market.has_listing(listing_id));

    // Collateral should be returned (1 BTC for CALL option)
    let seller = market.get_user_or_error_immutable(&seller_addr).unwrap();
    assert_eq!(seller.get_balance(&Asset::BTC), 10); // Back to original
    assert_eq!(market.escrow_user.get_balance(&Asset::BTC), 0);
}

#[test]
fn test_unlist_option_not_owner() {
    let (mut market, seller_addr, buyer_addr) = setup_market_with_users();
    let option = create_test_option(seller_addr.clone());

    let listing_id = market.list_option(seller_addr, option).unwrap();

    let result = market.unlist_option(listing_id, buyer_addr);
    assert!(result.is_err());
    assert_eq!(result.unwrap_err(), "Only the seller can unlist this option");
}

#[test]
fn test_purchase_option_success() {
    let (mut market, seller_addr, buyer_addr) = setup_market_with_users();
    let option = create_test_option(seller_addr.clone());

    let listing_id = market.list_option(seller_addr.clone(), option).unwrap();

    let result = market.purchase_option(listing_id, buyer_addr.clone());
    assert!(result.is_ok());

    // Check option has beneficiary
    let listing = market.get_listing_or_error_immutable(listing_id).unwrap();
    assert_eq!(listing.beneficiary_address, Some(buyer_addr.clone()));

    // Check payment flows - premium is 50000 (500 * 100), fee is 50 (50000 * 0.001)
    let buyer = market.get_user_or_error_immutable(&buyer_addr).unwrap();
    assert_eq!(buyer.get_balance(&Asset::USDT), 49_950); // 100k - premium - fee

    let seller = market.get_user_or_error_immutable(&seller_addr).unwrap();
    assert_eq!(seller.get_balance(&Asset::USDT), 20_049_950); // 20M + premium - fee
    assert_eq!(seller.get_balance(&Asset::BTC), 9); // 10 - 1 BTC collateral still in escrow

    // Escrow should have BTC collateral and USDT fees
    assert_eq!(market.escrow_user.get_balance(&Asset::BTC), 1); // BTC collateral
    assert_eq!(market.escrow_user.get_balance(&Asset::USDT), 100); // 2 fees (50 each)
}

#[test]
fn test_purchase_option_insufficient_funds() {
    let (mut market, seller_addr, buyer_addr) = setup_market_with_users();

    // Reduce buyer's balance, leaving only 1000 USDT
    market
        .deduct_user_asset(&buyer_addr, &Asset::USDT, 99_000)
        .unwrap();

    let option = create_test_option(seller_addr.clone());
    let listing_id = market.list_option(seller_addr, option).unwrap();

    let result = market.purchase_option(listing_id, buyer_addr);
    assert!(result.is_err());
    assert_eq!(
        result.unwrap_err(),
        "Buyer doesn't have enough quote balance to purchase option"
    );
}

#[test]
fn test_purchase_option_listing_not_found() {
    let (mut market, _, buyer_addr) = setup_market_with_users();

    let result = market.purchase_option(999, buyer_addr);
    assert!(result.is_err());
    assert_eq!(result.unwrap_err(), "Listing not found");
}

#[test]
fn test_unlist_option_after_purchase() {
    let (mut market, seller_addr, buyer_addr) = setup_market_with_users();
    let option = create_test_option(seller_addr.clone());

    let listing_id = market.list_option(seller_addr.clone(), option).unwrap();
    market.purchase_option(listing_id, buyer_addr).unwrap();

    let result = market.unlist_option(listing_id, seller_addr);
    assert!(result.is_err());
    assert_eq!(result.unwrap_err(), "Option has been acquired, cannot unlist");
}

#[test]
fn test_multiple_listings() {
    let (mut market, seller_addr, _) = setup_market_with_users();

    let option1 = create_test_option(seller_addr.clone());
    let mut option2 = create_test_option(seller_addr.clone());
    option2.strike_price = 60_000;

    let listing_id1 = market.list_option(seller_addr.clone(), option1).unwrap();
    let listing_id2 = market.list_option(seller_addr.clone(), option2).unwrap();

    assert_eq!(listing_id1, 1);
    assert_eq!(listing_id2, 2);
    assert_eq!(market.listings.len(), 2);

    // Different strike prices
    assert_eq!(
        market
            .get_listing_or_error_immutable(listing_id1)
            .unwrap()
            .strike_price,
        50_000
    );
    assert_eq!(
        market
            .get_listing_or_error_immutable(listing_id2)
            .unwrap()
            .strike_price,
        60_000
    );
}

#[test]
fn test_purchase_just_unlisted_listing() {
    let (mut market, seller_addr, buyer_addr) = setup_market_with_users();
    let option = create_test_option(seller_addr.clone());

    let listing_id = market.list_option(seller_addr.clone(), option).unwrap();
    market.unlist_option(listing_id, seller_addr).unwrap();

    // The record is gone: purchasing it reports a missing listing.
    let result = market.purchase_option(listing_id, buyer_addr);
    assert_eq!(result.unwrap_err(), "Listing not found");
}
