use chrono::Utc;
use options_trading::{Address, Asset, Exchange, ListingOption, ListingType, User};

fn create_test_address(suffix: &str) -> Address {
    let base = "0x123456789012345678901234567890123456789";
    let full_address = format!("{}{}", base, suffix);
    Address::from(&full_address).unwrap()
}

fn days_from_now(days: i64) -> i64 {
    Utc::now().timestamp() + days * 86_400
}

fn setup_market_and_users() -> (Exchange, Address, Address) {
    let mut market = Exchange::new();
    let seller_addr = create_test_address("1");
    let buyer_addr = create_test_address("2");

    let mut seller = User::new(seller_addr.clone());
    seller.add_asset(&Asset::BTC, 10);
    seller.add_asset(&Asset::USDT, 1_000_000);

    let mut buyer = User::new(buyer_addr.clone());
    buyer.add_asset(&Asset::USDT, 200_000);

    market.add_user(seller);
    market.add_user(buyer);

    (market, seller_addr, buyer_addr)
}

fn call_option(seller_addr: &Address) -> ListingOption {
    ListingOption {
        listing_id: 0,
        base_asset: Asset::BTC,
        quote_asset: Asset::USDT,
        listing_type: ListingType::CALL,
        strike_price: 50_000,
        ask_price: 500,
        bid_price: 490,
        expiration_time: days_from_now(30),
        exercise_amount: 1,
        is_purchased: false,
        is_unlisted: false,
        is_exercised: false,
        grantor_address: seller_addr.clone(),
        beneficiary_address: None,
    }
}

#[test]
fn test_exercise_call_success() {
    let (mut market, seller_addr, buyer_addr) = setup_market_and_users();

    // Seller lists CALL option
    let option = call_option(&seller_addr);
    let listing_id = market.list_option(seller_addr.clone(), option).unwrap();
    // Buyer purchases
    market.purchase_option(listing_id, buyer_addr.clone()).unwrap();

    // Beneficiary (buyer) exercises
    market.exercise_option(listing_id, buyer_addr.clone()).unwrap();

    // After exercise: buyer receives 1 BTC from escrow, pays strike (1 * 50000 USDT)
    let buyer = market.get_user_or_error_immutable(&buyer_addr).unwrap();
    assert_eq!(buyer.get_balance(&Asset::BTC), 1);

    let seller = market.get_user_or_error_immutable(&seller_addr).unwrap();
    // Seller should have received strike price in USDT (minus fees taken earlier in purchase)
    assert!(seller.get_balance(&Asset::USDT) > 1_000_000);

    // Listing marked exercised
    let listing = market.get_listing_or_error_immutable(listing_id).unwrap();
    assert!(listing.is_exercised);
}

#[test]
fn test_exercise_non_beneficiary_fails() {
    let (mut market, seller_addr, buyer_addr) = setup_market_and_users();
    let other_addr = create_test_address("3");

    let option = call_option(&seller_addr);
    let listing_id = market.list_option(seller_addr.clone(), option).unwrap();
    market.purchase_option(listing_id, buyer_addr.clone()).unwrap();

    let result = market.exercise_option(listing_id, other_addr);
    assert!(result.is_err());
    assert_eq!(result.unwrap_err(), "Caller is not beneficiary of option!");
}

#[test]
fn test_exercise_already_exercised_fails() {
    let (mut market, seller_addr, buyer_addr) = setup_market_and_users();

    let option = call_option(&seller_addr);
    let listing_id = market.list_option(seller_addr.clone(), option).unwrap();
    market.purchase_option(listing_id, buyer_addr.clone()).unwrap();
    market.exercise_option(listing_id, buyer_addr.clone()).unwrap();

    // Attempt to exercise again
    let result = market.exercise_option(listing_id, buyer_addr.clone());
    assert!(result.is_err());
    assert_eq!(result.unwrap_err(), "Option has already been exercised!");
}

#[test]
fn test_exercise_put_success() {
    // Setup a market where seller (grantor) escrows quote asset and buyer has base asset to exercise
    let mut market = Exchange::new();
    let seller_addr = create_test_address("4");
    let buyer_addr = create_test_address("5");

    let mut seller = User::new(seller_addr.clone());
    seller.add_asset(&Asset::USDT, 10_000); // seller will need quote collateral

    let mut buyer = User::new(buyer_addr.clone());
    buyer.add_asset(&Asset::USDT, 100_000); // to purchase premium
    buyer.add_asset(&Asset::ETH, 5); // buyer must have base asset to transfer on exercise

    market.add_user(seller);
    market.add_user(buyer);

    // Seller lists a PUT option for 1 ETH at strike 3000 USDT
    let option = ListingOption {
        listing_id: 0,
        base_asset: Asset::ETH,
        quote_asset: Asset::USDT,
        listing_type: ListingType::PUT,
        strike_price: 3_000,
        ask_price: 20,
        bid_price: 18,
        expiration_time: days_from_now(30),
        exercise_amount: 1,
        is_purchased: false,
        is_unlisted: false,
        is_exercised: false,
        grantor_address: seller_addr.clone(),
        beneficiary_address: None,
    };

    let listing_id = market.list_option(seller_addr.clone(), option).unwrap();

    // Buyer purchases
    market.purchase_option(listing_id, buyer_addr.clone()).unwrap();

    // Beneficiary exercises: buyer should send 1 ETH to seller and receive 3000 USDT from escrow
    market.exercise_option(listing_id, buyer_addr.clone()).unwrap();

    let buyer = market.get_user_or_error_immutable(&buyer_addr).unwrap();
    assert_eq!(buyer.get_balance(&Asset::ETH), 4); // 5 - 1 ETH
    assert!(buyer.get_balance(&Asset::USDT) > 100_000); // Received strike in USDT (minus fees earlier)

    let seller = market.get_user_or_error_immutable(&seller_addr).unwrap();
    assert_eq!(seller.get_balance(&Asset::ETH), 1); // seller received 1 ETH from buyer

    let listing = market.get_listing_or_error_immutable(listing_id).unwrap();
    assert!(listing.is_exercised);
}

#[test]
fn test_exercise_at_expiration_boundary() {
    let (mut market, seller_addr, buyer_addr) = setup_market_and_users();

    let expiration = Utc::now().timestamp() + 86_400;
    let mut option = call_option(&seller_addr);
    option.expiration_time = expiration;
    let listing_id = market.list_option(seller_addr.clone(), option).unwrap();
    market.purchase_option(listing_id, buyer_addr.clone()).unwrap();

    // One second past the expiration instant the option is expired ...
    let result = market.exercise_option_at(listing_id, buyer_addr.clone(), expiration + 1);
    assert_eq!(result.unwrap_err(), "Option has expired!");

    // ... but exactly at the expiration instant it is still exercisable.
    let result = market.exercise_option_at(listing_id, buyer_addr, expiration);
    assert!(result.is_ok());
}
