//! An in-memory marketplace for European-style options contracts backed by
//! collateralized balances.
//!
//! Users hold multi-asset balances; a grantor lists a CALL or PUT option on a
//! base/quote asset pair; a beneficiary purchases the listing and may later
//! exercise it. An internal escrow account holds collateral and fees, and an
//! exchange-rate provider supplies mark prices for spot trading. Every state
//! transition keeps the ledger consistent: balances stay non-negative and the
//! per-asset total over all participants, escrow included, is conserved.

pub mod address;
pub mod asset;
pub mod types;
pub mod user;
pub mod exchange;
pub mod exchange_rate_provider;
pub mod laws;
pub mod listing_option;
pub mod rbac;
pub mod utils;

pub use address::{Address, AddressError};
pub use exchange::Exchange;
pub use asset::Asset;
pub use listing_option::ListingOption;
pub use types::ListingType;
pub use user::User;
pub use utils::are_addresses_equal;
