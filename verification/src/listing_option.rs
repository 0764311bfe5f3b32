//! The contract record of a listed option: its terms, parties, and
//! lifecycle flags.

use vstd::prelude::*;

use crate::address::Address;
use crate::asset::{Asset, AssetId};
use crate::types::ListingType;

verus! {

/// A listed options contract.
///
/// `expiration_time` is a UTC timestamp in seconds since the Unix epoch.
/// The flags start out all false; `purchase` sets `is_purchased` and the
/// beneficiary, `exercise` sets `is_exercised`, and an unlisted record is
/// removed from the exchange altogether.
#[derive(Debug)]
pub struct ListingOption {
    pub listing_id: u32,
    pub base_asset: Asset,
    pub quote_asset: Asset,
    pub listing_type: ListingType,
    pub strike_price: u64,
    pub ask_price: u64,
    pub bid_price: u64,
    pub expiration_time: i64,
    pub grantor_address: Address,
    pub beneficiary_address: Option<Address>,
    pub exercise_amount: u64,
    pub is_purchased: bool,
    pub is_unlisted: bool,
    pub is_exercised: bool,
}

impl ListingOption {
    /// The premium a buyer pays: the ask price times the fixed contract
    /// multiplier of 100.
    pub open spec fn spec_premium(&self) -> int {
        self.ask_price * 100
    }

    /// The amount of collateral the grantor posts at listing time: the
    /// exercise amount of the base asset for a CALL, the strike price times
    /// the exercise amount of the quote asset for a PUT.
    pub open spec fn spec_collateral_amount(&self) -> int {
        if self.listing_type is CALL {
            self.exercise_amount as int
        } else {
            self.strike_price * self.exercise_amount
        }
    }

    /// The asset in which collateral is posted.
    pub open spec fn spec_collateral_asset(&self) -> AssetId {
        if self.listing_type is CALL {
            self.base_asset@
        } else {
            self.quote_asset@
        }
    }

    /// What the beneficiary pays the grantor at settlement.
    pub open spec fn spec_settle_pay_amount(&self) -> int {
        if self.listing_type is CALL {
            self.strike_price * self.exercise_amount
        } else {
            self.exercise_amount as int
        }
    }

    /// The asset the beneficiary pays the grantor at settlement.
    pub open spec fn spec_settle_pay_asset(&self) -> AssetId {
        if self.listing_type is CALL {
            self.quote_asset@
        } else {
            self.base_asset@
        }
    }

    /// What the escrow releases to the beneficiary at settlement; it equals
    /// the collateral posted at listing time.
    pub open spec fn spec_settle_release_amount(&self) -> int {
        self.spec_collateral_amount()
    }

    /// The asset the escrow releases to the beneficiary at settlement.
    pub open spec fn spec_settle_release_asset(&self) -> AssetId {
        self.spec_collateral_asset()
    }

    /// The derived quantities of this listing fit the machine's range.
    pub open spec fn spec_amounts_in_range(&self) -> bool {
        &&& self.ask_price * 100 <= u64::MAX
        &&& self.strike_price * self.exercise_amount <= u64::MAX
    }

    /// Builds a listing record from its parts.
    pub fn new(
        listing_id: u32,
        base_asset: Asset,
        quote_asset: Asset,
        listing_type: ListingType,
        strike_price: u64,
        ask_price: u64,
        bid_price: u64,
        expiration_time: i64,
        grantor_address: Address,
        beneficiary_address: Option<Address>,
        exercise_amount: u64,
        is_purchased: bool,
        is_unlisted: bool,
        is_exercised: bool,
    ) -> (r: ListingOption)
        ensures
            r == (ListingOption {
                listing_id,
                base_asset,
                quote_asset,
                listing_type,
                strike_price,
                ask_price,
                bid_price,
                expiration_time,
                grantor_address,
                beneficiary_address,
                exercise_amount,
                is_purchased,
                is_unlisted,
                is_exercised,
            }),
    {
        ListingOption {
            listing_id,
            base_asset,
            quote_asset,
            listing_type,
            strike_price,
            ask_price,
            bid_price,
            expiration_time,
            grantor_address,
            beneficiary_address,
            exercise_amount,
            is_purchased,
            is_unlisted,
            is_exercised,
        }
    }

    /// The premium the beneficiary pays at purchase: `ask_price * 100`.
    pub fn get_premium_price(&self) -> (r: u64)
        requires
            self.ask_price * 100 <= u64::MAX,
        ensures
            r == self.spec_premium(),
    {
        self.ask_price * 100
    }

    /// The legacy fixed-size collateral quote: `strike_price * 100`. The
    /// exchange itself settles with [`Self::spec_collateral_amount`], which
    /// scales by the exercise amount instead.
    pub fn get_collateral_price(&self) -> (r: u64)
        requires
            self.strike_price * 100 <= u64::MAX,
        ensures
            r == self.strike_price * 100,
    {
        self.strike_price * 100
    }

    /// The quantity a party receives at settlement: for the grantor the
    /// beneficiary's payment, for the beneficiary the escrow's release.
    pub fn get_buy_amount(&self, is_for_grantor: bool) -> (r: u64)
        requires
            self.spec_amounts_in_range(),
        ensures
            is_for_grantor ==> r == self.spec_settle_pay_amount(),
            !is_for_grantor ==> r == self.spec_settle_release_amount(),
    {
        match (self.listing_type, is_for_grantor) {
            (ListingType::CALL, true) => self.strike_price * self.exercise_amount,
            (ListingType::PUT, true) => self.exercise_amount,
            (ListingType::CALL, false) => self.exercise_amount,
            (ListingType::PUT, false) => self.strike_price * self.exercise_amount,
        }
    }

    /// The quantity a party gives up at settlement; the mirror image of
    /// [`Self::get_buy_amount`].
    pub fn get_sell_amount(&self, is_for_grantor: bool) -> (r: u64)
        requires
            self.spec_amounts_in_range(),
        ensures
            is_for_grantor ==> r == self.spec_settle_release_amount(),
            !is_for_grantor ==> r == self.spec_settle_pay_amount(),
    {
        match (self.listing_type, is_for_grantor) {
            (ListingType::CALL, true) => self.exercise_amount,
            (ListingType::PUT, true) => self.strike_price * self.exercise_amount,
            (ListingType::CALL, false) => self.strike_price * self.exercise_amount,
            (ListingType::PUT, false) => self.exercise_amount,
        }
    }

    /// The asset a party receives at settlement.
    pub fn get_buy_asset(&self, is_for_grantor: bool) -> (r: &Asset)
        ensures
            is_for_grantor ==> r@ == self.spec_settle_pay_asset(),
            !is_for_grantor ==> r@ == self.spec_settle_release_asset(),
    {
        match (self.listing_type, is_for_grantor) {
            (ListingType::CALL, true) => &self.quote_asset,
            (ListingType::PUT, true) => &self.base_asset,
            (ListingType::CALL, false) => &self.base_asset,
            (ListingType::PUT, false) => &self.quote_asset,
        }
    }

    /// The asset a party gives up at settlement.
    pub fn get_sell_asset(&self, is_for_grantor: bool) -> (r: &Asset)
        ensures
            is_for_grantor ==> r@ == self.spec_settle_release_asset(),
            !is_for_grantor ==> r@ == self.spec_settle_pay_asset(),
    {
        match (self.listing_type, is_for_grantor) {
            (ListingType::CALL, true) => &self.base_asset,
            (ListingType::PUT, true) => &self.quote_asset,
            (ListingType::CALL, false) => &self.quote_asset,
            (ListingType::PUT, false) => &self.base_asset,
        }
    }
}

impl Clone for ListingOption {
    fn clone(&self) -> (r: Self)
        ensures
            r == *self,
    {
        ListingOption {
            listing_id: self.listing_id,
            base_asset: self.base_asset.clone(),
            quote_asset: self.quote_asset.clone(),
            listing_type: self.listing_type,
            strike_price: self.strike_price,
            ask_price: self.ask_price,
            bid_price: self.bid_price,
            expiration_time: self.expiration_time,
            grantor_address: self.grantor_address.clone(),
            beneficiary_address: match &self.beneficiary_address {
                Some(a) => Some(a.clone()),
                None => None,
            },
            exercise_amount: self.exercise_amount,
            is_purchased: self.is_purchased,
            is_unlisted: self.is_unlisted,
            is_exercised: self.is_exercised,
        }
    }
}

} // verus!
