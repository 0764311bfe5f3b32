//! The kinds of options contracts the marketplace lists.

use vstd::prelude::*;

verus! {

/// The right an option grants: to buy (CALL) or to sell (PUT) the base asset
/// for the quote asset at the strike price.
#[derive(Debug, Clone, Copy, PartialEq, Eq, Structural)]
pub enum ListingType {
    CALL,
    PUT,
}

impl ListingType {
    /// The display name of this listing type.
    pub fn name(&self) -> (r: String)
        ensures
            *self is CALL ==> r@ == "CALL"@,
            *self is PUT ==> r@ == "PUT"@,
    {
        match self {
            ListingType::CALL => "CALL".to_owned(),
            ListingType::PUT => "PUT".to_owned(),
        }
    }
}

} // verus!
