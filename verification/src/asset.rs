//! Tradable assets: a closed set of well-known tags plus an open variant.

use vstd::prelude::*;

verus! {

/// A tradable asset: one of the fixed tags, or `OTHER` with a free-form name.
#[derive(Debug, Eq, Hash)]
pub enum Asset {
    BTC,
    ETH,
    SOL,
    APPLE,
    OTHER(String),
    USDT,
    USDC,
    VNDT,
    VNDC,
}

/// The mathematical identity of an [`Asset`]: the same tags, with the open
/// variant carrying its name as a character sequence.
pub enum AssetId {
    Btc,
    Eth,
    Sol,
    Apple,
    Other(Seq<char>),
    Usdt,
    Usdc,
    Vndt,
    Vndc,
}

impl View for Asset {
    type V = AssetId;

    open spec fn view(&self) -> AssetId {
        match self {
            Asset::BTC => AssetId::Btc,
            Asset::ETH => AssetId::Eth,
            Asset::SOL => AssetId::Sol,
            Asset::APPLE => AssetId::Apple,
            Asset::OTHER(s) => AssetId::Other(s@),
            Asset::USDT => AssetId::Usdt,
            Asset::USDC => AssetId::Usdc,
            Asset::VNDT => AssetId::Vndt,
            Asset::VNDC => AssetId::Vndc,
        }
    }
}

/// Whether an asset identity belongs to the closed set of fixed tags.
pub open spec fn is_closed_asset(a: AssetId) -> bool {
    !(a is Other)
}

/// The display name of an asset identity: the tag's name, or the embedded
/// string for the open variant.
pub open spec fn asset_name(a: AssetId) -> Seq<char> {
    match a {
        AssetId::Btc => "BTC"@,
        AssetId::Eth => "ETH"@,
        AssetId::Sol => "SOL"@,
        AssetId::Apple => "APPLE"@,
        AssetId::Other(s) => s,
        AssetId::Usdt => "USDT"@,
        AssetId::Usdc => "USDC"@,
        AssetId::Vndt => "VNDT"@,
        AssetId::Vndc => "VNDC"@,
    }
}

impl PartialEq for Asset {
    fn eq(&self, other: &Asset) -> (r: bool) {
        match (self, other) {
            (Asset::BTC, Asset::BTC) => true,
            (Asset::ETH, Asset::ETH) => true,
            (Asset::SOL, Asset::SOL) => true,
            (Asset::APPLE, Asset::APPLE) => true,
            (Asset::OTHER(a), Asset::OTHER(b)) => *a == *b,
            (Asset::USDT, Asset::USDT) => true,
            (Asset::USDC, Asset::USDC) => true,
            (Asset::VNDT, Asset::VNDT) => true,
            (Asset::VNDC, Asset::VNDC) => true,
            _ => false,
        }
    }
}

impl vstd::std_specs::cmp::PartialEqSpecImpl for Asset {
    open spec fn obeys_eq_spec() -> bool {
        true
    }

    open spec fn eq_spec(&self, other: &Asset) -> bool {
        self@ == other@
    }
}

impl Clone for Asset {
    fn clone(&self) -> (r: Self)
        ensures
            r == *self,
    {
        match self {
            Asset::BTC => Asset::BTC,
            Asset::ETH => Asset::ETH,
            Asset::SOL => Asset::SOL,
            Asset::APPLE => Asset::APPLE,
            Asset::OTHER(s) => Asset::OTHER(s.clone()),
            Asset::USDT => Asset::USDT,
            Asset::USDC => Asset::USDC,
            Asset::VNDT => Asset::VNDT,
            Asset::VNDC => Asset::VNDC,
        }
    }
}

impl Asset {
    /// The display name of this asset.
    pub fn name(&self) -> (r: String)
        ensures
            r@ == asset_name(self@),
    {
        match self {
            Asset::BTC => "BTC".to_owned(),
            Asset::ETH => "ETH".to_owned(),
            Asset::SOL => "SOL".to_owned(),
            Asset::APPLE => "APPLE".to_owned(),
            Asset::OTHER(s) => s.clone(),
            Asset::USDT => "USDT".to_owned(),
            Asset::USDC => "USDC".to_owned(),
            Asset::VNDT => "VNDT".to_owned(),
            Asset::VNDC => "VNDC".to_owned(),
        }
    }
}

/// The closed set of fixed asset tags, in declaration order.
pub fn closed_assets() -> (r: Vec<Asset>)
    ensures
        r@.len() == 8,
        r@[0]@ == AssetId::Btc,
        r@[1]@ == AssetId::Eth,
        r@[2]@ == AssetId::Sol,
        r@[3]@ == AssetId::Apple,
        r@[4]@ == AssetId::Usdt,
        r@[5]@ == AssetId::Usdc,
        r@[6]@ == AssetId::Vndt,
        r@[7]@ == AssetId::Vndc,
{
    vec![
        Asset::BTC,
        Asset::ETH,
        Asset::SOL,
        Asset::APPLE,
        Asset::USDT,
        Asset::USDC,
        Asset::VNDT,
        Asset::VNDC,
    ]
}

} // verus!
