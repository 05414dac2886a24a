//! The contract every priced asset meets, and the two assets that meet it.

use vstd::prelude::*;
use crate::quote::{CoinGeckoPrice, CryptoPrice, Price};

verus! {

/// What an asset type supplies so that it can be observed: where its quote is
/// requested, and how its price is read out of a decoded response.
pub trait Pricing: Sized {
    /// The endpoint, as characters.
    spec fn endpoint() -> Seq<char>;

    /// The quote that this decoded response carries for the asset, if any.
    spec fn quoted(&self) -> Option<CryptoPrice>;

    /// Where the asset's quote is requested. Constant per type.
    fn get_url() -> (url: &'static str)
        ensures
            url@ == Self::endpoint(),
    ;

    /// The asset's price. Never fails: a response without a quote for the
    /// asset resolves to the sentinel.
    fn extract_price(&self) -> (price: Price)
        ensures
            price == Price::resolve(self.quoted()),
    ;
}

/// A decoded response to a request for the Bitcoin quote.
#[derive(Clone, Copy, Debug, PartialEq, Eq)]
pub struct Bitcoin {
    pub data: CoinGeckoPrice,
}

/// A decoded response to a request for the Ethereum quote.
#[derive(Clone, Copy, Debug, PartialEq, Eq)]
pub struct Ethereum {
    pub data: CoinGeckoPrice,
}

impl Pricing for Bitcoin {
    open spec fn endpoint() -> Seq<char> {
        "https://api.coingecko.com/api/v3/simple/price?ids=bitcoin&vs_currencies=usd"@
    }

    open spec fn quoted(&self) -> Option<CryptoPrice> {
        self.data.bitcoin
    }

    fn get_url() -> (url: &'static str) {
        "https://api.coingecko.com/api/v3/simple/price?ids=bitcoin&vs_currencies=usd"
    }

    fn extract_price(&self) -> (price: Price) {
        match self.data.bitcoin {
            Some(quote) => quote.usd,
            None => Price::absent(),
        }
    }
}

impl Pricing for Ethereum {
    open spec fn endpoint() -> Seq<char> {
        "https://api.coingecko.com/api/v3/simple/price?ids=ethereum&vs_currencies=usd"@
    }

    open spec fn quoted(&self) -> Option<CryptoPrice> {
        self.data.ethereum
    }

    fn get_url() -> (url: &'static str) {
        "https://api.coingecko.com/api/v3/simple/price?ids=ethereum&vs_currencies=usd"
    }

    fn extract_price(&self) -> (price: Price) {
        match self.data.ethereum {
            Some(quote) => quote.usd,
            None => Price::absent(),
        }
    }
}

/// The asset types as values, so that a driver can hold a list of them.
#[derive(Clone, Copy, Debug, PartialEq, Eq)]
pub enum AssetKind {
    Bitcoin,
    Ethereum,
}

impl AssetKind {
    /// The endpoint of the asset type that this kind stands for.
    pub open spec fn endpoint(self) -> Seq<char> {
        match self {
            AssetKind::Bitcoin => Bitcoin::endpoint(),
            AssetKind::Ethereum => Ethereum::endpoint(),
        }
    }

    /// The price that an envelope resolves to for this kind of asset.
    pub open spec fn price_in(self, envelope: CoinGeckoPrice) -> Price {
        match self {
            AssetKind::Bitcoin => Price::resolve(envelope.bitcoin),
            AssetKind::Ethereum => Price::resolve(envelope.ethereum),
        }
    }

    /// Where this kind of asset is quoted.
    pub fn get_url(self) -> (url: &'static str)
        ensures
            url@ == self.endpoint(),
    {
        match self {
            AssetKind::Bitcoin => Bitcoin::get_url(),
            AssetKind::Ethereum => Ethereum::get_url(),
        }
    }

    /// Reads this kind's price out of a decoded envelope, through the asset
    /// type's own extraction rule.
    pub fn extract_price(self, envelope: CoinGeckoPrice) -> (price: Price)
        ensures
            price == self.price_in(envelope),
    {
        match self {
            AssetKind::Bitcoin => (Bitcoin { data: envelope }).extract_price(),
            AssetKind::Ethereum => (Ethereum { data: envelope }).extract_price(),
        }
    }
}

} // verus!
