//! Prices and the envelope in which the quoting service returns them.

use vstd::prelude::*;

verus! {

/// A price in the quote currency, held as the bit pattern of an IEEE-754
/// double-precision number. The library never does arithmetic on a price; it
/// only carries it from the decoded quote to the record.
#[derive(Clone, Copy, Debug, PartialEq, Eq)]
pub struct Price {
    pub bits: u64,
}

impl Price {
    /// The value recorded when the envelope carries no quote for an asset:
    /// positive zero, whose bit pattern is all zeroes.
    pub open spec fn sentinel() -> Price {
        Price { bits: 0 }
    }

    /// The price that a quote slot resolves to: the quoted value where one is
    /// present, the sentinel otherwise.
    pub open spec fn resolve(quoted: Option<CryptoPrice>) -> Price {
        match quoted {
            Some(quote) => quote.usd,
            None => Price::sentinel(),
        }
    }

    pub fn from_bits(bits: u64) -> (price: Price)
        ensures
            price.bits == bits,
    {
        Price { bits }
    }

    pub fn to_bits(self) -> (bits: u64)
        ensures
            bits == self.bits,
    {
        self.bits
    }

    /// The sentinel default.
    pub fn absent() -> (price: Price)
        ensures
            price == Price::sentinel(),
    {
        Price { bits: 0 }
    }

    /// Whether this price is the sentinel. A genuine quote of zero cannot be
    /// told apart from a missing one.
    pub fn is_sentinel(self) -> (yes: bool)
        ensures
            yes <==> self == Price::sentinel(),
    {
        self.bits == 0
    }
}

/// The quote of one asset: its value in US dollars.
#[derive(Clone, Copy, Debug, PartialEq, Eq)]
pub struct CryptoPrice {
    pub usd: Price,
}

/// The decoded response of the quoting service. Each asset key is optional:
/// a missing key is a legitimate response that carries no price for that
/// asset.
#[derive(Clone, Copy, Debug, PartialEq, Eq)]
pub struct CoinGeckoPrice {
    pub bitcoin: Option<CryptoPrice>,
    pub ethereum: Option<CryptoPrice>,
}

impl CoinGeckoPrice {
    /// An envelope that quotes nothing.
    pub fn empty() -> (envelope: CoinGeckoPrice)
        ensures
            envelope.bitcoin is None,
            envelope.ethereum is None,
    {
        CoinGeckoPrice { bitcoin: None, ethereum: None }
    }
}

} // verus!
