//! Identifiers of the assets that the exchange trades.

use vstd::prelude::*;

verus! {

/// Largest number of the range set aside for protected tokens.
pub const PROTECTED_ASSET_MAX: u128 = 0xFFFF_FFFF;

/// Numbers below this one stand for ISO 4217 numeric currency codes.
pub const CURRENCY_CODE_END: u128 = 1000;

/// An asset on chain: the native currency, or an enumerated asset with its number.
#[derive(Clone, Copy, Debug, PartialEq, Eq, Structural)]
pub enum AssetId {
    /// The native currency of the chain.
    Polkadex,
    /// An enumerated asset.
    Asset(u128),
}

impl AssetId {
    /// The order of assets: the native currency first, then the enumerated assets by number.
    pub open spec fn before(self, other: AssetId) -> bool {
        match (self, other) {
            (AssetId::Polkadex, AssetId::Asset(_)) => true,
            (AssetId::Asset(a), AssetId::Asset(b)) => a < b,
            _ => false,
        }
    }

    /// Decides `self.before(*other)`.
    pub fn precedes(&self, other: &AssetId) -> (yes: bool)
        ensures
            yes == self.before(*other),
    {
        match (self, other) {
            (AssetId::Polkadex, AssetId::Asset(_)) => true,
            (AssetId::Asset(a), AssetId::Asset(b)) => *a < *b,
            _ => false,
        }
    }

    /// Whether the asset is an enumerated one whose number lies in the protected range.
    pub fn is_protected(&self) -> (yes: bool)
        ensures
            yes == (*self matches AssetId::Asset(n) && n <= PROTECTED_ASSET_MAX),
    {
        match self {
            AssetId::Polkadex => false,
            AssetId::Asset(n) => *n <= PROTECTED_ASSET_MAX,
        }
    }

    /// Whether the asset is an enumerated one whose number is a currency code.
    pub fn is_currency_code(&self) -> (yes: bool)
        ensures
            yes == (*self matches AssetId::Asset(n) && n < CURRENCY_CODE_END),
    {
        match self {
            AssetId::Polkadex => false,
            AssetId::Asset(n) => *n < CURRENCY_CODE_END,
        }
    }
}

/// The order of assets is strict and total, and it is transitive.
pub proof fn lemma_asset_order(a: AssetId, b: AssetId, c: AssetId)
    ensures
        !a.before(a),
        a.before(b) ==> !b.before(a),
        a == b || a.before(b) || b.before(a),
        a.before(b) && b.before(c) ==> a.before(c),
{
}

} // verus!
