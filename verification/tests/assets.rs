use polkadex_primitives::assets::{AssetId, CURRENCY_CODE_END, PROTECTED_ASSET_MAX};
use polkadex_primitives::types::AccountId;

#[test]
fn native_currency_comes_first() {
    assert!(AssetId::Polkadex.precedes(&AssetId::Asset(0)));
    assert!(!AssetId::Asset(0).precedes(&AssetId::Polkadex));
    assert!(!AssetId::Polkadex.precedes(&AssetId::Polkadex));
}

#[test]
fn enumerated_assets_go_by_number() {
    assert!(AssetId::Asset(1).precedes(&AssetId::Asset(2)));
    assert!(!AssetId::Asset(2).precedes(&AssetId::Asset(1)));
    assert!(!AssetId::Asset(2).precedes(&AssetId::Asset(2)));
    assert!(AssetId::Asset(0).precedes(&AssetId::Asset(u128::MAX)));
}

#[test]
fn assets_are_equal_by_variant_and_number() {
    assert_eq!(AssetId::Polkadex, AssetId::Polkadex);
    assert_eq!(AssetId::Asset(840), AssetId::Asset(840));
    assert_ne!(AssetId::Asset(840), AssetId::Asset(841));
    assert_ne!(AssetId::Polkadex, AssetId::Asset(0));
}

#[test]
fn protected_range_ends_at_two_to_the_thirty_two() {
    assert_eq!(PROTECTED_ASSET_MAX, 4294967295);
    assert!(AssetId::Asset(0).is_protected());
    assert!(AssetId::Asset(4294967295).is_protected());
    assert!(!AssetId::Asset(4294967296).is_protected());
    assert!(!AssetId::Polkadex.is_protected());
}

#[test]
fn currency_codes_are_below_one_thousand() {
    assert_eq!(CURRENCY_CODE_END, 1000);
    assert!(AssetId::Asset(840).is_currency_code());
    assert!(AssetId::Asset(999).is_currency_code());
    assert!(!AssetId::Asset(1000).is_currency_code());
    assert!(!AssetId::Polkadex.is_currency_code());
}

#[test]
fn accounts_go_by_their_bytes() {
    let mut low = [0u8; 32];
    let mut high = [0u8; 32];
    low[31] = 1;
    high[0] = 1;
    let low = AccountId { bytes: low };
    let high = AccountId { bytes: high };
    assert!(low.precedes(&high));
    assert!(!high.precedes(&low));
    assert!(!low.precedes(&low));
    assert!(AccountId::zero().precedes(&low));
    assert_eq!(AccountId::zero(), AccountId { bytes: [0u8; 32] });
    assert_ne!(low, high);
}

#[test]
fn account_order_looks_at_the_first_difference() {
    let mut a = [9u8; 32];
    let mut b = [9u8; 32];
    a[5] = 1;
    a[6] = 200;
    b[5] = 2;
    b[6] = 0;
    assert!(AccountId { bytes: a }.precedes(&AccountId { bytes: b }));
    assert!(!AccountId { bytes: b }.precedes(&AccountId { bytes: a }));
}
