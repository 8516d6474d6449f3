use polkadex_primitives::assets::AssetId;
use polkadex_primitives::balances::{BalanceEntry, Balances};
use polkadex_primitives::error::Error;
use polkadex_primitives::ocex::AccountInfo;
use polkadex_primitives::types::AccountId;

fn entry(asset: AssetId, free: u128, reserved: u128) -> BalanceEntry {
    BalanceEntry { asset, free, reserved }
}

#[test]
fn new_balances_hold_nothing() {
    let balances = Balances::new();
    assert_eq!(balances.entries().len(), 0);
    assert_eq!(balances.get(&AssetId::Polkadex), None);
}

#[test]
fn balances_are_kept_in_order_of_asset() {
    let mut balances = Balances::new();
    balances.set(AssetId::Asset(7), 1, 2).unwrap();
    balances.set(AssetId::Polkadex, 3, 4).unwrap();
    balances.set(AssetId::Asset(3), 5, 6).unwrap();
    balances.set(AssetId::Asset(9), 7, 8).unwrap();
    assert_eq!(
        balances.entries(),
        &[
            entry(AssetId::Polkadex, 3, 4),
            entry(AssetId::Asset(3), 5, 6),
            entry(AssetId::Asset(7), 1, 2),
            entry(AssetId::Asset(9), 7, 8),
        ][..]
    );
    assert_eq!(balances.get(&AssetId::Asset(7)), Some((1, 2)));
    assert_eq!(balances.get(&AssetId::Asset(8)), None);
}

#[test]
fn setting_an_asset_again_replaces_its_entry() {
    let mut balances = Balances::new();
    balances.set(AssetId::Asset(1), 1, 1).unwrap();
    balances.set(AssetId::Asset(2), 2, 2).unwrap();
    balances.set(AssetId::Asset(1), 10, 11).unwrap();
    assert_eq!(
        balances.entries(),
        &[entry(AssetId::Asset(1), 10, 11), entry(AssetId::Asset(2), 2, 2)][..]
    );
}

#[test]
fn entries_must_ascend() {
    let good = vec![entry(AssetId::Polkadex, 1, 0), entry(AssetId::Asset(5), 2, 0)];
    let made = Balances::from_entries(good.clone()).unwrap();
    assert_eq!(made.entries(), &good[..]);
    let twice = vec![entry(AssetId::Asset(5), 1, 0), entry(AssetId::Asset(5), 2, 0)];
    assert!(Balances::from_entries(twice).is_none());
    let falling = vec![entry(AssetId::Asset(5), 1, 0), entry(AssetId::Polkadex, 2, 0)];
    assert!(Balances::from_entries(falling).is_none());
    assert!(Balances::from_entries(Vec::new()).is_some());
    assert!(Balances::from_entries(vec![entry(AssetId::Asset(1), 0, 0)]).is_some());
}

#[test]
fn a_copy_of_balances_holds_the_same_entries() {
    let mut balances = Balances::new();
    balances.set(AssetId::Asset(2), 20, 21).unwrap();
    balances.set(AssetId::Asset(1), 10, 11).unwrap();
    let copy = balances.clone();
    assert_eq!(copy.entries(), balances.entries());
}

#[test]
fn credit_adds_to_the_free_balance() {
    let mut info = AccountInfo::new(AccountId { bytes: [1; 32] });
    assert_eq!(info.balance(&AssetId::Asset(5)), (0, 0));
    assert_eq!(info.credit(AssetId::Asset(5), 40), Ok(()));
    assert_eq!(info.balance(&AssetId::Asset(5)), (40, 0));
    assert_eq!(info.credit(AssetId::Asset(5), 2), Ok(()));
    assert_eq!(info.balance(&AssetId::Asset(5)), (42, 0));
    assert_eq!(info.balance(&AssetId::Polkadex), (0, 0));
}

#[test]
fn credit_keeps_the_reserved_balance() {
    let mut info = AccountInfo::new(AccountId { bytes: [1; 32] });
    info.balances.set(AssetId::Polkadex, 5, 9).unwrap();
    assert_eq!(info.credit(AssetId::Polkadex, 1), Ok(()));
    assert_eq!(info.balance(&AssetId::Polkadex), (6, 9));
}

#[test]
fn credit_fails_where_the_balance_would_overflow() {
    let mut info = AccountInfo::new(AccountId { bytes: [1; 32] });
    info.credit(AssetId::Polkadex, u128::MAX - 1).unwrap();
    assert_eq!(info.credit(AssetId::Polkadex, 2), Err(Error::CapacityExceeded));
    assert_eq!(info.balance(&AssetId::Polkadex), (u128::MAX - 1, 0));
    assert_eq!(info.credit(AssetId::Polkadex, 1), Ok(()));
    assert_eq!(info.balance(&AssetId::Polkadex), (u128::MAX, 0));
}
