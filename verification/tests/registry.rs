use polkadex_primitives::assets::AssetId;
use polkadex_primitives::error::{Error, ErrorKind};
use polkadex_primitives::markets::{AssetRecord, AssetRegistry, TradingPairs};
use polkadex_primitives::ocex::{AccountInfo, OCEXConfig, TradingPairConfig};
use polkadex_primitives::registry::AccountRegistry;
use polkadex_primitives::types::AccountId;

fn account(tag: u8) -> AccountId {
    AccountId { bytes: [tag; 32] }
}

fn pair(base: AssetId, quote: AssetId) -> TradingPairConfig {
    TradingPairConfig {
        base_asset: base,
        quote_asset: quote,
        min_trade_amount: 1,
        max_trade_amount: 100,
        min_order_qty: 1,
        max_order_qty: 100,
        min_deposit_amount: 1,
        max_deposit_amount: 100,
        min_withdrawal_amount: 1,
        max_withdrawal_amount: 100,
        base_withdrawal_fee: 0,
        quote_withdrawal_fee: 0,
        min_depth: None,
        max_spread: None,
        enclave_id: account(99),
    }
}

#[test]
fn registering_creates_a_fresh_record() {
    let mut registry = AccountRegistry::new();
    assert_eq!(registry.records().len(), 0);
    assert_eq!(registry.register(account(1)), Ok(()));
    let record = registry.get(&account(1)).unwrap();
    assert_eq!(record.main_account, account(1));
    assert_eq!(record.proxy_list().len(), 0);
    assert_eq!(record.nonce, 0);
    assert_eq!(record.balances.entries().len(), 0);
    assert!(registry.get(&account(2)).is_none());
    assert_eq!(registry.position(&account(1)), Some(0));
    assert_eq!(registry.position(&account(2)), None);
}

#[test]
fn registering_twice_fails() {
    let mut registry = AccountRegistry::new();
    registry.register(account(1)).unwrap();
    registry.add_proxy(&account(1), account(5)).unwrap();
    assert_eq!(registry.register(account(1)), Err(Error::AlreadyExists));
    assert_eq!(Error::AlreadyExists.kind(), ErrorKind::InvalidConfiguration);
    assert_eq!(registry.records().len(), 1);
    assert_eq!(registry.get(&account(1)).unwrap().proxy_list(), &[account(5)][..]);
}

#[test]
fn accounts_keep_the_order_of_registration() {
    let mut registry = AccountRegistry::new();
    registry.register(account(3)).unwrap();
    registry.register(account(1)).unwrap();
    registry.register(account(2)).unwrap();
    let mains: Vec<AccountId> = registry.records().iter().map(|r| r.main_account).collect();
    assert_eq!(mains, vec![account(3), account(1), account(2)]);
    assert_eq!(registry.position(&account(2)), Some(2));
}

#[test]
fn proxies_of_a_registered_account() {
    let mut registry = AccountRegistry::new();
    registry.register(account(1)).unwrap();
    registry.register(account(2)).unwrap();
    assert_eq!(registry.add_proxy(&account(2), account(10)), Ok(()));
    assert_eq!(registry.add_proxy(&account(2), account(11)), Ok(()));
    assert_eq!(registry.add_proxy(&account(2), account(12)), Ok(()));
    assert_eq!(registry.add_proxy(&account(2), account(13)), Err(Error::CapacityExceeded));
    assert_eq!(
        registry.get(&account(2)).unwrap().proxy_list(),
        &[account(10), account(11), account(12)][..]
    );
    assert_eq!(registry.get(&account(1)).unwrap().proxy_list().len(), 0);
    assert_eq!(registry.remove_proxy(&account(2), &account(11)), Ok(()));
    assert_eq!(registry.remove_proxy(&account(2), &account(11)), Ok(()));
    assert_eq!(registry.get(&account(2)).unwrap().proxy_list(), &[account(10), account(12)][..]);
    assert_eq!(registry.position(&account(2)), Some(1));
}

#[test]
fn operations_on_an_unregistered_account_fail() {
    let mut registry = AccountRegistry::new();
    registry.register(account(1)).unwrap();
    assert_eq!(registry.add_proxy(&account(9), account(10)), Err(Error::NotFound));
    assert_eq!(registry.remove_proxy(&account(9), &account(10)), Err(Error::NotFound));
    assert_eq!(registry.deposit(&account(9), AssetId::Polkadex, 1), Err(Error::NotFound));
    assert_eq!(registry.use_nonce(&account(9), 0), Err(Error::NotFound));
    assert_eq!(Error::NotFound.kind(), ErrorKind::NotFound);
    assert_eq!(registry.records().len(), 1);
}

#[test]
fn deposit_goes_to_the_free_balance_of_the_account() {
    let mut registry = AccountRegistry::new();
    registry.register(account(1)).unwrap();
    registry.register(account(2)).unwrap();
    assert_eq!(registry.deposit(&account(1), AssetId::Asset(840), 250), Ok(()));
    assert_eq!(registry.deposit(&account(1), AssetId::Asset(840), 50), Ok(()));
    assert_eq!(registry.get(&account(1)).unwrap().balance(&AssetId::Asset(840)), (300, 0));
    assert_eq!(registry.get(&account(2)).unwrap().balance(&AssetId::Asset(840)), (0, 0));
    assert_eq!(registry.deposit(&account(1), AssetId::Asset(840), u128::MAX), Err(Error::CapacityExceeded));
    assert_eq!(registry.get(&account(1)).unwrap().balance(&AssetId::Asset(840)), (300, 0));
}

#[test]
fn nonce_of_a_registered_account() {
    let mut registry = AccountRegistry::new();
    registry.register(account(1)).unwrap();
    assert_eq!(registry.use_nonce(&account(1), 0), Ok(()));
    assert_eq!(registry.use_nonce(&account(1), 1), Ok(()));
    assert_eq!(registry.use_nonce(&account(1), 1), Err(Error::StaleNonce));
    assert_eq!(registry.use_nonce(&account(1), 3), Err(Error::OutOfOrder));
    assert_eq!(registry.get(&account(1)).unwrap().nonce, 2);
}

#[test]
fn putting_a_record_replaces_or_adds() {
    let mut registry = AccountRegistry::new();
    registry.register(account(1)).unwrap();
    registry.register(account(2)).unwrap();
    registry.use_nonce(&account(1), 0).unwrap();
    let changed = AccountInfo::new(account(1));
    registry.put(changed);
    assert_eq!(registry.records().len(), 2);
    assert_eq!(registry.get(&account(1)).unwrap().nonce, 0);
    assert_eq!(registry.position(&account(1)), Some(0));
    registry.put(AccountInfo::new(account(3)));
    assert_eq!(registry.position(&account(3)), Some(2));
}

#[test]
fn record_of_a_snapshot_is_merged_or_added() {
    let mut registry = AccountRegistry::new();
    registry.register(account(1)).unwrap();
    registry.register(account(2)).unwrap();
    registry.add_proxy(&account(1), account(9)).unwrap();
    let mut brought = AccountInfo::new(account(1));
    brought.nonce = 8;
    brought.q_final = 5;
    registry.mirror(brought);
    assert_eq!(registry.records().len(), 2);
    let record = registry.get(&account(1)).unwrap();
    assert_eq!(record.nonce, 8);
    assert_eq!(record.q_final, 5);
    assert_eq!(record.proxy_list().len(), 0);
    assert_eq!(registry.position(&account(1)), Some(0));
    let mut again = AccountInfo::new(account(3));
    again.q_final = 4;
    registry.mirror_all(&[AccountInfo::new(account(3)), AccountInfo::new(account(4)), again]);
    assert_eq!(registry.records().len(), 4);
    assert_eq!(registry.get(&account(3)).unwrap().q_final, 4);
    assert_eq!(registry.position(&account(3)), Some(2));
    assert_eq!(registry.position(&account(4)), Some(3));
}

#[test]
fn record_of_a_snapshot_does_not_lower_the_nonce() {
    let mut registry = AccountRegistry::new();
    registry.register(account(1)).unwrap();
    registry.use_nonce(&account(1), 0).unwrap();
    registry.use_nonce(&account(1), 1).unwrap();
    let mut brought = AccountInfo::new(account(1));
    brought.nonce = 1;
    brought.fee_paid_base_asset = 33;
    registry.mirror(brought);
    let record = registry.get(&account(1)).unwrap();
    assert_eq!(record.nonce, 2);
    assert_eq!(record.fee_paid_base_asset, 33);
    let mut level = AccountInfo::new(account(1));
    level.nonce = 2;
    registry.mirror(level);
    assert_eq!(registry.get(&account(1)).unwrap().nonce, 2);
    assert_eq!(registry.get(&account(1)).unwrap().fee_paid_base_asset, 0);
}

#[test]
fn assets_are_added_and_removed() {
    let mut assets = AssetRegistry::new();
    assert!(!assets.tradable(&AssetId::Polkadex));
    assert_eq!(assets.add(AssetId::Polkadex), Ok(()));
    assert_eq!(assets.add(AssetId::Asset(1)), Ok(()));
    assert!(assets.tradable(&AssetId::Polkadex));
    assert_eq!(assets.add(AssetId::Polkadex), Err(Error::AlreadyExists));
    assert_eq!(assets.remove(&AssetId::Polkadex), Ok(()));
    assert!(!assets.tradable(&AssetId::Polkadex));
    assert_eq!(assets.remove(&AssetId::Polkadex), Err(Error::NotFound));
    assert_eq!(assets.remove(&AssetId::Asset(2)), Err(Error::NotFound));
    assert_eq!(
        assets.records(),
        &[
            AssetRecord { asset: AssetId::Polkadex, tradable: false },
            AssetRecord { asset: AssetId::Asset(1), tradable: true },
        ][..]
    );
    assert_eq!(assets.add(AssetId::Polkadex), Ok(()));
    assert_eq!(assets.records().len(), 2);
    assert!(assets.tradable(&AssetId::Polkadex));
    assert_eq!(assets.position(&AssetId::Asset(1)), Some(1));
}

#[test]
fn pair_with_a_minimum_above_its_maximum_is_refused() {
    let mut pairs = TradingPairs::new();
    let mut config = pair(AssetId::Polkadex, AssetId::Asset(840));
    config.min_trade_amount = 100;
    config.max_trade_amount = 50;
    assert!(!config.has_valid_bounds());
    let refused = pairs.open(config);
    assert_eq!(refused, Err(Error::InvalidBounds));
    assert_eq!(refused.unwrap_err().kind(), ErrorKind::InvalidConfiguration);
    assert_eq!(pairs.configurations().len(), 0);
}

#[test]
fn each_bounded_field_is_checked() {
    let good = pair(AssetId::Polkadex, AssetId::Asset(840));
    assert!(good.has_valid_bounds());
    let mut config = good;
    config.min_order_qty = 101;
    assert!(!config.has_valid_bounds());
    let mut config = good;
    config.min_deposit_amount = 101;
    assert!(!config.has_valid_bounds());
    let mut config = good;
    config.min_withdrawal_amount = 101;
    assert!(!config.has_valid_bounds());
    let mut config = good;
    config.min_trade_amount = 100;
    assert!(config.has_valid_bounds());
    let mut config = good;
    config.min_depth = Some(9);
    config.max_spread = Some(1);
    assert!(config.has_valid_bounds());
}

#[test]
fn pairs_open_and_close() {
    let mut pairs = TradingPairs::new();
    let first = pair(AssetId::Polkadex, AssetId::Asset(840));
    let second = pair(AssetId::Asset(840), AssetId::Polkadex);
    assert_eq!(pairs.open(first), Ok(()));
    assert_eq!(pairs.open(second), Ok(()));
    let mut again = first;
    again.max_trade_amount = 7000;
    assert_eq!(pairs.open(again), Err(Error::DuplicatePair));
    assert_eq!(Error::DuplicatePair.kind(), ErrorKind::InvalidConfiguration);
    assert_eq!(pairs.get(&AssetId::Polkadex, &AssetId::Asset(840)), Some(first));
    assert_eq!(pairs.configurations(), &[first, second][..]);
    assert!(first.trades(&AssetId::Polkadex, &AssetId::Asset(840)));
    assert!(!first.trades(&AssetId::Asset(840), &AssetId::Polkadex));
    assert_eq!(pairs.close(&AssetId::Polkadex, &AssetId::Asset(840)), Ok(()));
    assert_eq!(pairs.close(&AssetId::Polkadex, &AssetId::Asset(840)), Err(Error::NotFound));
    assert_eq!(pairs.get(&AssetId::Polkadex, &AssetId::Asset(840)), None);
    assert_eq!(pairs.configurations(), &[second][..]);
    assert_eq!(pairs.position(&AssetId::Asset(840), &AssetId::Polkadex), Some(0));
    assert_eq!(pairs.open(again), Ok(()));
    assert_eq!(pairs.get(&AssetId::Polkadex, &AssetId::Asset(840)), Some(again));
}

#[test]
fn a_bad_pair_is_refused_for_its_bounds_first() {
    let mut pairs = TradingPairs::new();
    let first = pair(AssetId::Polkadex, AssetId::Asset(840));
    pairs.open(first).unwrap();
    let mut bad = first;
    bad.min_order_qty = 500;
    assert_eq!(pairs.open(bad), Err(Error::InvalidBounds));
}

#[test]
fn exchange_configuration_names_the_enclave() {
    let config = OCEXConfig { enclave_id: account(3) };
    assert_eq!(config, OCEXConfig { enclave_id: account(3) });
    assert_ne!(config, OCEXConfig { enclave_id: account(4) });
}
