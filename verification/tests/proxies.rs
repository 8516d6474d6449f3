use polkadex_primitives::bounded::PROXY_LIMIT;
use polkadex_primitives::error::{Error, ErrorKind};
use polkadex_primitives::fees::FeeConfig;
use polkadex_primitives::ocex::AccountInfo;
use polkadex_primitives::types::AccountId;

fn account(tag: u8) -> AccountId {
    AccountId { bytes: [tag; 32] }
}

#[test]
fn new_account_has_no_proxies() {
    let info = AccountInfo::new(account(1));
    assert_eq!(info.main_account, account(1));
    assert_eq!(info.proxy_list().len(), 0);
    assert_eq!(info.nonce, 0);
    assert_eq!(info.balances.entries().len(), 0);
    assert_eq!(info.fee_config, FeeConfig { maker_fraction: 0, taker_fraction: 0 });
    assert_eq!(info.fee_paid_base_asset, 0);
    assert_eq!(info.fee_paid_quote_asset, 0);
    assert_eq!(info.q_final, 0);
    assert_eq!(info.maker_fee_fraction(), 0);
    assert_eq!(info.taker_fee_fraction(), 0);
}

#[test]
fn fee_fractions_are_read_from_the_configuration() {
    let mut info = AccountInfo::new(account(1));
    info.fee_config = FeeConfig { maker_fraction: 7, taker_fraction: 11 };
    assert_eq!(info.maker_fee_fraction(), 7);
    assert_eq!(info.taker_fee_fraction(), 11);
    assert_eq!(FeeConfig::default(), FeeConfig { maker_fraction: 0, taker_fraction: 0 });
}

#[test]
fn proxy_limit_is_three() {
    assert_eq!(PROXY_LIMIT, 3);
}

#[test]
fn proxies_fill_up_to_the_limit() {
    let mut info = AccountInfo::new(account(0));
    for i in 0..PROXY_LIMIT {
        assert_eq!(info.add_proxy(account(10 + i as u8)), Ok(()));
        assert_eq!(info.proxy_list().len(), i as usize + 1);
    }
    assert_eq!(info.proxy_list().len(), PROXY_LIMIT as usize);
    let full = info.add_proxy(account(200));
    assert_eq!(full, Err(Error::CapacityExceeded));
    assert_eq!(full.unwrap_err().kind(), ErrorKind::CapacityExceeded);
    assert_eq!(info.proxy_list().len(), PROXY_LIMIT as usize);
    assert_eq!(info.proxy_list(), &[account(10), account(11), account(12)][..]);
}

#[test]
fn full_proxies_refuse_a_proxy_that_is_there() {
    let mut info = AccountInfo::new(account(0));
    info.add_proxy(account(1)).unwrap();
    info.add_proxy(account(2)).unwrap();
    info.add_proxy(account(3)).unwrap();
    assert_eq!(info.add_proxy(account(2)), Err(Error::CapacityExceeded));
    assert_eq!(info.proxy_list(), &[account(1), account(2), account(3)][..]);
}

#[test]
fn adding_a_proxy_twice_keeps_one_entry() {
    let mut info = AccountInfo::new(account(0));
    assert_eq!(info.add_proxy(account(7)), Ok(()));
    assert_eq!(info.add_proxy(account(7)), Ok(()));
    assert_eq!(info.proxy_list(), &[account(7)][..]);
    assert!(info.has_proxy(&account(7)));
    assert!(!info.has_proxy(&account(8)));
}

#[test]
fn removing_a_proxy_twice_is_removing_it_once() {
    let mut info = AccountInfo::new(account(0));
    info.add_proxy(account(1)).unwrap();
    info.add_proxy(account(2)).unwrap();
    info.add_proxy(account(3)).unwrap();
    info.remove_proxy(&account(2));
    assert_eq!(info.proxy_list(), &[account(1), account(3)][..]);
    info.remove_proxy(&account(2));
    assert_eq!(info.proxy_list(), &[account(1), account(3)][..]);
}

#[test]
fn removing_an_account_that_is_no_proxy_changes_nothing() {
    let mut info = AccountInfo::new(account(0));
    info.add_proxy(account(1)).unwrap();
    info.remove_proxy(&account(9));
    assert_eq!(info.proxy_list(), &[account(1)][..]);
    let mut empty = AccountInfo::new(account(0));
    empty.remove_proxy(&account(9));
    assert_eq!(empty.proxy_list().len(), 0);
}

#[test]
fn removing_a_proxy_takes_every_entry_of_it() {
    let mut info = AccountInfo::new(account(0));
    info.proxies.try_push(account(5)).unwrap();
    info.proxies.try_push(account(6)).unwrap();
    info.proxies.try_push(account(5)).unwrap();
    info.remove_proxy(&account(5));
    assert_eq!(info.proxy_list(), &[account(6)][..]);
}

#[test]
fn a_removed_proxy_makes_room_for_another() {
    let mut info = AccountInfo::new(account(0));
    info.add_proxy(account(1)).unwrap();
    info.add_proxy(account(2)).unwrap();
    info.add_proxy(account(3)).unwrap();
    info.remove_proxy(&account(1));
    assert_eq!(info.add_proxy(account(4)), Ok(()));
    assert_eq!(info.proxy_list(), &[account(2), account(3), account(4)][..]);
}

#[test]
fn a_copy_of_a_record_holds_the_same() {
    let mut info = AccountInfo::new(account(3));
    info.add_proxy(account(4)).unwrap();
    info.nonce = 9;
    info.q_final = 77;
    let copy = info.clone();
    assert_eq!(copy.main_account, account(3));
    assert_eq!(copy.proxy_list(), &[account(4)][..]);
    assert_eq!(copy.nonce, 9);
    assert_eq!(copy.q_final, 77);
    assert_eq!(copy.encode(), info.encode());
}

#[test]
fn nonce_must_match_and_then_goes_up() {
    let mut info = AccountInfo::new(account(0));
    assert_eq!(info.use_nonce(1), Err(Error::OutOfOrder));
    assert_eq!(info.nonce, 0);
    assert_eq!(info.use_nonce(0), Ok(()));
    assert_eq!(info.nonce, 1);
    assert_eq!(info.use_nonce(0), Err(Error::StaleNonce));
    assert_eq!(info.nonce, 1);
    assert_eq!(Error::StaleNonce.kind(), ErrorKind::SequenceViolation);
    assert_eq!(Error::OutOfOrder.kind(), ErrorKind::SequenceViolation);
}

#[test]
fn the_largest_nonce_admits_nothing() {
    let mut info = AccountInfo::new(account(0));
    info.nonce = u32::MAX;
    assert_eq!(info.use_nonce(u32::MAX), Err(Error::CapacityExceeded));
    assert_eq!(info.nonce, u32::MAX);
}
