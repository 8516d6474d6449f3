use polkadex_primitives::assets::AssetId;
use polkadex_primitives::bounded::{SNAPSHOT_ACCOUNT_LIMIT, UNPADDED_REPORT_SIZE, WITHDRAWAL_LIMIT};
use polkadex_primitives::egress::{attestation_report, report_bytes, UnpaddedReportSize};
use polkadex_primitives::error::{Error, ErrorKind};
use polkadex_primitives::ingress::{IngressLog, IngressMessages};
use polkadex_primitives::ocex::AccountInfo;
use polkadex_primitives::snapshot::{
    AccountInfoDumpLimit, EnclaveAccountInfoDump, EnclaveSnapshot, ACCOUNT_DUMP_LIMIT,
};
use polkadex_primitives::types::{AccountId, H256};
use polkadex_primitives::withdrawal::Withdrawal;

fn account(tag: u8) -> AccountId {
    AccountId { bytes: [tag; 32] }
}

fn withdrawal(tag: u8) -> Withdrawal {
    Withdrawal { main_account: account(tag), amount: tag as u128, asset: AssetId::Polkadex }
}

#[test]
fn limits() {
    assert_eq!(UnpaddedReportSize::get(), 432);
    assert_eq!(UNPADDED_REPORT_SIZE, 432);
    assert_eq!(AccountInfoDumpLimit::get(), 10000000);
    assert_eq!(ACCOUNT_DUMP_LIMIT, 10000000);
    assert_eq!(SNAPSHOT_ACCOUNT_LIMIT, 20);
    assert_eq!(WITHDRAWAL_LIMIT, 500);
}

#[test]
fn snapshot_holds_what_it_was_made_with() {
    let snapshot = EnclaveSnapshot::new(
        4,
        H256 { bytes: [1; 32] },
        vec![AccountInfo::new(account(1))],
        vec![withdrawal(1), withdrawal(2)],
        50,
    )
    .unwrap();
    assert_eq!(snapshot.snapshot_number, 4);
    assert_eq!(snapshot.merkle_root, H256 { bytes: [1; 32] });
    assert_eq!(snapshot.total_lmp_score, 50);
    assert_eq!(snapshot.account_list().len(), 1);
    assert_eq!(snapshot.account_list()[0].main_account, account(1));
    assert_eq!(snapshot.withdrawal_list(), &[withdrawal(1), withdrawal(2)][..]);
}

#[test]
fn snapshot_takes_withdrawals_up_to_the_limit() {
    let full: Vec<Withdrawal> = (0..WITHDRAWAL_LIMIT).map(|i| withdrawal(i as u8)).collect();
    let made = EnclaveSnapshot::new(1, H256 { bytes: [0; 32] }, Vec::new(), full, 0);
    assert_eq!(made.unwrap().withdrawal_list().len(), WITHDRAWAL_LIMIT as usize);
    let over: Vec<Withdrawal> = (0..WITHDRAWAL_LIMIT + 1).map(|i| withdrawal(i as u8)).collect();
    let made = EnclaveSnapshot::new(1, H256 { bytes: [0; 32] }, Vec::new(), over, 0);
    assert_eq!(made.unwrap_err(), Error::CapacityExceeded);
    assert_eq!(Error::CapacityExceeded.kind(), ErrorKind::CapacityExceeded);
}

#[test]
fn snapshot_takes_accounts_up_to_the_limit() {
    let full: Vec<AccountInfo> =
        (0..SNAPSHOT_ACCOUNT_LIMIT).map(|i| AccountInfo::new(account(i as u8))).collect();
    let made = EnclaveSnapshot::new(1, H256 { bytes: [0; 32] }, full, Vec::new(), 0);
    assert_eq!(made.unwrap().account_list().len(), SNAPSHOT_ACCOUNT_LIMIT as usize);
    let over: Vec<AccountInfo> =
        (0..SNAPSHOT_ACCOUNT_LIMIT + 1).map(|i| AccountInfo::new(account(i as u8))).collect();
    let made = EnclaveSnapshot::new(1, H256 { bytes: [0; 32] }, over, Vec::new(), 0);
    assert_eq!(made.unwrap_err(), Error::CapacityExceeded);
}

#[test]
fn snapshots_are_equal_by_number() {
    let one = EnclaveSnapshot::new(1, H256 { bytes: [1; 32] }, Vec::new(), Vec::new(), 0).unwrap();
    let other =
        EnclaveSnapshot::new(1, H256 { bytes: [2; 32] }, Vec::new(), vec![withdrawal(1)], 9)
            .unwrap();
    let next = EnclaveSnapshot::new(2, H256 { bytes: [1; 32] }, Vec::new(), Vec::new(), 0).unwrap();
    assert!(one == other);
    assert!(one != next);
    assert_ne!(one.encode(), other.encode());
}

#[test]
fn dump_takes_accounts_in_ascending_order() {
    let dump = EnclaveAccountInfoDump::new(
        3,
        vec![AccountInfo::new(account(1)), AccountInfo::new(account(2))],
    )
    .unwrap();
    assert_eq!(dump.snapshot_number(), 3);
    assert_eq!(dump.accounts().len(), 2);
    assert_eq!(dump.accounts()[1].main_account, account(2));
    let empty = EnclaveAccountInfoDump::new(0, Vec::new()).unwrap();
    assert_eq!(empty.accounts().len(), 0);
}

#[test]
fn dump_refuses_accounts_out_of_order() {
    let falling = EnclaveAccountInfoDump::new(
        3,
        vec![AccountInfo::new(account(2)), AccountInfo::new(account(1))],
    );
    assert_eq!(falling.unwrap_err(), Error::Malformed);
    let twice = EnclaveAccountInfoDump::new(
        3,
        vec![AccountInfo::new(account(2)), AccountInfo::new(account(2))],
    );
    assert_eq!(twice.unwrap_err(), Error::Malformed);
}

#[test]
fn report_holds_up_to_its_size() {
    let report = attestation_report(vec![7; 432]).unwrap();
    assert_eq!(report_bytes(&report), &[7u8; 432][..]);
    let short = attestation_report(vec![1, 2, 3]).unwrap();
    assert_eq!(report_bytes(&short), &[1u8, 2, 3][..]);
    assert_eq!(attestation_report(vec![7; 433]).unwrap_err(), Error::CapacityExceeded);
}

#[test]
fn log_keeps_the_order_of_its_commands() {
    let mut log = IngressLog::new();
    assert_eq!(log.len(), 0);
    assert_eq!(log.next(), None);
    assert_eq!(log.append(IngressMessages::AddNewAsset(AssetId::Polkadex)), 0);
    assert_eq!(log.append(IngressMessages::RegisterUser(account(1), account(2))), 1);
    assert_eq!(log.append(IngressMessages::Deposit(account(1), AssetId::Polkadex, 5)), 2);
    assert_eq!(log.len(), 3);
    assert_eq!(log.consumed(), 0);
    assert_eq!(log.get(1), Some(IngressMessages::RegisterUser(account(1), account(2))));
    assert_eq!(log.get(3), None);
    assert_eq!(log.next(), Some(IngressMessages::AddNewAsset(AssetId::Polkadex)));
    assert_eq!(log.next(), Some(IngressMessages::RegisterUser(account(1), account(2))));
    assert_eq!(log.consumed(), 2);
    assert_eq!(log.append(IngressMessages::RemoveAsset(AssetId::Polkadex)), 3);
    assert_eq!(log.next(), Some(IngressMessages::Deposit(account(1), AssetId::Polkadex, 5)));
    assert_eq!(log.next(), Some(IngressMessages::RemoveAsset(AssetId::Polkadex)));
    assert_eq!(log.next(), None);
    assert_eq!(log.consumed(), 4);
    assert_eq!(log.len(), 4);
    assert_eq!(log.get(0), Some(IngressMessages::AddNewAsset(AssetId::Polkadex)));
}
