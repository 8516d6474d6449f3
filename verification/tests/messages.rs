use parity_scale_codec::{Compact, Encode};
use polkadex_primitives::assets::AssetId;
use polkadex_primitives::crypto::Signature;
use polkadex_primitives::egress::{attestation_report, report_bytes, EgressMessages};
use polkadex_primitives::error::Error;
use polkadex_primitives::ingress::IngressMessages;
use polkadex_primitives::ocex::{AccountInfo, OCEXConfig, TradingPairConfig};
use polkadex_primitives::snapshot::{EnclaveAccountInfoDump, EnclaveSnapshot};
use polkadex_primitives::types::{AccountId, H256};
use polkadex_primitives::withdrawal::Withdrawal;

fn account(tag: u8) -> AccountId {
    AccountId { bytes: [tag; 32] }
}

fn pair() -> TradingPairConfig {
    TradingPairConfig {
        base_asset: AssetId::Polkadex,
        quote_asset: AssetId::Asset(840),
        min_trade_amount: 1,
        max_trade_amount: 2,
        min_order_qty: 3,
        max_order_qty: 4,
        min_deposit_amount: 5,
        max_deposit_amount: 6,
        min_withdrawal_amount: 7,
        max_withdrawal_amount: 8,
        base_withdrawal_fee: 9,
        quote_withdrawal_fee: 10,
        min_depth: None,
        max_spread: Some(3),
        enclave_id: account(12),
    }
}

fn every_command() -> Vec<IngressMessages> {
    vec![
        IngressMessages::StartEnclave(OCEXConfig { enclave_id: account(1) }),
        IngressMessages::AddNewAsset(AssetId::Asset(5)),
        IngressMessages::RemoveAsset(AssetId::Polkadex),
        IngressMessages::RegisterTradingPair(pair()),
        IngressMessages::OpenTradingPair(pair()),
        IngressMessages::CloseTradingPair(pair()),
        IngressMessages::RegisterUser(account(1), account(2)),
        IngressMessages::Deposit(account(1), AssetId::Asset(840), 1000),
        IngressMessages::AddProxy(account(1), account(3)),
        IngressMessages::RemoveProxy(account(1), account(2)),
        IngressMessages::EnclaveRegistered(account(9)),
        IngressMessages::ShutdownEnclave(account(9)),
        IngressMessages::LatestSnapshot(H256 { bytes: [7; 32] }, 41),
    ]
}

#[test]
fn commands_are_tagged_in_the_order_of_their_variants() {
    for (index, message) in every_command().iter().enumerate() {
        assert_eq!(message.encode()[0], index as u8);
    }
}

#[test]
fn command_bytes_are_the_tag_and_the_fields() {
    assert_eq!(
        IngressMessages::Deposit(account(1), AssetId::Asset(840), 1000).encode(),
        (7u8, [1u8; 32], (1u8, 840u128), 1000u128).encode()
    );
    assert_eq!(
        IngressMessages::RegisterUser(account(1), account(2)).encode(),
        (6u8, [1u8; 32], [2u8; 32]).encode()
    );
    assert_eq!(
        IngressMessages::LatestSnapshot(H256 { bytes: [7; 32] }, 41).encode(),
        (12u8, [7u8; 32], 41u32).encode()
    );
    assert_eq!(IngressMessages::RemoveAsset(AssetId::Polkadex).encode(), vec![2, 0]);
    let mut expected = vec![4u8];
    expected.extend(pair().encode());
    assert_eq!(IngressMessages::OpenTradingPair(pair()).encode(), expected);
}

#[test]
fn commands_round_trip() {
    for message in every_command() {
        let mut bytes = message.encode();
        assert_eq!(IngressMessages::decode(&bytes), Ok(message));
        bytes.push(0xEE);
        assert_eq!(IngressMessages::decode(&bytes), Ok(message));
    }
}

#[test]
fn commands_that_are_cut_short_are_refused() {
    for message in every_command() {
        let bytes = message.encode();
        for cut in 0..bytes.len() {
            assert_eq!(IngressMessages::decode(&bytes[..cut]), Err(Error::Malformed));
        }
    }
}

#[test]
fn command_with_an_unknown_tag_is_refused() {
    let mut bytes = IngressMessages::EnclaveRegistered(account(9)).encode();
    bytes[0] = 13;
    assert_eq!(IngressMessages::decode(&bytes), Err(Error::Malformed));
    bytes[0] = 255;
    assert_eq!(IngressMessages::decode(&bytes), Err(Error::Malformed));
    bytes[0] = 11;
    assert_eq!(IngressMessages::decode(&bytes), Ok(IngressMessages::ShutdownEnclave(account(9))));
}

#[test]
fn dump_round_trip() {
    let mut first = AccountInfo::new(account(1));
    first.add_proxy(account(5)).unwrap();
    first.credit(AssetId::Polkadex, 10).unwrap();
    let second = AccountInfo::new(account(2));
    let dump = EnclaveAccountInfoDump::new(9, vec![first, second]).unwrap();
    let bytes = dump.encode();
    let read = EnclaveAccountInfoDump::decode(&bytes).unwrap();
    assert_eq!(read.snapshot_number(), 9);
    assert_eq!(read.accounts().len(), 2);
    assert_eq!(read.accounts()[0].proxy_list(), &[account(5)][..]);
    assert_eq!(read.accounts()[0].balance(&AssetId::Polkadex), (10, 0));
    assert_eq!(read.accounts()[1].main_account, account(2));
    assert_eq!(read.encode(), bytes);
    let empty = EnclaveAccountInfoDump::new(0, Vec::new()).unwrap();
    assert_eq!(empty.encode(), vec![0, 0, 0, 0, 0]);
    assert_eq!(EnclaveAccountInfoDump::decode(&empty.encode()).unwrap().accounts().len(), 0);
}

#[test]
fn dump_with_accounts_out_of_order_is_refused() {
    let mut bytes = 9u32.encode();
    bytes.extend(Compact(2u32).encode());
    bytes.extend([2u8; 32]);
    bytes.extend(AccountInfo::new(account(2)).encode());
    bytes.extend([1u8; 32]);
    bytes.extend(AccountInfo::new(account(1)).encode());
    assert_eq!(EnclaveAccountInfoDump::decode(&bytes).unwrap_err(), Error::Malformed);
}

#[test]
fn dump_with_a_record_under_another_key_is_refused() {
    let mut bytes = 9u32.encode();
    bytes.extend(Compact(1u32).encode());
    bytes.extend([2u8; 32]);
    bytes.extend(AccountInfo::new(account(1)).encode());
    assert_eq!(EnclaveAccountInfoDump::decode(&bytes).unwrap_err(), Error::Malformed);
    let mut bytes = 9u32.encode();
    bytes.extend(Compact(1u32).encode());
    bytes.extend([1u8; 32]);
    bytes.extend(AccountInfo::new(account(1)).encode());
    assert!(EnclaveAccountInfoDump::decode(&bytes).is_ok());
    assert_eq!(
        EnclaveAccountInfoDump::decode(&bytes[..bytes.len() - 1]).unwrap_err(),
        Error::Malformed
    );
}

#[test]
fn reports_are_tagged_in_the_order_of_their_variants() {
    let dump = EnclaveAccountInfoDump::new(1, Vec::new()).unwrap();
    let snapshot =
        EnclaveSnapshot::new(1, H256 { bytes: [0; 32] }, Vec::new(), Vec::new(), 0).unwrap();
    let signature = Signature { bytes: [3; 64] };
    let mut expected = vec![0u8];
    expected.extend(dump.encode());
    expected.extend([3u8; 64]);
    assert_eq!(EgressMessages::EnclaveAccountDump(dump, signature).encode(), expected);
    let mut expected = vec![1u8];
    expected.extend(snapshot.encode());
    expected.extend([3u8; 64]);
    assert_eq!(EgressMessages::EnclaveSnapshot(snapshot, signature).encode(), expected);
    let report = attestation_report(vec![9; 432]).unwrap();
    assert_eq!(
        EgressMessages::RegisterEnclave(report).encode(),
        (2u8, vec![9u8; 432]).encode()
    );
}

#[test]
fn reports_round_trip() {
    let signature = Signature { bytes: [3; 64] };
    let snapshot = EnclaveSnapshot::new(
        4,
        H256 { bytes: [8; 32] },
        vec![AccountInfo::new(account(1))],
        vec![Withdrawal { main_account: account(1), amount: 3, asset: AssetId::Polkadex }],
        17,
    )
    .unwrap();
    let message = EgressMessages::EnclaveSnapshot(snapshot, signature);
    let bytes = message.encode();
    match EgressMessages::decode(&bytes).unwrap() {
        EgressMessages::EnclaveSnapshot(read, signed) => {
            assert_eq!(read.snapshot_number, 4);
            assert_eq!(read.total_lmp_score, 17);
            assert_eq!(read.withdrawal_list().len(), 1);
            assert_eq!(read.account_list()[0].main_account, account(1));
            assert_eq!(signed, signature);
        }
        _ => panic!("a snapshot was written"),
    }
    assert_eq!(EgressMessages::decode(&bytes).unwrap().encode(), bytes);
    let dump = EnclaveAccountInfoDump::new(2, vec![AccountInfo::new(account(6))]).unwrap();
    let bytes = EgressMessages::EnclaveAccountDump(dump, signature).encode();
    match EgressMessages::decode(&bytes).unwrap() {
        EgressMessages::EnclaveAccountDump(read, signed) => {
            assert_eq!(read.snapshot_number(), 2);
            assert_eq!(read.accounts()[0].main_account, account(6));
            assert_eq!(signed, signature);
        }
        _ => panic!("a dump was written"),
    }
    let report = attestation_report(vec![1, 2, 3]).unwrap();
    let bytes = EgressMessages::RegisterEnclave(report).encode();
    assert_eq!(bytes, vec![2, 12, 1, 2, 3]);
    match EgressMessages::decode(&bytes).unwrap() {
        EgressMessages::RegisterEnclave(read) => assert_eq!(report_bytes(&read), &[1u8, 2, 3][..]),
        _ => panic!("a report was written"),
    }
}

#[test]
fn report_that_is_too_long_or_cut_short_is_refused() {
    assert!(EgressMessages::decode(&(2u8, vec![9u8; 432]).encode()).is_ok());
    assert_eq!(
        EgressMessages::decode(&(2u8, vec![9u8; 433]).encode()).unwrap_err(),
        Error::Malformed
    );
    assert_eq!(EgressMessages::decode(&[]).unwrap_err(), Error::Malformed);
    assert_eq!(EgressMessages::decode(&[3]).unwrap_err(), Error::Malformed);
    assert_eq!(EgressMessages::decode(&[2, 12, 1, 2]).unwrap_err(), Error::Malformed);
    let snapshot =
        EnclaveSnapshot::new(1, H256 { bytes: [0; 32] }, Vec::new(), Vec::new(), 0).unwrap();
    let bytes = EgressMessages::EnclaveSnapshot(snapshot, Signature { bytes: [3; 64] }).encode();
    for cut in 0..bytes.len() {
        assert_eq!(EgressMessages::decode(&bytes[..cut]).unwrap_err(), Error::Malformed);
    }
}
