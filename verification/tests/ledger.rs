use polkadex_primitives::assets::AssetId;
use polkadex_primitives::bounded::{ReportBytes, PROXY_LIMIT};
use polkadex_primitives::crypto::{KeyPair, PublicKey, Signature};
use polkadex_primitives::egress::{attestation_report, EgressMessages};
use polkadex_primitives::error::{Error, ErrorKind};
use polkadex_primitives::ingress::IngressMessages;
use polkadex_primitives::ledger::{
    account_of_enclave, EnclaveState, Ledger, SnapshotChain, SnapshotRecord,
};
use polkadex_primitives::ocex::{AccountInfo, OCEXConfig, TradingPairConfig};
use polkadex_primitives::snapshot::{EnclaveAccountInfoDump, EnclaveSnapshot};
use polkadex_primitives::types::{AccountId, H256};
use polkadex_primitives::withdrawal::Withdrawal;

fn account(tag: u8) -> AccountId {
    AccountId { bytes: [tag; 32] }
}

fn root() -> H256 {
    H256 { bytes: [0x11; 32] }
}

fn report() -> ReportBytes {
    attestation_report(vec![0x5A; 432]).unwrap()
}

fn enclave() -> KeyPair {
    KeyPair { seed: [3; 32] }
}

fn pair(base: AssetId, quote: AssetId) -> TradingPairConfig {
    TradingPairConfig {
        base_asset: base,
        quote_asset: quote,
        min_trade_amount: 1,
        max_trade_amount: 100,
        min_order_qty: 1,
        max_order_qty: 100,
        min_deposit_amount: 1,
        max_deposit_amount: 100,
        min_withdrawal_amount: 1,
        max_withdrawal_amount: 100,
        base_withdrawal_fee: 0,
        quote_withdrawal_fee: 0,
        min_depth: None,
        max_spread: None,
        enclave_id: account(99),
    }
}

fn empty_snapshot(number: u32) -> EnclaveSnapshot {
    EnclaveSnapshot::new(number, root(), Vec::new(), Vec::new(), 0).unwrap()
}

fn signed(snapshot: EnclaveSnapshot, by: &KeyPair) -> EgressMessages {
    let signature = by.sign(&snapshot.encode());
    EgressMessages::EnclaveSnapshot(snapshot, signature)
}

fn active_ledger() -> Ledger {
    let mut ledger = Ledger::new();
    ledger.register_enclave(&report(), Some(enclave().public())).unwrap();
    ledger
}

#[test]
fn new_ledger_is_empty() {
    let ledger = Ledger::new();
    assert_eq!(ledger.state(), EnclaveState::NoEnclave);
    assert_eq!(ledger.snapshot_number(), 0);
    assert_eq!(ledger.accounts().records().len(), 0);
    assert_eq!(ledger.assets().records().len(), 0);
    assert_eq!(ledger.pairs().configurations().len(), 0);
    assert_eq!(ledger.ingress().len(), 0);
    assert_eq!(ledger.accepted().len(), 0);
    assert_eq!(ledger.pending_withdrawals().len(), 0);
}

#[test]
fn enclave_registers_then_snapshots_are_taken_in_sequence() {
    let mut ledger = Ledger::new();
    let key = enclave().public();
    assert_eq!(ledger.submit_egress(&EgressMessages::RegisterEnclave(report()), Some(key)), Ok(()));
    assert_eq!(ledger.state(), EnclaveState::Active(key));
    assert_eq!(ledger.submit_egress(&signed(empty_snapshot(1), &enclave()), None), Ok(()));
    assert_eq!(ledger.snapshot_number(), 1);
    let again = ledger.submit_egress(&signed(empty_snapshot(1), &enclave()), None);
    assert_eq!(again, Err(Error::SequenceViolation));
    assert_eq!(again.unwrap_err().kind(), ErrorKind::SequenceViolation);
    assert_eq!(ledger.snapshot_number(), 1);
    assert_eq!(
        ledger.accepted(),
        &[SnapshotRecord { snapshot_number: 1, merkle_root: root(), total_lmp_score: 0 }][..]
    );
}

#[test]
fn registration_is_confirmed_in_the_log() {
    let ledger = active_ledger();
    let key = enclave().public();
    assert_eq!(ledger.ingress().len(), 1);
    assert_eq!(
        ledger.ingress().get(0),
        Some(IngressMessages::EnclaveRegistered(AccountId { bytes: key.bytes }))
    );
    assert_eq!(account_of_enclave(&key), AccountId { bytes: key.bytes });
}

#[test]
fn report_of_the_wrong_size_is_refused() {
    let mut ledger = Ledger::new();
    let key = enclave().public();
    let short = attestation_report(vec![0x5A; 431]).unwrap();
    let refused = ledger.register_enclave(&short, Some(key));
    assert_eq!(refused, Err(Error::AttestationInvalid));
    assert_eq!(refused.unwrap_err().kind(), ErrorKind::AuthorizationFailure);
    assert_eq!(ledger.register_enclave(&attestation_report(Vec::new()).unwrap(), Some(key)), Err(Error::AttestationInvalid));
    assert_eq!(ledger.state(), EnclaveState::NoEnclave);
    assert_eq!(ledger.ingress().len(), 0);
}

#[test]
fn report_that_was_not_verified_is_refused() {
    let mut ledger = Ledger::new();
    assert_eq!(ledger.register_enclave(&report(), None), Err(Error::AttestationInvalid));
    assert_eq!(
        ledger.submit_egress(&EgressMessages::RegisterEnclave(report()), None),
        Err(Error::AttestationInvalid)
    );
    assert_eq!(ledger.state(), EnclaveState::NoEnclave);
}

#[test]
fn second_enclave_is_refused_while_one_is_active() {
    let mut ledger = active_ledger();
    let other = KeyPair { seed: [4; 32] }.public();
    let refused = ledger.register_enclave(&report(), Some(other));
    assert_eq!(refused, Err(Error::StateConflict));
    assert_eq!(refused.unwrap_err().kind(), ErrorKind::StateConflict);
    assert_eq!(ledger.register_enclave(&report(), None), Err(Error::StateConflict));
    assert_eq!(ledger.state(), EnclaveState::Active(enclave().public()));
}

#[test]
fn snapshot_needs_an_active_enclave() {
    let mut ledger = Ledger::new();
    assert_eq!(ledger.accept_snapshot(&empty_snapshot(1), true), Err(Error::StateConflict));
    assert_eq!(
        ledger.submit_egress(&signed(empty_snapshot(1), &enclave()), None),
        Err(Error::StateConflict)
    );
    assert_eq!(ledger.snapshot_number(), 0);
    assert_eq!(ledger.ingress().len(), 0);
}

#[test]
fn snapshot_signed_by_another_key_is_refused() {
    let mut ledger = active_ledger();
    let stranger = KeyPair { seed: [4; 32] };
    let refused = ledger.submit_egress(&signed(empty_snapshot(1), &stranger), None);
    assert_eq!(refused, Err(Error::BadSignature));
    assert_eq!(refused.unwrap_err().kind(), ErrorKind::AuthorizationFailure);
    assert_eq!(ledger.snapshot_number(), 0);
    assert_eq!(ledger.ingress().len(), 1);
    assert_eq!(ledger.accept_snapshot(&empty_snapshot(1), false), Err(Error::BadSignature));
    assert_eq!(
        ledger.submit_egress(
            &EgressMessages::EnclaveSnapshot(empty_snapshot(1), Signature::default()),
            None
        ),
        Err(Error::BadSignature)
    );
}

#[test]
fn signature_covers_the_whole_snapshot() {
    let mut ledger = active_ledger();
    let signature = enclave().sign(&empty_snapshot(1).encode());
    let other = EnclaveSnapshot::new(1, root(), Vec::new(), Vec::new(), 1).unwrap();
    assert_eq!(
        ledger.submit_egress(&EgressMessages::EnclaveSnapshot(other, signature), None),
        Err(Error::BadSignature)
    );
    assert_eq!(
        ledger.submit_egress(&EgressMessages::EnclaveSnapshot(empty_snapshot(1), signature), None),
        Ok(())
    );
}

#[test]
fn snapshot_numbers_leave_no_gap() {
    let mut ledger = active_ledger();
    assert_eq!(ledger.accept_snapshot(&empty_snapshot(2), true), Err(Error::SequenceViolation));
    assert_eq!(ledger.accept_snapshot(&empty_snapshot(0), true), Err(Error::SequenceViolation));
    assert_eq!(ledger.accept_snapshot(&empty_snapshot(1), true), Ok(()));
    assert_eq!(ledger.accept_snapshot(&empty_snapshot(3), true), Err(Error::SequenceViolation));
    assert_eq!(ledger.accept_snapshot(&empty_snapshot(1), true), Err(Error::SequenceViolation));
    assert_eq!(ledger.accept_snapshot(&empty_snapshot(0), true), Err(Error::SequenceViolation));
    assert_eq!(ledger.accept_snapshot(&empty_snapshot(2), true), Ok(()));
    assert_eq!(ledger.accept_snapshot(&empty_snapshot(3), true), Ok(()));
    assert_eq!(ledger.snapshot_number(), 3);
    let numbers: Vec<u32> = ledger.accepted().iter().map(|r| r.snapshot_number).collect();
    assert_eq!(numbers, vec![1, 2, 3]);
}

#[test]
fn stale_snapshot_is_refused_whatever_its_signature() {
    let mut ledger = active_ledger();
    ledger.accept_snapshot(&empty_snapshot(1), true).unwrap();
    ledger.accept_snapshot(&empty_snapshot(2), true).unwrap();
    for number in [0, 1, 2] {
        assert!(ledger.accept_snapshot(&empty_snapshot(number), true).is_err());
        assert!(ledger.accept_snapshot(&empty_snapshot(number), false).is_err());
        assert!(ledger.submit_egress(&signed(empty_snapshot(number), &enclave()), None).is_err());
    }
    assert_eq!(ledger.snapshot_number(), 2);
    assert_eq!(ledger.accepted().len(), 2);
}

#[test]
fn accepted_snapshot_updates_accounts_and_withdrawals() {
    let mut ledger = active_ledger();
    ledger.submit_ingress(IngressMessages::RegisterUser(account(1), account(2))).unwrap();
    let mut changed = AccountInfo::new(account(1));
    changed.nonce = 6;
    changed.credit(AssetId::Polkadex, 40).unwrap();
    let fresh = AccountInfo::new(account(7));
    let withdrawals = vec![
        Withdrawal { main_account: account(1), amount: 5, asset: AssetId::Polkadex },
        Withdrawal { main_account: account(7), amount: 6, asset: AssetId::Asset(840) },
        Withdrawal { main_account: account(1), amount: 7, asset: AssetId::Asset(840) },
    ];
    let snapshot =
        EnclaveSnapshot::new(1, root(), vec![changed, fresh], withdrawals.clone(), 123).unwrap();
    let before = ledger.ingress().len();
    assert_eq!(ledger.submit_egress(&signed(snapshot, &enclave()), None), Ok(()));
    assert_eq!(ledger.accounts().records().len(), 2);
    let record = ledger.accounts().get(&account(1)).unwrap();
    assert_eq!(record.nonce, 6);
    assert_eq!(record.balance(&AssetId::Polkadex), (40, 0));
    assert_eq!(record.proxy_list().len(), 0);
    assert!(ledger.accounts().get(&account(7)).is_some());
    assert_eq!(ledger.pending_withdrawals(), &withdrawals[..]);
    assert_eq!(ledger.accepted()[0].total_lmp_score, 123);
    assert_eq!(ledger.ingress().len(), before + 1);
    assert_eq!(ledger.ingress().get(before), Some(IngressMessages::LatestSnapshot(root(), 1)));
}

#[test]
fn accepted_snapshot_does_not_lower_a_nonce() {
    let mut ledger = active_ledger();
    ledger.submit_ingress(IngressMessages::RegisterUser(account(1), account(2))).unwrap();
    let proxy = IngressMessages::AddProxy(account(1), account(3));
    ledger.submit_with_nonce(&account(1), 0, proxy).unwrap();
    let behind = AccountInfo::new(account(1));
    let snapshot = EnclaveSnapshot::new(1, root(), vec![behind], Vec::new(), 0).unwrap();
    assert_eq!(ledger.accept_snapshot(&snapshot, true), Ok(()));
    let record = ledger.accounts().get(&account(1)).unwrap();
    assert_eq!(record.nonce, 1);
    assert_eq!(record.proxy_list().len(), 0);
}

#[test]
fn withdrawals_are_claimed_once() {
    let mut ledger = active_ledger();
    let first = Withdrawal { main_account: account(1), amount: 5, asset: AssetId::Polkadex };
    let second = Withdrawal { main_account: account(7), amount: 6, asset: AssetId::Asset(840) };
    let third = Withdrawal { main_account: account(1), amount: 7, asset: AssetId::Asset(840) };
    let snapshot =
        EnclaveSnapshot::new(1, root(), Vec::new(), vec![first, second, third], 0).unwrap();
    ledger.accept_snapshot(&snapshot, true).unwrap();
    assert_eq!(ledger.claim_withdrawals(&account(1)), vec![first, third]);
    assert_eq!(ledger.pending_withdrawals(), &[second][..]);
    assert_eq!(ledger.claim_withdrawals(&account(1)), Vec::<Withdrawal>::new());
    assert_eq!(ledger.claim_withdrawals(&account(9)), Vec::<Withdrawal>::new());
    assert_eq!(ledger.claim_withdrawals(&account(7)), vec![second]);
    assert_eq!(ledger.pending_withdrawals().len(), 0);
    let fourth = Withdrawal { main_account: account(1), amount: 8, asset: AssetId::Polkadex };
    let next = EnclaveSnapshot::new(2, root(), Vec::new(), vec![fourth], 0).unwrap();
    ledger.accept_snapshot(&next, true).unwrap();
    assert_eq!(ledger.claim_withdrawals(&account(1)), vec![fourth]);
}

#[test]
fn refused_snapshot_changes_nothing() {
    let mut ledger = active_ledger();
    let snapshot = EnclaveSnapshot::new(
        2,
        root(),
        vec![AccountInfo::new(account(1))],
        vec![Withdrawal { main_account: account(1), amount: 5, asset: AssetId::Polkadex }],
        0,
    )
    .unwrap();
    assert_eq!(ledger.accept_snapshot(&snapshot, true), Err(Error::SequenceViolation));
    assert_eq!(ledger.accounts().records().len(), 0);
    assert_eq!(ledger.pending_withdrawals().len(), 0);
    assert_eq!(ledger.accepted().len(), 0);
    assert_eq!(ledger.ingress().len(), 1);
}

#[test]
fn account_dump_is_verified_and_changes_nothing() {
    let mut ledger = active_ledger();
    let dump = EnclaveAccountInfoDump::new(5, vec![AccountInfo::new(account(1))]).unwrap();
    let signature = enclave().sign(&dump.encode());
    let stranger = KeyPair { seed: [4; 32] }.sign(&dump.encode());
    let message = EgressMessages::EnclaveAccountDump(dump, signature);
    assert_eq!(ledger.submit_egress(&message, None), Ok(()));
    assert_eq!(ledger.snapshot_number(), 0);
    assert_eq!(ledger.accounts().records().len(), 0);
    assert_eq!(ledger.ingress().len(), 1);
    let dump = EnclaveAccountInfoDump::new(5, vec![AccountInfo::new(account(1))]).unwrap();
    let message = EgressMessages::EnclaveAccountDump(dump, stranger);
    assert_eq!(ledger.submit_egress(&message, None), Err(Error::BadSignature));
    assert_eq!(ledger.accept_account_dump(true), Ok(()));
    assert_eq!(ledger.accept_account_dump(false), Err(Error::BadSignature));
    assert_eq!(Ledger::new().accept_account_dump(true), Err(Error::StateConflict));
}

#[test]
fn shutdown_ends_the_enclave_until_the_next_registration() {
    let mut ledger = active_ledger();
    let key = enclave().public();
    let id = AccountId { bytes: key.bytes };
    ledger.accept_snapshot(&empty_snapshot(1), true).unwrap();
    assert_eq!(
        ledger.submit_ingress(IngressMessages::ShutdownEnclave(account(1))),
        Err(Error::NotFound)
    );
    assert_eq!(ledger.state(), EnclaveState::Active(key));
    assert_eq!(ledger.submit_ingress(IngressMessages::ShutdownEnclave(id)), Ok(2));
    assert_eq!(ledger.state(), EnclaveState::Shutdown);
    assert_eq!(
        ledger.submit_ingress(IngressMessages::ShutdownEnclave(id)),
        Err(Error::StateConflict)
    );
    assert_eq!(
        ledger.submit_egress(&signed(empty_snapshot(2), &enclave()), None),
        Err(Error::StateConflict)
    );
    let next = KeyPair { seed: [5; 32] };
    assert_eq!(ledger.register_enclave(&report(), Some(next.public())), Ok(()));
    assert_eq!(ledger.state(), EnclaveState::Active(next.public()));
    assert_eq!(
        ledger.submit_egress(&signed(empty_snapshot(2), &enclave()), None),
        Err(Error::BadSignature)
    );
    assert_eq!(ledger.submit_egress(&signed(empty_snapshot(2), &next), None), Ok(()));
    assert_eq!(ledger.snapshot_number(), 2);
}

#[test]
fn shutdown_without_an_enclave_is_refused() {
    let mut ledger = Ledger::new();
    assert_eq!(
        ledger.submit_ingress(IngressMessages::ShutdownEnclave(account(1))),
        Err(Error::StateConflict)
    );
    assert_eq!(ledger.ingress().len(), 0);
}

#[test]
fn deposit_of_nothing_is_refused() {
    let mut ledger = Ledger::new();
    ledger.submit_ingress(IngressMessages::AddNewAsset(AssetId::Polkadex)).unwrap();
    ledger.submit_ingress(IngressMessages::RegisterUser(account(1), account(2))).unwrap();
    let refused = ledger.submit_ingress(IngressMessages::Deposit(account(1), AssetId::Polkadex, 0));
    assert_eq!(refused, Err(Error::InvalidAmount));
    assert_eq!(refused.unwrap_err().kind(), ErrorKind::InvalidConfiguration);
    assert_eq!(ledger.ingress().len(), 2);
    assert_eq!(ledger.accounts().get(&account(1)).unwrap().balances.entries().len(), 0);
    let mut empty = Ledger::new();
    assert_eq!(
        empty.submit_ingress(IngressMessages::Deposit(account(1), AssetId::Polkadex, 0)),
        Err(Error::InvalidAmount)
    );
}

#[test]
fn deposit_needs_a_tradable_asset() {
    let mut ledger = Ledger::new();
    ledger.submit_ingress(IngressMessages::RegisterUser(account(1), account(2))).unwrap();
    assert_eq!(
        ledger.submit_ingress(IngressMessages::Deposit(account(1), AssetId::Asset(5), 10)),
        Err(Error::NotFound)
    );
    ledger.submit_ingress(IngressMessages::AddNewAsset(AssetId::Asset(5))).unwrap();
    assert_eq!(
        ledger.submit_ingress(IngressMessages::Deposit(account(1), AssetId::Asset(5), 10)),
        Ok(2)
    );
    assert_eq!(ledger.accounts().get(&account(1)).unwrap().balance(&AssetId::Asset(5)), (10, 0));
    ledger.submit_ingress(IngressMessages::RemoveAsset(AssetId::Asset(5))).unwrap();
    assert_eq!(
        ledger.submit_ingress(IngressMessages::Deposit(account(1), AssetId::Asset(5), 10)),
        Err(Error::NotFound)
    );
    assert_eq!(ledger.accounts().get(&account(1)).unwrap().balance(&AssetId::Asset(5)), (10, 0));
    assert_eq!(ledger.ingress().len(), 4);
}

#[test]
fn first_deposit_creates_the_account() {
    let mut ledger = Ledger::new();
    ledger.submit_ingress(IngressMessages::AddNewAsset(AssetId::Asset(5))).unwrap();
    assert!(ledger.accounts().get(&account(3)).is_none());
    assert_eq!(
        ledger.submit_ingress(IngressMessages::Deposit(account(3), AssetId::Asset(5), 10)),
        Ok(1)
    );
    let record = ledger.accounts().get(&account(3)).unwrap();
    assert_eq!(record.balance(&AssetId::Asset(5)), (10, 0));
    assert_eq!(record.proxy_list().len(), 0);
    assert_eq!(record.nonce, 0);
    assert_eq!(
        ledger.submit_ingress(IngressMessages::RegisterUser(account(3), account(4))),
        Err(Error::AlreadyExists)
    );
    assert_eq!(
        ledger.submit_ingress(IngressMessages::Deposit(account(4), AssetId::Asset(6), 10)),
        Err(Error::NotFound)
    );
    assert!(ledger.accounts().get(&account(4)).is_none());
}

#[test]
fn deposit_increases_the_free_balance_by_the_amount() {
    let mut ledger = Ledger::new();
    ledger.submit_ingress(IngressMessages::AddNewAsset(AssetId::Polkadex)).unwrap();
    ledger.submit_ingress(IngressMessages::RegisterUser(account(1), account(2))).unwrap();
    ledger.submit_ingress(IngressMessages::Deposit(account(1), AssetId::Polkadex, 100)).unwrap();
    ledger.submit_ingress(IngressMessages::Deposit(account(1), AssetId::Polkadex, 23)).unwrap();
    assert_eq!(ledger.accounts().get(&account(1)).unwrap().balance(&AssetId::Polkadex), (123, 0));
    assert_eq!(
        ledger.submit_ingress(IngressMessages::Deposit(account(1), AssetId::Polkadex, u128::MAX)),
        Err(Error::CapacityExceeded)
    );
    assert_eq!(ledger.accounts().get(&account(1)).unwrap().balance(&AssetId::Polkadex), (123, 0));
}

#[test]
fn user_is_registered_with_a_first_proxy() {
    let mut ledger = Ledger::new();
    assert_eq!(ledger.submit_ingress(IngressMessages::RegisterUser(account(1), account(2))), Ok(0));
    let record = ledger.accounts().get(&account(1)).unwrap();
    assert_eq!(record.proxy_list(), &[account(2)][..]);
    assert_eq!(record.nonce, 0);
    assert_eq!(
        ledger.submit_ingress(IngressMessages::RegisterUser(account(1), account(3))),
        Err(Error::AlreadyExists)
    );
    assert_eq!(ledger.accounts().get(&account(1)).unwrap().proxy_list(), &[account(2)][..]);
    assert_eq!(ledger.ingress().len(), 1);
}

#[test]
fn proxies_through_the_ledger() {
    let mut ledger = Ledger::new();
    ledger.submit_ingress(IngressMessages::RegisterUser(account(1), account(2))).unwrap();
    for i in 1..PROXY_LIMIT {
        assert!(ledger
            .submit_ingress(IngressMessages::AddProxy(account(1), account(10 + i as u8)))
            .is_ok());
    }
    let full = ledger.submit_ingress(IngressMessages::AddProxy(account(1), account(50)));
    assert_eq!(full, Err(Error::CapacityExceeded));
    assert_eq!(ledger.accounts().get(&account(1)).unwrap().proxy_list().len(), PROXY_LIMIT as usize);
    assert_eq!(ledger.ingress().len(), PROXY_LIMIT as usize);
    assert_eq!(ledger.submit_ingress(IngressMessages::RemoveProxy(account(1), account(2))), Ok(3));
    assert_eq!(ledger.submit_ingress(IngressMessages::RemoveProxy(account(1), account(2))), Ok(4));
    assert_eq!(
        ledger.accounts().get(&account(1)).unwrap().proxy_list(),
        &[account(11), account(12)][..]
    );
    assert_eq!(
        ledger.submit_ingress(IngressMessages::AddProxy(account(9), account(2))),
        Err(Error::NotFound)
    );
    assert_eq!(
        ledger.submit_ingress(IngressMessages::RemoveProxy(account(9), account(2))),
        Err(Error::NotFound)
    );
}

#[test]
fn pairs_through_the_ledger() {
    let mut ledger = Ledger::new();
    let config = pair(AssetId::Polkadex, AssetId::Asset(840));
    let mut bad = config;
    bad.min_trade_amount = 100;
    bad.max_trade_amount = 50;
    let refused = ledger.submit_ingress(IngressMessages::RegisterTradingPair(bad));
    assert_eq!(refused, Err(Error::InvalidBounds));
    assert_eq!(refused.unwrap_err().kind(), ErrorKind::InvalidConfiguration);
    assert_eq!(ledger.submit_ingress(IngressMessages::OpenTradingPair(bad)), Err(Error::InvalidBounds));
    assert_eq!(ledger.ingress().len(), 0);
    assert_eq!(ledger.submit_ingress(IngressMessages::RegisterTradingPair(config)), Ok(0));
    assert_eq!(
        ledger.submit_ingress(IngressMessages::OpenTradingPair(config)),
        Err(Error::DuplicatePair)
    );
    assert_eq!(ledger.pairs().get(&AssetId::Polkadex, &AssetId::Asset(840)), Some(config));
    assert_eq!(ledger.submit_ingress(IngressMessages::CloseTradingPair(config)), Ok(1));
    assert_eq!(
        ledger.submit_ingress(IngressMessages::CloseTradingPair(config)),
        Err(Error::NotFound)
    );
    assert_eq!(ledger.pairs().configurations().len(), 0);
    assert_eq!(ledger.submit_ingress(IngressMessages::OpenTradingPair(config)), Ok(2));
    assert_eq!(ledger.ingress().get(2), Some(IngressMessages::OpenTradingPair(config)));
}

#[test]
fn assets_through_the_ledger() {
    let mut ledger = Ledger::new();
    assert_eq!(ledger.submit_ingress(IngressMessages::AddNewAsset(AssetId::Asset(1))), Ok(0));
    assert_eq!(
        ledger.submit_ingress(IngressMessages::AddNewAsset(AssetId::Asset(1))),
        Err(Error::AlreadyExists)
    );
    assert_eq!(
        ledger.submit_ingress(IngressMessages::RemoveAsset(AssetId::Asset(2))),
        Err(Error::NotFound)
    );
    assert_eq!(ledger.submit_ingress(IngressMessages::RemoveAsset(AssetId::Asset(1))), Ok(1));
    assert!(!ledger.assets().tradable(&AssetId::Asset(1)));
    assert_eq!(ledger.assets().records().len(), 1);
}

#[test]
fn commands_that_the_ledger_logs_itself_are_refused() {
    let mut ledger = active_ledger();
    assert_eq!(
        ledger.submit_ingress(IngressMessages::EnclaveRegistered(account(1))),
        Err(Error::StateConflict)
    );
    assert_eq!(
        ledger.submit_ingress(IngressMessages::LatestSnapshot(root(), 1)),
        Err(Error::StateConflict)
    );
    assert_eq!(ledger.ingress().len(), 1);
    assert_eq!(
        ledger.submit_ingress(IngressMessages::StartEnclave(OCEXConfig { enclave_id: account(1) })),
        Ok(1)
    );
}

#[test]
fn enclave_consumes_the_log_in_order() {
    let mut ledger = Ledger::new();
    assert_eq!(ledger.next_ingress(), None);
    ledger.submit_ingress(IngressMessages::AddNewAsset(AssetId::Polkadex)).unwrap();
    ledger.submit_ingress(IngressMessages::RegisterUser(account(1), account(2))).unwrap();
    let _ = ledger.submit_ingress(IngressMessages::Deposit(account(1), AssetId::Polkadex, 0));
    ledger.submit_ingress(IngressMessages::Deposit(account(1), AssetId::Polkadex, 9)).unwrap();
    assert_eq!(ledger.next_ingress(), Some(IngressMessages::AddNewAsset(AssetId::Polkadex)));
    assert_eq!(ledger.next_ingress(), Some(IngressMessages::RegisterUser(account(1), account(2))));
    assert_eq!(
        ledger.next_ingress(),
        Some(IngressMessages::Deposit(account(1), AssetId::Polkadex, 9))
    );
    assert_eq!(ledger.next_ingress(), None);
    assert_eq!(ledger.ingress().consumed(), 3);
    assert_eq!(ledger.ingress().len(), 3);
}

#[test]
fn command_under_a_nonce() {
    let mut ledger = Ledger::new();
    ledger.submit_ingress(IngressMessages::AddNewAsset(AssetId::Polkadex)).unwrap();
    ledger.submit_ingress(IngressMessages::RegisterUser(account(1), account(2))).unwrap();
    let deposit = IngressMessages::Deposit(account(1), AssetId::Polkadex, 10);
    assert_eq!(ledger.submit_with_nonce(&account(1), 1, deposit), Err(Error::OutOfOrder));
    assert_eq!(ledger.submit_with_nonce(&account(1), 0, deposit), Ok(2));
    assert_eq!(ledger.accounts().get(&account(1)).unwrap().nonce, 1);
    assert_eq!(ledger.submit_with_nonce(&account(1), 0, deposit), Err(Error::StaleNonce));
    assert_eq!(ledger.submit_with_nonce(&account(1), 2, deposit), Err(Error::OutOfOrder));
    assert_eq!(ledger.submit_with_nonce(&account(9), 0, deposit), Err(Error::NotFound));
    assert_eq!(ledger.accounts().get(&account(1)).unwrap().balance(&AssetId::Polkadex), (10, 0));
    assert_eq!(ledger.ingress().len(), 3);
}

#[test]
fn failed_command_leaves_the_nonce() {
    let mut ledger = Ledger::new();
    ledger.submit_ingress(IngressMessages::RegisterUser(account(1), account(2))).unwrap();
    let nothing = IngressMessages::Deposit(account(1), AssetId::Polkadex, 0);
    assert_eq!(ledger.submit_with_nonce(&account(1), 0, nothing), Err(Error::InvalidAmount));
    assert_eq!(ledger.accounts().get(&account(1)).unwrap().nonce, 0);
    assert_eq!(ledger.accounts().get(&account(1)).unwrap().proxy_list(), &[account(2)][..]);
    assert_eq!(ledger.ingress().len(), 1);
    let proxy = IngressMessages::AddProxy(account(1), account(3));
    assert_eq!(ledger.submit_with_nonce(&account(1), 0, proxy), Ok(1));
    let record = ledger.accounts().get(&account(1)).unwrap();
    assert_eq!(record.nonce, 1);
    assert_eq!(record.proxy_list(), &[account(2), account(3)][..]);
}

#[test]
fn keys_decide_the_state() {
    let key = PublicKey { bytes: [1; 32] };
    assert_eq!(EnclaveState::Active(key).key(), Some(key));
    assert_eq!(EnclaveState::NoEnclave.key(), None);
    assert_eq!(EnclaveState::EnclaveRegistered(key).key(), None);
    assert_eq!(EnclaveState::ShuttingDown(key).key(), None);
    assert_eq!(EnclaveState::Shutdown.key(), None);
}

#[test]
fn chain_takes_the_next_number_only() {
    let record = |number| SnapshotRecord {
        snapshot_number: number,
        merkle_root: root(),
        total_lmp_score: 0,
    };
    let mut chain = SnapshotChain::new();
    assert_eq!(chain.latest(), 0);
    assert_eq!(chain.extend(record(0)), Err(Error::SequenceViolation));
    assert_eq!(chain.extend(record(2)), Err(Error::SequenceViolation));
    assert_eq!(chain.extend(record(1)), Ok(()));
    assert_eq!(chain.extend(record(1)), Err(Error::SequenceViolation));
    assert_eq!(chain.extend(record(2)), Ok(()));
    assert_eq!(chain.latest(), 2);
    assert_eq!(chain.records(), &[record(1), record(2)][..]);
}
