//! The state that the chain keeps of the exchange, and the transitions that change it: the
//! commands that go to the enclave, and the reports that come from it.

use vstd::prelude::*;
use crate::assets::AssetId;
use crate::bounded::{report_as_slice, report_seq, ReportBytes, UNPADDED_REPORT_SIZE};
use crate::codec::{dump_bytes, snapshot_bytes};
use crate::crypto::{ed25519_accepts, PublicKey, Signature};
use crate::egress::EgressMessages;
use crate::error::Error;
use crate::ingress::{IngressLog, IngressLogView, IngressMessages};
use crate::markets::{
    after_add_asset, after_close, after_open, after_remove_asset, all_bounds_hold, distinct_assets,
    distinct_pairs, is_tradable, AssetRecord, AssetRegistry, TradingPairs,
};
use crate::ocex::{fresh_account, AccountInfoView, TradingPairConfig};
use crate::registry::{
    account_position, accounts_kept, after_add_proxy, after_deposit, after_mirror_all,
    after_register, after_remove_proxy, after_use_nonce, distinct_accounts, has_account,
    lemma_kept_twice, lemma_mirror_all_keeps_accounts, lemma_operations_keep_accounts,
    lemma_position_unique, lemma_push_keeps_accounts, AccountRegistry,
};
use crate::snapshot::{EnclaveSnapshot, EnclaveSnapshotView};
use crate::types::{AccountId, Balance, H256};
use crate::withdrawal::Withdrawal;

verus! {

/// Where the enclave stands in its life. A registered enclave is known by its public key.
///
/// The ledger confirms a registration as it accepts it, and takes a shutdown as done when
/// it is asked for: it passes through `EnclaveRegistered` and `ShuttingDown` within one
/// transition and rests in the other three states only.
#[derive(Clone, Copy, Debug, PartialEq)]
pub enum EnclaveState {
    /// No enclave was ever registered.
    NoEnclave,
    /// The registration of an enclave was accepted and waits to be confirmed.
    EnclaveRegistered(PublicKey),
    /// The enclave is registered and confirmed. Only now are its reports accepted.
    Active(PublicKey),
    /// The enclave was asked to shut down.
    ShuttingDown(PublicKey),
    /// The enclave is shut down.
    Shutdown,
}

impl EnclaveState {
    /// Whether an enclave can be registered: none is registered, or the last one is shut
    /// down.
    pub open spec fn admits_registration(self) -> bool {
        self is NoEnclave || self is Shutdown
    }

    /// The state after an accepted registration was confirmed.
    pub open spec fn confirmed(self) -> EnclaveState {
        match self {
            EnclaveState::EnclaveRegistered(key) => EnclaveState::Active(key),
            _ => self,
        }
    }

    /// The state after the enclave was asked to shut down. It fails with `StateConflict`
    /// unless the enclave is active.
    pub open spec fn shutdown_requested(self) -> Result<EnclaveState, Error> {
        match self {
            EnclaveState::Active(key) => Ok(EnclaveState::ShuttingDown(key)),
            _ => Err(Error::StateConflict),
        }
    }

    /// The state after the enclave that was asked to shut down has done so.
    pub open spec fn shutdown_completed(self) -> EnclaveState {
        match self {
            EnclaveState::ShuttingDown(_) => EnclaveState::Shutdown,
            _ => self,
        }
    }

    /// The key against which reports are verified: that of the active enclave.
    pub open spec fn signing_key(self) -> Option<PublicKey> {
        match self {
            EnclaveState::Active(key) => Some(key),
            _ => None,
        }
    }

    /// Computes `self.signing_key()`.
    pub fn key(&self) -> (key: Option<PublicKey>)
        ensures
            key == self.signing_key(),
    {
        match self {
            EnclaveState::Active(key) => Some(*key),
            _ => None,
        }
    }
}

/// The account of the enclave with `key`: the account with the bytes of the key.
pub open spec fn enclave_account(key: PublicKey) -> AccountId {
    AccountId { bytes: key.bytes }
}

/// Computes `enclave_account(*key)`.
pub fn account_of_enclave(key: &PublicKey) -> (account: AccountId)
    ensures
        account == enclave_account(*key),
{
    AccountId { bytes: key.bytes }
}

/// What the chain keeps of an accepted snapshot.
#[derive(Clone, Copy, Debug, PartialEq)]
pub struct SnapshotRecord {
    pub snapshot_number: u32,
    pub merkle_root: H256,
    pub total_lmp_score: Balance,
}

/// Whether the numbers of the snapshots are 1, 2, 3 and so on, without a gap.
pub open spec fn gapless(accepted: Seq<SnapshotRecord>) -> bool {
    forall|i: int| 0 <= i < accepted.len() ==> (#[trigger] accepted[i]).snapshot_number == i + 1
}

/// The record of a snapshot.
pub open spec fn record_of(snapshot: EnclaveSnapshotView) -> SnapshotRecord {
    SnapshotRecord {
        snapshot_number: snapshot.snapshot_number,
        merkle_root: snapshot.merkle_root,
        total_lmp_score: snapshot.total_lmp_score,
    }
}

/// The test that a withdrawal goes to `main`.
pub open spec fn owed_to(main: AccountId) -> spec_fn(Withdrawal) -> bool {
    |withdrawal: Withdrawal| withdrawal.main_account == main
}

/// The test that a withdrawal goes to another account than `main`.
pub open spec fn owed_to_others(main: AccountId) -> spec_fn(Withdrawal) -> bool {
    |withdrawal: Withdrawal| withdrawal.main_account != main
}

/// The state of the ledger, as plain values.
pub struct LedgerView {
    /// The records of the main accounts, in the order they were registered.
    pub accounts: Seq<AccountInfoView>,
    /// The assets on record, in the order they were first added.
    pub assets: Seq<AssetRecord>,
    /// The open trading pairs, in the order they were opened.
    pub pairs: Seq<TradingPairConfig>,
    /// The log of commands for the enclave.
    pub ingress: IngressLogView,
    /// Where the enclave stands.
    pub enclave: EnclaveState,
    /// The accepted snapshots, the first accepted first.
    pub accepted: Seq<SnapshotRecord>,
    /// The withdrawals that accepted snapshots authorized and that were not claimed yet.
    pub withdrawals: Seq<Withdrawal>,
}

impl LedgerView {
    /// What every state of the ledger satisfies: no main account, asset or pair has two
    /// records; no open pair has a minimum above its maximum; the enclave has consumed no
    /// more commands than there are; and the accepted snapshots are numbered without a gap.
    pub open spec fn well_formed(self) -> bool {
        &&& distinct_accounts(self.accounts)
        &&& distinct_assets(self.assets)
        &&& distinct_pairs(self.pairs)
        &&& all_bounds_hold(self.pairs)
        &&& self.ingress.well_formed()
        &&& gapless(self.accepted)
    }

    /// The state in which the ledger starts: nothing registered, nothing logged, no enclave,
    /// no snapshot.
    pub open spec fn initial() -> LedgerView {
        LedgerView {
            accounts: Seq::empty(),
            assets: Seq::empty(),
            pairs: Seq::empty(),
            ingress: IngressLogView { entries: Seq::empty(), consumed: 0 },
            enclave: EnclaveState::NoEnclave,
            accepted: Seq::empty(),
            withdrawals: Seq::empty(),
        }
    }

    /// The number of the latest accepted snapshot: 0 before the first.
    pub open spec fn snapshot_number(self) -> nat {
        self.accepted.len()
    }

    /// The state with `message` at the end of the log.
    pub open spec fn logged(self, message: IngressMessages) -> LedgerView {
        LedgerView { ingress: self.ingress.appended(message), ..self }
    }

    /// The state with `accounts` in the place of the accounts, if there are any, and the
    /// message logged.
    pub open spec fn with_accounts(
        self,
        accounts: Result<Seq<AccountInfoView>, Error>,
        message: IngressMessages,
    ) -> Result<LedgerView, Error> {
        match accounts {
            Ok(accounts) => Ok(LedgerView { accounts, ..self }.logged(message)),
            Err(e) => Err(e),
        }
    }

    /// The state with `assets` in the place of the assets, if there are any, and the message
    /// logged.
    pub open spec fn with_assets(
        self,
        assets: Result<Seq<AssetRecord>, Error>,
        message: IngressMessages,
    ) -> Result<LedgerView, Error> {
        match assets {
            Ok(assets) => Ok(LedgerView { assets, ..self }.logged(message)),
            Err(e) => Err(e),
        }
    }

    /// The state with `pairs` in the place of the open pairs, if there are any, and the
    /// message logged.
    pub open spec fn with_pairs(
        self,
        pairs: Result<Seq<TradingPairConfig>, Error>,
        message: IngressMessages,
    ) -> Result<LedgerView, Error> {
        match pairs {
            Ok(pairs) => Ok(LedgerView { pairs, ..self }.logged(message)),
            Err(e) => Err(e),
        }
    }

    /// The accounts after `main` was registered with `proxy` as its first proxy.
    pub open spec fn user_registered(self, main: AccountId, proxy: AccountId) -> Result<
        Seq<AccountInfoView>,
        Error,
    > {
        match after_register(self.accounts, main) {
            Ok(accounts) => after_add_proxy(accounts, main, proxy),
            Err(e) => Err(e),
        }
    }

    /// The accounts after `main` deposited `amount` of `asset`: the amount is added to its
    /// free balance of the asset, in a fresh record where it had none. It fails with
    /// `InvalidAmount` for the amount zero, else with `NotFound` where the asset cannot be
    /// traded, and else with `CapacityExceeded` where the balance cannot take the amount.
    pub open spec fn deposited(self, main: AccountId, asset: AssetId, amount: Balance) -> Result<
        Seq<AccountInfoView>,
        Error,
    > {
        if amount == 0 {
            Err(Error::InvalidAmount)
        } else if !is_tradable(self.assets, asset) {
            Err(Error::NotFound)
        } else if has_account(self.accounts, main) {
            after_deposit(self.accounts, main, asset, amount)
        } else {
            after_deposit(self.accounts.push(fresh_account(main)), main, asset, amount)
        }
    }

    /// The state after the enclave with the account `enclave` was told to shut down. It
    /// fails with `StateConflict` unless an enclave is active, and with `NotFound` where the
    /// active enclave is another one.
    pub open spec fn shut_down(self, enclave: AccountId, message: IngressMessages) -> Result<
        LedgerView,
        Error,
    > {
        match self.enclave.shutdown_requested() {
            Ok(state) => if self.enclave.signing_key() == Some(
                PublicKey { bytes: enclave.bytes },
            ) {
                Ok(LedgerView { enclave: state.shutdown_completed(), ..self }.logged(message))
            } else {
                Err(Error::NotFound)
            },
            Err(e) => Err(e),
        }
    }

    /// The state after the command `message` was submitted: the command has taken effect on
    /// the state and stands at the end of the log, or it failed and nothing has changed.
    /// The two commands that only the ledger itself logs fail with `StateConflict`.
    pub open spec fn after_ingress(self, message: IngressMessages) -> Result<LedgerView, Error> {
        match message {
            IngressMessages::StartEnclave(_) => Ok(self.logged(message)),
            IngressMessages::AddNewAsset(asset) => self.with_assets(
                after_add_asset(self.assets, asset),
                message,
            ),
            IngressMessages::RemoveAsset(asset) => self.with_assets(
                after_remove_asset(self.assets, asset),
                message,
            ),
            IngressMessages::RegisterTradingPair(config) => self.with_pairs(
                after_open(self.pairs, config),
                message,
            ),
            IngressMessages::OpenTradingPair(config) => self.with_pairs(
                after_open(self.pairs, config),
                message,
            ),
            IngressMessages::CloseTradingPair(config) => self.with_pairs(
                after_close(self.pairs, config.base_asset, config.quote_asset),
                message,
            ),
            IngressMessages::RegisterUser(main, proxy) => self.with_accounts(
                self.user_registered(main, proxy),
                message,
            ),
            IngressMessages::Deposit(main, asset, amount) => self.with_accounts(
                self.deposited(main, asset, amount),
                message,
            ),
            IngressMessages::AddProxy(main, proxy) => self.with_accounts(
                after_add_proxy(self.accounts, main, proxy),
                message,
            ),
            IngressMessages::RemoveProxy(main, proxy) => self.with_accounts(
                after_remove_proxy(self.accounts, main, proxy),
                message,
            ),
            IngressMessages::EnclaveRegistered(_) => Err(Error::StateConflict),
            IngressMessages::ShutdownEnclave(enclave) => self.shut_down(enclave, message),
            IngressMessages::LatestSnapshot(_, _) => Err(Error::StateConflict),
        }
    }

    /// The state after `main` submitted the command `message` under `nonce`: the nonce was
    /// admitted and the command has taken effect, or one of the two failed and nothing has
    /// changed.
    pub open spec fn after_signed_ingress(
        self,
        main: AccountId,
        nonce: u32,
        message: IngressMessages,
    ) -> Result<LedgerView, Error> {
        match after_use_nonce(self.accounts, main, nonce) {
            Ok(accounts) => LedgerView { accounts, ..self }.after_ingress(message),
            Err(e) => Err(e),
        }
    }

    /// The state after the enclave consumed the next command, if there is one.
    pub open spec fn after_next(self) -> LedgerView {
        if self.ingress.consumed < self.ingress.entries.len() {
            LedgerView { ingress: self.ingress.advanced(), ..self }
        } else {
            self
        }
    }

    /// The state after an enclave asked to be registered with `report`, which the
    /// attestation service has verified and found to belong to the key `attested`, or has
    /// not. It fails with `StateConflict` unless no enclave is registered or the last one
    /// is shut down, and else with `AttestationInvalid` where the report has not the size of
    /// an unpadded report or was not verified. On success the enclave is active with the
    /// key, and the confirmation stands at the end of the log.
    pub open spec fn after_register_enclave(self, report: Seq<u8>, attested: Option<PublicKey>) -> Result<
        LedgerView,
        Error,
    > {
        if !self.enclave.admits_registration() {
            Err(Error::StateConflict)
        } else {
            match attested {
                Some(key) => if report.len() == UNPADDED_REPORT_SIZE {
                    Ok(
                        LedgerView {
                            enclave: EnclaveState::EnclaveRegistered(key).confirmed(),
                            ..self
                        }.logged(IngressMessages::EnclaveRegistered(enclave_account(key))),
                    )
                } else {
                    Err(Error::AttestationInvalid)
                },
                None => Err(Error::AttestationInvalid),
            }
        }
    }

    /// Whether `signature` is a good signature of `payload` under the key of the active
    /// enclave. Without an active enclave no signature is good.
    pub open spec fn accepts(self, signature: Signature, payload: Seq<u8>) -> bool {
        match self.enclave.signing_key() {
            Some(key) => ed25519_accepts(signature.bytes@, payload, key.bytes@),
            None => false,
        }
    }

    /// The verdict on a dump of accounts whose signature was found good or not. It fails
    /// with `StateConflict` unless an enclave is active, and else with `BadSignature` where
    /// the signature is not good. A dump changes nothing.
    pub open spec fn after_account_dump(self, signature_good: bool) -> Result<LedgerView, Error> {
        if self.enclave.signing_key() is None {
            Err(Error::StateConflict)
        } else if !signature_good {
            Err(Error::BadSignature)
        } else {
            Ok(self)
        }
    }

    /// The state after a snapshot was submitted whose signature was found good or not. It
    /// fails with `StateConflict` unless an enclave is active, else with `BadSignature`
    /// where the signature is not good, and else with `SequenceViolation` unless the number
    /// of the snapshot is the number of the latest accepted one plus one. On success the
    /// snapshot is the latest accepted one, its accounts are merged into their records, its
    /// withdrawals can be claimed, and a marker stands at the end of the log.
    pub open spec fn after_snapshot(self, snapshot: EnclaveSnapshotView, signature_good: bool) -> Result<
        LedgerView,
        Error,
    > {
        if self.enclave.signing_key() is None {
            Err(Error::StateConflict)
        } else if !signature_good {
            Err(Error::BadSignature)
        } else if snapshot.snapshot_number != self.snapshot_number() + 1 {
            Err(Error::SequenceViolation)
        } else {
            Ok(
                LedgerView {
                    accounts: after_mirror_all(self.accounts, snapshot.accounts),
                    accepted: self.accepted.push(record_of(snapshot)),
                    withdrawals: self.withdrawals + snapshot.withdrawals,
                    ..self
                }.logged(
                    IngressMessages::LatestSnapshot(snapshot.merkle_root, snapshot.snapshot_number),
                ),
            )
        }
    }

    /// The state after the report `message` of the enclave was submitted, with what the
    /// attestation service says of a report that asks for registration. The signature of a
    /// dump or of a snapshot is verified over the bytes of the dump or snapshot, against the
    /// key of the active enclave.
    pub open spec fn after_egress(self, message: EgressMessages, attested: Option<PublicKey>) -> Result<
        LedgerView,
        Error,
    > {
        match message {
            EgressMessages::RegisterEnclave(report) => self.after_register_enclave(
                report_seq(report),
                attested,
            ),
            EgressMessages::EnclaveAccountDump(dump, signature) => self.after_account_dump(
                self.accepts(signature, dump_bytes(dump@)),
            ),
            EgressMessages::EnclaveSnapshot(snapshot, signature) => self.after_snapshot(
                snapshot@,
                self.accepts(signature, snapshot_bytes(snapshot@)),
            ),
        }
    }

    /// The state after `main` claimed its withdrawals: they have left, the others wait in
    /// their order.
    pub open spec fn after_claim(self, main: AccountId) -> LedgerView {
        LedgerView { withdrawals: self.withdrawals.filter(owed_to_others(main)), ..self }
    }
}

/// The accepted snapshots, numbered 1, 2, 3 and so on.
#[derive(Debug)]
pub struct SnapshotChain {
    accepted: Vec<SnapshotRecord>,
}

impl View for SnapshotChain {
    type V = Seq<SnapshotRecord>;

    closed spec fn view(&self) -> Seq<SnapshotRecord> {
        self.accepted@
    }
}

impl SnapshotChain {
    #[verifier::type_invariant]
    spec fn numbered(self) -> bool {
        gapless(self.accepted@)
    }

    /// No accepted snapshot.
    pub fn new() -> (chain: SnapshotChain)
        ensures
            chain@ == Seq::<SnapshotRecord>::empty(),
    {
        SnapshotChain { accepted: Vec::new() }
    }

    /// The records of the accepted snapshots, the first accepted first.
    pub fn records(&self) -> (records: &[SnapshotRecord])
        ensures
            records@ == self@,
            gapless(self@),
            self@.len() <= u32::MAX,
    {
        proof {
            use_type_invariant(self);
            if self.accepted@.len() > 0 {
                assert(self.accepted@[self.accepted@.len() - 1].snapshot_number
                    == self.accepted@.len());
            }
        }
        self.accepted.as_slice()
    }

    /// The number of the latest accepted snapshot: 0 before the first.
    pub fn latest(&self) -> (number: u32)
        ensures
            number == self@.len(),
            gapless(self@),
    {
        self.records().len() as u32
    }

    /// Adds the record of a snapshot. It fails with `SequenceViolation`, and changes nothing,
    /// unless the number of the snapshot is the number of the latest one plus one.
    pub fn extend(&mut self, record: SnapshotRecord) -> (done: Result<(), Error>)
        ensures
            done is Ok <==> record.snapshot_number == old(self)@.len() + 1,
            done is Ok ==> final(self)@ == old(self)@.push(record),
            done matches Err(e) ==> e == Error::SequenceViolation && final(self)@ == old(self)@,
    {
        let latest = self.latest();
        if latest == u32::MAX || record.snapshot_number != latest + 1 {
            return Err(Error::SequenceViolation);
        }
        let mut accepted: Vec<SnapshotRecord> = Vec::new();
        std::mem::swap(&mut self.accepted, &mut accepted);
        accepted.push(record);
        self.accepted = accepted;
        Ok(())
    }
}

/// The ledger: the accounts, assets and open pairs, the log of commands, the state of the
/// enclave, the accepted snapshots and the withdrawals that wait to be claimed.
#[derive(Debug)]
pub struct Ledger {
    accounts: AccountRegistry,
    assets: AssetRegistry,
    pairs: TradingPairs,
    ingress: IngressLog,
    enclave: EnclaveState,
    chain: SnapshotChain,
    withdrawals: Vec<Withdrawal>,
}

impl View for Ledger {
    type V = LedgerView;

    closed spec fn view(&self) -> LedgerView {
        LedgerView {
            accounts: self.accounts@,
            assets: self.assets@,
            pairs: self.pairs@,
            ingress: self.ingress@,
            enclave: self.enclave,
            accepted: self.chain@,
            withdrawals: self.withdrawals@,
        }
    }
}

impl Ledger {
    /// The ledger in its initial state.
    pub fn new() -> (ledger: Ledger)
        ensures
            ledger@ == LedgerView::initial(),
            ledger@.well_formed(),
    {
        Ledger {
            accounts: AccountRegistry::new(),
            assets: AssetRegistry::new(),
            pairs: TradingPairs::new(),
            ingress: IngressLog::new(),
            enclave: EnclaveState::NoEnclave,
            chain: SnapshotChain::new(),
            withdrawals: Vec::new(),
        }
    }

    /// Every state of the ledger is well formed.
    pub fn validity(&self)
        ensures
            self@.well_formed(),
    {
        let _ = self.accounts.records();
        let _ = self.assets.records();
        let _ = self.pairs.configurations();
        let _ = self.ingress.len();
        let _ = self.chain.records();
    }

    /// Where the enclave stands.
    pub fn state(&self) -> (state: EnclaveState)
        ensures
            state == self@.enclave,
    {
        self.enclave
    }

    /// The number of the latest accepted snapshot: 0 before the first.
    pub fn snapshot_number(&self) -> (number: u32)
        ensures
            number == self@.snapshot_number(),
    {
        self.chain.latest()
    }

    /// The registry of accounts.
    pub fn accounts(&self) -> (accounts: &AccountRegistry)
        ensures
            accounts@ == self@.accounts,
    {
        &self.accounts
    }

    /// The registry of assets.
    pub fn assets(&self) -> (assets: &AssetRegistry)
        ensures
            assets@ == self@.assets,
    {
        &self.assets
    }

    /// The open trading pairs.
    pub fn pairs(&self) -> (pairs: &TradingPairs)
        ensures
            pairs@ == self@.pairs,
    {
        &self.pairs
    }

    /// The log of commands.
    pub fn ingress(&self) -> (log: &IngressLog)
        ensures
            log@ == self@.ingress,
    {
        &self.ingress
    }

    /// The records of the accepted snapshots, the first accepted first.
    pub fn accepted(&self) -> (records: &[SnapshotRecord])
        ensures
            records@ == self@.accepted,
            gapless(records@),
    {
        self.chain.records()
    }

    /// The withdrawals that wait to be claimed, the first authorized first.
    pub fn pending_withdrawals(&self) -> (withdrawals: &[Withdrawal])
        ensures
            withdrawals@ == self@.withdrawals,
    {
        self.withdrawals.as_slice()
    }

    /// Submits a command for the enclave and gives its position in the log. The command
    /// takes effect on the ledger and goes to the end of the log, or it fails and nothing
    /// changes.
    pub fn submit_ingress(&mut self, message: IngressMessages) -> (done: Result<usize, Error>)
        ensures
            match old(self)@.after_ingress(message) {
                Ok(next) => done == Ok::<usize, Error>(old(self)@.ingress.entries.len() as usize)
                    && final(self)@ == next,
                Err(e) => done == Err::<usize, Error>(e) && final(self)@ == old(self)@,
            },
            final(self)@.well_formed(),
    {
        self.validity();
        match message {
            IngressMessages::StartEnclave(_) => {},
            IngressMessages::AddNewAsset(asset) => {
                self.assets.add(asset)?;
            },
            IngressMessages::RemoveAsset(asset) => {
                self.assets.remove(&asset)?;
            },
            IngressMessages::RegisterTradingPair(config) => {
                self.pairs.open(config)?;
            },
            IngressMessages::OpenTradingPair(config) => {
                self.pairs.open(config)?;
            },
            IngressMessages::CloseTradingPair(config) => {
                self.pairs.close(&config.base_asset, &config.quote_asset)?;
            },
            IngressMessages::RegisterUser(main, proxy) => {
                self.accounts.register(main)?;
                proof {
                    lemma_fresh_takes_proxy(old(self)@.accounts, main, proxy);
                }
                let added = self.accounts.add_proxy(&main, proxy);
                assert(added is Ok);
            },
            IngressMessages::Deposit(main, asset, amount) => {
                if amount == 0 {
                    return Err(Error::InvalidAmount);
                }
                if !self.assets.tradable(&asset) {
                    return Err(Error::NotFound);
                }
                if self.accounts.position(&main).is_some() {
                    self.accounts.deposit(&main, asset, amount)?;
                } else {
                    proof {
                        lemma_fresh_takes_deposit(old(self)@.accounts, main, asset, amount);
                    }
                    let _ = self.accounts.register(main);
                    let credited = self.accounts.deposit(&main, asset, amount);
                    assert(credited is Ok);
                }
            },
            IngressMessages::AddProxy(main, proxy) => {
                self.accounts.add_proxy(&main, proxy)?;
            },
            IngressMessages::RemoveProxy(main, proxy) => {
                self.accounts.remove_proxy(&main, &proxy)?;
            },
            IngressMessages::EnclaveRegistered(_) => {
                return Err(Error::StateConflict);
            },
            IngressMessages::ShutdownEnclave(enclave) => {
                match self.enclave {
                    EnclaveState::Active(key) => {
                        if account_of_enclave(&key) != enclave {
                            return Err(Error::NotFound);
                        }
                        self.enclave = EnclaveState::Shutdown;
                    },
                    _ => {
                        return Err(Error::StateConflict);
                    },
                }
            },
            IngressMessages::LatestSnapshot(_, _) => {
                return Err(Error::StateConflict);
            },
        }
        let position = self.ingress.append(message);
        self.validity();
        Ok(position)
    }

    /// Hands the enclave the first command that it has not consumed, and counts it as
    /// consumed. With every command consumed, nothing is handed out and nothing changes.
    pub fn next_ingress(&mut self) -> (message: Option<IngressMessages>)
        ensures
            final(self)@ == old(self)@.after_next(),
            message == (if old(self)@.ingress.consumed < old(self)@.ingress.entries.len() {
                Some(old(self)@.ingress.entries[old(self)@.ingress.consumed as int])
            } else {
                None
            }),
            final(self)@.well_formed(),
    {
        let message = self.ingress.next();
        self.validity();
        message
    }

    /// Submits a command of `main` that carries `nonce`. The nonce must be that of `main`,
    /// which then goes up by one, and the command takes effect as `submit_ingress` says.
    /// Where the nonce or the command fails, nothing changes.
    pub fn submit_with_nonce(&mut self, main: &AccountId, nonce: u32, message: IngressMessages) -> (done:
        Result<usize, Error>)
        ensures
            match old(self)@.after_signed_ingress(*main, nonce, message) {
                Ok(next) => done == Ok::<usize, Error>(old(self)@.ingress.entries.len() as usize)
                    && final(self)@ == next,
                Err(e) => done == Err::<usize, Error>(e) && final(self)@ == old(self)@,
            },
            final(self)@.well_formed(),
    {
        self.validity();
        let saved = match self.accounts.get(main) {
            Some(account) => account.clone(),
            None => {
                return Err(Error::NotFound);
            },
        };
        self.accounts.use_nonce(main, nonce)?;
        match self.submit_ingress(message) {
            Ok(position) => Ok(position),
            Err(e) => {
                proof {
                    lemma_put_back(old(self)@.accounts, *main, self@.accounts);
                }
                self.accounts.put(saved);
                Err(e)
            },
        }
    }

    /// Registers the enclave that sent `report`, which the attestation service has verified
    /// and found to belong to the key `attested`, or has not. It fails, and changes
    /// nothing, with `StateConflict` unless no enclave is registered or the last one is
    /// shut down, and else with `AttestationInvalid` where the report has not the size of
    /// an unpadded report or was not verified. On success the enclave is active, its key
    /// is the one against which reports are verified, and the confirmation is logged.
    pub fn register_enclave(&mut self, report: &ReportBytes, attested: Option<PublicKey>) -> (done:
        Result<(), Error>)
        ensures
            match old(self)@.after_register_enclave(report_seq(*report), attested) {
                Ok(next) => done is Ok && final(self)@ == next,
                Err(e) => done == Err::<(), Error>(e) && final(self)@ == old(self)@,
            },
            final(self)@.well_formed(),
    {
        self.validity();
        match self.enclave {
            EnclaveState::NoEnclave | EnclaveState::Shutdown => {},
            _ => {
                return Err(Error::StateConflict);
            },
        }
        let key = match attested {
            Some(key) => key,
            None => {
                return Err(Error::AttestationInvalid);
            },
        };
        if report_as_slice(report).len() != UNPADDED_REPORT_SIZE as usize {
            return Err(Error::AttestationInvalid);
        }
        self.enclave = EnclaveState::Active(key);
        let _ = self.ingress.append(IngressMessages::EnclaveRegistered(account_of_enclave(&key)));
        self.validity();
        Ok(())
    }

    /// Gives the verdict on a dump of accounts whose signature was found good or not. It
    /// fails with `StateConflict` unless an enclave is active, and else with `BadSignature`
    /// where the signature is not good. The ledger does not change.
    pub fn accept_account_dump(&self, signature_good: bool) -> (done: Result<(), Error>)
        ensures
            match self@.after_account_dump(signature_good) {
                Ok(next) => done is Ok,
                Err(e) => done == Err::<(), Error>(e),
            },
    {
        if self.enclave.key().is_none() {
            Err(Error::StateConflict)
        } else if !signature_good {
            Err(Error::BadSignature)
        } else {
            Ok(())
        }
    }

    /// Takes a snapshot whose signature was found good or not. It fails, and changes
    /// nothing, with `StateConflict` unless an enclave is active, else with `BadSignature`
    /// where the signature is not good, and else with `SequenceViolation` unless the number
    /// of the snapshot is the number of the latest accepted one plus one. On success the
    /// snapshot is the latest accepted one, its accounts are merged into their records, its
    /// withdrawals can be claimed, and a marker is logged.
    pub fn accept_snapshot(&mut self, snapshot: &EnclaveSnapshot, signature_good: bool) -> (done:
        Result<(), Error>)
        ensures
            match old(self)@.after_snapshot(snapshot@, signature_good) {
                Ok(next) => done is Ok && final(self)@ == next,
                Err(e) => done == Err::<(), Error>(e) && final(self)@ == old(self)@,
            },
            final(self)@.well_formed(),
    {
        self.validity();
        if self.enclave.key().is_none() {
            return Err(Error::StateConflict);
        }
        if !signature_good {
            return Err(Error::BadSignature);
        }
        let latest = self.chain.latest();
        if latest == u32::MAX || snapshot.snapshot_number != latest + 1 {
            return Err(Error::SequenceViolation);
        }
        self.accounts.mirror_all(snapshot.account_list());
        let _ = self.chain.extend(
            SnapshotRecord {
                snapshot_number: snapshot.snapshot_number,
                merkle_root: snapshot.merkle_root,
                total_lmp_score: snapshot.total_lmp_score,
            },
        );
        let authorized = snapshot.withdrawal_list();
        let mut waiting: Vec<Withdrawal> = Vec::new();
        std::mem::swap(&mut self.withdrawals, &mut waiting);
        let ghost before = waiting@;
        let mut i: usize = 0;
        assert(waiting@ =~= before + authorized@.take(0));
        while i < authorized.len()
            invariant
                i <= authorized.len(),
                waiting@ == before + authorized@.take(i as int),
            decreases authorized.len() - i,
        {
            waiting.push(authorized[i]);
            assert(waiting@ =~= before + authorized@.take(i + 1));
            i += 1;
        }
        assert(authorized@.take(authorized@.len() as int) =~= authorized@);
        self.withdrawals = waiting;
        let _ = self.ingress.append(
            IngressMessages::LatestSnapshot(snapshot.merkle_root, snapshot.snapshot_number),
        );
        self.validity();
        Ok(())
    }

    /// Submits a report of the enclave, with what the attestation service says of a report
    /// that asks for registration. The signature of a dump or of a snapshot is verified
    /// against the key of the active enclave, and the report is then taken as
    /// `register_enclave`, `accept_account_dump` and `accept_snapshot` say.
    pub fn submit_egress(&mut self, message: &EgressMessages, attested: Option<PublicKey>) -> (done:
        Result<(), Error>)
        ensures
            match old(self)@.after_egress(*message, attested) {
                Ok(next) => done is Ok && final(self)@ == next,
                Err(e) => done == Err::<(), Error>(e) && final(self)@ == old(self)@,
            },
            final(self)@.well_formed(),
    {
        self.validity();
        match message {
            EgressMessages::RegisterEnclave(report) => self.register_enclave(report, attested),
            EgressMessages::EnclaveAccountDump(dump, signature) => {
                let good = match self.enclave.key() {
                    Some(key) => {
                        let payload = dump.encode();
                        signature.verify(payload.as_slice(), &key)
                    },
                    None => false,
                };
                self.accept_account_dump(good)
            },
            EgressMessages::EnclaveSnapshot(snapshot, signature) => {
                let good = match self.enclave.key() {
                    Some(key) => {
                        let payload = snapshot.encode();
                        signature.verify(payload.as_slice(), &key)
                    },
                    None => false,
                };
                self.accept_snapshot(snapshot, good)
            },
        }
    }

    /// Hands `main` the withdrawals that wait for it, in their order. They are claimed with
    /// that and wait no longer; those of other accounts stay.
    pub fn claim_withdrawals(&mut self, main: &AccountId) -> (claimed: Vec<Withdrawal>)
        ensures
            claimed@ == old(self)@.withdrawals.filter(owed_to(*main)),
            final(self)@ == old(self)@.after_claim(*main),
            final(self)@.well_formed(),
    {
        self.validity();
        let mut waiting: Vec<Withdrawal> = Vec::new();
        std::mem::swap(&mut self.withdrawals, &mut waiting);
        let mut claimed: Vec<Withdrawal> = Vec::new();
        let mut left: Vec<Withdrawal> = Vec::new();
        let mut i: usize = 0;
        proof {
            reveal(Seq::filter);
            assert(waiting@.take(0) =~= Seq::<Withdrawal>::empty());
        }
        while i < waiting.len()
            invariant
                i <= waiting.len(),
                claimed@ == waiting@.take(i as int).filter(owed_to(*main)),
                left@ == waiting@.take(i as int).filter(owed_to_others(*main)),
            decreases waiting.len() - i,
        {
            proof {
                let done = waiting@.take(i as int);
                assert(waiting@.take(i + 1) =~= done.push(waiting@[i as int]));
                done.lemma_filter_push(waiting@[i as int], owed_to(*main));
                done.lemma_filter_push(waiting@[i as int], owed_to_others(*main));
            }
            if waiting[i].main_account == *main {
                claimed.push(waiting[i]);
            } else {
                left.push(waiting[i]);
            }
            i += 1;
        }
        assert(waiting@.take(waiting@.len() as int) =~= waiting@);
        self.withdrawals = left;
        self.validity();
        claimed
    }
}

/// A main account that was just registered takes a proxy.
proof fn lemma_fresh_takes_proxy(accounts: Seq<AccountInfoView>, main: AccountId, proxy: AccountId)
    requires
        distinct_accounts(accounts),
        !has_account(accounts, main),
    ensures
        after_register(accounts, main) is Ok,
        after_add_proxy(after_register(accounts, main).unwrap(), main, proxy) is Ok,
{
    let next = accounts.push(fresh_account(main));
    assert(next[accounts.len() as int].main_account == main);
    let at = account_position(next, main);
    if at < accounts.len() {
        assert(accounts[at].main_account == main);
    }
    assert(at == accounts.len());
}

/// A main account that was just registered takes a deposit.
proof fn lemma_fresh_takes_deposit(
    accounts: Seq<AccountInfoView>,
    main: AccountId,
    asset: AssetId,
    amount: Balance,
)
    requires
        distinct_accounts(accounts),
        !has_account(accounts, main),
    ensures
        after_register(accounts, main) == Ok::<Seq<AccountInfoView>, Error>(
            accounts.push(fresh_account(main)),
        ),
        after_deposit(accounts.push(fresh_account(main)), main, asset, amount) is Ok,
{
    let next = accounts.push(fresh_account(main));
    assert(next[accounts.len() as int].main_account == main);
    let at = account_position(next, main);
    if at < accounts.len() {
        assert(accounts[at].main_account == main);
    }
    assert(at == accounts.len());
    assert(crate::balances::lookup(fresh_account(main).balances, asset) is None);
}

/// After the nonce of `main` went up, putting its old record back gives the old accounts.
proof fn lemma_put_back(before: Seq<AccountInfoView>, main: AccountId, after: Seq<AccountInfoView>)
    requires
        distinct_accounts(before),
        has_account(before, main),
        after == before.update(
            account_position(before, main),
            after[account_position(before, main)],
        ),
        after[account_position(before, main)].main_account == main,
    ensures
        crate::registry::after_put(after, before[account_position(before, main)]) == before,
{
    let at = account_position(before, main);
    assert(distinct_accounts(after)) by {
        assert forall|i: int, j: int| 0 <= i < j < after.len() implies (
        #[trigger] after[i]).main_account != (#[trigger] after[j]).main_account by {
            assert(before[i].main_account != before[j].main_account);
        }
    }
    lemma_position_unique(after, at);
    assert(after.update(at, before[at]) =~= before);
}

/// The accepted snapshots of a ledger are numbered 1, 2, 3 and so on: the numbers start
/// from 1, go up strictly, and leave no gap.
pub proof fn lemma_snapshot_numbers(ledger: LedgerView)
    requires
        ledger.well_formed(),
    ensures
        forall|i: int|
            0 <= i < ledger.accepted.len() ==> (#[trigger] ledger.accepted[i]).snapshot_number
                == i + 1,
        forall|i: int, j: int|
            0 <= i < j < ledger.accepted.len() ==> (#[trigger] ledger.accepted[i]).snapshot_number
                < (#[trigger] ledger.accepted[j]).snapshot_number,
{
}

/// A snapshot that is accepted carries the number that follows the latest accepted one, and
/// with it the accepted snapshots are still numbered without a gap.
pub proof fn lemma_accepted_snapshot_is_next(
    ledger: LedgerView,
    snapshot: EnclaveSnapshotView,
    signature_good: bool,
)
    requires
        ledger.well_formed(),
        ledger.after_snapshot(snapshot, signature_good) is Ok,
    ensures
        snapshot.snapshot_number == ledger.snapshot_number() + 1,
        ledger.after_snapshot(snapshot, signature_good).unwrap().snapshot_number()
            == snapshot.snapshot_number,
        gapless(ledger.after_snapshot(snapshot, signature_good).unwrap().accepted),
{
}

/// A snapshot whose number is not above the number of the latest accepted one is rejected,
/// whatever it holds and whether its signature is good or not.
pub proof fn lemma_stale_snapshot_rejected(
    ledger: LedgerView,
    snapshot: EnclaveSnapshotView,
    signature_good: bool,
)
    requires
        snapshot.snapshot_number <= ledger.snapshot_number(),
    ensures
        ledger.after_snapshot(snapshot, signature_good) is Err,
{
}

/// A snapshot whose signature is not good under the key of the active enclave is rejected,
/// whatever it holds: so is every snapshot that another key has signed.
pub proof fn lemma_foreign_snapshot_rejected(
    ledger: LedgerView,
    snapshot: EnclaveSnapshot,
    signature: Signature,
    attested: Option<PublicKey>,
)
    requires
        !ledger.accepts(signature, snapshot_bytes(snapshot@)),
    ensures
        ledger.after_snapshot(snapshot@, false) is Err,
        ledger.after_egress(EgressMessages::EnclaveSnapshot(snapshot, signature), attested) is Err,
{
}

/// No command removes an account or lowers a nonce.
pub proof fn lemma_ingress_keeps_accounts(ledger: LedgerView, message: IngressMessages)
    requires
        ledger.well_formed(),
        ledger.after_ingress(message) is Ok,
    ensures
        distinct_accounts(ledger.after_ingress(message).unwrap().accounts),
        accounts_kept(ledger.accounts, ledger.after_ingress(message).unwrap().accounts),
{
    let accounts = ledger.accounts;
    match message {
        IngressMessages::RegisterUser(main, proxy) => {
            let registered = after_register(accounts, main).unwrap();
            lemma_operations_keep_accounts(accounts, main, proxy, AssetId::Polkadex, 0, 0);
            lemma_operations_keep_accounts(registered, main, proxy, AssetId::Polkadex, 0, 0);
            lemma_kept_twice(
                accounts,
                registered,
                after_add_proxy(registered, main, proxy).unwrap(),
            );
        },
        IngressMessages::Deposit(main, asset, amount) => {
            if has_account(accounts, main) {
                lemma_operations_keep_accounts(accounts, main, main, asset, amount, 0);
            } else {
                let registered = accounts.push(fresh_account(main));
                lemma_push_keeps_accounts(accounts, fresh_account(main));
                lemma_operations_keep_accounts(registered, main, main, asset, amount, 0);
                lemma_kept_twice(
                    accounts,
                    registered,
                    after_deposit(registered, main, asset, amount).unwrap(),
                );
            }
        },
        IngressMessages::AddProxy(main, proxy) => {
            lemma_operations_keep_accounts(accounts, main, proxy, AssetId::Polkadex, 0, 0);
        },
        IngressMessages::RemoveProxy(main, proxy) => {
            lemma_operations_keep_accounts(accounts, main, proxy, AssetId::Polkadex, 0, 0);
        },
        _ => {},
    }
}

/// No command under a nonce removes an account or lowers a nonce, and it raises the nonce of
/// the account that submits it.
pub proof fn lemma_signed_ingress_keeps_accounts(
    ledger: LedgerView,
    main: AccountId,
    nonce: u32,
    message: IngressMessages,
)
    requires
        ledger.well_formed(),
        ledger.after_signed_ingress(main, nonce, message) is Ok,
    ensures
        accounts_kept(
            ledger.accounts,
            ledger.after_signed_ingress(main, nonce, message).unwrap().accounts,
        ),
        crate::registry::nonce_of(
            ledger.after_signed_ingress(main, nonce, message).unwrap().accounts,
            main,
        ) > crate::registry::nonce_of(ledger.accounts, main),
{
    let admitted = after_use_nonce(ledger.accounts, main, nonce).unwrap();
    lemma_operations_keep_accounts(ledger.accounts, main, main, AssetId::Polkadex, 0, nonce);
    let between = LedgerView { accounts: admitted, ..ledger };
    lemma_ingress_keeps_accounts(between, message);
    let last = between.after_ingress(message).unwrap().accounts;
    lemma_kept_twice(ledger.accounts, admitted, last);
    let at = account_position(ledger.accounts, main);
    assert(admitted[at].main_account == main);
    lemma_position_unique(admitted, at);
    assert(has_account(admitted, main));
}

/// No accepted snapshot removes an account or lowers a nonce.
pub proof fn lemma_snapshot_keeps_accounts(
    ledger: LedgerView,
    snapshot: EnclaveSnapshotView,
    signature_good: bool,
)
    requires
        ledger.well_formed(),
        ledger.after_snapshot(snapshot, signature_good) is Ok,
    ensures
        accounts_kept(
            ledger.accounts,
            ledger.after_snapshot(snapshot, signature_good).unwrap().accounts,
        ),
{
    lemma_mirror_all_keeps_accounts(ledger.accounts, snapshot.accounts);
}

} // verus!
