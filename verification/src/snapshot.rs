//! What the enclave reports of its state: dumps of all accounts, and the numbered snapshots
//! that commit to them.

use vstd::prelude::*;
use crate::bounded::{
    account_seq, accounts_as_slice, accounts_try_from, withdrawal_seq, withdrawals_as_slice,
    withdrawals_try_from, SnapshotAccounts, Withdrawals, SNAPSHOT_ACCOUNT_LIMIT, WITHDRAWAL_LIMIT,
};
use crate::error::Error;
use crate::ocex::{AccountInfo, AccountInfoView};
use crate::types::{Balance, H256};
use crate::withdrawal::Withdrawal;

verus! {

/// Largest number of accounts in a dump.
pub struct AccountInfoDumpLimit;

impl AccountInfoDumpLimit {
    pub fn get() -> (limit: u32)
        ensures
            limit == ACCOUNT_DUMP_LIMIT,
    {
        ACCOUNT_DUMP_LIMIT
    }
}

/// Largest number of accounts in a dump.
pub const ACCOUNT_DUMP_LIMIT: u32 = 10000000;

/// What each of the accounts holds, as plain values.
pub open spec fn account_views(accounts: Seq<AccountInfo>) -> Seq<AccountInfoView> {
    accounts.map_values(|account: AccountInfo| account@)
}

/// Whether the accounts stand in strictly ascending order of main account, so that no main
/// account occurs twice.
pub open spec fn accounts_ascending(accounts: Seq<AccountInfoView>) -> bool {
    forall|i: int, j: int|
        0 <= i < j < accounts.len() ==> (#[trigger] accounts[i]).main_account.before(
            (#[trigger] accounts[j]).main_account,
        )
}

/// All the accounts that the enclave holds at the time of a snapshot, in ascending order of
/// main account.
#[derive(Debug)]
pub struct EnclaveAccountInfoDump {
    snapshot_number: u32,
    accounts: Vec<AccountInfo>,
}

/// What a dump holds, as plain values.
pub struct EnclaveAccountInfoDumpView {
    pub snapshot_number: u32,
    pub accounts: Seq<AccountInfoView>,
}

impl EnclaveAccountInfoDumpView {
    /// What every dump satisfies: accounts in ascending order, each well formed, and no more
    /// of them than the limit.
    pub open spec fn well_formed(self) -> bool {
        &&& accounts_ascending(self.accounts)
        &&& self.accounts.len() <= ACCOUNT_DUMP_LIMIT
        &&& forall|i: int| 0 <= i < self.accounts.len() ==> (#[trigger] self.accounts[i]).well_formed()
    }
}

impl View for EnclaveAccountInfoDump {
    type V = EnclaveAccountInfoDumpView;

    closed spec fn view(&self) -> EnclaveAccountInfoDumpView {
        EnclaveAccountInfoDumpView {
            snapshot_number: self.snapshot_number,
            accounts: account_views(self.accounts@),
        }
    }
}

impl EnclaveAccountInfoDump {
    #[verifier::type_invariant]
    spec fn ordered(self) -> bool {
        accounts_ascending(account_views(self.accounts@)) && self.accounts@.len()
            <= ACCOUNT_DUMP_LIMIT
    }

    /// The dump of `accounts` at the snapshot `snapshot_number`. It fails with
    /// `CapacityExceeded` where the accounts are more than the limit and else with
    /// `Malformed` where they are not in ascending order of main account.
    pub fn new(snapshot_number: u32, accounts: Vec<AccountInfo>) -> (made: Result<
        EnclaveAccountInfoDump,
        Error,
    >)
        ensures
            made matches Ok(dump) ==> dump@ == (EnclaveAccountInfoDumpView {
                snapshot_number,
                accounts: account_views(accounts@),
            }) && dump@.well_formed(),
            made is Ok <==> accounts@.len() <= ACCOUNT_DUMP_LIMIT && accounts_ascending(
                account_views(accounts@),
            ),
            made matches Err(e) ==> e == (if accounts@.len() > ACCOUNT_DUMP_LIMIT {
                Error::CapacityExceeded
            } else {
                Error::Malformed
            }),
    {
        if accounts.len() > ACCOUNT_DUMP_LIMIT as usize {
            return Err(Error::CapacityExceeded);
        }
        let ghost views = account_views(accounts@);
        let mut i: usize = 0;
        while i < accounts.len()
            invariant
                i <= accounts.len(),
                accounts@.len() <= ACCOUNT_DUMP_LIMIT,
                views == account_views(accounts@),
                forall|k: int|
                    0 <= k && k + 1 < i ==> (#[trigger] views[k]).main_account.before(
                        views[k + 1].main_account,
                    ),
                forall|k: int| 0 <= k < i ==> (#[trigger] views[k]).well_formed(),
            decreases accounts.len() - i,
        {
            accounts[i].validity();
            if i > 0 && !accounts[i - 1].main_account.precedes(&accounts[i].main_account) {
                proof {
                    assert(!views[i - 1].main_account.before(views[i as int].main_account));
                }
                return Err(Error::Malformed);
            }
            i += 1;
        }
        proof {
            lemma_neighbours_ascending(views, views.len() as int);
            assert(views.take(views.len() as int) =~= views);
        }
        Ok(EnclaveAccountInfoDump { snapshot_number, accounts })
    }

    /// The number of the snapshot that the dump belongs to.
    pub fn snapshot_number(&self) -> (number: u32)
        ensures
            number == self@.snapshot_number,
    {
        self.snapshot_number
    }

    /// The accounts, in ascending order of main account.
    pub fn accounts(&self) -> (accounts: &[AccountInfo])
        ensures
            account_views(accounts@) == self@.accounts,
            self@.well_formed(),
    {
        proof {
            use_type_invariant(self);
        }
        let accounts = self.accounts.as_slice();
        let mut i: usize = 0;
        while i < accounts.len()
            invariant
                i <= accounts.len(),
                forall|k: int| 0 <= k < i ==> (#[trigger] account_views(accounts@)[k]).well_formed(),
            decreases accounts.len() - i,
        {
            accounts[i].validity();
            i += 1;
        }
        accounts
    }
}

/// Accounts of which each comes after its left neighbour are ascending.
proof fn lemma_neighbours_ascending(accounts: Seq<AccountInfoView>, n: int)
    requires
        0 <= n <= accounts.len(),
        forall|k: int|
            0 <= k && k + 1 < accounts.len() ==> (#[trigger] accounts[k]).main_account.before(
                accounts[k + 1].main_account,
            ),
    ensures
        accounts_ascending(accounts.take(n)),
    decreases n,
{
    if n > 1 {
        lemma_neighbours_ascending(accounts, n - 1);
        let shorter = accounts.take(n - 1);
        let longer = accounts.take(n);
        assert forall|i: int, j: int| 0 <= i < j < longer.len() implies (
        #[trigger] longer[i]).main_account.before((#[trigger] longer[j]).main_account) by {
            if j < n - 1 {
                assert(shorter[i].main_account.before(shorter[j].main_account));
            } else {
                assert(accounts[n - 2].main_account.before(accounts[n - 1].main_account));
                if i < n - 2 {
                    assert(shorter[i].main_account.before(shorter[n - 2].main_account));
                    crate::types::lemma_account_order_transitive(
                        accounts[i].main_account,
                        accounts[n - 2].main_account,
                        accounts[n - 1].main_account,
                    );
                }
            }
        }
    }
}

/// A numbered checkpoint of the enclave's state: the root that commits to all of it, the
/// accounts that it brings on chain, and the withdrawals that it authorizes.
#[derive(Debug)]
pub struct EnclaveSnapshot {
    /// Serial number of the snapshot.
    pub snapshot_number: u32,
    /// Hash of the dump of all the accounts in the enclave.
    pub merkle_root: H256,
    /// The accounts whose on-chain record the snapshot replaces.
    pub accounts: SnapshotAccounts,
    /// The withdrawals that the snapshot authorizes.
    pub withdrawals: Withdrawals,
    /// Sum of the liquidity mining scores of all accounts.
    pub total_lmp_score: Balance,
}

/// What a snapshot holds, as plain values.
pub struct EnclaveSnapshotView {
    pub snapshot_number: u32,
    pub merkle_root: H256,
    pub accounts: Seq<AccountInfoView>,
    pub withdrawals: Seq<Withdrawal>,
    pub total_lmp_score: Balance,
}

impl EnclaveSnapshotView {
    /// What every snapshot satisfies: no more accounts and withdrawals than their limits, and
    /// each account well formed.
    pub open spec fn well_formed(self) -> bool {
        &&& self.accounts.len() <= SNAPSHOT_ACCOUNT_LIMIT
        &&& self.withdrawals.len() <= WITHDRAWAL_LIMIT
        &&& forall|i: int| 0 <= i < self.accounts.len() ==> (#[trigger] self.accounts[i]).well_formed()
    }
}

impl View for EnclaveSnapshot {
    type V = EnclaveSnapshotView;

    open spec fn view(&self) -> EnclaveSnapshotView {
        EnclaveSnapshotView {
            snapshot_number: self.snapshot_number,
            merkle_root: self.merkle_root,
            accounts: account_views(account_seq(self.accounts)),
            withdrawals: withdrawal_seq(self.withdrawals),
            total_lmp_score: self.total_lmp_score,
        }
    }
}

impl PartialEq for EnclaveSnapshot {
    /// Two snapshots are equal where they have the same number, whatever else they hold.
    fn eq(&self, other: &EnclaveSnapshot) -> (same: bool) {
        self.snapshot_number == other.snapshot_number
    }
}

impl vstd::std_specs::cmp::PartialEqSpecImpl for EnclaveSnapshot {
    open spec fn obeys_eq_spec() -> bool {
        true
    }

    open spec fn eq_spec(&self, other: &EnclaveSnapshot) -> bool {
        self.snapshot_number == other.snapshot_number
    }
}

impl EnclaveSnapshot {
    /// The snapshot with the given number, root, accounts, withdrawals and score. It fails
    /// with `CapacityExceeded` where the accounts or the withdrawals are more than their
    /// limit.
    pub fn new(
        snapshot_number: u32,
        merkle_root: H256,
        accounts: Vec<AccountInfo>,
        withdrawals: Vec<Withdrawal>,
        total_lmp_score: Balance,
    ) -> (made: Result<EnclaveSnapshot, Error>)
        ensures
            made is Ok <==> accounts@.len() <= SNAPSHOT_ACCOUNT_LIMIT && withdrawals@.len()
                <= WITHDRAWAL_LIMIT,
            made matches Ok(snapshot) ==> snapshot@ == (EnclaveSnapshotView {
                snapshot_number,
                merkle_root,
                accounts: account_views(accounts@),
                withdrawals: withdrawals@,
                total_lmp_score,
            }),
            made matches Err(e) ==> e == Error::CapacityExceeded,
    {
        let accounts = match accounts_try_from(accounts) {
            Ok(list) => list,
            Err(_) => {
                return Err(Error::CapacityExceeded);
            },
        };
        let withdrawals = match withdrawals_try_from(withdrawals) {
            Ok(list) => list,
            Err(_) => {
                return Err(Error::CapacityExceeded);
            },
        };
        Ok(EnclaveSnapshot { snapshot_number, merkle_root, accounts, withdrawals, total_lmp_score })
    }

    /// The accounts that the snapshot brings on chain.
    pub fn account_list(&self) -> (accounts: &[AccountInfo])
        ensures
            account_views(accounts@) == self@.accounts,
            accounts@.len() <= SNAPSHOT_ACCOUNT_LIMIT,
    {
        accounts_as_slice(&self.accounts)
    }

    /// The withdrawals that the snapshot authorizes.
    pub fn withdrawal_list(&self) -> (withdrawals: &[Withdrawal])
        ensures
            withdrawals@ == self@.withdrawals,
            withdrawals@.len() <= WITHDRAWAL_LIMIT,
    {
        withdrawals_as_slice(&self.withdrawals)
    }

    /// Every snapshot is well formed.
    pub fn validity(&self)
        ensures
            self@.well_formed(),
    {
        let accounts = accounts_as_slice(&self.accounts);
        let _ = withdrawals_as_slice(&self.withdrawals);
        let mut i: usize = 0;
        while i < accounts.len()
            invariant
                i <= accounts.len(),
                forall|k: int| 0 <= k < i ==> (#[trigger] account_views(accounts@)[k]).well_formed(),
            decreases accounts.len() - i,
        {
            accounts[i].validity();
            i += 1;
        }
    }

    /// Whether the two snapshots hold the same: a stricter test than `==`, which looks at
    /// the number only.
    pub open spec fn same_content(&self, other: &EnclaveSnapshot) -> bool {
        self@ == other@
    }
}

} // verus!
