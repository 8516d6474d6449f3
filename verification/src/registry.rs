//! The registry of main accounts: one record for each, in the order they were registered.

use vstd::prelude::*;
use crate::assets::AssetId;
use crate::error::Error;
use crate::ocex::{fresh_account, AccountInfo, AccountInfoView};
use crate::snapshot::account_views;
use crate::types::{AccountId, Balance};

verus! {

/// Whether `accounts` hold a record of `main`.
pub open spec fn has_account(accounts: Seq<AccountInfoView>, main: AccountId) -> bool {
    exists|i: int| 0 <= i < accounts.len() && (#[trigger] accounts[i]).main_account == main
}

/// A position at which `accounts` hold a record of `main`.
pub open spec fn account_position(accounts: Seq<AccountInfoView>, main: AccountId) -> int {
    choose|i: int| 0 <= i < accounts.len() && (#[trigger] accounts[i]).main_account == main
}

/// Whether no main account has two records.
pub open spec fn distinct_accounts(accounts: Seq<AccountInfoView>) -> bool {
    forall|i: int, j: int|
        0 <= i < j < accounts.len() ==> (#[trigger] accounts[i]).main_account != (
        #[trigger] accounts[j]).main_account
}

/// The accounts after `main` was registered: a fresh record at the end. It fails with
/// `AlreadyExists` where `main` has a record.
pub open spec fn after_register(accounts: Seq<AccountInfoView>, main: AccountId) -> Result<
    Seq<AccountInfoView>,
    Error,
> {
    if has_account(accounts, main) {
        Err(Error::AlreadyExists)
    } else {
        Ok(accounts.push(fresh_account(main)))
    }
}

/// The accounts after the record of `main` went through `change`. It fails with `NotFound`
/// where `main` has no record, and as the change fails.
pub open spec fn after_change(
    accounts: Seq<AccountInfoView>,
    main: AccountId,
    change: spec_fn(AccountInfoView) -> Result<AccountInfoView, Error>,
) -> Result<Seq<AccountInfoView>, Error> {
    if !has_account(accounts, main) {
        Err(Error::NotFound)
    } else {
        let at = account_position(accounts, main);
        match change(accounts[at]) {
            Ok(account) => Ok(accounts.update(at, account)),
            Err(e) => Err(e),
        }
    }
}

/// The accounts after `main` added `proxy`.
pub open spec fn after_add_proxy(
    accounts: Seq<AccountInfoView>,
    main: AccountId,
    proxy: AccountId,
) -> Result<Seq<AccountInfoView>, Error> {
    after_change(accounts, main, |account: AccountInfoView| account.proxy_added(proxy))
}

/// The accounts after `main` removed `proxy`.
pub open spec fn after_remove_proxy(
    accounts: Seq<AccountInfoView>,
    main: AccountId,
    proxy: AccountId,
) -> Result<Seq<AccountInfoView>, Error> {
    after_change(
        accounts,
        main,
        |account: AccountInfoView| Ok::<AccountInfoView, Error>(account.proxy_removed(proxy)),
    )
}

/// The accounts after `main` deposited `amount` of `asset`.
pub open spec fn after_deposit(
    accounts: Seq<AccountInfoView>,
    main: AccountId,
    asset: AssetId,
    amount: Balance,
) -> Result<Seq<AccountInfoView>, Error> {
    after_change(accounts, main, |account: AccountInfoView| account.credited(asset, amount))
}

/// The accounts after a message of `main` with `nonce` was admitted.
pub open spec fn after_use_nonce(accounts: Seq<AccountInfoView>, main: AccountId, nonce: u32) -> Result<
    Seq<AccountInfoView>,
    Error,
> {
    after_change(accounts, main, |account: AccountInfoView| account.nonce_used(nonce))
}

/// The accounts after `record` took the place of the record of its main account, or, where
/// there was none, was added at the end.
pub open spec fn after_put(accounts: Seq<AccountInfoView>, record: AccountInfoView) -> Seq<
    AccountInfoView,
> {
    if has_account(accounts, record.main_account) {
        accounts.update(account_position(accounts, record.main_account), record)
    } else {
        accounts.push(record)
    }
}

/// The record that the chain keeps where it held `kept` and a snapshot brings `brought`: the
/// one brought, but with the higher of the two nonces, for the nonce of an account never
/// goes down.
pub open spec fn merged(kept: AccountInfoView, brought: AccountInfoView) -> AccountInfoView {
    if brought.nonce < kept.nonce {
        AccountInfoView { nonce: kept.nonce, ..brought }
    } else {
        brought
    }
}

/// The accounts after a snapshot brought `record`: it is merged into the record of its main
/// account, or, where there was none, added at the end.
pub open spec fn after_mirror(accounts: Seq<AccountInfoView>, record: AccountInfoView) -> Seq<
    AccountInfoView,
> {
    if has_account(accounts, record.main_account) {
        after_put(
            accounts,
            merged(accounts[account_position(accounts, record.main_account)], record),
        )
    } else {
        after_put(accounts, record)
    }
}

/// The accounts after a snapshot brought each of `records`, the first one first.
pub open spec fn after_mirror_all(accounts: Seq<AccountInfoView>, records: Seq<AccountInfoView>) -> Seq<
    AccountInfoView,
>
    decreases records.len(),
{
    if records.len() == 0 {
        accounts
    } else {
        after_mirror(after_mirror_all(accounts, records.drop_last()), records.last())
    }
}

/// In accounts without a main account twice, the record of a main account stands at one
/// position only.
pub proof fn lemma_position_unique(accounts: Seq<AccountInfoView>, i: int)
    requires
        distinct_accounts(accounts),
        0 <= i < accounts.len(),
    ensures
        has_account(accounts, accounts[i].main_account),
        account_position(accounts, accounts[i].main_account) == i,
{
    let main = accounts[i].main_account;
    let k = account_position(accounts, main);
    if k < i {
        assert(accounts[k].main_account != accounts[i].main_account);
    } else if i < k {
        assert(accounts[i].main_account != accounts[k].main_account);
    }
}

/// Putting a record keeps the main accounts distinct.
pub proof fn lemma_put_keeps_distinct(accounts: Seq<AccountInfoView>, record: AccountInfoView)
    requires
        distinct_accounts(accounts),
    ensures
        distinct_accounts(after_put(accounts, record)),
{
    let next = after_put(accounts, record);
    if has_account(accounts, record.main_account) {
        let at = account_position(accounts, record.main_account);
        assert forall|i: int, j: int| 0 <= i < j < next.len() implies (
        #[trigger] next[i]).main_account != (#[trigger] next[j]).main_account by {
            assert(accounts[i].main_account != accounts[j].main_account);
        }
    } else {
        assert forall|i: int, j: int| 0 <= i < j < next.len() implies (
        #[trigger] next[i]).main_account != (#[trigger] next[j]).main_account by {
            if j < accounts.len() {
                assert(accounts[i].main_account != accounts[j].main_account);
            } else {
                assert(accounts[i].main_account != record.main_account);
            }
        }
    }
}

/// The nonce that `accounts` hold for `main`.
pub open spec fn nonce_of(accounts: Seq<AccountInfoView>, main: AccountId) -> u32 {
    accounts[account_position(accounts, main)].nonce
}

/// Whether every account of `before` is an account of `after`, with a nonce that is not
/// lower.
pub open spec fn accounts_kept(before: Seq<AccountInfoView>, after: Seq<AccountInfoView>) -> bool {
    forall|main: AccountId| #[trigger]
        has_account(before, main) ==> has_account(after, main) && nonce_of(after, main)
            >= nonce_of(before, main)
}

/// A record that changes in its place, and keeps its main account and does not lower its
/// nonce, leaves every account registered and no nonce lower.
pub proof fn lemma_change_keeps_accounts(
    accounts: Seq<AccountInfoView>,
    at: int,
    record: AccountInfoView,
)
    requires
        distinct_accounts(accounts),
        0 <= at < accounts.len(),
        record.main_account == accounts[at].main_account,
        record.nonce >= accounts[at].nonce,
    ensures
        distinct_accounts(accounts.update(at, record)),
        accounts_kept(accounts, accounts.update(at, record)),
{
    let next = accounts.update(at, record);
    assert forall|i: int, j: int| 0 <= i < j < next.len() implies (
    #[trigger] next[i]).main_account != (#[trigger] next[j]).main_account by {
        assert(accounts[i].main_account != accounts[j].main_account);
    }
    assert forall|main: AccountId| #[trigger] has_account(accounts, main) implies has_account(
        next,
        main,
    ) && nonce_of(next, main) >= nonce_of(accounts, main) by {
        let k = account_position(accounts, main);
        assert(next[k].main_account == main);
        lemma_position_unique(next, k);
    }
}

/// A record that is added for a main account without one leaves every account registered
/// and no nonce lower.
pub proof fn lemma_push_keeps_accounts(accounts: Seq<AccountInfoView>, record: AccountInfoView)
    requires
        distinct_accounts(accounts),
        !has_account(accounts, record.main_account),
    ensures
        distinct_accounts(accounts.push(record)),
        accounts_kept(accounts, accounts.push(record)),
{
    let next = accounts.push(record);
    assert forall|i: int, j: int| 0 <= i < j < next.len() implies (
    #[trigger] next[i]).main_account != (#[trigger] next[j]).main_account by {
        if j < accounts.len() {
            assert(accounts[i].main_account != accounts[j].main_account);
        } else {
            assert(accounts[i].main_account != record.main_account);
        }
    }
    assert forall|main: AccountId| #[trigger] has_account(accounts, main) implies has_account(
        next,
        main,
    ) && nonce_of(next, main) >= nonce_of(accounts, main) by {
        let k = account_position(accounts, main);
        assert(next[k].main_account == main);
        lemma_position_unique(next, k);
    }
}

/// Accounts that are kept from a first state to a second and from the second to a third
/// are kept from the first to the third.
pub proof fn lemma_kept_twice(
    first: Seq<AccountInfoView>,
    second: Seq<AccountInfoView>,
    third: Seq<AccountInfoView>,
)
    requires
        accounts_kept(first, second),
        accounts_kept(second, third),
    ensures
        accounts_kept(first, third),
{
    assert forall|main: AccountId| #[trigger] has_account(first, main) implies has_account(
        third,
        main,
    ) && nonce_of(third, main) >= nonce_of(first, main) by {
        assert(has_account(second, main));
    }
}

/// No operation on the registry removes an account or lowers a nonce: not registering, not
/// adding or removing a proxy, not a deposit, not the use of a nonce.
pub proof fn lemma_operations_keep_accounts(
    accounts: Seq<AccountInfoView>,
    main: AccountId,
    proxy: AccountId,
    asset: AssetId,
    amount: Balance,
    nonce: u32,
)
    requires
        distinct_accounts(accounts),
    ensures
        after_register(accounts, main) matches Ok(next) ==> distinct_accounts(next)
            && accounts_kept(accounts, next),
        after_add_proxy(accounts, main, proxy) matches Ok(next) ==> distinct_accounts(next)
            && accounts_kept(accounts, next),
        after_remove_proxy(accounts, main, proxy) matches Ok(next) ==> distinct_accounts(next)
            && accounts_kept(accounts, next),
        after_deposit(accounts, main, asset, amount) matches Ok(next) ==> distinct_accounts(next)
            && accounts_kept(accounts, next),
        after_use_nonce(accounts, main, nonce) matches Ok(next) ==> distinct_accounts(next)
            && accounts_kept(accounts, next),
{
    if let Ok(next) = after_register(accounts, main) {
        lemma_push_keeps_accounts(accounts, fresh_account(main));
    }
    if has_account(accounts, main) {
        let at = account_position(accounts, main);
        let record = accounts[at];
        if let Ok(changed) = record.proxy_added(proxy) {
            lemma_change_keeps_accounts(accounts, at, changed);
        }
        lemma_change_keeps_accounts(accounts, at, record.proxy_removed(proxy));
        if let Ok(changed) = record.credited(asset, amount) {
            lemma_change_keeps_accounts(accounts, at, changed);
        }
        if let Ok(changed) = record.nonce_used(nonce) {
            lemma_change_keeps_accounts(accounts, at, changed);
        }
    }
}

/// A record that a snapshot brings removes no account and lowers no nonce.
pub proof fn lemma_mirror_keeps_accounts(accounts: Seq<AccountInfoView>, record: AccountInfoView)
    requires
        distinct_accounts(accounts),
    ensures
        distinct_accounts(after_mirror(accounts, record)),
        accounts_kept(accounts, after_mirror(accounts, record)),
{
    if has_account(accounts, record.main_account) {
        let at = account_position(accounts, record.main_account);
        lemma_change_keeps_accounts(accounts, at, merged(accounts[at], record));
    } else {
        lemma_push_keeps_accounts(accounts, record);
    }
}

/// The records that a snapshot brings remove no account and lower no nonce.
pub proof fn lemma_mirror_all_keeps_accounts(
    accounts: Seq<AccountInfoView>,
    records: Seq<AccountInfoView>,
)
    requires
        distinct_accounts(accounts),
    ensures
        distinct_accounts(after_mirror_all(accounts, records)),
        accounts_kept(accounts, after_mirror_all(accounts, records)),
    decreases records.len(),
{
    if records.len() > 0 {
        let earlier = after_mirror_all(accounts, records.drop_last());
        lemma_mirror_all_keeps_accounts(accounts, records.drop_last());
        lemma_mirror_keeps_accounts(earlier, records.last());
        lemma_kept_twice(accounts, earlier, after_mirror(earlier, records.last()));
    }
}

/// The registry of main accounts. No main account has two records.
#[derive(Debug)]
pub struct AccountRegistry {
    accounts: Vec<AccountInfo>,
}

impl View for AccountRegistry {
    type V = Seq<AccountInfoView>;

    closed spec fn view(&self) -> Seq<AccountInfoView> {
        account_views(self.accounts@)
    }
}

impl AccountRegistry {
    #[verifier::type_invariant]
    spec fn distinct(self) -> bool {
        distinct_accounts(account_views(self.accounts@))
    }

    /// The registry without accounts.
    pub fn new() -> (registry: AccountRegistry)
        ensures
            registry@ == Seq::<AccountInfoView>::empty(),
    {
        let registry = AccountRegistry { accounts: Vec::new() };
        assert(registry@ =~= Seq::<AccountInfoView>::empty());
        registry
    }

    /// The records, in the order they were registered.
    pub fn records(&self) -> (records: &[AccountInfo])
        ensures
            account_views(records@) == self@,
            distinct_accounts(self@),
    {
        proof {
            use_type_invariant(self);
        }
        self.accounts.as_slice()
    }

    /// The position of the record of `main`, if it has one.
    pub fn position(&self, main: &AccountId) -> (found: Option<usize>)
        ensures
            found is Some <==> has_account(self@, *main),
            found matches Some(at) ==> at == account_position(self@, *main) && at < self@.len()
                && self@[at as int].main_account == *main,
            distinct_accounts(self@),
    {
        proof {
            use_type_invariant(self);
        }
        let ghost views = account_views(self.accounts@);
        let mut i: usize = 0;
        while i < self.accounts.len()
            invariant
                i <= self.accounts.len(),
                views == account_views(self.accounts@),
                distinct_accounts(views),
                forall|k: int| 0 <= k < i ==> (#[trigger] views[k]).main_account != *main,
            decreases self.accounts.len() - i,
        {
            if self.accounts[i].main_account == *main {
                proof {
                    lemma_position_unique(views, i as int);
                }
                return Some(i);
            }
            i += 1;
        }
        None
    }

    /// The record of `main`, if it has one.
    pub fn get(&self, main: &AccountId) -> (found: Option<&AccountInfo>)
        ensures
            found is Some <==> has_account(self@, *main),
            found matches Some(account) ==> account@ == self@[account_position(self@, *main)],
    {
        match self.position(main) {
            Some(at) => Some(&self.accounts[at]),
            None => None,
        }
    }

    /// Registers `main` with a fresh record: no proxies, no balances, nonce 0. It fails with
    /// `AlreadyExists`, and changes nothing, where `main` is registered.
    pub fn register(&mut self, main: AccountId) -> (done: Result<(), Error>)
        ensures
            match after_register(old(self)@, main) {
                Ok(next) => done is Ok && final(self)@ == next,
                Err(e) => done == Err::<(), Error>(e) && final(self)@ == old(self)@,
            },
    {
        if self.position(&main).is_some() {
            return Err(Error::AlreadyExists);
        }
        self.put(AccountInfo::new(main));
        Ok(())
    }

    /// Puts `record` in the place of the record of its main account, or, where there is
    /// none, at the end.
    pub fn put(&mut self, record: AccountInfo)
        ensures
            final(self)@ == after_put(old(self)@, record@),
    {
        let found = self.position(&record.main_account);
        let ghost before = account_views(self.accounts@);
        let mut accounts: Vec<AccountInfo> = Vec::new();
        std::mem::swap(&mut self.accounts, &mut accounts);
        assert(account_views(Seq::<AccountInfo>::empty()) =~= Seq::<AccountInfoView>::empty());
        match found {
            Some(at) => {
                accounts.set(at, record);
            },
            None => {
                accounts.push(record);
            },
        }
        proof {
            assert(account_views(accounts@) =~= after_put(before, record@));
            lemma_put_keeps_distinct(before, record@);
        }
        self.accounts = accounts;
    }

    /// Takes the record at `at` and the other records out of the registry, which is empty
    /// until `restore` puts them back.
    fn take_out(&mut self, at: usize) -> (pair: (AccountInfo, Vec<AccountInfo>))
        requires
            at < old(self)@.len(),
        ensures
            final(self)@ == Seq::<AccountInfoView>::empty(),
            pair.0@ == old(self)@[at as int],
            account_views(pair.1@) == old(self)@.remove(at as int),
    {
        let mut accounts: Vec<AccountInfo> = Vec::new();
        std::mem::swap(&mut self.accounts, &mut accounts);
        assert(account_views(Seq::<AccountInfo>::empty()) =~= Seq::<AccountInfoView>::empty());
        let ghost before = accounts@;
        let account = accounts.remove(at);
        assert(account_views(accounts@) =~= account_views(before).remove(at as int));
        (account, accounts)
    }

    /// Puts the record `account` back at `at` among `others`.
    fn restore(&mut self, at: usize, account: AccountInfo, others: Vec<AccountInfo>)
        requires
            at <= others@.len(),
            distinct_accounts(account_views(others@).insert(at as int, account@)),
        ensures
            final(self)@ == account_views(others@).insert(at as int, account@),
    {
        let mut accounts = others;
        accounts.insert(at, account);
        assert(account_views(accounts@) =~= account_views(others@).insert(at as int, account@));
        self.accounts = accounts;
    }

    /// Adds `proxy` to the proxies of `main`. It fails, and changes nothing, with `NotFound`
    /// where `main` is not registered and with `CapacityExceeded` where its proxies are at
    /// their limit.
    pub fn add_proxy(&mut self, main: &AccountId, proxy: AccountId) -> (done: Result<(), Error>)
        ensures
            match after_add_proxy(old(self)@, *main, proxy) {
                Ok(next) => done is Ok && final(self)@ == next,
                Err(e) => done == Err::<(), Error>(e) && final(self)@ == old(self)@,
            },
    {
        let at = match self.position(main) {
            Some(at) => at,
            None => {
                return Err(Error::NotFound);
            },
        };
        let ghost before = self@;
        let (mut account, others) = self.take_out(at);
        let done = account.add_proxy(proxy);
        proof {
            lemma_changed_in_place(before, at as int, account@);
        }
        self.restore(at, account, others);
        done
    }

    /// Removes `proxy` from the proxies of `main`. It fails with `NotFound`, and changes
    /// nothing, where `main` is not registered. Removing an account that is no proxy is no
    /// failure.
    pub fn remove_proxy(&mut self, main: &AccountId, proxy: &AccountId) -> (done: Result<(), Error>)
        ensures
            match after_remove_proxy(old(self)@, *main, *proxy) {
                Ok(next) => done is Ok && final(self)@ == next,
                Err(e) => done == Err::<(), Error>(e) && final(self)@ == old(self)@,
            },
    {
        let at = match self.position(main) {
            Some(at) => at,
            None => {
                return Err(Error::NotFound);
            },
        };
        let ghost before = self@;
        let (mut account, others) = self.take_out(at);
        account.remove_proxy(proxy);
        proof {
            lemma_changed_in_place(before, at as int, account@);
        }
        self.restore(at, account, others);
        Ok(())
    }

    /// Adds `amount` of `asset` to the free balance of `main`. It fails, and changes nothing,
    /// with `NotFound` where `main` is not registered and with `CapacityExceeded` where the
    /// balance cannot take the amount.
    pub fn deposit(&mut self, main: &AccountId, asset: AssetId, amount: Balance) -> (done: Result<
        (),
        Error,
    >)
        ensures
            match after_deposit(old(self)@, *main, asset, amount) {
                Ok(next) => done is Ok && final(self)@ == next,
                Err(e) => done == Err::<(), Error>(e) && final(self)@ == old(self)@,
            },
    {
        let at = match self.position(main) {
            Some(at) => at,
            None => {
                return Err(Error::NotFound);
            },
        };
        let ghost before = self@;
        let (mut account, others) = self.take_out(at);
        let done = account.credit(asset, amount);
        proof {
            lemma_changed_in_place(before, at as int, account@);
        }
        self.restore(at, account, others);
        done
    }

    /// Admits a message of `main` that carries `nonce`, and moves the nonce of `main` up by
    /// one. It fails, and changes nothing, with `NotFound` where `main` is not registered,
    /// with `StaleNonce` for a nonce below the account's, with `OutOfOrder` for one above
    /// it, and with `CapacityExceeded` at the largest nonce.
    pub fn use_nonce(&mut self, main: &AccountId, nonce: u32) -> (done: Result<(), Error>)
        ensures
            match after_use_nonce(old(self)@, *main, nonce) {
                Ok(next) => done is Ok && final(self)@ == next,
                Err(e) => done == Err::<(), Error>(e) && final(self)@ == old(self)@,
            },
    {
        let at = match self.position(main) {
            Some(at) => at,
            None => {
                return Err(Error::NotFound);
            },
        };
        let ghost before = self@;
        let (mut account, others) = self.take_out(at);
        let done = account.use_nonce(nonce);
        proof {
            lemma_changed_in_place(before, at as int, account@);
        }
        self.restore(at, account, others);
        done
    }

    /// Takes `record` from a snapshot: it is merged into the record of its main account, so
    /// that the nonce does not go down, or, where there is none, added at the end.
    pub fn mirror(&mut self, record: AccountInfo)
        ensures
            final(self)@ == after_mirror(old(self)@, record@),
    {
        let mut record = record;
        if let Some(kept) = self.get(&record.main_account) {
            if record.nonce < kept.nonce {
                record.nonce = kept.nonce;
            }
        }
        self.put(record);
    }

    /// Takes each of `records` from a snapshot, the first one first.
    pub fn mirror_all(&mut self, records: &[AccountInfo])
        ensures
            final(self)@ == after_mirror_all(old(self)@, account_views(records@)),
    {
        let ghost views = account_views(records@);
        let mut i: usize = 0;
        assert(views.take(0) =~= Seq::<AccountInfoView>::empty());
        while i < records.len()
            invariant
                i <= records.len(),
                views == account_views(records@),
                self@ == after_mirror_all(old(self)@, views.take(i as int)),
            decreases records.len() - i,
        {
            self.mirror(records[i].clone());
            proof {
                assert(views.take(i + 1).drop_last() =~= views.take(i as int));
                assert(views.take(i + 1).last() == views[i as int]);
            }
            i += 1;
        }
        assert(views.take(views.len() as int) =~= views);
    }
}

/// A record that keeps its main account and changes in its place keeps the main accounts
/// distinct.
proof fn lemma_changed_in_place(before: Seq<AccountInfoView>, at: int, account: AccountInfoView)
    requires
        distinct_accounts(before),
        0 <= at < before.len(),
        account.main_account == before[at].main_account,
    ensures
        before.remove(at).insert(at, account) == before.update(at, account),
        distinct_accounts(before.update(at, account)),
        account == before[at] ==> before.update(at, account) == before,
{
    let next = before.update(at, account);
    assert(before.remove(at).insert(at, account) =~= next);
    assert forall|i: int, j: int| 0 <= i < j < next.len() implies (
    #[trigger] next[i]).main_account != (#[trigger] next[j]).main_account by {
        assert(before[i].main_account != before[j].main_account);
    }
    if account == before[at] {
        assert(next =~= before);
    }
}

} // verus!
