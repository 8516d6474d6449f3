//! The bounded lists that the chain stores: their capacities, what they hold, and the calls
//! into `frame_support::BoundedVec` that build and read them.
//!
//! The functions of this file are not proved. Each states what the method of `BoundedVec`
//! that it calls does to the items of the list.

use vstd::prelude::*;
use frame_support::BoundedVec;
use frame_support::traits::ConstU32;
use crate::ocex::AccountInfo;
use crate::types::AccountId;
use crate::withdrawal::Withdrawal;

verus! {

/// Largest number of proxies of one main account.
pub const PROXY_LIMIT: u32 = 3;

/// Largest number of accounts that one snapshot brings on chain.
pub const SNAPSHOT_ACCOUNT_LIMIT: u32 = 20;

/// Largest number of withdrawals that one snapshot authorizes.
pub const WITHDRAWAL_LIMIT: u32 = 500;

/// Number of bytes of an attestation report without padding.
pub const UNPADDED_REPORT_SIZE: u32 = 432;

/// `frame_support::BoundedVec`: a vector that never holds more items than its bound. What it
/// holds is known through the functions below only.
#[verifier::external_type_specification]
#[verifier::external_body]
#[verifier::reject_recursive_types(T)]
#[verifier::reject_recursive_types(S)]
pub struct ExBoundedVec<T, S>(BoundedVec<T, S>);

/// `frame_support::traits::ConstU32`: the bound `N`, as a type.
#[verifier::external_type_specification]
#[verifier::external_body]
pub struct ExConstU32<const N: u32>(ConstU32<N>);

/// The proxies of one main account.
pub type Proxies = BoundedVec<AccountId, ConstU32<PROXY_LIMIT>>;

/// The accounts that a snapshot brings on chain.
pub type SnapshotAccounts = BoundedVec<AccountInfo, ConstU32<SNAPSHOT_ACCOUNT_LIMIT>>;

/// The withdrawals that a snapshot authorizes.
pub type Withdrawals = BoundedVec<Withdrawal, ConstU32<WITHDRAWAL_LIMIT>>;

/// The bytes of an attestation report.
pub type ReportBytes = BoundedVec<u8, ConstU32<UNPADDED_REPORT_SIZE>>;

/// The proxies that the list holds, in their order.
pub uninterp spec fn proxy_seq(list: Proxies) -> Seq<AccountId>;

/// The accounts that the list holds, in their order.
pub uninterp spec fn account_seq(list: SnapshotAccounts) -> Seq<AccountInfo>;

/// The withdrawals that the list holds, in their order.
pub uninterp spec fn withdrawal_seq(list: Withdrawals) -> Seq<Withdrawal>;

/// The bytes that the list holds, in their order.
pub uninterp spec fn report_seq(list: ReportBytes) -> Seq<u8>;

/// The test that an account is not `proxy`.
pub open spec fn other_than(proxy: AccountId) -> spec_fn(AccountId) -> bool {
    |account: AccountId| account != proxy
}

/// `BoundedVec::default`: a list without items.
#[verifier::external_body]
pub(crate) fn proxies_empty() -> (list: Proxies)
    ensures
        proxy_seq(list) == Seq::<AccountId>::empty(),
{
    BoundedVec::default()
}

/// `BoundedVec::try_push`: below the bound the item is added at the end; at the bound the list
/// stays as it is and the item comes back.
#[verifier::external_body]
pub(crate) fn proxies_try_push(list: &mut Proxies, proxy: AccountId) -> (pushed: Result<
    (),
    AccountId,
>)
    ensures
        pushed is Ok <==> proxy_seq(*old(list)).len() < PROXY_LIMIT,
        pushed is Ok ==> proxy_seq(*final(list)) == proxy_seq(*old(list)).push(proxy),
        pushed matches Err(back) ==> back == proxy && proxy_seq(*final(list)) == proxy_seq(
            *old(list),
        ),
{
    list.try_push(proxy)
}

/// `BoundedVec::retain` with the test `item != proxy`: the items that differ from `proxy` stay,
/// in their order, and the others leave.
#[verifier::external_body]
pub(crate) fn proxies_retain_other(list: &mut Proxies, proxy: &AccountId)
    ensures
        proxy_seq(*final(list)) == proxy_seq(*old(list)).filter(other_than(*proxy)),
{
    list.retain(|item| item != proxy)
}

/// `Vec::as_slice`, reached through the `Deref` of `BoundedVec`: the items of the list, never
/// more than its bound.
#[verifier::external_body]
pub(crate) fn proxies_as_slice(list: &Proxies) -> (items: &[AccountId])
    ensures
        items@ == proxy_seq(*list),
        items@.len() <= PROXY_LIMIT,
{
    list.as_slice()
}

/// `BoundedVec::try_from` a vector: the list of its items if they are no more than the bound,
/// else the vector comes back.
#[verifier::external_body]
pub(crate) fn accounts_try_from(items: Vec<AccountInfo>) -> (made: Result<
    SnapshotAccounts,
    Vec<AccountInfo>,
>)
    ensures
        made is Ok <==> items@.len() <= SNAPSHOT_ACCOUNT_LIMIT,
        made matches Ok(list) ==> account_seq(list) == items@,
        made matches Err(back) ==> back@ == items@,
{
    BoundedVec::try_from(items)
}

/// `Vec::as_slice`, reached through the `Deref` of `BoundedVec`: the items of the list, never
/// more than its bound.
#[verifier::external_body]
pub(crate) fn accounts_as_slice(list: &SnapshotAccounts) -> (items: &[AccountInfo])
    ensures
        items@ == account_seq(*list),
        items@.len() <= SNAPSHOT_ACCOUNT_LIMIT,
{
    list.as_slice()
}

/// `BoundedVec::try_from` a vector: the list of its items if they are no more than the bound,
/// else the vector comes back.
#[verifier::external_body]
pub(crate) fn withdrawals_try_from(items: Vec<Withdrawal>) -> (made: Result<
    Withdrawals,
    Vec<Withdrawal>,
>)
    ensures
        made is Ok <==> items@.len() <= WITHDRAWAL_LIMIT,
        made matches Ok(list) ==> withdrawal_seq(list) == items@,
        made matches Err(back) ==> back@ == items@,
{
    BoundedVec::try_from(items)
}

/// `Vec::as_slice`, reached through the `Deref` of `BoundedVec`: the items of the list, never
/// more than its bound.
#[verifier::external_body]
pub(crate) fn withdrawals_as_slice(list: &Withdrawals) -> (items: &[Withdrawal])
    ensures
        items@ == withdrawal_seq(*list),
        items@.len() <= WITHDRAWAL_LIMIT,
{
    list.as_slice()
}

/// `BoundedVec::try_from` a vector: the list of its items if they are no more than the bound,
/// else the vector comes back.
#[verifier::external_body]
pub(crate) fn report_try_from(items: Vec<u8>) -> (made: Result<ReportBytes, Vec<u8>>)
    ensures
        made is Ok <==> items@.len() <= UNPADDED_REPORT_SIZE,
        made matches Ok(list) ==> report_seq(list) == items@,
        made matches Err(back) ==> back@ == items@,
{
    BoundedVec::try_from(items)
}

/// `Vec::as_slice`, reached through the `Deref` of `BoundedVec`: the items of the list, never
/// more than its bound.
#[verifier::external_body]
pub(crate) fn report_as_slice(list: &ReportBytes) -> (items: &[u8])
    ensures
        items@ == report_seq(*list),
        items@.len() <= UNPADDED_REPORT_SIZE,
{
    list.as_slice()
}

} // verus!
