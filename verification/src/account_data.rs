//! Low-level records of accounts as the enclave stores them.

use vstd::prelude::*;
use frame_support::PalletId;
use sp_runtime::traits::AccountIdConversion;
use crate::assets::AssetId;
use crate::orderbook::SignedOrder;
use crate::types::{AccountId, Balance};

verus! {

/// The identifier from which the genesis account is derived: the eight bytes `polka/ga`.
pub open spec fn genesis_pallet_id() -> Seq<u8> {
    seq![112u8, 111u8, 108u8, 107u8, 97u8, 47u8, 103u8, 97u8]
}

/// The thirty-two bytes of the account that belongs to a pallet identifier: the four bytes
/// `modl`, the eight bytes of the identifier, and twenty zero bytes.
pub open spec fn pallet_account_bytes(id: Seq<u8>) -> Seq<u8> {
    seq![109u8, 111u8, 100u8, 108u8] + id + Seq::new(20, |i: int| 0u8)
}

/// `AccountIdConversion::into_account_truncating` of a `frame_support::PalletId`, for an
/// account of thirty-two bytes: the type tag `modl`, the identifier, then zeros to the end.
#[verifier::external_body]
pub(crate) fn pallet_account(id: [u8; 8]) -> (account: AccountId)
    ensures
        account.bytes@ == pallet_account_bytes(id@),
{
    let account: sp_runtime::AccountId32 = PalletId(id).into_account_truncating();
    AccountId { bytes: account.into() }
}

/// One account in the chain of linked accounts, with its neighbours and its proxies.
#[derive(Clone, Debug, PartialEq)]
pub struct LinkedAccount {
    pub prev: AccountId,
    pub current: AccountId,
    pub next: Option<AccountId>,
    pub proxies: Vec<AccountId>,
}

impl LinkedAccount {
    /// The account `current` that follows `prev`, as the last of the chain and without
    /// proxies.
    pub fn from(prev: AccountId, current: AccountId) -> (account: LinkedAccount)
        ensures
            account.prev == prev,
            account.current == current,
            account.next == None::<AccountId>,
            account.proxies@ == Seq::<AccountId>::empty(),
    {
        LinkedAccount { prev, next: None, current, proxies: Vec::new() }
    }
}

impl Default for LinkedAccount {
    /// The genesis account, which is its own predecessor, as the last of the chain and
    /// without proxies.
    fn default() -> (account: LinkedAccount)
        ensures
            account.prev.bytes@ == pallet_account_bytes(genesis_pallet_id()),
            account.current == account.prev,
            account.next == None::<AccountId>,
            account.proxies@ == Seq::<AccountId>::empty(),
    {
        let id: [u8; 8] = [112u8, 111u8, 108u8, 107u8, 97u8, 47u8, 103u8, 97u8];
        assert(id@ =~= genesis_pallet_id());
        let genesis = pallet_account(id);
        LinkedAccount { prev: genesis, current: genesis, next: None, proxies: Vec::new() }
    }
}

/// A linked account with the proof of its place in the tree of accounts.
#[derive(Clone, Debug, PartialEq)]
pub struct PolkadexAccount {
    pub account: LinkedAccount,
    pub proof: Vec<Vec<u8>>,
}

/// The balance of one account in one asset.
#[derive(Clone, Copy, Debug, PartialEq, Eq)]
pub struct BalancesData {
    pub asset_id: AssetId,
    pub account_id: AccountId,
    pub free: Balance,
    pub reserved: Balance,
}

/// The nonce of one account.
#[derive(Clone, Copy, Debug, PartialEq, Eq)]
pub struct NonceData {
    pub account_id: AccountId,
    pub nonce: u32,
}

/// One order of the order book.
#[derive(Clone, Debug, PartialEq)]
pub struct OrderbookData {
    pub signed_order: SignedOrder,
}

/// All that the enclave stores: balances, nonces and orders.
#[derive(Debug)]
pub struct StorageData {
    pub balances: Vec<BalancesData>,
    pub nonce: Vec<NonceData>,
    pub orderbook: Vec<OrderbookData>,
}

} // verus!
