//! Withdrawals that a snapshot authorizes.

use vstd::prelude::*;
use crate::assets::AssetId;
use crate::types::{AccountId, Balance};

verus! {

/// An amount of an asset that leaves the exchange for a main account.
#[derive(Clone, Copy, Debug, PartialEq, Eq)]
pub struct Withdrawal {
    pub main_account: AccountId,
    pub amount: Balance,
    pub asset: AssetId,
}

} // verus!
