//! The record of a main account, and the configuration of the exchange and of a trading pair.

use vstd::prelude::*;
use crate::assets::AssetId;
use crate::balances::{lookup, placed, BalanceEntry, Balances, MAX_BALANCE_ENTRIES};
use crate::bounded::{
    other_than, proxies_as_slice, proxies_empty, proxies_retain_other, proxies_try_push,
    proxy_seq, Proxies, PROXY_LIMIT,
};
use crate::error::Error;
use crate::fees::FeeConfig;
use crate::types::{AccountId, Balance};

verus! {

/// The record that the exchange keeps of one main account.
#[derive(Debug)]
pub struct AccountInfo {
    pub main_account: AccountId,
    /// The accounts that may act for the main account, in the order they were added.
    pub proxies: Proxies,
    /// Counter against replay. It never decreases.
    pub nonce: u32,
    pub balances: Balances,
    /// Trading fee configuration.
    pub fee_config: FeeConfig,
    /// Fees paid so far in the base asset.
    pub fee_paid_base_asset: Balance,
    /// Fees paid so far in the quote asset.
    pub fee_paid_quote_asset: Balance,
    /// Final score of the account in the liquidity mining program.
    pub q_final: Balance,
}

/// What an account record holds, as plain values.
pub struct AccountInfoView {
    pub main_account: AccountId,
    pub proxies: Seq<AccountId>,
    pub nonce: u32,
    pub balances: Seq<BalanceEntry>,
    pub fee_config: FeeConfig,
    pub fee_paid_base_asset: Balance,
    pub fee_paid_quote_asset: Balance,
    pub q_final: Balance,
}

impl AccountInfoView {
    /// What every record satisfies: no more proxies than the limit, and balances that can be
    /// a listing.
    pub open spec fn well_formed(self) -> bool {
        self.proxies.len() <= PROXY_LIMIT && Balances::admits(self.balances)
    }
}

impl View for AccountInfo {
    type V = AccountInfoView;

    open spec fn view(&self) -> AccountInfoView {
        AccountInfoView {
            main_account: self.main_account,
            proxies: proxy_seq(self.proxies),
            nonce: self.nonce,
            balances: self.balances.listing(),
            fee_config: self.fee_config,
            fee_paid_base_asset: self.fee_paid_base_asset,
            fee_paid_quote_asset: self.fee_paid_quote_asset,
            q_final: self.q_final,
        }
    }
}

impl AccountInfoView {
    /// The record after `proxy` was added: with the proxies at their limit it fails, whoever
    /// the proxy is; below the limit, a proxy that is there already changes nothing and a
    /// new one goes to the end.
    pub open spec fn proxy_added(self, proxy: AccountId) -> Result<AccountInfoView, Error> {
        if self.proxies.len() >= PROXY_LIMIT {
            Err(Error::CapacityExceeded)
        } else if self.proxies.contains(proxy) {
            Ok(self)
        } else {
            Ok(AccountInfoView { proxies: self.proxies.push(proxy), ..self })
        }
    }

    /// The record after `proxy` was removed: every entry equal to it has left, the others
    /// stay in their order.
    pub open spec fn proxy_removed(self, proxy: AccountId) -> AccountInfoView {
        AccountInfoView { proxies: self.proxies.filter(other_than(proxy)), ..self }
    }

    /// The free and the reserved amount that the record holds of `asset`: both zero where it
    /// holds no entry for it.
    pub open spec fn balance_of(self, asset: AssetId) -> (Balance, Balance) {
        match lookup(self.balances, asset) {
            Some(pair) => pair,
            None => (0, 0),
        }
    }

    /// The record after `amount` of `asset` was added to its free balance. It fails where
    /// the free balance would pass the largest amount, or where the asset is new and the
    /// balances are at their largest number.
    pub open spec fn credited(self, asset: AssetId, amount: Balance) -> Result<
        AccountInfoView,
        Error,
    > {
        let held = self.balance_of(asset);
        if held.0 + amount > u128::MAX {
            Err(Error::CapacityExceeded)
        } else if lookup(self.balances, asset) is None && self.balances.len()
            >= MAX_BALANCE_ENTRIES {
            Err(Error::CapacityExceeded)
        } else {
            Ok(
                AccountInfoView {
                    balances: placed(
                        self.balances,
                        BalanceEntry { asset, free: (held.0 + amount) as u128, reserved: held.1 },
                    ),
                    ..self
                },
            )
        }
    }

    /// The record after a message with `nonce` was admitted: the nonce must be the record's
    /// own, which then goes up by one. A lower one is stale, a higher one out of order, and
    /// the largest nonce admits no message.
    pub open spec fn nonce_used(self, nonce: u32) -> Result<AccountInfoView, Error> {
        if nonce < self.nonce {
            Err(Error::StaleNonce)
        } else if nonce > self.nonce {
            Err(Error::OutOfOrder)
        } else if self.nonce == u32::MAX {
            Err(Error::CapacityExceeded)
        } else {
            Ok(AccountInfoView { nonce: (self.nonce + 1) as u32, ..self })
        }
    }
}

/// The record of an account that was just registered.
pub open spec fn fresh_account(main_account: AccountId) -> AccountInfoView {
    AccountInfoView {
        main_account,
        proxies: Seq::empty(),
        nonce: 0,
        balances: Seq::empty(),
        fee_config: FeeConfig { maker_fraction: 0, taker_fraction: 0 },
        fee_paid_base_asset: 0,
        fee_paid_quote_asset: 0,
        q_final: 0,
    }
}

impl Clone for AccountInfo {
    fn clone(&self) -> (copy: AccountInfo)
        ensures
            copy@ == self@,
    {
        let source = proxies_as_slice(&self.proxies);
        let mut proxies = proxies_empty();
        let mut i: usize = 0;
        while i < source.len()
            invariant
                i <= source.len(),
                source@.len() <= PROXY_LIMIT,
                proxy_seq(proxies) == source@.take(i as int),
            decreases source.len() - i,
        {
            let _ = proxies_try_push(&mut proxies, source[i]);
            assert(proxy_seq(proxies) =~= source@.take(i + 1));
            i += 1;
        }
        assert(source@.take(source@.len() as int) =~= source@);
        AccountInfo {
            main_account: self.main_account,
            proxies,
            nonce: self.nonce,
            balances: self.balances.clone(),
            fee_config: self.fee_config,
            fee_paid_base_asset: self.fee_paid_base_asset,
            fee_paid_quote_asset: self.fee_paid_quote_asset,
            q_final: self.q_final,
        }
    }
}

impl AccountInfo {
    /// Every record is well formed.
    pub fn validity(&self)
        ensures
            self@.well_formed(),
    {
        let _ = proxies_as_slice(&self.proxies);
        let _ = self.balances.entries();
    }

    pub fn maker_fee_fraction(&self) -> (fraction: Balance)
        ensures
            fraction == self.fee_config.maker_fraction,
    {
        self.fee_config.maker_fraction
    }

    pub fn taker_fee_fraction(&self) -> (fraction: Balance)
        ensures
            fraction == self.fee_config.taker_fraction,
    {
        self.fee_config.taker_fraction
    }

    /// The record of a main account without proxies or balances, with nonce 0 and no fees.
    pub fn new(main_account_id: AccountId) -> (account: AccountInfo)
        ensures
            account@ == fresh_account(main_account_id),
    {
        AccountInfo {
            main_account: main_account_id,
            proxies: proxies_empty(),
            nonce: 0,
            balances: Balances::new(),
            fee_config: FeeConfig::default(),
            fee_paid_base_asset: 0,
            fee_paid_quote_asset: 0,
            q_final: 0,
        }
    }

    /// The proxies, in the order they were added.
    pub fn proxy_list(&self) -> (proxies: &[AccountId])
        ensures
            proxies@ == self@.proxies,
            proxies@.len() <= PROXY_LIMIT,
    {
        proxies_as_slice(&self.proxies)
    }

    /// Whether `proxy` is one of the proxies.
    pub fn has_proxy(&self, proxy: &AccountId) -> (yes: bool)
        ensures
            yes == self@.proxies.contains(*proxy),
    {
        let proxies = proxies_as_slice(&self.proxies);
        let mut i: usize = 0;
        while i < proxies.len()
            invariant
                i <= proxies.len(),
                proxies@ == self@.proxies,
                forall|k: int| 0 <= k < i ==> proxies@[k] != *proxy,
            decreases proxies.len() - i,
        {
            if proxies[i] == *proxy {
                return true;
            }
            i += 1;
        }
        false
    }

    /// Adds a proxy account. With the proxies at their limit nothing is added and the call
    /// fails, whoever the proxy is. Below the limit, a proxy that is there already is left
    /// alone and a new one goes to the end.
    pub fn add_proxy(&mut self, proxy: AccountId) -> (added: Result<(), Error>)
        ensures
            final(self)@.proxies.len() <= PROXY_LIMIT,
            match old(self)@.proxy_added(proxy) {
                Ok(next) => added is Ok && final(self)@ == next,
                Err(e) => added == Err::<(), Error>(e) && final(self)@ == old(self)@,
            },
    {
        if proxies_as_slice(&self.proxies).len() >= PROXY_LIMIT as usize {
            return Err(Error::CapacityExceeded);
        }
        if self.has_proxy(&proxy) {
            return Ok(());
        }
        match proxies_try_push(&mut self.proxies, proxy) {
            Ok(()) => Ok(()),
            Err(_) => Err(Error::CapacityExceeded),
        }
    }

    /// Removes a proxy account: every entry equal to `proxy` leaves, the others stay in their
    /// order. Removing an account that is no proxy changes nothing.
    pub fn remove_proxy(&mut self, proxy: &AccountId)
        ensures
            final(self)@ == old(self)@.proxy_removed(*proxy),
            !old(self)@.proxies.contains(*proxy) ==> final(self)@ == old(self)@,
            final(self)@.proxies.len() <= old(self)@.proxies.len(),
    {
        proxies_retain_other(&mut self.proxies, proxy);
        proof {
            lemma_filter_removes(old(self)@.proxies, *proxy);
            if !old(self)@.proxies.contains(*proxy) {
                lemma_filter_absent(old(self)@.proxies, *proxy);
            }
        }
    }

    /// The free and the reserved amount of `asset`: both zero where the record holds no
    /// entry for it.
    pub fn balance(&self, asset: &AssetId) -> (held: (Balance, Balance))
        ensures
            held == self@.balance_of(*asset),
    {
        match self.balances.get(asset) {
            Some(pair) => pair,
            None => (0, 0),
        }
    }

    /// Adds `amount` of `asset` to the free balance. It fails with `CapacityExceeded`, and
    /// changes nothing, where the free balance would pass the largest amount, or where the
    /// asset is new and the balances are at their largest number.
    pub fn credit(&mut self, asset: AssetId, amount: Balance) -> (done: Result<(), Error>)
        ensures
            match old(self)@.credited(asset, amount) {
                Ok(next) => done is Ok && final(self)@ == next,
                Err(e) => done == Err::<(), Error>(e) && final(self)@ == old(self)@,
            },
    {
        let held = self.balance(&asset);
        if amount > u128::MAX - held.0 {
            return Err(Error::CapacityExceeded);
        }
        self.balances.set(asset, held.0 + amount, held.1)
    }

    /// Admits a message that carries `nonce`: it must be the record's nonce, which then goes
    /// up by one. It fails, and changes nothing, with `StaleNonce` for a lower one, with
    /// `OutOfOrder` for a higher one, and with `CapacityExceeded` at the largest nonce.
    pub fn use_nonce(&mut self, nonce: u32) -> (done: Result<(), Error>)
        ensures
            match old(self)@.nonce_used(nonce) {
                Ok(next) => done is Ok && final(self)@ == next,
                Err(e) => done == Err::<(), Error>(e) && final(self)@ == old(self)@,
            },
            final(self)@.nonce >= old(self)@.nonce,
    {
        if nonce < self.nonce {
            Err(Error::StaleNonce)
        } else if nonce > self.nonce {
            Err(Error::OutOfOrder)
        } else if self.nonce == u32::MAX {
            Err(Error::CapacityExceeded)
        } else {
            self.nonce = self.nonce + 1;
            Ok(())
        }
    }
}

/// Removing an account from proxies that do not hold it leaves them as they are.
pub proof fn lemma_filter_absent(proxies: Seq<AccountId>, proxy: AccountId)
    requires
        !proxies.contains(proxy),
    ensures
        proxies.filter(other_than(proxy)) == proxies,
    decreases proxies.len(),
{
    reveal(Seq::filter);
    if proxies.len() > 0 {
        let init = proxies.drop_last();
        assert forall|i: int| 0 <= i < init.len() implies init[i] != proxy by {
            assert(proxies[i] == init[i]);
        }
        lemma_filter_absent(init, proxy);
        assert(proxies.last() == proxies[proxies.len() - 1]);
        assert(init.push(proxies.last()) =~= proxies);
    }
}

/// After an account was removed from the proxies, they do not hold it.
pub proof fn lemma_filter_removes(proxies: Seq<AccountId>, proxy: AccountId)
    ensures
        !proxies.filter(other_than(proxy)).contains(proxy),
        proxies.filter(other_than(proxy)).len() <= proxies.len(),
    decreases proxies.len(),
{
    reveal(Seq::filter);
    if proxies.len() > 0 {
        let init = proxies.drop_last();
        lemma_filter_removes(init, proxy);
        let kept = init.filter(other_than(proxy));
        let all = proxies.filter(other_than(proxy));
        assert forall|i: int| 0 <= i < all.len() implies all[i] != proxy by {
            if i < kept.len() {
                assert(kept[i] != proxy);
            }
        }
    }
}

/// Removing a proxy twice gives the proxies that removing it once gives.
pub proof fn lemma_remove_proxy_idempotent(proxies: Seq<AccountId>, proxy: AccountId)
    ensures
        proxies.filter(other_than(proxy)).filter(other_than(proxy)) == proxies.filter(
            other_than(proxy),
        ),
{
    lemma_filter_removes(proxies, proxy);
    lemma_filter_absent(proxies.filter(other_than(proxy)), proxy);
}

/// The configuration with which the exchange starts.
#[derive(Clone, Copy, Debug, Eq, PartialEq)]
pub struct OCEXConfig {
    pub enclave_id: AccountId,
}

/// The bounds that govern trading in one pair of assets.
#[derive(Clone, Copy, Debug, Eq, PartialEq)]
pub struct TradingPairConfig {
    pub base_asset: AssetId,
    pub quote_asset: AssetId,
    pub min_trade_amount: Balance,
    pub max_trade_amount: Balance,
    pub min_order_qty: Balance,
    pub max_order_qty: Balance,
    pub min_deposit_amount: Balance,
    pub max_deposit_amount: Balance,
    pub min_withdrawal_amount: Balance,
    pub max_withdrawal_amount: Balance,
    /// Fee on a withdrawal of the base asset.
    pub base_withdrawal_fee: Balance,
    /// Fee on a withdrawal of the quote asset.
    pub quote_withdrawal_fee: Balance,
    /// Least depth of the book that the market must keep, if it is guarded.
    pub min_depth: Option<Balance>,
    /// Widest spread that the market may show, if it is guarded.
    pub max_spread: Option<Balance>,
    /// The enclave that runs the pair.
    pub enclave_id: AccountId,
}

impl TradingPairConfig {
    /// Whether no minimum is above its maximum.
    pub open spec fn bounds_hold(self) -> bool {
        &&& self.min_trade_amount <= self.max_trade_amount
        &&& self.min_order_qty <= self.max_order_qty
        &&& self.min_deposit_amount <= self.max_deposit_amount
        &&& self.min_withdrawal_amount <= self.max_withdrawal_amount
    }

    /// Whether the configuration is for the pair of `base` and `quote`.
    pub open spec fn is_pair(self, base: AssetId, quote: AssetId) -> bool {
        self.base_asset == base && self.quote_asset == quote
    }

    /// Decides `self.bounds_hold()`.
    pub fn has_valid_bounds(&self) -> (valid: bool)
        ensures
            valid == self.bounds_hold(),
    {
        self.min_trade_amount <= self.max_trade_amount && self.min_order_qty
            <= self.max_order_qty && self.min_deposit_amount <= self.max_deposit_amount
            && self.min_withdrawal_amount <= self.max_withdrawal_amount
    }

    /// Decides `self.is_pair(*base, *quote)`.
    pub fn trades(&self, base: &AssetId, quote: &AssetId) -> (yes: bool)
        ensures
            yes == self.is_pair(*base, *quote),
    {
        self.base_asset == *base && self.quote_asset == *quote
    }
}

} // verus!
