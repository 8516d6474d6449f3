//! The encoding of the exchange's structures as bytes: the fields of a structure in their
//! order, a list as its length in compact form and then its items, a choice as the index of
//! the variant and then its fields. For each structure: its bytes, what is read back from
//! bytes, and that reading the bytes of a value gives the value.

use vstd::prelude::*;
use crate::assets::AssetId;
use crate::balances::{BalanceEntry, Balances};
use crate::bounded::{
    accounts_try_from, proxies_empty, proxies_try_push, proxy_seq, withdrawals_try_from,
    PROXY_LIMIT, SNAPSHOT_ACCOUNT_LIMIT, WITHDRAWAL_LIMIT,
};
use crate::crypto::Signature;
use crate::error::Error;
use crate::fees::FeeConfig;
use crate::ocex::{AccountInfo, AccountInfoView, TradingPairConfig};
use crate::scale::{
    compact_bytes, le_bytes, lemma_parse_compact, lemma_parse_u128, lemma_parse_u32,
    parse_compact, parse_u128, parse_u32, put_bytes, put_compact, put_u128, put_u32,
    take_compact, take_u128, take_u32,
};
use crate::snapshot::{
    account_views, accounts_ascending, EnclaveAccountInfoDump, EnclaveAccountInfoDumpView,
    EnclaveSnapshot, EnclaveSnapshotView, ACCOUNT_DUMP_LIMIT,
};
use crate::types::{AccountId, Balance, H256};
use crate::withdrawal::Withdrawal;

verus! {

/// What reading a value from the start of some bytes gives: the value and the bytes that
/// follow it, or nothing where the bytes do not start with a value.
pub type Parsed<T> = Option<(T, Seq<u8>)>;

/// The bytes of each item, one after the other.
pub open spec fn concat<T>(items: Seq<T>, each: spec_fn(T) -> Seq<u8>) -> Seq<u8>
    decreases items.len(),
{
    if items.len() == 0 {
        Seq::empty()
    } else {
        each(items[0]) + concat(items.skip(1), each)
    }
}

/// The bytes of a list: the number of items in compact form, then the items.
pub open spec fn list_bytes<T>(items: Seq<T>, each: spec_fn(T) -> Seq<u8>) -> Seq<u8> {
    compact_bytes(items.len() as u32) + concat(items, each)
}

/// Reads `count` items, one after the other.
pub open spec fn parse_items<T>(
    bytes: Seq<u8>,
    count: nat,
    one: spec_fn(Seq<u8>) -> Parsed<T>,
) -> Parsed<Seq<T>>
    decreases count,
{
    if count == 0 {
        Some((Seq::empty(), bytes))
    } else {
        match one(bytes) {
            Some((first, rest)) => match parse_items(rest, (count - 1) as nat, one) {
                Some((others, rest)) => Some((seq![first] + others, rest)),
                None => None,
            },
            None => None,
        }
    }
}

/// Reads a list of at most `limit` items: the number of items in compact form, then the
/// items.
pub open spec fn parse_list<T>(bytes: Seq<u8>, one: spec_fn(Seq<u8>) -> Parsed<T>, limit: nat) -> Parsed<
    Seq<T>,
> {
    match parse_compact(bytes) {
        Some((count, rest)) => if count <= limit {
            parse_items(rest, count as nat, one)
        } else {
            None
        },
        None => None,
    }
}

/// Joining bytes in two steps gives the same whichever join is made first.
pub proof fn lemma_join(a: Seq<u8>, b: Seq<u8>, c: Seq<u8>)
    ensures
        (a + b) + c == a + (b + c),
{
    assert((a + b) + c =~= a + (b + c));
}

/// The bytes of a longer list are those of the list before its last item, then those of the
/// last item.
pub proof fn lemma_concat_push<T>(items: Seq<T>, last: T, each: spec_fn(T) -> Seq<u8>)
    ensures
        concat(items.push(last), each) == concat(items, each) + each(last),
    decreases items.len(),
{
    let longer = items.push(last);
    if items.len() == 0 {
        assert(longer.skip(1) =~= Seq::<T>::empty());
        assert(concat(longer.skip(1), each) =~= Seq::<u8>::empty());
        assert(concat(longer, each) =~= each(last));
        assert(concat(items, each) + each(last) =~= each(last));
    } else {
        assert(longer.skip(1) =~= items.skip(1).push(last));
        lemma_concat_push(items.skip(1), last, each);
        assert(concat(longer, each) =~= concat(items, each) + each(last));
    }
}

/// Reading the bytes of items back gives the items, where reading the bytes of each gives
/// it.
pub proof fn lemma_parse_items<T>(
    items: Seq<T>,
    each: spec_fn(T) -> Seq<u8>,
    one: spec_fn(Seq<u8>) -> Parsed<T>,
    rest: Seq<u8>,
)
    requires
        forall|i: int, after: Seq<u8>|
            0 <= i < items.len() ==> #[trigger] one(each(items[i]) + after) == Some(
                (items[i], after),
            ),
    ensures
        parse_items(concat(items, each) + rest, items.len(), one) == Some((items, rest)),
    decreases items.len(),
{
    if items.len() == 0 {
        assert(concat(items, each) + rest =~= rest);
        assert(items =~= Seq::<T>::empty());
    } else {
        let tail = items.skip(1);
        assert forall|i: int, after: Seq<u8>| 0 <= i < tail.len() implies #[trigger] one(
            each(tail[i]) + after,
        ) == Some((tail[i], after)) by {
            assert(tail[i] == items[i + 1]);
        }
        lemma_parse_items(tail, each, one, rest);
        let after = concat(tail, each) + rest;
        assert(concat(items, each) + rest =~= each(items[0]) + after);
        assert(one(each(items[0]) + after) == Some((items[0], after)));
        assert(seq![items[0]] + tail =~= items);
    }
}

/// Reading the bytes of a list back gives the list, where reading the bytes of each item
/// gives it and the list is within the limit.
pub proof fn lemma_parse_list<T>(
    items: Seq<T>,
    each: spec_fn(T) -> Seq<u8>,
    one: spec_fn(Seq<u8>) -> Parsed<T>,
    limit: nat,
    rest: Seq<u8>,
)
    requires
        items.len() <= limit,
        items.len() <= u32::MAX,
        forall|i: int, after: Seq<u8>|
            0 <= i < items.len() ==> #[trigger] one(each(items[i]) + after) == Some(
                (items[i], after),
            ),
    ensures
        parse_list(list_bytes(items, each) + rest, one, limit) == Some((items, rest)),
{
    let after = concat(items, each) + rest;
    assert(list_bytes(items, each) + rest =~= compact_bytes(items.len() as u32) + after);
    lemma_parse_compact(items.len() as u32, after);
    lemma_parse_items(items, each, one, rest);
}

/// One more item read: what the whole reads as, told from what the rest reads as.
pub proof fn lemma_parse_items_step<T>(
    bytes: Seq<u8>,
    count: nat,
    one: spec_fn(Seq<u8>) -> Parsed<T>,
)
    requires
        count > 0,
    ensures
        parse_items(bytes, count, one) == (match one(bytes) {
            Some((first, rest)) => match parse_items(rest, (count - 1) as nat, one) {
                Some((others, rest)) => Some((seq![first] + others, rest)),
                None => None,
            },
            None => None,
        }),
{
}

/// What reading `count` items from `start` gives, told from the items `done` that were read
/// up to `bytes` and the `left` items that are still to read.
pub open spec fn resumed<T>(
    done: Seq<T>,
    bytes: Seq<u8>,
    left: nat,
    one: spec_fn(Seq<u8>) -> Parsed<T>,
) -> Parsed<Seq<T>> {
    match parse_items(bytes, left, one) {
        Some((others, rest)) => Some((done + others, rest)),
        None => None,
    }
}

/// Reading one more item does not change what the whole reads as.
pub proof fn lemma_resumed_step<T>(
    done: Seq<T>,
    bytes: Seq<u8>,
    left: nat,
    one: spec_fn(Seq<u8>) -> Parsed<T>,
)
    requires
        left > 0,
    ensures
        one(bytes) is None ==> resumed(done, bytes, left, one) is None,
        one(bytes) matches Some(pair) ==> resumed(done, bytes, left, one) == resumed(
            done.push(pair.0),
            pair.1,
            (left - 1) as nat,
            one,
        ),
{
    lemma_parse_items_step(bytes, left, one);
    if let Some(pair) = one(bytes) {
        if let Some((others, rest)) = parse_items(pair.1, (left - 1) as nat, one) {
            assert(done + (seq![pair.0] + others) =~= done.push(pair.0) + others);
        }
    }
}

/// Before any item is read, nothing is done and all is left.
pub proof fn lemma_resumed_start<T>(bytes: Seq<u8>, count: nat, one: spec_fn(Seq<u8>) -> Parsed<T>)
    ensures
        parse_items(bytes, count, one) == resumed(Seq::<T>::empty(), bytes, count, one),
{
    if let Some((others, rest)) = parse_items(bytes, count, one) {
        assert(Seq::<T>::empty() + others =~= others);
    }
}

/// With no item left, what was read is the items that are done.
pub proof fn lemma_resumed_end<T>(done: Seq<T>, bytes: Seq<u8>, one: spec_fn(Seq<u8>) -> Parsed<T>)
    ensures
        resumed(done, bytes, 0, one) == Some((done, bytes)),
{
    assert(done + Seq::<T>::empty() =~= done);
}

/// The thirty-two bytes as an account identifier.
pub open spec fn account_id_of(bytes: Seq<u8>) -> AccountId {
    choose|account: AccountId| account.bytes@ == bytes
}

/// The bytes of an account identifier: its thirty-two bytes.
pub open spec fn account_id_bytes() -> spec_fn(AccountId) -> Seq<u8> {
    |account: AccountId| account.bytes@
}

/// Reads an account identifier: thirty-two bytes.
pub open spec fn parse_account_id() -> spec_fn(Seq<u8>) -> Parsed<AccountId> {
    |bytes: Seq<u8>|
        if bytes.len() >= 32 {
            Some((account_id_of(bytes.take(32)), bytes.skip(32)))
        } else {
            None
        }
}

/// Reading the bytes of an account identifier back gives it.
pub proof fn lemma_parse_account_id(account: AccountId, rest: Seq<u8>)
    ensures
        parse_account_id()(account_id_bytes()(account) + rest) == Some((account, rest)),
{
    let all = account.bytes@ + rest;
    assert(all.take(32) =~= account.bytes@);
    assert(all.skip(32) =~= rest);
    lemma_account_id_of(account);
}

/// An account identifier is the one that its bytes stand for.
pub proof fn lemma_account_id_of(account: AccountId)
    ensures
        account_id_of(account.bytes@) == account,
{
    let found = account_id_of(account.bytes@);
    assert(found.bytes@ == account.bytes@);
    assert(found.bytes =~= account.bytes);
}

/// Copies the first thirty-two bytes of `input`, if it has as many.
pub fn take_array32(input: &[u8]) -> (read: Option<([u8; 32], &[u8])>)
    ensures
        read is Some <==> input@.len() >= 32,
        read matches Some(pair) ==> pair.0@ == input@.take(32) && pair.1@ == input@.skip(32),
{
    if input.len() < 32 {
        return None;
    }
    let mut bytes = [0u8; 32];
    let mut i: usize = 0;
    while i < 32
        invariant
            i <= 32,
            input@.len() >= 32,
            forall|k: int| 0 <= k < i ==> bytes@[k] == input@[k],
        decreases 32 - i,
    {
        bytes[i] = input[i];
        i += 1;
    }
    assert(bytes@ =~= input@.take(32));
    let rest = vstd::slice::slice_subrange(input, 32, input.len());
    assert(rest@ =~= input@.skip(32));
    Some((bytes, rest))
}

/// Reads an account identifier from the start of `input`.
pub fn take_account_id(input: &[u8]) -> (read: Result<(AccountId, &[u8]), Error>)
    ensures
        read is Ok <==> parse_account_id()(input@) is Some,
        read matches Ok(pair) ==> parse_account_id()(input@) == Some((pair.0, pair.1@)),
        read matches Err(e) ==> e == Error::Malformed,
{
    match take_array32(input) {
        Some((bytes, rest)) => {
            let account = AccountId { bytes };
            proof {
                lemma_account_id_of(account);
            }
            Ok((account, rest))
        },
        None => Err(Error::Malformed),
    }
}

/// The bytes of an asset: 0 for the native currency; 1 and the sixteen bytes of the number
/// for an enumerated asset.
pub open spec fn asset_bytes(asset: AssetId) -> Seq<u8> {
    match asset {
        AssetId::Polkadex => seq![0u8],
        AssetId::Asset(number) => seq![1u8] + le_bytes(number as nat, 16),
    }
}

/// Reads an asset.
pub open spec fn parse_asset(bytes: Seq<u8>) -> Parsed<AssetId> {
    if bytes.len() == 0 {
        None
    } else if bytes[0] == 0 {
        Some((AssetId::Polkadex, bytes.skip(1)))
    } else if bytes[0] == 1 {
        match parse_u128(bytes.skip(1)) {
            Some((number, rest)) => Some((AssetId::Asset(number), rest)),
            None => None,
        }
    } else {
        None
    }
}

/// Reading the bytes of an asset back gives it.
pub proof fn lemma_parse_asset(asset: AssetId, rest: Seq<u8>)
    ensures
        parse_asset(asset_bytes(asset) + rest) == Some((asset, rest)),
{
    let all = asset_bytes(asset) + rest;
    match asset {
        AssetId::Polkadex => {
            assert(all.skip(1) =~= rest);
        },
        AssetId::Asset(number) => {
            assert(all[0] == 1u8);
            assert(all.skip(1) =~= le_bytes(number as nat, 16) + rest);
            lemma_parse_u128(number, rest);
        },
    }
}

/// Appends the bytes of an asset.
pub fn put_asset(out: &mut Vec<u8>, asset: &AssetId)
    ensures
        final(out)@ == old(out)@ + asset_bytes(*asset),
{
    match asset {
        AssetId::Polkadex => {
            out.push(0u8);
            assert(out@ =~= old(out)@ + asset_bytes(*asset));
        },
        AssetId::Asset(number) => {
            out.push(1u8);
            put_u128(out, *number);
            assert(out@ =~= old(out)@ + asset_bytes(*asset));
        },
    }
}

/// Reads an asset from the start of `input`.
pub fn take_asset(input: &[u8]) -> (read: Result<(AssetId, &[u8]), Error>)
    ensures
        read is Ok <==> parse_asset(input@) is Some,
        read matches Ok(pair) ==> parse_asset(input@) == Some((pair.0, pair.1@)),
        read matches Err(e) ==> e == Error::Malformed,
{
    if input.len() == 0 {
        return Err(Error::Malformed);
    }
    let tag = input[0];
    let rest = vstd::slice::slice_subrange(input, 1, input.len());
    assert(rest@ =~= input@.skip(1));
    if tag == 0 {
        Ok((AssetId::Polkadex, rest))
    } else if tag == 1 {
        let (number, rest) = take_u128(rest)?;
        Ok((AssetId::Asset(number), rest))
    } else {
        Err(Error::Malformed)
    }
}

/// The bytes of a balance entry: the asset, the free amount, the reserved amount.
pub open spec fn balance_entry_bytes() -> spec_fn(BalanceEntry) -> Seq<u8> {
    |entry: BalanceEntry|
        asset_bytes(entry.asset) + le_bytes(entry.free as nat, 16) + le_bytes(
            entry.reserved as nat,
            16,
        )
}

/// Reads a balance entry.
pub open spec fn parse_balance_entry() -> spec_fn(Seq<u8>) -> Parsed<BalanceEntry> {
    |bytes: Seq<u8>|
        match parse_asset(bytes) {
            Some((asset, rest)) => match parse_u128(rest) {
                Some((free, rest)) => match parse_u128(rest) {
                    Some((reserved, rest)) => Some((BalanceEntry { asset, free, reserved }, rest)),
                    None => None,
                },
                None => None,
            },
            None => None,
        }
}

/// Reading the bytes of a balance entry back gives it.
pub proof fn lemma_parse_balance_entry(entry: BalanceEntry, rest: Seq<u8>)
    ensures
        parse_balance_entry()(balance_entry_bytes()(entry) + rest) == Some((entry, rest)),
{
    let after_free = le_bytes(entry.reserved as nat, 16) + rest;
    let after_asset = le_bytes(entry.free as nat, 16) + after_free;
    assert(balance_entry_bytes()(entry) + rest == asset_bytes(entry.asset) + after_asset) by {
        let a = asset_bytes(entry.asset);
        let b = le_bytes(entry.free as nat, 16);
        lemma_join(a + b, le_bytes(entry.reserved as nat, 16), rest);
        lemma_join(a, b, after_free);
    }
    lemma_parse_asset(entry.asset, after_asset);
    lemma_parse_u128(entry.free, after_free);
    lemma_parse_u128(entry.reserved, rest);
}

/// Appends the bytes of a balance entry.
pub fn put_balance_entry(out: &mut Vec<u8>, entry: &BalanceEntry)
    ensures
        final(out)@ == old(out)@ + balance_entry_bytes()(*entry),
{
    put_asset(out, &entry.asset);
    put_u128(out, entry.free);
    put_u128(out, entry.reserved);
    assert(out@ =~= old(out)@ + balance_entry_bytes()(*entry));
}

/// Reads a balance entry from the start of `input`.
pub fn take_balance_entry(input: &[u8]) -> (read: Result<(BalanceEntry, &[u8]), Error>)
    ensures
        read is Ok <==> parse_balance_entry()(input@) is Some,
        read matches Ok(pair) ==> parse_balance_entry()(input@) == Some((pair.0, pair.1@)),
        read matches Err(e) ==> e == Error::Malformed,
{
    let (asset, rest) = take_asset(input)?;
    let (free, rest) = take_u128(rest)?;
    let (reserved, rest) = take_u128(rest)?;
    Ok((BalanceEntry { asset, free, reserved }, rest))
}

/// Appends the bytes of a list of account identifiers.
pub fn put_account_ids(out: &mut Vec<u8>, accounts: &[AccountId])
    requires
        accounts@.len() <= u32::MAX,
    ensures
        final(out)@ == old(out)@ + list_bytes(accounts@, account_id_bytes()),
{
    put_compact(out, accounts.len() as u32);
    let ghost start = out@;
    let mut i: usize = 0;
    while i < accounts.len()
        invariant
            i <= accounts.len(),
            out@ == start + concat(accounts@.take(i as int), account_id_bytes()),
        decreases accounts.len() - i,
    {
        put_bytes(out, accounts[i].bytes.as_slice());
        proof {
            lemma_concat_push(accounts@.take(i as int), accounts@[i as int], account_id_bytes());
            assert(accounts@.take(i + 1) =~= accounts@.take(i as int).push(accounts@[i as int]));
            assert(out@ =~= start + concat(accounts@.take(i + 1), account_id_bytes()));
        }
        i += 1;
    }
    assert(accounts@.take(accounts@.len() as int) =~= accounts@);
    assert(out@ =~= old(out)@ + list_bytes(accounts@, account_id_bytes()));
}

/// Reads a list of at most `limit` account identifiers from the start of `input`.
pub fn take_account_ids(input: &[u8], limit: u32) -> (read: Result<(Vec<AccountId>, &[u8]), Error>)
    ensures
        read is Ok <==> parse_list(input@, parse_account_id(), limit as nat) is Some,
        read matches Ok(pair) ==> parse_list(input@, parse_account_id(), limit as nat) == Some(
            (pair.0@, pair.1@),
        ) && pair.0@.len() <= limit,
        read matches Err(e) ==> e == Error::Malformed,
{
    let (count, start) = take_compact(input)?;
    if count > limit {
        return Err(Error::Malformed);
    }
    let mut accounts: Vec<AccountId> = Vec::new();
    let mut rest = start;
    let mut i: u32 = 0;
    proof {
        lemma_resumed_start(rest@, count as nat, parse_account_id());
    }
    while i < count
        invariant
            i <= count,
            count <= limit,
            accounts@.len() == i,
            parse_list(input@, parse_account_id(), limit as nat) == parse_items(
                start@,
                count as nat,
                parse_account_id(),
            ),
            parse_items(start@, count as nat, parse_account_id()) == resumed(
                accounts@,
                rest@,
                (count - i) as nat,
                parse_account_id(),
            ),
        decreases count - i,
    {
        proof {
            lemma_resumed_step(accounts@, rest@, (count - i) as nat, parse_account_id());
        }
        let (account, after) = take_account_id(rest)?;
        accounts.push(account);
        rest = after;
        i += 1;
    }
    proof {
        lemma_resumed_end(accounts@, rest@, parse_account_id());
    }
    Ok((accounts, rest))
}

/// Appends the bytes of a list of balance entries.
pub fn put_balance_entries(out: &mut Vec<u8>, entries: &[BalanceEntry])
    requires
        entries@.len() <= u32::MAX,
    ensures
        final(out)@ == old(out)@ + list_bytes(entries@, balance_entry_bytes()),
{
    put_compact(out, entries.len() as u32);
    let ghost start = out@;
    let mut i: usize = 0;
    while i < entries.len()
        invariant
            i <= entries.len(),
            out@ == start + concat(entries@.take(i as int), balance_entry_bytes()),
        decreases entries.len() - i,
    {
        put_balance_entry(out, &entries[i]);
        proof {
            lemma_concat_push(entries@.take(i as int), entries@[i as int], balance_entry_bytes());
            assert(entries@.take(i + 1) =~= entries@.take(i as int).push(entries@[i as int]));
            assert(out@ =~= start + concat(entries@.take(i + 1), balance_entry_bytes()));
        }
        i += 1;
    }
    assert(entries@.take(entries@.len() as int) =~= entries@);
    assert(out@ =~= old(out)@ + list_bytes(entries@, balance_entry_bytes()));
}

/// Reads a list of balance entries from the start of `input`.
pub fn take_balance_entries(input: &[u8]) -> (read: Result<(Vec<BalanceEntry>, &[u8]), Error>)
    ensures
        read is Ok <==> parse_list(input@, parse_balance_entry(), u32::MAX as nat) is Some,
        read matches Ok(pair) ==> parse_list(input@, parse_balance_entry(), u32::MAX as nat)
            == Some((pair.0@, pair.1@)),
        read matches Err(e) ==> e == Error::Malformed,
{
    let (count, start) = take_compact(input)?;
    let mut entries: Vec<BalanceEntry> = Vec::new();
    let mut rest = start;
    let mut i: u32 = 0;
    proof {
        lemma_resumed_start(rest@, count as nat, parse_balance_entry());
    }
    while i < count
        invariant
            i <= count,
            entries@.len() == i,
            parse_list(input@, parse_balance_entry(), u32::MAX as nat) == parse_items(
                start@,
                count as nat,
                parse_balance_entry(),
            ),
            parse_items(start@, count as nat, parse_balance_entry()) == resumed(
                entries@,
                rest@,
                (count - i) as nat,
                parse_balance_entry(),
            ),
        decreases count - i,
    {
        proof {
            lemma_resumed_step(entries@, rest@, (count - i) as nat, parse_balance_entry());
        }
        let (entry, after) = take_balance_entry(rest)?;
        entries.push(entry);
        rest = after;
        i += 1;
    }
    proof {
        lemma_resumed_end(entries@, rest@, parse_balance_entry());
    }
    Ok((entries, rest))
}

/// The bytes of an account record: the main account, the proxies, the nonce, the balances,
/// the maker and taker fractions, the fees paid in the base and in the quote asset, and the
/// final score.
pub open spec fn account_bytes() -> spec_fn(AccountInfoView) -> Seq<u8> {
    |account: AccountInfoView|
        account.main_account.bytes@ + list_bytes(account.proxies, account_id_bytes()) + le_bytes(
            account.nonce as nat,
            4,
        ) + list_bytes(account.balances, balance_entry_bytes()) + le_bytes(
            account.fee_config.maker_fraction as nat,
            16,
        ) + le_bytes(account.fee_config.taker_fraction as nat, 16) + le_bytes(
            account.fee_paid_base_asset as nat,
            16,
        ) + le_bytes(account.fee_paid_quote_asset as nat, 16) + le_bytes(
            account.q_final as nat,
            16,
        )
}

/// Reads the five amounts that end an account record.
pub open spec fn parse_account_amounts(bytes: Seq<u8>) -> Parsed<
    (Balance, Balance, Balance, Balance, Balance),
> {
    match parse_u128(bytes) {
        Some((maker, rest)) => match parse_u128(rest) {
            Some((taker, rest)) => match parse_u128(rest) {
                Some((base, rest)) => match parse_u128(rest) {
                    Some((quote, rest)) => match parse_u128(rest) {
                        Some((score, rest)) => Some(((maker, taker, base, quote, score), rest)),
                        None => None,
                    },
                    None => None,
                },
                None => None,
            },
            None => None,
        },
        None => None,
    }
}

/// Reads an account record. The proxies must be within their limit, and the balances in
/// ascending order of asset.
pub open spec fn parse_account() -> spec_fn(Seq<u8>) -> Parsed<AccountInfoView> {
    |bytes: Seq<u8>|
        match parse_account_id()(bytes) {
            Some((main_account, rest)) => match parse_list(
                rest,
                parse_account_id(),
                PROXY_LIMIT as nat,
            ) {
                Some((proxies, rest)) => match parse_u32(rest) {
                    Some((nonce, rest)) => match parse_list(
                        rest,
                        parse_balance_entry(),
                        u32::MAX as nat,
                    ) {
                        Some((balances, rest)) => match parse_account_amounts(rest) {
                            Some((amounts, rest)) => if Balances::admits(balances) {
                                Some(
                                    (
                                        AccountInfoView {
                                            main_account,
                                            proxies,
                                            nonce,
                                            balances,
                                            fee_config: FeeConfig {
                                                maker_fraction: amounts.0,
                                                taker_fraction: amounts.1,
                                            },
                                            fee_paid_base_asset: amounts.2,
                                            fee_paid_quote_asset: amounts.3,
                                            q_final: amounts.4,
                                        },
                                        rest,
                                    ),
                                )
                            } else {
                                None
                            },
                            None => None,
                        },
                        None => None,
                    },
                    None => None,
                },
                None => None,
            },
            None => None,
        }
}

/// Reading the bytes of a well-formed account record back gives it.
pub proof fn lemma_parse_account(account: AccountInfoView, rest: Seq<u8>)
    requires
        account.well_formed(),
    ensures
        parse_account()(account_bytes()(account) + rest) == Some((account, rest)),
{
    let t8 = le_bytes(account.q_final as nat, 16) + rest;
    let t7 = le_bytes(account.fee_paid_quote_asset as nat, 16) + t8;
    let t6 = le_bytes(account.fee_paid_base_asset as nat, 16) + t7;
    let t5 = le_bytes(account.fee_config.taker_fraction as nat, 16) + t6;
    let t4 = le_bytes(account.fee_config.maker_fraction as nat, 16) + t5;
    let t3 = list_bytes(account.balances, balance_entry_bytes()) + t4;
    let t2 = le_bytes(account.nonce as nat, 4) + t3;
    let t1 = list_bytes(account.proxies, account_id_bytes()) + t2;
    assert(account_bytes()(account) + rest == account.main_account.bytes@ + t1) by {
        let a = account.main_account.bytes@;
        let b = list_bytes(account.proxies, account_id_bytes());
        let c = le_bytes(account.nonce as nat, 4);
        let d = list_bytes(account.balances, balance_entry_bytes());
        let e = le_bytes(account.fee_config.maker_fraction as nat, 16);
        let f = le_bytes(account.fee_config.taker_fraction as nat, 16);
        let g = le_bytes(account.fee_paid_base_asset as nat, 16);
        let h = le_bytes(account.fee_paid_quote_asset as nat, 16);
        lemma_join(a + b + c + d + e + f + g + h, le_bytes(account.q_final as nat, 16), rest);
        lemma_join(a + b + c + d + e + f + g, h, t8);
        lemma_join(a + b + c + d + e + f, g, t7);
        lemma_join(a + b + c + d + e, f, t6);
        lemma_join(a + b + c + d, e, t5);
        lemma_join(a + b + c, d, t4);
        lemma_join(a + b, c, t3);
        lemma_join(a, b, t2);
    }
    lemma_parse_account_id(account.main_account, t1);
    assert forall|i: int, after: Seq<u8>|
        0 <= i < account.proxies.len() implies #[trigger] parse_account_id()(
        account_id_bytes()(account.proxies[i]) + after,
    ) == Some((account.proxies[i], after)) by {
        lemma_parse_account_id(account.proxies[i], after);
    }
    lemma_parse_list(account.proxies, account_id_bytes(), parse_account_id(), PROXY_LIMIT as nat, t2);
    lemma_parse_u32(account.nonce, t3);
    assert forall|i: int, after: Seq<u8>|
        0 <= i < account.balances.len() implies #[trigger] parse_balance_entry()(
        balance_entry_bytes()(account.balances[i]) + after,
    ) == Some((account.balances[i], after)) by {
        lemma_parse_balance_entry(account.balances[i], after);
    }
    lemma_parse_list(
        account.balances,
        balance_entry_bytes(),
        parse_balance_entry(),
        u32::MAX as nat,
        t4,
    );
    lemma_parse_u128(account.fee_config.maker_fraction, t5);
    lemma_parse_u128(account.fee_config.taker_fraction, t6);
    lemma_parse_u128(account.fee_paid_base_asset, t7);
    lemma_parse_u128(account.fee_paid_quote_asset, t8);
    lemma_parse_u128(account.q_final, rest);
}

/// Appends the bytes of an account record.
pub fn put_account(out: &mut Vec<u8>, account: &AccountInfo)
    ensures
        final(out)@ == old(out)@ + account_bytes()(account@),
{
    account.validity();
    put_bytes(out, account.main_account.bytes.as_slice());
    put_account_ids(out, account.proxy_list());
    put_u32(out, account.nonce);
    put_balance_entries(out, account.balances.entries());
    put_u128(out, account.fee_config.maker_fraction);
    put_u128(out, account.fee_config.taker_fraction);
    put_u128(out, account.fee_paid_base_asset);
    put_u128(out, account.fee_paid_quote_asset);
    put_u128(out, account.q_final);
    assert(out@ =~= old(out)@ + account_bytes()(account@));
}

/// Reads an account record from the start of `input`.
pub fn take_account(input: &[u8]) -> (read: Result<(AccountInfo, &[u8]), Error>)
    ensures
        read is Ok <==> parse_account()(input@) is Some,
        read matches Ok(pair) ==> parse_account()(input@) == Some((pair.0@, pair.1@)),
        read matches Err(e) ==> e == Error::Malformed,
{
    let (main_account, rest) = take_account_id(input)?;
    let (proxy_list, rest) = take_account_ids(rest, PROXY_LIMIT)?;
    let (nonce, rest) = take_u32(rest)?;
    let (entries, rest) = take_balance_entries(rest)?;
    let (maker_fraction, rest) = take_u128(rest)?;
    let (taker_fraction, rest) = take_u128(rest)?;
    let (fee_paid_base_asset, rest) = take_u128(rest)?;
    let (fee_paid_quote_asset, rest) = take_u128(rest)?;
    let (q_final, rest) = take_u128(rest)?;
    let balances = match Balances::from_entries(entries) {
        Some(balances) => balances,
        None => {
            return Err(Error::Malformed);
        },
    };
    let mut proxies = proxies_empty();
    let mut i: usize = 0;
    while i < proxy_list.len()
        invariant
            i <= proxy_list.len(),
            proxy_list@.len() <= PROXY_LIMIT,
            proxy_seq(proxies) == proxy_list@.take(i as int),
        decreases proxy_list.len() - i,
    {
        let _ = proxies_try_push(&mut proxies, proxy_list[i]);
        assert(proxy_seq(proxies) =~= proxy_list@.take(i + 1));
        i += 1;
    }
    assert(proxy_list@.take(proxy_list@.len() as int) =~= proxy_list@);
    let account = AccountInfo {
        main_account,
        proxies,
        nonce,
        balances,
        fee_config: FeeConfig { maker_fraction, taker_fraction },
        fee_paid_base_asset,
        fee_paid_quote_asset,
        q_final,
    };
    Ok((account, rest))
}

impl AccountInfo {
    /// The bytes of the record.
    pub fn encode(&self) -> (bytes: Vec<u8>)
        ensures
            bytes@ == account_bytes()(self@),
    {
        let mut bytes: Vec<u8> = Vec::new();
        put_account(&mut bytes, self);
        assert(bytes@ =~= account_bytes()(self@));
        bytes
    }

    /// The record that `bytes` start with. Bytes after it are not looked at.
    pub fn decode(bytes: &[u8]) -> (read: Result<AccountInfo, Error>)
        ensures
            read is Ok <==> parse_account()(bytes@) is Some,
            read matches Ok(account) ==> parse_account()(bytes@).unwrap().0 == account@,
            read matches Err(e) ==> e == Error::Malformed,
    {
        let (account, _) = take_account(bytes)?;
        Ok(account)
    }
}

/// Decoding the bytes of an account record gives the record back.
pub proof fn lemma_account_round_trip(account: AccountInfoView)
    requires
        account.well_formed(),
    ensures
        parse_account()(account_bytes()(account)) == Some((account, Seq::<u8>::empty())),
{
    lemma_parse_account(account, Seq::empty());
    assert(account_bytes()(account) + Seq::<u8>::empty() =~= account_bytes()(account));
}

/// The bytes of a withdrawal: the main account, the amount, the asset.
pub open spec fn withdrawal_bytes() -> spec_fn(Withdrawal) -> Seq<u8> {
    |withdrawal: Withdrawal|
        withdrawal.main_account.bytes@ + le_bytes(withdrawal.amount as nat, 16) + asset_bytes(
            withdrawal.asset,
        )
}

/// Reads a withdrawal.
pub open spec fn parse_withdrawal() -> spec_fn(Seq<u8>) -> Parsed<Withdrawal> {
    |bytes: Seq<u8>|
        match parse_account_id()(bytes) {
            Some((main_account, rest)) => match parse_u128(rest) {
                Some((amount, rest)) => match parse_asset(rest) {
                    Some((asset, rest)) => Some((Withdrawal { main_account, amount, asset }, rest)),
                    None => None,
                },
                None => None,
            },
            None => None,
        }
}

/// Reading the bytes of a withdrawal back gives it.
pub proof fn lemma_parse_withdrawal(withdrawal: Withdrawal, rest: Seq<u8>)
    ensures
        parse_withdrawal()(withdrawal_bytes()(withdrawal) + rest) == Some((withdrawal, rest)),
{
    let after_amount = asset_bytes(withdrawal.asset) + rest;
    let after_account = le_bytes(withdrawal.amount as nat, 16) + after_amount;
    assert(withdrawal_bytes()(withdrawal) + rest == withdrawal.main_account.bytes@
        + after_account) by {
        let a = withdrawal.main_account.bytes@;
        let b = le_bytes(withdrawal.amount as nat, 16);
        lemma_join(a + b, asset_bytes(withdrawal.asset), rest);
        lemma_join(a, b, after_amount);
    }
    lemma_parse_account_id(withdrawal.main_account, after_account);
    lemma_parse_u128(withdrawal.amount, after_amount);
    lemma_parse_asset(withdrawal.asset, rest);
}

/// Appends the bytes of a withdrawal.
pub fn put_withdrawal(out: &mut Vec<u8>, withdrawal: &Withdrawal)
    ensures
        final(out)@ == old(out)@ + withdrawal_bytes()(*withdrawal),
{
    put_bytes(out, withdrawal.main_account.bytes.as_slice());
    put_u128(out, withdrawal.amount);
    put_asset(out, &withdrawal.asset);
    assert(out@ =~= old(out)@ + withdrawal_bytes()(*withdrawal));
}

/// Reads a withdrawal from the start of `input`.
pub fn take_withdrawal(input: &[u8]) -> (read: Result<(Withdrawal, &[u8]), Error>)
    ensures
        read is Ok <==> parse_withdrawal()(input@) is Some,
        read matches Ok(pair) ==> parse_withdrawal()(input@) == Some((pair.0, pair.1@)),
        read matches Err(e) ==> e == Error::Malformed,
{
    let (main_account, rest) = take_account_id(input)?;
    let (amount, rest) = take_u128(rest)?;
    let (asset, rest) = take_asset(rest)?;
    Ok((Withdrawal { main_account, amount, asset }, rest))
}

impl Withdrawal {
    /// The bytes of the withdrawal.
    pub fn encode(&self) -> (bytes: Vec<u8>)
        ensures
            bytes@ == withdrawal_bytes()(*self),
    {
        let mut bytes: Vec<u8> = Vec::new();
        put_withdrawal(&mut bytes, self);
        assert(bytes@ =~= withdrawal_bytes()(*self));
        bytes
    }

    /// The withdrawal that `bytes` start with. Bytes after it are not looked at.
    pub fn decode(bytes: &[u8]) -> (read: Result<Withdrawal, Error>)
        ensures
            read is Ok <==> parse_withdrawal()(bytes@) is Some,
            read matches Ok(withdrawal) ==> parse_withdrawal()(bytes@).unwrap().0 == withdrawal,
            read matches Err(e) ==> e == Error::Malformed,
    {
        let (withdrawal, _) = take_withdrawal(bytes)?;
        Ok(withdrawal)
    }
}

/// Decoding the bytes of a withdrawal gives the withdrawal back.
pub proof fn lemma_withdrawal_round_trip(withdrawal: Withdrawal)
    ensures
        parse_withdrawal()(withdrawal_bytes()(withdrawal)) == Some(
            (withdrawal, Seq::<u8>::empty()),
        ),
{
    lemma_parse_withdrawal(withdrawal, Seq::empty());
    assert(withdrawal_bytes()(withdrawal) + Seq::<u8>::empty() =~= withdrawal_bytes()(
        withdrawal,
    ));
}

/// Appends the bytes of a list of withdrawals.
pub fn put_withdrawals(out: &mut Vec<u8>, withdrawals: &[Withdrawal])
    requires
        withdrawals@.len() <= u32::MAX,
    ensures
        final(out)@ == old(out)@ + list_bytes(withdrawals@, withdrawal_bytes()),
{
    put_compact(out, withdrawals.len() as u32);
    let ghost start = out@;
    let mut i: usize = 0;
    while i < withdrawals.len()
        invariant
            i <= withdrawals.len(),
            out@ == start + concat(withdrawals@.take(i as int), withdrawal_bytes()),
        decreases withdrawals.len() - i,
    {
        put_withdrawal(out, &withdrawals[i]);
        proof {
            lemma_concat_push(
                withdrawals@.take(i as int),
                withdrawals@[i as int],
                withdrawal_bytes(),
            );
            assert(withdrawals@.take(i + 1) =~= withdrawals@.take(i as int).push(
                withdrawals@[i as int],
            ));
            assert(out@ =~= start + concat(withdrawals@.take(i + 1), withdrawal_bytes()));
        }
        i += 1;
    }
    assert(withdrawals@.take(withdrawals@.len() as int) =~= withdrawals@);
    assert(out@ =~= old(out)@ + list_bytes(withdrawals@, withdrawal_bytes()));
}

/// Reads a list of at most `limit` withdrawals from the start of `input`.
pub fn take_withdrawals(input: &[u8], limit: u32) -> (read: Result<(Vec<Withdrawal>, &[u8]), Error>)
    ensures
        read is Ok <==> parse_list(input@, parse_withdrawal(), limit as nat) is Some,
        read matches Ok(pair) ==> parse_list(input@, parse_withdrawal(), limit as nat) == Some(
            (pair.0@, pair.1@),
        ) && pair.0@.len() <= limit,
        read matches Err(e) ==> e == Error::Malformed,
{
    let (count, start) = take_compact(input)?;
    if count > limit {
        return Err(Error::Malformed);
    }
    let mut withdrawals: Vec<Withdrawal> = Vec::new();
    let mut rest = start;
    let mut i: u32 = 0;
    proof {
        lemma_resumed_start(rest@, count as nat, parse_withdrawal());
    }
    while i < count
        invariant
            i <= count,
            count <= limit,
            withdrawals@.len() == i,
            parse_list(input@, parse_withdrawal(), limit as nat) == parse_items(
                start@,
                count as nat,
                parse_withdrawal(),
            ),
            parse_items(start@, count as nat, parse_withdrawal()) == resumed(
                withdrawals@,
                rest@,
                (count - i) as nat,
                parse_withdrawal(),
            ),
        decreases count - i,
    {
        proof {
            lemma_resumed_step(withdrawals@, rest@, (count - i) as nat, parse_withdrawal());
        }
        let (withdrawal, after) = take_withdrawal(rest)?;
        withdrawals.push(withdrawal);
        rest = after;
        i += 1;
    }
    proof {
        lemma_resumed_end(withdrawals@, rest@, parse_withdrawal());
    }
    Ok((withdrawals, rest))
}

/// Appends the bytes of a list of account records.
pub fn put_accounts(out: &mut Vec<u8>, accounts: &[AccountInfo])
    requires
        accounts@.len() <= u32::MAX,
    ensures
        final(out)@ == old(out)@ + list_bytes(account_views(accounts@), account_bytes()),
{
    put_compact(out, accounts.len() as u32);
    let ghost start = out@;
    let ghost views = account_views(accounts@);
    let mut i: usize = 0;
    while i < accounts.len()
        invariant
            i <= accounts.len(),
            views == account_views(accounts@),
            out@ == start + concat(views.take(i as int), account_bytes()),
        decreases accounts.len() - i,
    {
        put_account(out, &accounts[i]);
        proof {
            lemma_concat_push(views.take(i as int), views[i as int], account_bytes());
            assert(views.take(i + 1) =~= views.take(i as int).push(views[i as int]));
            assert(out@ =~= start + concat(views.take(i + 1), account_bytes()));
        }
        i += 1;
    }
    assert(views.take(views.len() as int) =~= views);
    assert(out@ =~= old(out)@ + list_bytes(views, account_bytes()));
}

/// Reads a list of at most `limit` account records from the start of `input`.
pub fn take_accounts(input: &[u8], limit: u32) -> (read: Result<(Vec<AccountInfo>, &[u8]), Error>)
    ensures
        read is Ok <==> parse_list(input@, parse_account(), limit as nat) is Some,
        read matches Ok(pair) ==> parse_list(input@, parse_account(), limit as nat) == Some(
            (account_views(pair.0@), pair.1@),
        ) && pair.0@.len() <= limit,
        read matches Err(e) ==> e == Error::Malformed,
{
    let (count, start) = take_compact(input)?;
    if count > limit {
        return Err(Error::Malformed);
    }
    let mut accounts: Vec<AccountInfo> = Vec::new();
    let mut rest = start;
    let mut i: u32 = 0;
    proof {
        lemma_resumed_start(rest@, count as nat, parse_account());
        assert(account_views(accounts@) =~= Seq::<AccountInfoView>::empty());
    }
    while i < count
        invariant
            i <= count,
            count <= limit,
            accounts@.len() == i,
            parse_list(input@, parse_account(), limit as nat) == parse_items(
                start@,
                count as nat,
                parse_account(),
            ),
            parse_items(start@, count as nat, parse_account()) == resumed(
                account_views(accounts@),
                rest@,
                (count - i) as nat,
                parse_account(),
            ),
        decreases count - i,
    {
        proof {
            lemma_resumed_step(
                account_views(accounts@),
                rest@,
                (count - i) as nat,
                parse_account(),
            );
        }
        let ghost before = accounts@;
        let (account, after) = take_account(rest)?;
        accounts.push(account);
        assert(account_views(accounts@) =~= account_views(before).push(account@));
        rest = after;
        i += 1;
    }
    proof {
        lemma_resumed_end(account_views(accounts@), rest@, parse_account());
    }
    Ok((accounts, rest))
}

/// The thirty-two bytes as a digest.
pub open spec fn hash_of(bytes: Seq<u8>) -> H256 {
    choose|hash: H256| hash.bytes@ == bytes
}

/// A digest is the one that its bytes stand for.
pub proof fn lemma_hash_of(hash: H256)
    ensures
        hash_of(hash.bytes@) == hash,
{
    let found = hash_of(hash.bytes@);
    assert(found.bytes@ == hash.bytes@);
    assert(found.bytes =~= hash.bytes);
}

/// The bytes of a list of bytes: their number in compact form, then the bytes.
pub open spec fn byte_list_bytes(bytes: Seq<u8>) -> Seq<u8> {
    compact_bytes(bytes.len() as u32) + bytes
}

/// Reads a list of bytes.
pub open spec fn parse_byte_list(bytes: Seq<u8>) -> Parsed<Seq<u8>> {
    match parse_compact(bytes) {
        Some((count, rest)) => if rest.len() >= count {
            Some((rest.take(count as int), rest.skip(count as int)))
        } else {
            None
        },
        None => None,
    }
}

/// Reading the bytes of a list of bytes back gives it.
pub proof fn lemma_parse_byte_list(bytes: Seq<u8>, rest: Seq<u8>)
    requires
        bytes.len() <= u32::MAX,
    ensures
        parse_byte_list(byte_list_bytes(bytes) + rest) == Some((bytes, rest)),
{
    let after = bytes + rest;
    assert(byte_list_bytes(bytes) + rest =~= compact_bytes(bytes.len() as u32) + after);
    lemma_parse_compact(bytes.len() as u32, after);
    assert(after.take(bytes.len() as int) =~= bytes);
    assert(after.skip(bytes.len() as int) =~= rest);
}

/// Appends the bytes of a list of bytes.
pub fn put_byte_list(out: &mut Vec<u8>, bytes: &[u8])
    requires
        bytes@.len() <= u32::MAX,
    ensures
        final(out)@ == old(out)@ + byte_list_bytes(bytes@),
{
    put_compact(out, bytes.len() as u32);
    put_bytes(out, bytes);
    assert(out@ =~= old(out)@ + byte_list_bytes(bytes@));
}

/// Reads a list of bytes from the start of `input`.
pub fn take_byte_list(input: &[u8]) -> (read: Result<(Vec<u8>, &[u8]), Error>)
    ensures
        read is Ok <==> parse_byte_list(input@) is Some,
        read matches Ok(pair) ==> parse_byte_list(input@) == Some((pair.0@, pair.1@)),
        read matches Err(e) ==> e == Error::Malformed,
{
    let (count, rest) = take_compact(input)?;
    if rest.len() < count as usize {
        return Err(Error::Malformed);
    }
    let bytes = vstd::slice::slice_to_vec(vstd::slice::slice_subrange(rest, 0, count as usize));
    let after = vstd::slice::slice_subrange(rest, count as usize, rest.len());
    assert(bytes@ =~= rest@.take(count as int));
    assert(after@ =~= rest@.skip(count as int));
    Ok((bytes, after))
}

/// The sixty-four bytes as a signature.
pub open spec fn signature_of(bytes: Seq<u8>) -> Signature {
    choose|signature: Signature| signature.bytes@ == bytes
}

/// A signature is the one that its bytes stand for.
pub proof fn lemma_signature_of(signature: Signature)
    ensures
        signature_of(signature.bytes@) == signature,
{
    let found = signature_of(signature.bytes@);
    assert(found.bytes@ == signature.bytes@);
    assert(found.bytes =~= signature.bytes);
}

/// Reads a signature: sixty-four bytes.
pub open spec fn parse_signature(bytes: Seq<u8>) -> Parsed<Signature> {
    if bytes.len() >= 64 {
        Some((signature_of(bytes.take(64)), bytes.skip(64)))
    } else {
        None
    }
}

/// Reading the bytes of a signature back gives it.
pub proof fn lemma_parse_signature(signature: Signature, rest: Seq<u8>)
    ensures
        parse_signature(signature.bytes@ + rest) == Some((signature, rest)),
{
    let all = signature.bytes@ + rest;
    assert(all.take(64) =~= signature.bytes@);
    assert(all.skip(64) =~= rest);
    lemma_signature_of(signature);
}

/// Reads a signature from the start of `input`.
pub fn take_signature(input: &[u8]) -> (read: Result<(Signature, &[u8]), Error>)
    ensures
        read is Ok <==> parse_signature(input@) is Some,
        read matches Ok(pair) ==> parse_signature(input@) == Some((pair.0, pair.1@)),
        read matches Err(e) ==> e == Error::Malformed,
{
    if input.len() < 64 {
        return Err(Error::Malformed);
    }
    let mut bytes = [0u8; 64];
    let mut i: usize = 0;
    while i < 64
        invariant
            i <= 64,
            input@.len() >= 64,
            forall|k: int| 0 <= k < i ==> bytes@[k] == input@[k],
        decreases 64 - i,
    {
        bytes[i] = input[i];
        i += 1;
    }
    assert(bytes@ =~= input@.take(64));
    let rest = vstd::slice::slice_subrange(input, 64, input.len());
    assert(rest@ =~= input@.skip(64));
    let signature = Signature { bytes };
    proof {
        lemma_signature_of(signature);
    }
    Ok((signature, rest))
}

/// The bytes of a snapshot: the number, the root, the accounts, the withdrawals, the score.
pub open spec fn snapshot_bytes(snapshot: EnclaveSnapshotView) -> Seq<u8> {
    le_bytes(snapshot.snapshot_number as nat, 4) + snapshot.merkle_root.bytes@ + list_bytes(
        snapshot.accounts,
        account_bytes(),
    ) + list_bytes(snapshot.withdrawals, withdrawal_bytes()) + le_bytes(
        snapshot.total_lmp_score as nat,
        16,
    )
}

/// Reads a snapshot. The accounts and the withdrawals must be within their limits.
pub open spec fn parse_snapshot(bytes: Seq<u8>) -> Parsed<EnclaveSnapshotView> {
    match parse_u32(bytes) {
        Some((snapshot_number, rest)) => if rest.len() >= 32 {
            match parse_list(rest.skip(32), parse_account(), SNAPSHOT_ACCOUNT_LIMIT as nat) {
                Some((accounts, after)) => match parse_list(
                    after,
                    parse_withdrawal(),
                    WITHDRAWAL_LIMIT as nat,
                ) {
                    Some((withdrawals, after)) => match parse_u128(after) {
                        Some((total_lmp_score, after)) => Some(
                            (
                                EnclaveSnapshotView {
                                    snapshot_number,
                                    merkle_root: hash_of(rest.take(32)),
                                    accounts,
                                    withdrawals,
                                    total_lmp_score,
                                },
                                after,
                            ),
                        ),
                        None => None,
                    },
                    None => None,
                },
                None => None,
            }
        } else {
            None
        },
        None => None,
    }
}

/// Reading the bytes of a well-formed snapshot back gives it.
pub proof fn lemma_parse_snapshot(snapshot: EnclaveSnapshotView, rest: Seq<u8>)
    requires
        snapshot.well_formed(),
    ensures
        parse_snapshot(snapshot_bytes(snapshot) + rest) == Some((snapshot, rest)),
{
    let t4 = le_bytes(snapshot.total_lmp_score as nat, 16) + rest;
    let t3 = list_bytes(snapshot.withdrawals, withdrawal_bytes()) + t4;
    let t2 = list_bytes(snapshot.accounts, account_bytes()) + t3;
    let t1 = snapshot.merkle_root.bytes@ + t2;
    assert(snapshot_bytes(snapshot) + rest == le_bytes(snapshot.snapshot_number as nat, 4) + t1) by {
        let a = le_bytes(snapshot.snapshot_number as nat, 4);
        let b = snapshot.merkle_root.bytes@;
        let c = list_bytes(snapshot.accounts, account_bytes());
        let d = list_bytes(snapshot.withdrawals, withdrawal_bytes());
        lemma_join(a + b + c + d, le_bytes(snapshot.total_lmp_score as nat, 16), rest);
        lemma_join(a + b + c, d, t4);
        lemma_join(a + b, c, t3);
        lemma_join(a, b, t2);
    }
    lemma_parse_u32(snapshot.snapshot_number, t1);
    assert(t1.take(32) =~= snapshot.merkle_root.bytes@);
    assert(t1.skip(32) =~= t2);
    lemma_hash_of(snapshot.merkle_root);
    assert forall|i: int, after: Seq<u8>|
        0 <= i < snapshot.accounts.len() implies #[trigger] parse_account()(
        account_bytes()(snapshot.accounts[i]) + after,
    ) == Some((snapshot.accounts[i], after)) by {
        lemma_parse_account(snapshot.accounts[i], after);
    }
    lemma_parse_list(
        snapshot.accounts,
        account_bytes(),
        parse_account(),
        SNAPSHOT_ACCOUNT_LIMIT as nat,
        t3,
    );
    assert forall|i: int, after: Seq<u8>|
        0 <= i < snapshot.withdrawals.len() implies #[trigger] parse_withdrawal()(
        withdrawal_bytes()(snapshot.withdrawals[i]) + after,
    ) == Some((snapshot.withdrawals[i], after)) by {
        lemma_parse_withdrawal(snapshot.withdrawals[i], after);
    }
    lemma_parse_list(
        snapshot.withdrawals,
        withdrawal_bytes(),
        parse_withdrawal(),
        WITHDRAWAL_LIMIT as nat,
        t4,
    );
    lemma_parse_u128(snapshot.total_lmp_score, rest);
}

/// Appends the bytes of a snapshot.
pub fn put_snapshot(out: &mut Vec<u8>, snapshot: &EnclaveSnapshot)
    ensures
        final(out)@ == old(out)@ + snapshot_bytes(snapshot@),
{
    put_u32(out, snapshot.snapshot_number);
    put_bytes(out, snapshot.merkle_root.bytes.as_slice());
    put_accounts(out, snapshot.account_list());
    put_withdrawals(out, snapshot.withdrawal_list());
    put_u128(out, snapshot.total_lmp_score);
    assert(out@ =~= old(out)@ + snapshot_bytes(snapshot@));
}

/// Reads a snapshot from the start of `input`.
pub fn take_snapshot(input: &[u8]) -> (read: Result<(EnclaveSnapshot, &[u8]), Error>)
    ensures
        read is Ok <==> parse_snapshot(input@) is Some,
        read matches Ok(pair) ==> parse_snapshot(input@) == Some((pair.0@, pair.1@)),
        read matches Err(e) ==> e == Error::Malformed,
{
    let (snapshot_number, rest) = take_u32(input)?;
    let (root, rest) = match take_array32(rest) {
        Some(pair) => pair,
        None => {
            return Err(Error::Malformed);
        },
    };
    let merkle_root = H256 { bytes: root };
    proof {
        lemma_hash_of(merkle_root);
    }
    let (accounts, rest) = take_accounts(rest, SNAPSHOT_ACCOUNT_LIMIT)?;
    let (withdrawals, rest) = take_withdrawals(rest, WITHDRAWAL_LIMIT)?;
    let (total_lmp_score, rest) = take_u128(rest)?;
    let accounts = match accounts_try_from(accounts) {
        Ok(list) => list,
        Err(_) => {
            return Err(Error::Malformed);
        },
    };
    let withdrawals = match withdrawals_try_from(withdrawals) {
        Ok(list) => list,
        Err(_) => {
            return Err(Error::Malformed);
        },
    };
    let snapshot = EnclaveSnapshot {
        snapshot_number,
        merkle_root,
        accounts,
        withdrawals,
        total_lmp_score,
    };
    Ok((snapshot, rest))
}

impl EnclaveSnapshot {
    /// The bytes of the snapshot. They are what the enclave signs.
    pub fn encode(&self) -> (bytes: Vec<u8>)
        ensures
            bytes@ == snapshot_bytes(self@),
    {
        let mut bytes: Vec<u8> = Vec::new();
        put_snapshot(&mut bytes, self);
        assert(bytes@ =~= snapshot_bytes(self@));
        bytes
    }

    /// The snapshot that `bytes` start with. Bytes after it are not looked at.
    pub fn decode(bytes: &[u8]) -> (read: Result<EnclaveSnapshot, Error>)
        ensures
            read is Ok <==> parse_snapshot(bytes@) is Some,
            read matches Ok(snapshot) ==> parse_snapshot(bytes@).unwrap().0 == snapshot@,
            read matches Err(e) ==> e == Error::Malformed,
    {
        let (snapshot, _) = take_snapshot(bytes)?;
        Ok(snapshot)
    }
}

/// Decoding the bytes of a snapshot gives the snapshot back.
pub proof fn lemma_snapshot_round_trip(snapshot: EnclaveSnapshotView)
    requires
        snapshot.well_formed(),
    ensures
        parse_snapshot(snapshot_bytes(snapshot)) == Some((snapshot, Seq::<u8>::empty())),
{
    lemma_parse_snapshot(snapshot, Seq::empty());
    assert(snapshot_bytes(snapshot) + Seq::<u8>::empty() =~= snapshot_bytes(snapshot));
}

/// The bytes of an amount: its sixteen bytes, least significant first.
pub open spec fn amount_bytes() -> spec_fn(Balance) -> Seq<u8> {
    |amount: Balance| le_bytes(amount as nat, 16)
}

/// Reads an amount.
pub open spec fn parse_amount() -> spec_fn(Seq<u8>) -> Parsed<Balance> {
    |bytes: Seq<u8>| parse_u128(bytes)
}

/// The bytes of an amount that may be absent: 0 if it is absent; 1 and the amount if it is
/// there.
pub open spec fn option_bytes(amount: Option<Balance>) -> Seq<u8> {
    match amount {
        None => seq![0u8],
        Some(amount) => seq![1u8] + le_bytes(amount as nat, 16),
    }
}

/// Reads an amount that may be absent.
pub open spec fn parse_option(bytes: Seq<u8>) -> Parsed<Option<Balance>> {
    if bytes.len() == 0 {
        None
    } else if bytes[0] == 0 {
        Some((None, bytes.skip(1)))
    } else if bytes[0] == 1 {
        match parse_u128(bytes.skip(1)) {
            Some((amount, rest)) => Some((Some(amount), rest)),
            None => None,
        }
    } else {
        None
    }
}

/// Reading the bytes of an amount that may be absent back gives it.
pub proof fn lemma_parse_option(amount: Option<Balance>, rest: Seq<u8>)
    ensures
        parse_option(option_bytes(amount) + rest) == Some((amount, rest)),
{
    let all = option_bytes(amount) + rest;
    match amount {
        None => {
            assert(all.skip(1) =~= rest);
        },
        Some(value) => {
            assert(all[0] == 1u8);
            assert(all.skip(1) =~= le_bytes(value as nat, 16) + rest);
            lemma_parse_u128(value, rest);
        },
    }
}

/// Appends the bytes of an amount that may be absent.
pub fn put_option(out: &mut Vec<u8>, amount: &Option<Balance>)
    ensures
        final(out)@ == old(out)@ + option_bytes(*amount),
{
    match amount {
        None => {
            out.push(0u8);
            assert(out@ =~= old(out)@ + option_bytes(*amount));
        },
        Some(value) => {
            out.push(1u8);
            put_u128(out, *value);
            assert(out@ =~= old(out)@ + option_bytes(*amount));
        },
    }
}

/// Reads an amount that may be absent from the start of `input`.
pub fn take_option(input: &[u8]) -> (read: Result<(Option<Balance>, &[u8]), Error>)
    ensures
        read is Ok <==> parse_option(input@) is Some,
        read matches Ok(pair) ==> parse_option(input@) == Some((pair.0, pair.1@)),
        read matches Err(e) ==> e == Error::Malformed,
{
    if input.len() == 0 {
        return Err(Error::Malformed);
    }
    let tag = input[0];
    let rest = vstd::slice::slice_subrange(input, 1, input.len());
    assert(rest@ =~= input@.skip(1));
    if tag == 0 {
        Ok((None, rest))
    } else if tag == 1 {
        let (amount, rest) = take_u128(rest)?;
        Ok((Some(amount), rest))
    } else {
        Err(Error::Malformed)
    }
}

/// Appends the bytes of each amount.
pub fn put_amounts(out: &mut Vec<u8>, amounts: &[Balance])
    ensures
        final(out)@ == old(out)@ + concat(amounts@, amount_bytes()),
{
    let ghost start = out@;
    let mut i: usize = 0;
    assert(out@ =~= start + concat(amounts@.take(0), amount_bytes()));
    while i < amounts.len()
        invariant
            i <= amounts.len(),
            out@ == start + concat(amounts@.take(i as int), amount_bytes()),
        decreases amounts.len() - i,
    {
        put_u128(out, amounts[i]);
        proof {
            lemma_concat_push(amounts@.take(i as int), amounts@[i as int], amount_bytes());
            assert(amounts@.take(i + 1) =~= amounts@.take(i as int).push(amounts@[i as int]));
            assert(out@ =~= start + concat(amounts@.take(i + 1), amount_bytes()));
        }
        i += 1;
    }
    assert(amounts@.take(amounts@.len() as int) =~= amounts@);
}

/// Reads `count` amounts from the start of `input`.
pub fn take_amounts(input: &[u8], count: usize) -> (read: Result<(Vec<Balance>, &[u8]), Error>)
    ensures
        read is Ok <==> parse_items(input@, count as nat, parse_amount()) is Some,
        read matches Ok(pair) ==> parse_items(input@, count as nat, parse_amount()) == Some(
            (pair.0@, pair.1@),
        ) && pair.0@.len() == count,
        read matches Err(e) ==> e == Error::Malformed,
{
    let mut amounts: Vec<Balance> = Vec::new();
    let mut rest = input;
    let mut i: usize = 0;
    proof {
        lemma_resumed_start(rest@, count as nat, parse_amount());
    }
    while i < count
        invariant
            i <= count,
            amounts@.len() == i,
            parse_items(input@, count as nat, parse_amount()) == resumed(
                amounts@,
                rest@,
                (count - i) as nat,
                parse_amount(),
            ),
        decreases count - i,
    {
        proof {
            lemma_resumed_step(amounts@, rest@, (count - i) as nat, parse_amount());
        }
        let (amount, after) = take_u128(rest)?;
        amounts.push(amount);
        rest = after;
        i += 1;
    }
    proof {
        lemma_resumed_end(amounts@, rest@, parse_amount());
    }
    Ok((amounts, rest))
}

/// The ten amounts of a trading pair, in the order of its fields.
pub open spec fn pair_amounts(config: TradingPairConfig) -> Seq<Balance> {
    seq![
        config.min_trade_amount,
        config.max_trade_amount,
        config.min_order_qty,
        config.max_order_qty,
        config.min_deposit_amount,
        config.max_deposit_amount,
        config.min_withdrawal_amount,
        config.max_withdrawal_amount,
        config.base_withdrawal_fee,
        config.quote_withdrawal_fee,
    ]
}

/// The bytes of the configuration of a trading pair: the base and the quote asset, the ten
/// amounts, the two guards, the enclave.
pub open spec fn trading_pair_bytes(config: TradingPairConfig) -> Seq<u8> {
    asset_bytes(config.base_asset) + asset_bytes(config.quote_asset) + concat(
        pair_amounts(config),
        amount_bytes(),
    ) + option_bytes(config.min_depth) + option_bytes(config.max_spread)
        + config.enclave_id.bytes@
}

/// Reads the configuration of a trading pair.
pub open spec fn parse_trading_pair(bytes: Seq<u8>) -> Parsed<TradingPairConfig> {
    match parse_asset(bytes) {
        Some((base_asset, rest)) => match parse_asset(rest) {
            Some((quote_asset, rest)) => match parse_items(rest, 10, parse_amount()) {
                Some((amounts, rest)) => match parse_option(rest) {
                    Some((min_depth, rest)) => match parse_option(rest) {
                        Some((max_spread, rest)) => match parse_account_id()(rest) {
                            Some((enclave_id, rest)) => Some(
                                (
                                    TradingPairConfig {
                                        base_asset,
                                        quote_asset,
                                        min_trade_amount: amounts[0],
                                        max_trade_amount: amounts[1],
                                        min_order_qty: amounts[2],
                                        max_order_qty: amounts[3],
                                        min_deposit_amount: amounts[4],
                                        max_deposit_amount: amounts[5],
                                        min_withdrawal_amount: amounts[6],
                                        max_withdrawal_amount: amounts[7],
                                        base_withdrawal_fee: amounts[8],
                                        quote_withdrawal_fee: amounts[9],
                                        min_depth,
                                        max_spread,
                                        enclave_id,
                                    },
                                    rest,
                                ),
                            ),
                            None => None,
                        },
                        None => None,
                    },
                    None => None,
                },
                None => None,
            },
            None => None,
        },
        None => None,
    }
}

/// Reading the bytes of the configuration of a trading pair back gives it.
pub proof fn lemma_parse_trading_pair(config: TradingPairConfig, rest: Seq<u8>)
    ensures
        parse_trading_pair(trading_pair_bytes(config) + rest) == Some((config, rest)),
{
    let amounts = pair_amounts(config);
    let t5 = config.enclave_id.bytes@ + rest;
    let t4 = option_bytes(config.max_spread) + t5;
    let t3 = option_bytes(config.min_depth) + t4;
    let t2 = concat(amounts, amount_bytes()) + t3;
    let t1 = asset_bytes(config.quote_asset) + t2;
    let all = trading_pair_bytes(config) + rest;
    assert(all == asset_bytes(config.base_asset) + t1) by {
        let a = asset_bytes(config.base_asset);
        let b = asset_bytes(config.quote_asset);
        let c = concat(amounts, amount_bytes());
        let d = option_bytes(config.min_depth);
        let e = option_bytes(config.max_spread);
        lemma_join(a + b + c + d + e, config.enclave_id.bytes@, rest);
        lemma_join(a + b + c + d, e, t5);
        lemma_join(a + b + c, d, t4);
        lemma_join(a + b, c, t3);
        lemma_join(a, b, t2);
    }
    assert(parse_asset(all) == Some((config.base_asset, t1))) by {
        lemma_parse_asset(config.base_asset, t1);
    }
    assert(parse_asset(t1) == Some((config.quote_asset, t2))) by {
        lemma_parse_asset(config.quote_asset, t2);
    }
    assert(parse_items(t2, 10, parse_amount()) == Some((amounts, t3))) by {
        assert forall|i: int, after: Seq<u8>|
            0 <= i < amounts.len() implies #[trigger] parse_amount()(
            amount_bytes()(amounts[i]) + after,
        ) == Some((amounts[i], after)) by {
            lemma_parse_u128(amounts[i], after);
        }
        lemma_parse_items(amounts, amount_bytes(), parse_amount(), t3);
    }
    assert(parse_option(t3) == Some((config.min_depth, t4))) by {
        lemma_parse_option(config.min_depth, t4);
    }
    assert(parse_option(t4) == Some((config.max_spread, t5))) by {
        lemma_parse_option(config.max_spread, t5);
    }
    assert(parse_account_id()(t5) == Some((config.enclave_id, rest))) by {
        lemma_parse_account_id(config.enclave_id, rest);
    }
}

/// Appends the bytes of the configuration of a trading pair.
pub fn put_trading_pair(out: &mut Vec<u8>, config: &TradingPairConfig)
    ensures
        final(out)@ == old(out)@ + trading_pair_bytes(*config),
{
    let amounts: [Balance; 10] = [
        config.min_trade_amount,
        config.max_trade_amount,
        config.min_order_qty,
        config.max_order_qty,
        config.min_deposit_amount,
        config.max_deposit_amount,
        config.min_withdrawal_amount,
        config.max_withdrawal_amount,
        config.base_withdrawal_fee,
        config.quote_withdrawal_fee,
    ];
    assert(amounts@ =~= pair_amounts(*config));
    put_asset(out, &config.base_asset);
    put_asset(out, &config.quote_asset);
    put_amounts(out, amounts.as_slice());
    put_option(out, &config.min_depth);
    put_option(out, &config.max_spread);
    put_bytes(out, config.enclave_id.bytes.as_slice());
    assert(out@ =~= old(out)@ + trading_pair_bytes(*config));
}

/// Reads the configuration of a trading pair from the start of `input`.
pub fn take_trading_pair(input: &[u8]) -> (read: Result<(TradingPairConfig, &[u8]), Error>)
    ensures
        read is Ok <==> parse_trading_pair(input@) is Some,
        read matches Ok(pair) ==> parse_trading_pair(input@) == Some((pair.0, pair.1@)),
        read matches Err(e) ==> e == Error::Malformed,
{
    let (base_asset, rest) = take_asset(input)?;
    let (quote_asset, rest) = take_asset(rest)?;
    let (amounts, rest) = take_amounts(rest, 10)?;
    let (min_depth, rest) = take_option(rest)?;
    let (max_spread, rest) = take_option(rest)?;
    let (enclave_id, rest) = take_account_id(rest)?;
    let config = TradingPairConfig {
        base_asset,
        quote_asset,
        min_trade_amount: amounts[0],
        max_trade_amount: amounts[1],
        min_order_qty: amounts[2],
        max_order_qty: amounts[3],
        min_deposit_amount: amounts[4],
        max_deposit_amount: amounts[5],
        min_withdrawal_amount: amounts[6],
        max_withdrawal_amount: amounts[7],
        base_withdrawal_fee: amounts[8],
        quote_withdrawal_fee: amounts[9],
        min_depth,
        max_spread,
        enclave_id,
    };
    Ok((config, rest))
}

impl TradingPairConfig {
    /// The bytes of the configuration.
    pub fn encode(&self) -> (bytes: Vec<u8>)
        ensures
            bytes@ == trading_pair_bytes(*self),
    {
        let mut bytes: Vec<u8> = Vec::new();
        put_trading_pair(&mut bytes, self);
        assert(bytes@ =~= trading_pair_bytes(*self));
        bytes
    }

    /// The configuration that `bytes` start with. Bytes after it are not looked at.
    pub fn decode(bytes: &[u8]) -> (read: Result<TradingPairConfig, Error>)
        ensures
            read is Ok <==> parse_trading_pair(bytes@) is Some,
            read matches Ok(config) ==> parse_trading_pair(bytes@).unwrap().0 == config,
            read matches Err(e) ==> e == Error::Malformed,
    {
        let (config, _) = take_trading_pair(bytes)?;
        Ok(config)
    }
}

/// Decoding the bytes of the configuration of a trading pair gives the configuration back.
pub proof fn lemma_trading_pair_round_trip(config: TradingPairConfig)
    ensures
        parse_trading_pair(trading_pair_bytes(config)) == Some((config, Seq::<u8>::empty())),
{
    lemma_parse_trading_pair(config, Seq::empty());
    assert(trading_pair_bytes(config) + Seq::<u8>::empty() =~= trading_pair_bytes(config));
}

/// The bytes of an account in a dump: the main account as the key, then the record.
pub open spec fn keyed_account_bytes() -> spec_fn(AccountInfoView) -> Seq<u8> {
    |account: AccountInfoView| account.main_account.bytes@ + account_bytes()(account)
}

/// The bytes of a dump: the number of the snapshot, then the accounts, each under its key.
pub open spec fn dump_bytes(dump: EnclaveAccountInfoDumpView) -> Seq<u8> {
    le_bytes(dump.snapshot_number as nat, 4) + list_bytes(dump.accounts, keyed_account_bytes())
}

/// Appends the bytes of a dump.
pub fn put_dump(out: &mut Vec<u8>, dump: &EnclaveAccountInfoDump)
    ensures
        final(out)@ == old(out)@ + dump_bytes(dump@),
{
    let accounts = dump.accounts();
    put_u32(out, dump.snapshot_number());
    put_compact(out, accounts.len() as u32);
    let ghost start = out@;
    let ghost views = account_views(accounts@);
    let mut i: usize = 0;
    while i < accounts.len()
        invariant
            i <= accounts.len(),
            views == account_views(accounts@),
            out@ == start + concat(views.take(i as int), keyed_account_bytes()),
        decreases accounts.len() - i,
    {
        let ghost before = out@;
        put_bytes(out, accounts[i].main_account.bytes.as_slice());
        put_account(out, &accounts[i]);
        proof {
            assert(out@ =~= before + keyed_account_bytes()(views[i as int]));
            lemma_concat_push(views.take(i as int), views[i as int], keyed_account_bytes());
            assert(views.take(i + 1) =~= views.take(i as int).push(views[i as int]));
            assert(out@ =~= start + concat(views.take(i + 1), keyed_account_bytes()));
        }
        i += 1;
    }
    assert(views.take(views.len() as int) =~= views);
    assert(out@ =~= old(out)@ + dump_bytes(dump@));
}

impl EnclaveAccountInfoDump {
    /// The bytes of the dump. They are what the enclave signs.
    pub fn encode(&self) -> (bytes: Vec<u8>)
        ensures
            bytes@ == dump_bytes(self@),
    {
        let mut bytes: Vec<u8> = Vec::new();
        put_dump(&mut bytes, self);
        assert(bytes@ =~= dump_bytes(self@));
        bytes
    }
}

/// Reads an account of a dump: the key, then the record, which must be that of the key.
pub open spec fn parse_keyed_account() -> spec_fn(Seq<u8>) -> Parsed<AccountInfoView> {
    |bytes: Seq<u8>|
        match parse_account_id()(bytes) {
            Some((key, rest)) => match parse_account()(rest) {
                Some((account, rest)) => if key == account.main_account {
                    Some((account, rest))
                } else {
                    None
                },
                None => None,
            },
            None => None,
        }
}

/// Reads a dump. The accounts must be within the limit of a dump and in ascending order of
/// main account.
pub open spec fn parse_dump(bytes: Seq<u8>) -> Parsed<EnclaveAccountInfoDumpView> {
    match parse_u32(bytes) {
        Some((snapshot_number, rest)) => match parse_list(
            rest,
            parse_keyed_account(),
            ACCOUNT_DUMP_LIMIT as nat,
        ) {
            Some((accounts, rest)) => if accounts_ascending(accounts) {
                Some((EnclaveAccountInfoDumpView { snapshot_number, accounts }, rest))
            } else {
                None
            },
            None => None,
        },
        None => None,
    }
}

/// Reading the bytes of an account of a dump back gives it.
pub proof fn lemma_parse_keyed_account(account: AccountInfoView, rest: Seq<u8>)
    requires
        account.well_formed(),
    ensures
        parse_keyed_account()(keyed_account_bytes()(account) + rest) == Some((account, rest)),
{
    lemma_join(account.main_account.bytes@, account_bytes()(account), rest);
    lemma_parse_account_id(account.main_account, account_bytes()(account) + rest);
    lemma_parse_account(account, rest);
}

/// Reading the bytes of a well-formed dump back gives it.
pub proof fn lemma_parse_dump(dump: EnclaveAccountInfoDumpView, rest: Seq<u8>)
    requires
        dump.well_formed(),
    ensures
        parse_dump(dump_bytes(dump) + rest) == Some((dump, rest)),
{
    let after = list_bytes(dump.accounts, keyed_account_bytes()) + rest;
    lemma_join(
        le_bytes(dump.snapshot_number as nat, 4),
        list_bytes(dump.accounts, keyed_account_bytes()),
        rest,
    );
    lemma_parse_u32(dump.snapshot_number, after);
    assert forall|i: int, tail: Seq<u8>|
        0 <= i < dump.accounts.len() implies #[trigger] parse_keyed_account()(
        keyed_account_bytes()(dump.accounts[i]) + tail,
    ) == Some((dump.accounts[i], tail)) by {
        lemma_parse_keyed_account(dump.accounts[i], tail);
    }
    lemma_parse_list(
        dump.accounts,
        keyed_account_bytes(),
        parse_keyed_account(),
        ACCOUNT_DUMP_LIMIT as nat,
        rest,
    );
}

/// Reads an account of a dump from the start of `input`.
pub fn take_keyed_account(input: &[u8]) -> (read: Result<(AccountInfo, &[u8]), Error>)
    ensures
        read is Ok <==> parse_keyed_account()(input@) is Some,
        read matches Ok(pair) ==> parse_keyed_account()(input@) == Some((pair.0@, pair.1@)),
        read matches Err(e) ==> e == Error::Malformed,
{
    let (key, rest) = take_account_id(input)?;
    let (account, rest) = take_account(rest)?;
    if key != account.main_account {
        return Err(Error::Malformed);
    }
    Ok((account, rest))
}

/// Reads a dump from the start of `input`.
pub fn take_dump(input: &[u8]) -> (read: Result<(EnclaveAccountInfoDump, &[u8]), Error>)
    ensures
        read is Ok <==> parse_dump(input@) is Some,
        read matches Ok(pair) ==> parse_dump(input@) == Some((pair.0@, pair.1@)),
        read matches Err(e) ==> e == Error::Malformed,
{
    let (snapshot_number, listed) = take_u32(input)?;
    let (count, start) = take_compact(listed)?;
    if count > ACCOUNT_DUMP_LIMIT {
        return Err(Error::Malformed);
    }
    let mut accounts: Vec<AccountInfo> = Vec::new();
    let mut rest = start;
    let mut i: u32 = 0;
    proof {
        lemma_resumed_start(rest@, count as nat, parse_keyed_account());
        assert(account_views(accounts@) =~= Seq::<AccountInfoView>::empty());
    }
    while i < count
        invariant
            i <= count,
            count <= ACCOUNT_DUMP_LIMIT,
            accounts@.len() == i,
            parse_u32(input@) == Some((snapshot_number, listed@)),
            parse_list(listed@, parse_keyed_account(), ACCOUNT_DUMP_LIMIT as nat) == parse_items(
                start@,
                count as nat,
                parse_keyed_account(),
            ),
            parse_items(start@, count as nat, parse_keyed_account()) == resumed(
                account_views(accounts@),
                rest@,
                (count - i) as nat,
                parse_keyed_account(),
            ),
        decreases count - i,
    {
        proof {
            lemma_resumed_step(
                account_views(accounts@),
                rest@,
                (count - i) as nat,
                parse_keyed_account(),
            );
        }
        let ghost before = accounts@;
        let (account, after) = take_keyed_account(rest)?;
        accounts.push(account);
        assert(account_views(accounts@) =~= account_views(before).push(account@));
        rest = after;
        i += 1;
    }
    proof {
        lemma_resumed_end(account_views(accounts@), rest@, parse_keyed_account());
    }
    match EnclaveAccountInfoDump::new(snapshot_number, accounts) {
        Ok(dump) => Ok((dump, rest)),
        Err(_) => Err(Error::Malformed),
    }
}

impl EnclaveAccountInfoDump {
    /// The dump that `bytes` start with. Bytes after it are not looked at.
    pub fn decode(bytes: &[u8]) -> (read: Result<EnclaveAccountInfoDump, Error>)
        ensures
            read is Ok <==> parse_dump(bytes@) is Some,
            read matches Ok(dump) ==> parse_dump(bytes@).unwrap().0 == dump@,
            read matches Err(e) ==> e == Error::Malformed,
    {
        let (dump, _) = take_dump(bytes)?;
        Ok(dump)
    }
}

/// Decoding the bytes of a dump gives the dump back.
pub proof fn lemma_dump_round_trip(dump: EnclaveAccountInfoDumpView)
    requires
        dump.well_formed(),
    ensures
        parse_dump(dump_bytes(dump)) == Some((dump, Seq::<u8>::empty())),
{
    lemma_parse_dump(dump, Seq::empty());
    assert(dump_bytes(dump) + Seq::<u8>::empty() =~= dump_bytes(dump));
}

} // verus!
