//! The commands that the chain sends to the enclave, and the log that holds them in order.

use vstd::prelude::*;
use crate::assets::AssetId;
use crate::codec::{
    asset_bytes, hash_of, lemma_hash_of, lemma_join, lemma_parse_account_id, lemma_parse_asset,
    lemma_parse_trading_pair, parse_account_id, parse_asset, parse_trading_pair, put_asset,
    put_trading_pair, take_account_id, take_array32, take_asset, take_trading_pair,
    trading_pair_bytes, Parsed,
};
use crate::error::Error;
use crate::ocex::{OCEXConfig, TradingPairConfig};
use crate::scale::{
    le_bytes, lemma_parse_u128, lemma_parse_u32, parse_u128, parse_u32, put_bytes, put_u128,
    put_u32, take_u128, take_u32,
};
use crate::types::{AccountId, Balance, H256};

verus! {

/// A command for the enclave. The enclave applies the commands in the order of the log.
#[derive(Clone, Copy, Debug, PartialEq)]
pub enum IngressMessages {
    /// Start the enclave with a configuration.
    StartEnclave(OCEXConfig),
    /// An asset was added.
    AddNewAsset(AssetId),
    /// An asset was removed from trading.
    RemoveAsset(AssetId),
    /// A trading pair was registered.
    RegisterTradingPair(TradingPairConfig),
    /// A trading pair was opened.
    OpenTradingPair(TradingPairConfig),
    /// A trading pair was closed.
    CloseTradingPair(TradingPairConfig),
    /// A main account was registered, with its first proxy.
    RegisterUser(AccountId, AccountId),
    /// A main account deposited an amount of an asset.
    Deposit(AccountId, AssetId, Balance),
    /// A main account added a proxy.
    AddProxy(AccountId, AccountId),
    /// A main account removed a proxy.
    RemoveProxy(AccountId, AccountId),
    /// The registration of an enclave was confirmed.
    EnclaveRegistered(AccountId),
    /// The enclave has to shut down.
    ShutdownEnclave(AccountId),
    /// The root and the number of the latest snapshot.
    LatestSnapshot(H256, u32),
}

/// The log of commands: what was appended, in order, and how many of the commands the
/// enclave has consumed.
#[derive(Debug)]
pub struct IngressLog {
    entries: Vec<IngressMessages>,
    consumed: usize,
}

/// What a log holds, as plain values.
pub struct IngressLogView {
    /// The commands, the first appended first.
    pub entries: Seq<IngressMessages>,
    /// The number of commands that the enclave has consumed.
    pub consumed: nat,
}

impl IngressLogView {
    /// What every log satisfies: no more commands are consumed than were appended.
    pub open spec fn well_formed(self) -> bool {
        self.consumed <= self.entries.len()
    }

    /// The log after `message` was appended.
    pub open spec fn appended(self, message: IngressMessages) -> IngressLogView {
        IngressLogView { entries: self.entries.push(message), ..self }
    }

    /// The log after the enclave consumed one more command.
    pub open spec fn advanced(self) -> IngressLogView {
        IngressLogView { consumed: self.consumed + 1, ..self }
    }
}

impl View for IngressLog {
    type V = IngressLogView;

    closed spec fn view(&self) -> IngressLogView {
        IngressLogView { entries: self.entries@, consumed: self.consumed as nat }
    }
}

impl IngressLog {
    #[verifier::type_invariant]
    spec fn bounded(self) -> bool {
        self.consumed <= self.entries@.len()
    }

    /// The log without commands.
    pub fn new() -> (log: IngressLog)
        ensures
            log@ == (IngressLogView { entries: Seq::empty(), consumed: 0 }),
    {
        IngressLog { entries: Vec::new(), consumed: 0 }
    }

    /// Appends `message` and gives its position. The commands before it keep their
    /// positions.
    pub fn append(&mut self, message: IngressMessages) -> (position: usize)
        ensures
            final(self)@ == old(self)@.appended(message),
            position == old(self)@.entries.len(),
    {
        proof {
            use_type_invariant(&*self);
        }
        let consumed = self.consumed;
        self.consumed = 0;
        let mut entries: Vec<IngressMessages> = Vec::new();
        std::mem::swap(&mut self.entries, &mut entries);
        let position = entries.len();
        entries.push(message);
        self.entries = entries;
        self.consumed = consumed;
        position
    }

    /// The number of commands in the log.
    pub fn len(&self) -> (count: usize)
        ensures
            count == self@.entries.len(),
            self@.well_formed(),
    {
        proof {
            use_type_invariant(self);
        }
        self.entries.len()
    }

    /// The number of commands that the enclave has consumed.
    pub fn consumed(&self) -> (count: usize)
        ensures
            count == self@.consumed,
            self@.well_formed(),
    {
        proof {
            use_type_invariant(self);
        }
        self.consumed
    }

    /// The command at `position`, if there is one.
    pub fn get(&self, position: usize) -> (found: Option<IngressMessages>)
        ensures
            found == (if position < self@.entries.len() {
                Some(self@.entries[position as int])
            } else {
                None
            }),
    {
        if position < self.entries.len() {
            Some(self.entries[position])
        } else {
            None
        }
    }

    /// Hands the enclave the first command that it has not consumed, and counts it as
    /// consumed. With every command consumed, nothing is handed out and nothing changes.
    pub fn next(&mut self) -> (message: Option<IngressMessages>)
        ensures
            old(self)@.consumed < old(self)@.entries.len() ==> message == Some(
                old(self)@.entries[old(self)@.consumed as int],
            ) && final(self)@ == old(self)@.advanced(),
            old(self)@.consumed >= old(self)@.entries.len() ==> message.is_none() && final(self)@
                == old(self)@,
    {
        proof {
            use_type_invariant(&*self);
        }
        if self.consumed < self.entries.len() {
            let message = self.entries[self.consumed];
            self.consumed = self.consumed + 1;
            Some(message)
        } else {
            None
        }
    }
}

/// The index of the variant of a command, in the order of the variants.
pub open spec fn ingress_index(message: IngressMessages) -> u8 {
    match message {
        IngressMessages::StartEnclave(_) => 0,
        IngressMessages::AddNewAsset(_) => 1,
        IngressMessages::RemoveAsset(_) => 2,
        IngressMessages::RegisterTradingPair(_) => 3,
        IngressMessages::OpenTradingPair(_) => 4,
        IngressMessages::CloseTradingPair(_) => 5,
        IngressMessages::RegisterUser(_, _) => 6,
        IngressMessages::Deposit(_, _, _) => 7,
        IngressMessages::AddProxy(_, _) => 8,
        IngressMessages::RemoveProxy(_, _) => 9,
        IngressMessages::EnclaveRegistered(_) => 10,
        IngressMessages::ShutdownEnclave(_) => 11,
        IngressMessages::LatestSnapshot(_, _) => 12,
    }
}

/// The bytes of the fields of a command, one field after the other.
pub open spec fn ingress_fields(message: IngressMessages) -> Seq<u8> {
    match message {
        IngressMessages::StartEnclave(config) => config.enclave_id.bytes@,
        IngressMessages::AddNewAsset(asset) => asset_bytes(asset),
        IngressMessages::RemoveAsset(asset) => asset_bytes(asset),
        IngressMessages::RegisterTradingPair(config) => trading_pair_bytes(config),
        IngressMessages::OpenTradingPair(config) => trading_pair_bytes(config),
        IngressMessages::CloseTradingPair(config) => trading_pair_bytes(config),
        IngressMessages::RegisterUser(main, proxy) => main.bytes@ + proxy.bytes@,
        IngressMessages::Deposit(main, asset, amount) => main.bytes@ + asset_bytes(asset)
            + le_bytes(amount as nat, 16),
        IngressMessages::AddProxy(main, proxy) => main.bytes@ + proxy.bytes@,
        IngressMessages::RemoveProxy(main, proxy) => main.bytes@ + proxy.bytes@,
        IngressMessages::EnclaveRegistered(enclave) => enclave.bytes@,
        IngressMessages::ShutdownEnclave(enclave) => enclave.bytes@,
        IngressMessages::LatestSnapshot(root, number) => root.bytes@ + le_bytes(number as nat, 4),
    }
}

/// The bytes of a command: the index of its variant, then its fields.
pub open spec fn ingress_bytes(message: IngressMessages) -> Seq<u8> {
    seq![ingress_index(message)] + ingress_fields(message)
}

/// Reads two account identifiers.
pub open spec fn parse_two_accounts(bytes: Seq<u8>) -> Parsed<(AccountId, AccountId)> {
    match parse_account_id()(bytes) {
        Some((first, rest)) => match parse_account_id()(rest) {
            Some((second, rest)) => Some(((first, second), rest)),
            None => None,
        },
        None => None,
    }
}

/// Reads the fields of a deposit.
pub open spec fn parse_deposit(bytes: Seq<u8>) -> Parsed<(AccountId, AssetId, Balance)> {
    match parse_account_id()(bytes) {
        Some((main, rest)) => match parse_asset(rest) {
            Some((asset, rest)) => match parse_u128(rest) {
                Some((amount, rest)) => Some(((main, asset, amount), rest)),
                None => None,
            },
            None => None,
        },
        None => None,
    }
}

/// Reads the fields of a marker of the latest snapshot.
pub open spec fn parse_marker(bytes: Seq<u8>) -> Parsed<(H256, u32)> {
    if bytes.len() >= 32 {
        match parse_u32(bytes.skip(32)) {
            Some((number, rest)) => Some(((hash_of(bytes.take(32)), number), rest)),
            None => None,
        }
    } else {
        None
    }
}

/// Reads the fields of the command whose variant has the index `index`.
pub open spec fn parse_ingress_fields(index: u8, bytes: Seq<u8>) -> Parsed<IngressMessages> {
    if index == 0 {
        match parse_account_id()(bytes) {
            Some((enclave_id, rest)) => Some(
                (IngressMessages::StartEnclave(OCEXConfig { enclave_id }), rest),
            ),
            None => None,
        }
    } else if index == 1 {
        match parse_asset(bytes) {
            Some((asset, rest)) => Some((IngressMessages::AddNewAsset(asset), rest)),
            None => None,
        }
    } else if index == 2 {
        match parse_asset(bytes) {
            Some((asset, rest)) => Some((IngressMessages::RemoveAsset(asset), rest)),
            None => None,
        }
    } else if index == 3 {
        match parse_trading_pair(bytes) {
            Some((config, rest)) => Some((IngressMessages::RegisterTradingPair(config), rest)),
            None => None,
        }
    } else if index == 4 {
        match parse_trading_pair(bytes) {
            Some((config, rest)) => Some((IngressMessages::OpenTradingPair(config), rest)),
            None => None,
        }
    } else if index == 5 {
        match parse_trading_pair(bytes) {
            Some((config, rest)) => Some((IngressMessages::CloseTradingPair(config), rest)),
            None => None,
        }
    } else if index == 6 {
        match parse_two_accounts(bytes) {
            Some((pair, rest)) => Some((IngressMessages::RegisterUser(pair.0, pair.1), rest)),
            None => None,
        }
    } else if index == 7 {
        match parse_deposit(bytes) {
            Some((fields, rest)) => Some(
                (IngressMessages::Deposit(fields.0, fields.1, fields.2), rest),
            ),
            None => None,
        }
    } else if index == 8 {
        match parse_two_accounts(bytes) {
            Some((pair, rest)) => Some((IngressMessages::AddProxy(pair.0, pair.1), rest)),
            None => None,
        }
    } else if index == 9 {
        match parse_two_accounts(bytes) {
            Some((pair, rest)) => Some((IngressMessages::RemoveProxy(pair.0, pair.1), rest)),
            None => None,
        }
    } else if index == 10 {
        match parse_account_id()(bytes) {
            Some((enclave, rest)) => Some((IngressMessages::EnclaveRegistered(enclave), rest)),
            None => None,
        }
    } else if index == 11 {
        match parse_account_id()(bytes) {
            Some((enclave, rest)) => Some((IngressMessages::ShutdownEnclave(enclave), rest)),
            None => None,
        }
    } else if index == 12 {
        match parse_marker(bytes) {
            Some((fields, rest)) => Some(
                (IngressMessages::LatestSnapshot(fields.0, fields.1), rest),
            ),
            None => None,
        }
    } else {
        None
    }
}

/// Reads a command: the index of its variant, then its fields.
pub open spec fn parse_ingress(bytes: Seq<u8>) -> Parsed<IngressMessages> {
    if bytes.len() == 0 {
        None
    } else {
        parse_ingress_fields(bytes[0], bytes.skip(1))
    }
}

/// Reading the bytes of two account identifiers back gives them.
pub proof fn lemma_parse_two_accounts(first: AccountId, second: AccountId, rest: Seq<u8>)
    ensures
        parse_two_accounts(first.bytes@ + second.bytes@ + rest) == Some(((first, second), rest)),
{
    lemma_join(first.bytes@, second.bytes@, rest);
    lemma_parse_account_id(first, second.bytes@ + rest);
    lemma_parse_account_id(second, rest);
}

/// Reading the bytes of the fields of a command back gives the command.
pub proof fn lemma_parse_ingress_fields(message: IngressMessages, rest: Seq<u8>)
    ensures
        parse_ingress_fields(ingress_index(message), ingress_fields(message) + rest) == Some(
            (message, rest),
        ),
{
    match message {
        IngressMessages::StartEnclave(config) => {
            lemma_parse_account_id(config.enclave_id, rest);
        },
        IngressMessages::AddNewAsset(asset) => {
            lemma_parse_asset(asset, rest);
        },
        IngressMessages::RemoveAsset(asset) => {
            lemma_parse_asset(asset, rest);
        },
        IngressMessages::RegisterTradingPair(config) => {
            lemma_parse_trading_pair(config, rest);
        },
        IngressMessages::OpenTradingPair(config) => {
            lemma_parse_trading_pair(config, rest);
        },
        IngressMessages::CloseTradingPair(config) => {
            lemma_parse_trading_pair(config, rest);
        },
        IngressMessages::RegisterUser(main, proxy) => {
            lemma_parse_two_accounts(main, proxy, rest);
        },
        IngressMessages::Deposit(main, asset, amount) => {
            let after_asset = le_bytes(amount as nat, 16) + rest;
            let after_main = asset_bytes(asset) + after_asset;
            lemma_join(main.bytes@ + asset_bytes(asset), le_bytes(amount as nat, 16), rest);
            lemma_join(main.bytes@, asset_bytes(asset), after_asset);
            lemma_parse_account_id(main, after_main);
            lemma_parse_asset(asset, after_asset);
            lemma_parse_u128(amount, rest);
        },
        IngressMessages::AddProxy(main, proxy) => {
            lemma_parse_two_accounts(main, proxy, rest);
        },
        IngressMessages::RemoveProxy(main, proxy) => {
            lemma_parse_two_accounts(main, proxy, rest);
        },
        IngressMessages::EnclaveRegistered(enclave) => {
            lemma_parse_account_id(enclave, rest);
        },
        IngressMessages::ShutdownEnclave(enclave) => {
            lemma_parse_account_id(enclave, rest);
        },
        IngressMessages::LatestSnapshot(root, number) => {
            let after_root = le_bytes(number as nat, 4) + rest;
            lemma_join(root.bytes@, le_bytes(number as nat, 4), rest);
            let all = root.bytes@ + after_root;
            assert(all.take(32) =~= root.bytes@);
            assert(all.skip(32) =~= after_root);
            lemma_hash_of(root);
            lemma_parse_u32(number, rest);
        },
    }
}

/// Reading the bytes of a command back gives the command.
pub proof fn lemma_parse_ingress(message: IngressMessages, rest: Seq<u8>)
    ensures
        parse_ingress(ingress_bytes(message) + rest) == Some((message, rest)),
{
    let all = ingress_bytes(message) + rest;
    lemma_join(seq![ingress_index(message)], ingress_fields(message), rest);
    assert(all[0] == ingress_index(message));
    assert(all.skip(1) =~= ingress_fields(message) + rest);
    lemma_parse_ingress_fields(message, rest);
}

/// Decoding the bytes of a command gives the command back.
pub proof fn lemma_ingress_round_trip(message: IngressMessages)
    ensures
        parse_ingress(ingress_bytes(message)) == Some((message, Seq::<u8>::empty())),
{
    lemma_parse_ingress(message, Seq::empty());
    assert(ingress_bytes(message) + Seq::<u8>::empty() =~= ingress_bytes(message));
}

/// Appends the bytes of a command.
pub fn put_ingress(out: &mut Vec<u8>, message: &IngressMessages)
    ensures
        final(out)@ == old(out)@ + ingress_bytes(*message),
{
    match message {
        IngressMessages::StartEnclave(config) => {
            out.push(0u8);
            put_bytes(out, config.enclave_id.bytes.as_slice());
        },
        IngressMessages::AddNewAsset(asset) => {
            out.push(1u8);
            put_asset(out, asset);
        },
        IngressMessages::RemoveAsset(asset) => {
            out.push(2u8);
            put_asset(out, asset);
        },
        IngressMessages::RegisterTradingPair(config) => {
            out.push(3u8);
            put_trading_pair(out, config);
        },
        IngressMessages::OpenTradingPair(config) => {
            out.push(4u8);
            put_trading_pair(out, config);
        },
        IngressMessages::CloseTradingPair(config) => {
            out.push(5u8);
            put_trading_pair(out, config);
        },
        IngressMessages::RegisterUser(main, proxy) => {
            out.push(6u8);
            put_bytes(out, main.bytes.as_slice());
            put_bytes(out, proxy.bytes.as_slice());
        },
        IngressMessages::Deposit(main, asset, amount) => {
            out.push(7u8);
            put_bytes(out, main.bytes.as_slice());
            put_asset(out, asset);
            put_u128(out, *amount);
        },
        IngressMessages::AddProxy(main, proxy) => {
            out.push(8u8);
            put_bytes(out, main.bytes.as_slice());
            put_bytes(out, proxy.bytes.as_slice());
        },
        IngressMessages::RemoveProxy(main, proxy) => {
            out.push(9u8);
            put_bytes(out, main.bytes.as_slice());
            put_bytes(out, proxy.bytes.as_slice());
        },
        IngressMessages::EnclaveRegistered(enclave) => {
            out.push(10u8);
            put_bytes(out, enclave.bytes.as_slice());
        },
        IngressMessages::ShutdownEnclave(enclave) => {
            out.push(11u8);
            put_bytes(out, enclave.bytes.as_slice());
        },
        IngressMessages::LatestSnapshot(root, number) => {
            out.push(12u8);
            put_bytes(out, root.bytes.as_slice());
            put_u32(out, *number);
        },
    }
    assert(out@ =~= old(out)@ + ingress_bytes(*message));
}

/// Reads two account identifiers from the start of `input`.
fn take_two_accounts(input: &[u8]) -> (read: Result<((AccountId, AccountId), &[u8]), Error>)
    ensures
        read is Ok <==> parse_two_accounts(input@) is Some,
        read matches Ok(pair) ==> parse_two_accounts(input@) == Some((pair.0, pair.1@)),
        read matches Err(e) ==> e == Error::Malformed,
{
    let (first, rest) = take_account_id(input)?;
    let (second, rest) = take_account_id(rest)?;
    Ok(((first, second), rest))
}

/// Reads a command from the start of `input`.
pub fn take_ingress(input: &[u8]) -> (read: Result<(IngressMessages, &[u8]), Error>)
    ensures
        read is Ok <==> parse_ingress(input@) is Some,
        read matches Ok(pair) ==> parse_ingress(input@) == Some((pair.0, pair.1@)),
        read matches Err(e) ==> e == Error::Malformed,
{
    if input.len() == 0 {
        return Err(Error::Malformed);
    }
    let index = input[0];
    let fields = vstd::slice::slice_subrange(input, 1, input.len());
    assert(fields@ =~= input@.skip(1));
    if index == 0 {
        let (enclave_id, rest) = take_account_id(fields)?;
        Ok((IngressMessages::StartEnclave(OCEXConfig { enclave_id }), rest))
    } else if index == 1 {
        let (asset, rest) = take_asset(fields)?;
        Ok((IngressMessages::AddNewAsset(asset), rest))
    } else if index == 2 {
        let (asset, rest) = take_asset(fields)?;
        Ok((IngressMessages::RemoveAsset(asset), rest))
    } else if index == 3 {
        let (config, rest) = take_trading_pair(fields)?;
        Ok((IngressMessages::RegisterTradingPair(config), rest))
    } else if index == 4 {
        let (config, rest) = take_trading_pair(fields)?;
        Ok((IngressMessages::OpenTradingPair(config), rest))
    } else if index == 5 {
        let (config, rest) = take_trading_pair(fields)?;
        Ok((IngressMessages::CloseTradingPair(config), rest))
    } else if index == 6 {
        let (pair, rest) = take_two_accounts(fields)?;
        Ok((IngressMessages::RegisterUser(pair.0, pair.1), rest))
    } else if index == 7 {
        let (main, rest) = take_account_id(fields)?;
        let (asset, rest) = take_asset(rest)?;
        let (amount, rest) = take_u128(rest)?;
        Ok((IngressMessages::Deposit(main, asset, amount), rest))
    } else if index == 8 {
        let (pair, rest) = take_two_accounts(fields)?;
        Ok((IngressMessages::AddProxy(pair.0, pair.1), rest))
    } else if index == 9 {
        let (pair, rest) = take_two_accounts(fields)?;
        Ok((IngressMessages::RemoveProxy(pair.0, pair.1), rest))
    } else if index == 10 {
        let (enclave, rest) = take_account_id(fields)?;
        Ok((IngressMessages::EnclaveRegistered(enclave), rest))
    } else if index == 11 {
        let (enclave, rest) = take_account_id(fields)?;
        Ok((IngressMessages::ShutdownEnclave(enclave), rest))
    } else if index == 12 {
        let (bytes, rest) = match take_array32(fields) {
            Some(pair) => pair,
            None => {
                return Err(Error::Malformed);
            },
        };
        let root = H256 { bytes };
        proof {
            lemma_hash_of(root);
        }
        let (number, rest) = take_u32(rest)?;
        Ok((IngressMessages::LatestSnapshot(root, number), rest))
    } else {
        Err(Error::Malformed)
    }
}

impl IngressMessages {
    /// The bytes of the command.
    pub fn encode(&self) -> (bytes: Vec<u8>)
        ensures
            bytes@ == ingress_bytes(*self),
    {
        let mut bytes: Vec<u8> = Vec::new();
        put_ingress(&mut bytes, self);
        assert(bytes@ =~= ingress_bytes(*self));
        bytes
    }

    /// The command that `bytes` start with. Bytes after it are not looked at.
    pub fn decode(bytes: &[u8]) -> (read: Result<IngressMessages, Error>)
        ensures
            read is Ok <==> parse_ingress(bytes@) is Some,
            read matches Ok(message) ==> parse_ingress(bytes@).unwrap().0 == message,
            read matches Err(e) ==> e == Error::Malformed,
    {
        let (message, _) = take_ingress(bytes)?;
        Ok(message)
    }
}

} // verus!
