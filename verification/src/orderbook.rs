//! Orders, and the messages about orders, trades and funds.

use vstd::prelude::*;
use crate::assets::AssetId;
use crate::codec::{
    asset_bytes, byte_list_bytes, lemma_join, lemma_parse_account_id, lemma_parse_asset,
    lemma_parse_byte_list, lemma_parse_option, lemma_parse_signature, option_bytes,
    parse_account_id, parse_asset, parse_byte_list, parse_option, parse_signature, put_asset,
    put_byte_list, put_option, take_account_id, take_asset, take_byte_list, take_option,
    take_signature, Parsed,
};
use crate::crypto::{ed25519_accepts, ed25519_public, ed25519_signature, KeyPair, Signature};
use crate::error::Error;
use crate::scale::{le_bytes, lemma_parse_u128, parse_u128, put_bytes, put_u128, take_u128};
use crate::types::{AccountId, Balance};

verus! {

pub type RequestId = u128;

/// The account that identifies a user.
pub type UserId = AccountId;

/// Unique order number.
pub type OrderId = u128;

/// Unique order identifier, as bytes.
pub type OrderUUID = Vec<u8>;

/// Unique trade number.
pub type TradeId = u128;

/// The type of prices and volumes.
pub type PriceAndQuantityType = Balance;

/// The kind of a market, for example "trusted".
pub type MarketType = Vec<u8>;

/// The asset of a deposit or withdrawal.
pub type CurrencyId = AssetId;

pub type Timestamp = u128;

pub type TransactionId = u128;

/// The market of an order: its base and quote asset.
#[derive(Clone, Copy, Debug, PartialEq, Eq, Structural)]
pub struct MarketId {
    pub base: AssetId,
    pub quote: AssetId,
}

/// The kinds of order.
#[derive(Clone, Copy, Debug, PartialEq, Eq, Structural)]
pub enum OrderType {
    LIMIT,
    MARKET,
    /// Must not fill at once, or it is cancelled.
    PostOnly,
    /// Must fill in full at the given price, or it is cancelled.
    FillOrKill,
}

/// The side of an order: buying or selling.
#[derive(Clone, Copy, Debug, PartialEq, Eq, Structural)]
pub enum OrderSide {
    BID,
    ASK,
}

#[derive(Clone, Copy, Debug, PartialEq, Eq, Structural)]
pub enum OrderState {
    DONE,
    WAIT,
    CANCEL,
    REJECT,
}

#[derive(Clone, Copy, Debug, PartialEq, Eq, Structural)]
pub enum OrderStatus {
    Open,
    Cancelled,
    Filled,
    Partial,
}

/// Sent to all parties after an order was matched.
#[derive(Clone, Debug, PartialEq)]
pub struct OrderUpdate {
    pub order: Order,
    pub status: OrderStatus,
}

/// An order.
#[derive(Clone, Debug, PartialEq)]
pub struct Order {
    pub user_uid: UserId,
    pub market_id: MarketId,
    pub market_type: MarketType,
    pub order_type: OrderType,
    pub side: OrderSide,
    /// The amount of the order, in the base asset.
    pub quantity: PriceAndQuantityType,
    /// The limit price of the order, in the quote asset, if it has one.
    pub price: Option<PriceAndQuantityType>,
}

/// An order with its identifier and the signature over both.
#[derive(Clone, Debug, PartialEq)]
pub struct SignedOrder {
    pub order_id: OrderUUID,
    pub order: Order,
    pub signature: Signature,
}

/// The answer to the creation of an order.
#[derive(Clone, Debug)]
pub struct CreateOrderResponse {
    pub(crate) order_uid: OrderUUID,
}

/// The request to cancel an order.
#[derive(Clone, Debug, PartialEq)]
pub struct CancelOrder {
    pub user_uid: UserId,
    pub market_id: MarketId,
    pub order_id: OrderUUID,
}

/// The request to deposit funds.
#[derive(Clone, Copy, Debug, PartialEq)]
pub struct DepositFund {
    pub user_uid: UserId,
    pub currency_id: CurrencyId,
    pub amount: PriceAndQuantityType,
    pub tx_id: Option<TransactionId>,
}

/// The request to withdraw funds.
#[derive(Clone, Copy, Debug, PartialEq)]
pub struct WithdrawFund {
    pub user_id: UserId,
    pub currency_id: CurrencyId,
    pub amount: PriceAndQuantityType,
    pub tx_id: Option<TransactionId>,
}

/// An error message, as bytes.
#[derive(Clone, Debug)]
pub struct ErrorMessage {
    message: Vec<u8>,
}

/// A status code.
#[derive(Clone, Copy, Debug)]
pub struct Response {
    pub(crate) code: u32,
}

/// The state of an order after an update.
#[derive(Clone, Debug, PartialEq)]
pub struct OrderNotification {
    pub user_id: AccountId,
    pub market_id: MarketId,
    pub order_id: OrderId,
    pub unique_order_id: OrderUUID,
    pub side: OrderSide,
    pub state: OrderState,
    pub order_type: OrderType,
    pub price: PriceAndQuantityType,
    pub avg_price: PriceAndQuantityType,
    pub order_volume: PriceAndQuantityType,
    pub original_volume: PriceAndQuantityType,
    pub executed_volume: PriceAndQuantityType,
    pub trade_count_order: PriceAndQuantityType,
    pub timestamp: Timestamp,
}

/// A trade between a maker and a taker.
#[derive(Clone, Debug, PartialEq)]
pub struct TradeEvent {
    pub market_id: MarketId,
    pub trade_id: TradeId,
    pub price: PriceAndQuantityType,
    pub amount: PriceAndQuantityType,
    /// The amount times the price.
    pub funds: PriceAndQuantityType,
    pub maker_user_id: AccountId,
    pub maker_order_id: OrderId,
    pub maker_order_uuid: OrderUUID,
    pub taker_user_id: AccountId,
    pub taker_order_id: OrderId,
    pub taker_order_uuid: OrderUUID,
    pub maker_side: OrderSide,
    pub timestamp: Timestamp,
}

/// What an order holds, as plain values.
pub struct OrderView {
    pub user_uid: UserId,
    pub market_id: MarketId,
    pub market_type: Seq<u8>,
    pub order_type: OrderType,
    pub side: OrderSide,
    pub quantity: PriceAndQuantityType,
    pub price: Option<PriceAndQuantityType>,
}

impl View for Order {
    type V = OrderView;

    open spec fn view(&self) -> OrderView {
        OrderView {
            user_uid: self.user_uid,
            market_id: self.market_id,
            market_type: self.market_type@,
            order_type: self.order_type,
            side: self.side,
            quantity: self.quantity,
            price: self.price,
        }
    }
}

/// What a signed order holds, as plain values.
pub struct SignedOrderView {
    pub order_id: Seq<u8>,
    pub order: OrderView,
    pub signature: Signature,
}

impl View for SignedOrder {
    type V = SignedOrderView;

    open spec fn view(&self) -> SignedOrderView {
        SignedOrderView {
            order_id: self.order_id@,
            order: self.order@,
            signature: self.signature,
        }
    }
}

impl SignedOrderView {
    /// Whether the two lists of bytes in the order are short enough for a length prefix.
    pub open spec fn encodable(self) -> bool {
        self.order_id.len() <= u32::MAX && self.order.market_type.len() <= u32::MAX
    }
}

/// The index of a kind of order.
pub open spec fn order_type_index(order_type: OrderType) -> u8 {
    match order_type {
        OrderType::LIMIT => 0,
        OrderType::MARKET => 1,
        OrderType::PostOnly => 2,
        OrderType::FillOrKill => 3,
    }
}

/// The index of a side.
pub open spec fn side_index(side: OrderSide) -> u8 {
    match side {
        OrderSide::BID => 0,
        OrderSide::ASK => 1,
    }
}

/// Reads a kind of order: one byte below 4.
pub open spec fn parse_order_type(bytes: Seq<u8>) -> Parsed<OrderType> {
    if bytes.len() == 0 {
        None
    } else if bytes[0] == 0 {
        Some((OrderType::LIMIT, bytes.skip(1)))
    } else if bytes[0] == 1 {
        Some((OrderType::MARKET, bytes.skip(1)))
    } else if bytes[0] == 2 {
        Some((OrderType::PostOnly, bytes.skip(1)))
    } else if bytes[0] == 3 {
        Some((OrderType::FillOrKill, bytes.skip(1)))
    } else {
        None
    }
}

/// Reads a side: one byte below 2.
pub open spec fn parse_side(bytes: Seq<u8>) -> Parsed<OrderSide> {
    if bytes.len() == 0 {
        None
    } else if bytes[0] == 0 {
        Some((OrderSide::BID, bytes.skip(1)))
    } else if bytes[0] == 1 {
        Some((OrderSide::ASK, bytes.skip(1)))
    } else {
        None
    }
}

/// The bytes of the terms of an order: the kind of order, the side, the quantity, the price.
pub open spec fn order_terms_bytes(order: OrderView) -> Seq<u8> {
    seq![order_type_index(order.order_type), side_index(order.side)] + le_bytes(
        order.quantity as nat,
        16,
    ) + option_bytes(order.price)
}

/// Reads the terms of an order.
pub open spec fn parse_order_terms(bytes: Seq<u8>) -> Parsed<
    (OrderType, OrderSide, PriceAndQuantityType, Option<PriceAndQuantityType>),
> {
    match parse_order_type(bytes) {
        Some((order_type, rest)) => match parse_side(rest) {
            Some((side, rest)) => match parse_u128(rest) {
                Some((quantity, rest)) => match parse_option(rest) {
                    Some((price, rest)) => Some(((order_type, side, quantity, price), rest)),
                    None => None,
                },
                None => None,
            },
            None => None,
        },
        None => None,
    }
}

/// The bytes of an order: the user, the two assets of the market, the kind of market, and
/// the terms.
pub open spec fn order_bytes(order: OrderView) -> Seq<u8> {
    order.user_uid.bytes@ + asset_bytes(order.market_id.base) + asset_bytes(
        order.market_id.quote,
    ) + byte_list_bytes(order.market_type) + order_terms_bytes(order)
}

/// Reads an order.
pub open spec fn parse_order(bytes: Seq<u8>) -> Parsed<OrderView> {
    match parse_account_id()(bytes) {
        Some((user_uid, rest)) => match parse_asset(rest) {
            Some((base, rest)) => match parse_asset(rest) {
                Some((quote, rest)) => match parse_byte_list(rest) {
                    Some((market_type, rest)) => match parse_order_terms(rest) {
                        Some((terms, rest)) => Some(
                            (
                                OrderView {
                                    user_uid,
                                    market_id: MarketId { base, quote },
                                    market_type,
                                    order_type: terms.0,
                                    side: terms.1,
                                    quantity: terms.2,
                                    price: terms.3,
                                },
                                rest,
                            ),
                        ),
                        None => None,
                    },
                    None => None,
                },
                None => None,
            },
            None => None,
        },
        None => None,
    }
}

/// The bytes of a signed order: the identifier, the order, the signature.
pub open spec fn signed_order_bytes(signed: SignedOrderView) -> Seq<u8> {
    byte_list_bytes(signed.order_id) + order_bytes(signed.order) + signed.signature.bytes@
}

/// Reads a signed order.
pub open spec fn parse_signed_order(bytes: Seq<u8>) -> Parsed<SignedOrderView> {
    match parse_byte_list(bytes) {
        Some((order_id, rest)) => match parse_order(rest) {
            Some((order, rest)) => match parse_signature(rest) {
                Some((signature, rest)) => Some(
                    (SignedOrderView { order_id, order, signature }, rest),
                ),
                None => None,
            },
            None => None,
        },
        None => None,
    }
}

/// The bytes that are signed for a signed order: its bytes with the signature whose bytes
/// are all zero in the place of its own.
pub open spec fn signing_payload(signed: SignedOrderView) -> Seq<u8> {
    byte_list_bytes(signed.order_id) + order_bytes(signed.order) + Seq::new(64, |i: int| 0u8)
}

/// Reading the bytes of the terms of an order back gives them.
pub proof fn lemma_parse_order_terms(order: OrderView, rest: Seq<u8>)
    ensures
        parse_order_terms(order_terms_bytes(order) + rest) == Some(
            ((order.order_type, order.side, order.quantity, order.price), rest),
        ),
{
    let all = order_terms_bytes(order) + rest;
    let t3 = option_bytes(order.price) + rest;
    let t2 = le_bytes(order.quantity as nat, 16) + t3;
    assert(all[0] == order_type_index(order.order_type));
    assert(all.skip(1)[0] == side_index(order.side));
    assert(all.skip(1).skip(1) =~= t2);
    lemma_parse_u128(order.quantity, t3);
    lemma_parse_option(order.price, rest);
}

/// Reading the bytes of an order back gives it.
pub proof fn lemma_parse_order(order: OrderView, rest: Seq<u8>)
    requires
        order.market_type.len() <= u32::MAX,
    ensures
        parse_order(order_bytes(order) + rest) == Some((order, rest)),
{
    let t4 = order_terms_bytes(order) + rest;
    let t3 = byte_list_bytes(order.market_type) + t4;
    let t2 = asset_bytes(order.market_id.quote) + t3;
    let t1 = asset_bytes(order.market_id.base) + t2;
    assert(order_bytes(order) + rest == order.user_uid.bytes@ + t1) by {
        let a = order.user_uid.bytes@;
        let b = asset_bytes(order.market_id.base);
        let c = asset_bytes(order.market_id.quote);
        let d = byte_list_bytes(order.market_type);
        lemma_join(a + b + c + d, order_terms_bytes(order), rest);
        lemma_join(a + b + c, d, t4);
        lemma_join(a + b, c, t3);
        lemma_join(a, b, t2);
    }
    lemma_parse_account_id(order.user_uid, t1);
    lemma_parse_asset(order.market_id.base, t2);
    lemma_parse_asset(order.market_id.quote, t3);
    lemma_parse_byte_list(order.market_type, t4);
    lemma_parse_order_terms(order, rest);
}

/// Reading the bytes of a signed order back gives it.
pub proof fn lemma_parse_signed_order(signed: SignedOrderView, rest: Seq<u8>)
    requires
        signed.encodable(),
    ensures
        parse_signed_order(signed_order_bytes(signed) + rest) == Some((signed, rest)),
{
    let t2 = signed.signature.bytes@ + rest;
    let t1 = order_bytes(signed.order) + t2;
    assert(signed_order_bytes(signed) + rest == byte_list_bytes(signed.order_id) + t1) by {
        let a = byte_list_bytes(signed.order_id);
        let b = order_bytes(signed.order);
        lemma_join(a + b, signed.signature.bytes@, rest);
        lemma_join(a, b, t2);
    }
    lemma_parse_byte_list(signed.order_id, t1);
    lemma_parse_order(signed.order, t2);
    lemma_parse_signature(signed.signature, rest);
}

/// Appends the bytes of an order.
pub fn put_order(out: &mut Vec<u8>, order: &Order)
    requires
        order@.market_type.len() <= u32::MAX,
    ensures
        final(out)@ == old(out)@ + order_bytes(order@),
{
    put_bytes(out, order.user_uid.bytes.as_slice());
    put_asset(out, &order.market_id.base);
    put_asset(out, &order.market_id.quote);
    put_byte_list(out, order.market_type.as_slice());
    out.push(
        match order.order_type {
            OrderType::LIMIT => 0u8,
            OrderType::MARKET => 1u8,
            OrderType::PostOnly => 2u8,
            OrderType::FillOrKill => 3u8,
        },
    );
    out.push(
        match order.side {
            OrderSide::BID => 0u8,
            OrderSide::ASK => 1u8,
        },
    );
    put_u128(out, order.quantity);
    put_option(out, &order.price);
    assert(out@ =~= old(out)@ + order_bytes(order@));
}

/// Reads an order from the start of `input`.
pub fn take_order(input: &[u8]) -> (read: Result<(Order, &[u8]), Error>)
    ensures
        read is Ok <==> parse_order(input@) is Some,
        read matches Ok(pair) ==> parse_order(input@) == Some((pair.0@, pair.1@)),
        read matches Err(e) ==> e == Error::Malformed,
{
    let (user_uid, rest) = take_account_id(input)?;
    let (base, rest) = take_asset(rest)?;
    let (quote, rest) = take_asset(rest)?;
    let (market_type, rest) = take_byte_list(rest)?;
    if rest.len() == 0 {
        return Err(Error::Malformed);
    }
    let order_type = match rest[0] {
        0u8 => OrderType::LIMIT,
        1u8 => OrderType::MARKET,
        2u8 => OrderType::PostOnly,
        3u8 => OrderType::FillOrKill,
        _ => {
            return Err(Error::Malformed);
        },
    };
    let after = vstd::slice::slice_subrange(rest, 1, rest.len());
    assert(after@ =~= rest@.skip(1));
    if after.len() == 0 {
        return Err(Error::Malformed);
    }
    let side = match after[0] {
        0u8 => OrderSide::BID,
        1u8 => OrderSide::ASK,
        _ => {
            return Err(Error::Malformed);
        },
    };
    let rest = vstd::slice::slice_subrange(after, 1, after.len());
    assert(rest@ =~= after@.skip(1));
    let (quantity, rest) = take_u128(rest)?;
    let (price, rest) = take_option(rest)?;
    let order = Order {
        user_uid,
        market_id: MarketId { base, quote },
        market_type,
        order_type,
        side,
        quantity,
        price,
    };
    Ok((order, rest))
}

impl SignedOrder {
    /// The bytes that are signed: the identifier and the order, then sixty-four zero bytes in
    /// the place of the signature.
    pub fn payload(&self) -> (bytes: Vec<u8>)
        requires
            self@.encodable(),
        ensures
            bytes@ == signing_payload(self@),
    {
        let mut bytes: Vec<u8> = Vec::new();
        put_byte_list(&mut bytes, self.order_id.as_slice());
        put_order(&mut bytes, &self.order);
        let blank = Signature::default();
        put_bytes(&mut bytes, blank.bytes.as_slice());
        assert(bytes@ =~= signing_payload(self@));
        bytes
    }

    /// The bytes of the signed order.
    pub fn encode(&self) -> (bytes: Vec<u8>)
        requires
            self@.encodable(),
        ensures
            bytes@ == signed_order_bytes(self@),
    {
        let mut bytes: Vec<u8> = Vec::new();
        put_byte_list(&mut bytes, self.order_id.as_slice());
        put_order(&mut bytes, &self.order);
        put_bytes(&mut bytes, self.signature.bytes.as_slice());
        assert(bytes@ =~= signed_order_bytes(self@));
        bytes
    }

    /// Signs the order: the signature becomes the one that `key_pair` gives to the payload.
    /// The identifier and the order stay.
    pub fn sign(&mut self, key_pair: &KeyPair)
        requires
            old(self)@.encodable(),
        ensures
            final(self)@ == (SignedOrderView {
                signature: final(self).signature,
                ..old(self)@
            }),
            final(self).signature.bytes@ == ed25519_signature(
                key_pair.seed@,
                signing_payload(old(self)@),
            ),
    {
        let payload = self.payload();
        self.signature = key_pair.sign(payload.as_slice());
    }

    /// Whether the signature is a good signature of the payload under the public key of
    /// `key_pair`.
    pub fn verify_signature(&self, key_pair: &KeyPair) -> (good: bool)
        requires
            self@.encodable(),
        ensures
            good == ed25519_accepts(
                self.signature.bytes@,
                signing_payload(self@),
                ed25519_public(key_pair.seed@),
            ),
    {
        let payload = self.payload();
        let public = key_pair.public();
        self.signature.verify(payload.as_slice(), &public)
    }

    /// The signed order that the bytes `k` start with. Bytes after it are not looked at.
    pub fn from_vec(k: &[u8]) -> (read: Result<SignedOrder, Error>)
        ensures
            read is Ok <==> parse_signed_order(k@) is Some,
            read matches Ok(signed) ==> parse_signed_order(k@).unwrap().0 == signed@,
            read matches Err(e) ==> e == Error::Malformed,
    {
        let (order_id, rest) = take_byte_list(k)?;
        let (order, rest) = take_order(rest)?;
        let (signature, _) = take_signature(rest)?;
        Ok(SignedOrder { order_id, order, signature })
    }
}

impl Default for SignedOrder {
    /// An order without identifier or signature: a limit bid of quantity 0 and without price,
    /// by the account whose bytes are all zero, in the market of the native currency against
    /// the asset 840.
    fn default() -> (signed: SignedOrder)
        ensures
            signed@ == (SignedOrderView {
                order_id: Seq::empty(),
                order: OrderView {
                    user_uid: signed.order.user_uid,
                    market_id: MarketId { base: AssetId::Polkadex, quote: AssetId::Asset(840) },
                    market_type: Seq::empty(),
                    order_type: OrderType::LIMIT,
                    side: OrderSide::BID,
                    quantity: 0,
                    price: None,
                },
                signature: signed.signature,
            }),
            signed.order.user_uid.bytes@ == Seq::new(32, |i: int| 0u8),
            signed.signature.bytes@ == Seq::new(64, |i: int| 0u8),
    {
        SignedOrder {
            order_id: Vec::new(),
            order: Order {
                user_uid: AccountId::zero(),
                market_id: MarketId { base: AssetId::Polkadex, quote: AssetId::Asset(840) },
                market_type: Vec::new(),
                order_type: OrderType::LIMIT,
                side: OrderSide::BID,
                quantity: 0,
                price: None,
            },
            signature: Signature::default(),
        }
    }
}

impl View for CreateOrderResponse {
    type V = Seq<u8>;

    /// The identifier of the order that was created.
    closed spec fn view(&self) -> Seq<u8> {
        self.order_uid@
    }
}

impl CreateOrderResponse {
    /// The answer that names the order `order_uid`.
    pub fn new(order_uid: OrderUUID) -> (response: CreateOrderResponse)
        ensures
            response@ == order_uid@,
    {
        CreateOrderResponse { order_uid }
    }

    /// The identifier of the order that was created.
    pub fn order_uid(&self) -> (order_uid: &OrderUUID)
        ensures
            order_uid@ == self@,
    {
        &self.order_uid
    }
}

impl View for ErrorMessage {
    type V = Seq<u8>;

    /// The bytes of the message.
    closed spec fn view(&self) -> Seq<u8> {
        self.message@
    }
}

impl ErrorMessage {
    /// The error message that holds `message`.
    pub fn new(message: Vec<u8>) -> (error: ErrorMessage)
        ensures
            error@ == message@,
    {
        ErrorMessage { message }
    }

    /// The bytes of the message.
    pub fn message(&self) -> (message: &Vec<u8>)
        ensures
            message@ == self@,
    {
        &self.message
    }
}

impl View for Response {
    type V = u32;

    /// The status code.
    closed spec fn view(&self) -> u32 {
        self.code
    }
}

impl Response {
    /// The response with the status `code`.
    pub fn new(code: u32) -> (response: Response)
        ensures
            response@ == code,
    {
        Response { code }
    }

    /// The status code.
    pub fn code(&self) -> (code: u32)
        ensures
            code == self@,
    {
        self.code
    }
}

/// Decoding the bytes of a signed order gives the signed order back.
pub proof fn lemma_signed_order_round_trip(signed: SignedOrderView)
    requires
        signed.encodable(),
    ensures
        parse_signed_order(signed_order_bytes(signed)) == Some((signed, Seq::<u8>::empty())),
{
    lemma_parse_signed_order(signed, Seq::empty());
    assert(signed_order_bytes(signed) + Seq::<u8>::empty() =~= signed_order_bytes(signed));
}

} // verus!
