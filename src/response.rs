use std::collections::HashMap;

use bigdecimal::BigDecimal;
use serde_json::Value;
use vstd::prelude::*;

use crate::channel::Channel;

verus! {

/// Declares `bigdecimal::BigDecimal`, which the payloads carry to the
/// handlers; the library never reads inside it.
#[verifier::external_type_specification]
#[verifier::external_body]
pub struct ExBigDecimal(bigdecimal::BigDecimal);

/// Declares `serde_json::Value`, which the error payload carries to the
/// handlers; the library never reads inside it.
#[verifier::external_type_specification]
#[verifier::external_body]
pub struct ExJsonValue(serde_json::Value);

/// An instant in UTC: whole seconds since the Unix epoch and the nanoseconds
/// past that second.
#[derive(Debug, Clone, Copy, PartialEq, Eq, Structural)]
pub struct Timestamp {
    pub seconds: i64,
    pub nanos: u32,
}

#[derive(Debug, Clone, Copy, PartialEq, Eq, Structural)]
pub enum Side {
    BUY,
    SELL,
}

#[derive(Debug, Clone, Copy, PartialEq, Eq, Structural)]
pub enum OrderType {
    LIMIT,
    MARKET,
    STOP,
}

#[derive(Debug, Clone, Copy, PartialEq, Eq, Structural)]
pub enum FinishReason {
    FILLED,
    CANCELED,
}

/// An inbound event, selected on the wire by its `type` field.
#[derive(Debug)]
pub enum ResponseMessages {
    Subscriptions { resp: SubscriptionResponse },
    Heartbeat { resp: HeartBeatResponse },
    Status { resp: StatusResponse },
    Ticker { resp: TickerResponse },
    Snapshot { resp: SnapshotResponse },
    L2Update { resp: L2UpdateResponse },
    Match { resp: MatchResponse },
    Received { resp: ReceivedResponse },
    Open { resp: OpenResponse },
    Change { resp: ChangeResponse },
    Done { resp: DoneResponse },
    Active { resp: ActiveResponse },
    Error { resp: ErrorResponse },
    #[allow(non_camel_case_types)]
    Last_Match { resp: LastMatchResponse },
}

#[derive(Debug)]
pub struct SubscriptionResponse {
    pub channels: Vec<Channel>,
}

#[derive(Debug)]
pub struct HeartBeatResponse {
    pub sequence: i64,
    pub last_trade_id: i64,
    pub product_id: String,
    pub time: Timestamp,
}

#[derive(Debug)]
pub struct StatusResponse {
    pub products: Vec<Product>,
    pub currencies: Vec<Currency>,
}

#[derive(Debug)]
pub struct TickerResponse {
    pub trade_id: i64,
    pub sequence: i64,
    pub time: Timestamp,
    pub product_id: String,
    pub price: BigDecimal,
    pub side: Side,
    pub last_size: BigDecimal,
    pub best_bid: BigDecimal,
    pub best_ask: BigDecimal,
}

#[derive(Debug)]
pub struct SnapshotResponse {
    pub product_id: String,
    pub bids: Vec<Vec<BigDecimal>>,
    pub asks: Vec<Vec<BigDecimal>>,
}

#[derive(Debug)]
pub struct L2UpdateResponse {
    pub product_id: String,
    pub time: Timestamp,
    pub changes: Vec<Change>,
}

#[derive(Debug)]
pub struct MatchResponse {
    pub time: Timestamp,
    pub product_id: String,
    pub sequence: i64,
    pub trade_id: i64,
    pub maker_order_id: String,
    pub taker_order_id: String,
    pub size: BigDecimal,
    pub price: BigDecimal,
    pub side: Side,
}

#[derive(Debug)]
pub struct ReceivedResponse {
    pub time: Timestamp,
    pub product_id: String,
    pub sequence: i64,
    pub order_id: String,
    pub side: Side,
    pub order_type: OrderType,
    // For limit orders.
    pub size: Option<BigDecimal>,
    pub price: Option<BigDecimal>,
    // For market orders.
    pub funds: Option<BigDecimal>,
}

#[derive(Debug)]
pub struct OpenResponse {
    pub time: Timestamp,
    pub product_id: String,
    pub sequence: i64,
    pub order_id: String,
    pub price: BigDecimal,
    pub side: Side,
    pub remaining_size: BigDecimal,
}

#[derive(Debug)]
pub struct ChangeResponse {
    pub time: Timestamp,
    pub product_id: String,
    pub sequence: i64,
    pub order_id: String,
    pub new_size: BigDecimal,
    pub old_size: BigDecimal,
    pub price: Option<BigDecimal>,
    pub side: Side,
}

#[derive(Debug)]
pub struct DoneResponse {
    pub time: Timestamp,
    pub product_id: String,
    pub sequence: i64,
    pub order_id: String,
    pub reason: FinishReason,
    pub side: Side,
}

#[derive(Debug)]
pub struct ActiveResponse {
    pub time: Timestamp,
    pub product_id: String,
    pub order_id: String,
    pub user_id: String,
    pub profile_id: String,
    pub timestamp: String,
    pub stop_type: String,
    pub side: Side,
    pub stop_price: BigDecimal,
    pub size: BigDecimal,
    pub funds: BigDecimal,
    pub private: bool,
}

#[derive(Debug)]
pub struct LastMatchResponse {
    pub trade_id: i64,
    pub maker_order_id: String,
    pub taker_order_id: String,
    pub side: Side,
    pub size: BigDecimal,
    pub price: BigDecimal,
    pub product_id: String,
    pub sequence: i64,
    pub time: Timestamp,
}

#[derive(Debug)]
pub struct ErrorResponse {
    pub msg: String,
    pub extra: HashMap<String, Value>,
}

/// A product as the status channel lists it.
#[derive(Debug)]
pub struct Product {
    pub id: String,
    pub base_currency: String,
    pub quote_currency: String,
    pub base_min_size: Option<BigDecimal>,
    pub base_max_size: Option<BigDecimal>,
    pub base_increment: Option<BigDecimal>,
    pub quote_increment: Option<BigDecimal>,
    pub display_name: String,
    pub status: Option<String>,
    pub status_message: Option<String>,
    pub min_market_funds: Option<BigDecimal>,
    pub max_market_funds: Option<BigDecimal>,
    pub post_only: bool,
    pub limit_only: bool,
    pub cancel_only: Option<bool>,
}

/// A currency as the status channel lists it.
#[derive(Debug)]
pub struct Currency {
    pub id: String,
    pub name: String,
    pub min_size: BigDecimal,
    pub status: String,
    pub status_message: Option<String>,
    pub max_precision: BigDecimal,
    pub convertible_to: Vec<String>,
}

/// One order-book change of a level-2 update: a side, a price and a size.
#[derive(Debug)]
pub struct Change {
    pub side: Side,
    pub price: BigDecimal,
    pub size: BigDecimal,
}

/// The kind of an inbound event, as its wire tag names it.
#[derive(Debug, Clone, Copy, PartialEq, Eq, Structural)]
pub enum EventKind {
    Subscriptions,
    Heartbeat,
    Status,
    Ticker,
    Snapshot,
    L2Update,
    Match,
    Received,
    Open,
    Change,
    Done,
    Active,
    Error,
    LastMatch,
}

/// The kind of an inbound event.
pub open spec fn kind_of(m: ResponseMessages) -> EventKind {
    match m {
        ResponseMessages::Subscriptions { .. } => EventKind::Subscriptions,
        ResponseMessages::Heartbeat { .. } => EventKind::Heartbeat,
        ResponseMessages::Status { .. } => EventKind::Status,
        ResponseMessages::Ticker { .. } => EventKind::Ticker,
        ResponseMessages::Snapshot { .. } => EventKind::Snapshot,
        ResponseMessages::L2Update { .. } => EventKind::L2Update,
        ResponseMessages::Match { .. } => EventKind::Match,
        ResponseMessages::Received { .. } => EventKind::Received,
        ResponseMessages::Open { .. } => EventKind::Open,
        ResponseMessages::Change { .. } => EventKind::Change,
        ResponseMessages::Done { .. } => EventKind::Done,
        ResponseMessages::Active { .. } => EventKind::Active,
        ResponseMessages::Error { .. } => EventKind::Error,
        ResponseMessages::Last_Match { .. } => EventKind::LastMatch,
    }
}

impl ResponseMessages {
    /// The kind of this event.
    pub fn kind(&self) -> (r: EventKind)
        ensures
            r == kind_of(*self),
    {
        match self {
            ResponseMessages::Subscriptions { .. } => EventKind::Subscriptions,
            ResponseMessages::Heartbeat { .. } => EventKind::Heartbeat,
            ResponseMessages::Status { .. } => EventKind::Status,
            ResponseMessages::Ticker { .. } => EventKind::Ticker,
            ResponseMessages::Snapshot { .. } => EventKind::Snapshot,
            ResponseMessages::L2Update { .. } => EventKind::L2Update,
            ResponseMessages::Match { .. } => EventKind::Match,
            ResponseMessages::Received { .. } => EventKind::Received,
            ResponseMessages::Open { .. } => EventKind::Open,
            ResponseMessages::Change { .. } => EventKind::Change,
            ResponseMessages::Done { .. } => EventKind::Done,
            ResponseMessages::Active { .. } => EventKind::Active,
            ResponseMessages::Error { .. } => EventKind::Error,
            ResponseMessages::Last_Match { .. } => EventKind::LastMatch,
        }
    }
}


} // verus!
