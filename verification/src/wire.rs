//! Messages of the market-data WebSocket.
//!
//! Deprecated fields are optional and never the canonical source: `taker_side`
//! gives way to `taker_outcome_side` and `taker_book_side`, `ts` and `time` to
//! `ts_ms`.

use crate::json::{self, Json, JsonNumber};
use crate::parse::{ParseFailure, ParseFixedError};
use crate::px::{self, Px};
use crate::qty::{self, Qty};
use crate::text::same_text;
use crate::ticker::Side;
use vstd::prelude::*;

verus! {

/// Every message the market-data socket can deliver.
#[derive(Clone, Debug)]
pub enum ServerMessage {
    Subscribed(SubscribedPayload),
    Unsubscribed(UnsubscribedPayload),
    /// A bare `ok`.
    Acknowledged(OkPayload),
    Error(ErrorPayload),
    OrderbookSnapshot(OrderbookSnapshotPayload),
    OrderbookDelta(OrderbookDeltaPayload),
    Ticker(TickerPayload),
    Trade(TradePayload),
    MarketLifecycle(MarketLifecyclePayload),
    EventLifecycle(EventLifecyclePayload),
    EventFeeUpdate(EventFeeUpdatePayload),
}

impl ServerMessage {
    /// The subscription a message belongs to.
    pub open spec fn subscription(self) -> Option<u64> {
        match self {
            ServerMessage::Subscribed(m) => Some(m.msg.sid),
            ServerMessage::Unsubscribed(m) => Some(m.sid),
            ServerMessage::Acknowledged(m) => m.sid,
            ServerMessage::Error(_) => None,
            ServerMessage::OrderbookSnapshot(m) => Some(m.sid),
            ServerMessage::OrderbookDelta(m) => Some(m.sid),
            ServerMessage::Ticker(m) => Some(m.sid),
            ServerMessage::Trade(m) => Some(m.sid),
            ServerMessage::MarketLifecycle(m) => Some(m.sid),
            ServerMessage::EventLifecycle(m) => Some(m.sid),
            ServerMessage::EventFeeUpdate(m) => Some(m.sid),
        }
    }

    /// The sequence number a message carries.
    pub open spec fn sequence(self) -> Option<u64> {
        match self {
            ServerMessage::OrderbookSnapshot(m) => Some(m.seq),
            ServerMessage::OrderbookDelta(m) => Some(m.seq),
            _ => None,
        }
    }

    /// The subscription this message belongs to, when it has one.
    pub fn sid(&self) -> (out: Option<u64>)
        ensures
            out == self.subscription(),
    {
        match self {
            ServerMessage::Subscribed(m) => Some(m.msg.sid),
            ServerMessage::Unsubscribed(m) => Some(m.sid),
            ServerMessage::Acknowledged(m) => m.sid,
            ServerMessage::Error(_) => None,
            ServerMessage::OrderbookSnapshot(m) => Some(m.sid),
            ServerMessage::OrderbookDelta(m) => Some(m.sid),
            ServerMessage::Ticker(m) => Some(m.sid),
            ServerMessage::Trade(m) => Some(m.sid),
            ServerMessage::MarketLifecycle(m) => Some(m.sid),
            ServerMessage::EventLifecycle(m) => Some(m.sid),
            ServerMessage::EventFeeUpdate(m) => Some(m.sid),
        }
    }

    /// The sequence number, which only the orderbook channel carries: gap
    /// detection is impossible on every other channel.
    pub fn seq(&self) -> (out: Option<u64>)
        ensures
            out == self.sequence(),
    {
        match self {
            ServerMessage::OrderbookSnapshot(m) => Some(m.seq),
            ServerMessage::OrderbookDelta(m) => Some(m.seq),
            _ => None,
        }
    }
}

// ---------------------------------------------------------------------------
// Control
// ---------------------------------------------------------------------------
#[derive(Clone, Debug)]
pub struct SubscribedPayload {
    pub id: Option<u64>,
    pub msg: SubscribedBody,
}

#[derive(Clone, Debug)]
pub struct SubscribedBody {
    pub channel: String,
    /// Server-generated, and fresh on every subscribe.
    pub sid: u64,
}

#[derive(Clone, Debug)]
pub struct UnsubscribedPayload {
    pub id: Option<u64>,
    pub sid: u64,
    /// The final sequence number on this subscription.
    pub seq: Option<u64>,
}

#[derive(Clone, Debug)]
pub struct OkPayload {
    pub id: Option<u64>,
    pub sid: Option<u64>,
    pub seq: Option<u64>,
}

#[derive(Clone, Debug)]
pub struct ErrorPayload {
    pub id: Option<u64>,
    pub msg: ErrorBody,
}

#[derive(Clone, Debug)]
pub struct ErrorBody {
    pub code: u32,
    pub msg: String,
    pub market_ticker: Option<String>,
}

impl ErrorBody {
    /// Errors that kill the subscription outright: channel error, internal
    /// error, subscription buffer overflow.
    pub open spec fn kills_subscription(self) -> bool {
        self.code == 10 || self.code == 17 || self.code == 25
    }

    pub fn is_terminal(&self) -> (out: bool)
        ensures
            out == self.kills_subscription(),
    {
        self.code == 10 || self.code == 17 || self.code == 25
    }

    /// The server ended the subscription because it was not drained fast enough.
    pub fn is_buffer_overflow(&self) -> (out: bool)
        ensures
            out == (self.code == 25),
    {
        self.code == 25
    }
}

// ---------------------------------------------------------------------------
// Orderbook
// ---------------------------------------------------------------------------
/// One `[price, size]` level as it appears in a snapshot array.
#[derive(Clone, Debug)]
pub struct RawLevel(pub String, pub String);

impl RawLevel {
    /// Parse into typed values. A price that does not parse is reported before
    /// a size that does not.
    pub fn parse(&self) -> (result: Result<(Px, Qty), ParseFixedError>)
        ensures
            match result {
                Ok((price, size)) => px::price_outcome(self.0@) == Ok::<int, ParseFailure>(
                    price.0 as int,
                ) && qty::quantity_outcome(self.1@) == Ok::<int, ParseFailure>(size.0 as int),
                Err(error) => if px::price_outcome(self.0@) is Err {
                    px::price_outcome(self.0@) == Err::<int, ParseFailure>(error@)
                } else {
                    qty::quantity_outcome(self.1@) == Err::<int, ParseFailure>(error@)
                },
            },
    {
        let price = match Px::parse_dollars(self.0.as_str()) {
            Ok(price) => price,
            Err(error) => return Err(error),
        };
        match Qty::parse_fp(self.1.as_str()) {
            Ok(size) => Ok((price, size)),
            Err(error) => Err(error),
        }
    }

    pub fn price_raw(&self) -> (out: &str)
        ensures
            out@ == self.0@,
    {
        self.0.as_str()
    }

    pub fn size_raw(&self) -> (out: &str)
        ensures
            out@ == self.1@,
    {
        self.1.as_str()
    }
}

#[derive(Clone, Debug)]
pub struct OrderbookSnapshotPayload {
    pub sid: u64,
    pub seq: u64,
    pub msg: OrderbookSnapshotBody,
}

/// A full book state. Both arrays hold bids.
#[derive(Clone, Debug)]
pub struct OrderbookSnapshotBody {
    pub market_ticker: String,
    pub market_id: Option<String>,
    pub yes_dollars_fp: Vec<RawLevel>,
    pub no_dollars_fp: Vec<RawLevel>,
}

#[derive(Clone, Debug)]
pub struct OrderbookDeltaPayload {
    pub sid: u64,
    pub seq: u64,
    pub msg: OrderbookDeltaBody,
}

#[derive(Clone, Debug)]
pub struct OrderbookDeltaBody {
    pub market_ticker: String,
    pub market_id: Option<String>,
    pub price_dollars: String,
    /// Signed: a negative change removes size from the level.
    pub delta_fp: String,
    pub side: Side,
    /// Deprecated, and a text on this channel. Kept verbatim, never relied upon.
    pub ts: Option<String>,
    pub ts_ms: Option<i64>,
}

// ---------------------------------------------------------------------------
// Ticker and trade
// ---------------------------------------------------------------------------
#[derive(Clone, Debug)]
pub struct TickerPayload {
    pub sid: u64,
    pub msg: TickerBody,
}

#[derive(Clone, Debug)]
pub struct TickerBody {
    pub market_ticker: String,
    pub market_id: Option<String>,
    pub price_dollars: Option<String>,
    pub yes_bid_dollars: Option<String>,
    pub yes_ask_dollars: Option<String>,
    pub yes_bid_size_fp: Option<String>,
    pub yes_ask_size_fp: Option<String>,
    pub last_trade_size_fp: Option<String>,
    pub volume_fp: Option<String>,
    pub open_interest_fp: Option<String>,
    pub dollar_volume: Option<i64>,
    pub dollar_open_interest: Option<i64>,
    pub ts_ms: Option<i64>,
    /// Deprecated (integer seconds).
    pub ts: Option<i64>,
    /// Deprecated.
    pub time: Option<String>,
}

#[derive(Clone, Debug)]
pub struct TradePayload {
    pub sid: u64,
    pub msg: TradeBody,
}

#[derive(Clone, Debug)]
pub struct TradeBody {
    pub trade_id: Option<String>,
    pub market_ticker: String,
    pub yes_price_dollars: Option<String>,
    pub no_price_dollars: Option<String>,
    pub count_fp: Option<String>,
    /// Canonical direction field.
    pub taker_outcome_side: Option<Side>,
    /// Canonical direction field, in book vocabulary.
    pub taker_book_side: Option<String>,
    /// Deprecated in favour of the two above.
    pub taker_side: Option<Side>,
    pub is_block_trade: Option<bool>,
    pub ts_ms: Option<i64>,
    /// Deprecated (integer seconds on this channel).
    pub ts: Option<i64>,
}

/// The outcome side that a book side stands for.
pub open spec fn book_side_outcome(book_side: Seq<char>) -> Option<Side> {
    if book_side == "bid"@ {
        Some(Side::Yes)
    } else if book_side == "ask"@ {
        Some(Side::No)
    } else {
        None
    }
}

impl TradeBody {
    /// The taker's direction, preferring the canonical fields. The deprecated
    /// field counts only where both canonical ones are absent.
    pub fn direction(&self) -> (out: Option<Side>)
        ensures
            out == (if self.taker_outcome_side is Some {
                self.taker_outcome_side
            } else {
                match self.taker_book_side {
                    Some(book_side) => book_side_outcome(book_side@),
                    None => self.taker_side,
                }
            }),
    {
        if let Some(side) = self.taker_outcome_side {
            return Some(side);
        }
        match &self.taker_book_side {
            Some(book_side) => {
                proof {
                    reveal_strlit("bid");
                    reveal_strlit("ask");
                    assert("bid"@[0] != "ask"@[0]);
                }
                if same_text(book_side.as_str(), "bid") {
                    Some(Side::Yes)
                } else if same_text(book_side.as_str(), "ask") {
                    Some(Side::No)
                } else {
                    None
                }
            },
            None => self.taker_side,
        }
    }
}

// ---------------------------------------------------------------------------
// Lifecycle
// ---------------------------------------------------------------------------
#[derive(Clone, Debug)]
pub struct MarketLifecyclePayload {
    pub sid: u64,
    pub msg: MarketLifecycleBody,
}

/// A market lifecycle transition. `determined` carries the settlement value.
#[derive(Clone, Debug)]
pub struct MarketLifecycleBody {
    pub event_type: String,
    pub market_ticker: String,
    pub exchange_index: Option<i64>,
    pub open_ts: Option<i64>,
    pub close_ts: Option<i64>,
    pub result: Option<String>,
    pub determination_ts: Option<i64>,
    /// Fixed-point dollars. Present only on `determined`.
    pub settlement_value: Option<String>,
    pub settled_ts: Option<i64>,
    pub is_deactivated: Option<bool>,
    pub price_level_structure: Option<String>,
    pub price_ranges: Option<Json>,
    pub strike_type: Option<String>,
    pub floor_strike: Option<Json>,
    pub cap_strike: Option<Json>,
    pub custom_strike: Option<Json>,
    pub yes_sub_title: Option<String>,
    pub additional_metadata: Option<Json>,
}

impl MarketLifecycleBody {
    pub fn is_created(&self) -> (out: bool)
        ensures
            out == (self.event_type@ == "created"@),
    {
        same_text(self.event_type.as_str(), "created")
    }

    pub fn changes_price_grid(&self) -> (out: bool)
        ensures
            out == (self.price_ranges is Some),
    {
        self.price_ranges.is_some()
    }
}

#[derive(Clone, Debug)]
pub struct EventLifecyclePayload {
    pub sid: u64,
    pub msg: EventLifecycleBody,
}

#[derive(Clone, Debug)]
pub struct EventLifecycleBody {
    pub event_ticker: String,
    pub series_ticker: Option<String>,
    pub title: Option<String>,
    pub subtitle: Option<String>,
    pub collateral_return_type: Option<String>,
    pub strike_date: Option<i64>,
    pub strike_period: Option<String>,
    pub exchange_index: Option<i64>,
}

/// Per-event fee overrides. An absent override is one that was cleared, which is
/// itself an event worth keeping.
#[derive(Clone, Debug)]
pub struct EventFeeUpdatePayload {
    pub sid: u64,
    pub msg: EventFeeUpdateBody,
}

#[derive(Clone, Debug)]
pub struct EventFeeUpdateBody {
    pub event_ticker: String,
    pub fee_type_override: Option<String>,
    /// Held as its token, never as a float.
    pub fee_multiplier_override: Option<JsonNumber>,
}

impl EventFeeUpdateBody {
    /// The multiplier exactly as it appeared on the wire.
    pub fn multiplier_raw(&self) -> (out: Option<String>)
        ensures
            json::opt_string(out) == (match self.fee_multiplier_override {
                Some(number) => Some(number.token@),
                None => None,
            }),
    {
        match &self.fee_multiplier_override {
            Some(number) => Some(number.token.clone()),
            None => None,
        }
    }
}

/// A message belongs to the subscription it names, and carries a sequence number only
/// where it is about a book.
pub proof fn law_messages_name_their_subscription(
    message: ServerMessage,
    sid: Option<u64>,
    seq: Option<u64>,
)
    requires
        call_ensures(ServerMessage::sid, (&message,), sid),
        call_ensures(ServerMessage::seq, (&message,), seq),
    ensures
        message matches ServerMessage::OrderbookSnapshot(m) ==> sid == Some(m.sid) && seq == Some(
            m.seq,
        ),
        message matches ServerMessage::OrderbookDelta(m) ==> sid == Some(m.sid) && seq == Some(
            m.seq,
        ),
        message matches ServerMessage::Ticker(m) ==> sid == Some(m.sid),
        message matches ServerMessage::Trade(m) ==> sid == Some(m.sid),
        message matches ServerMessage::MarketLifecycle(m) ==> sid == Some(m.sid),
        message matches ServerMessage::EventLifecycle(m) ==> sid == Some(m.sid),
        message matches ServerMessage::EventFeeUpdate(m) ==> sid == Some(m.sid),
        message matches ServerMessage::Subscribed(m) ==> sid == Some(m.msg.sid),
        message matches ServerMessage::Unsubscribed(m) ==> sid == Some(m.sid),
        message matches ServerMessage::Acknowledged(m) ==> sid == m.sid,
        message is Error ==> sid is None,
        !(message is OrderbookSnapshot) && !(message is OrderbookDelta) ==> seq is None,
{
}

/// The taker's direction comes from the outcome side, else from the book side, where a
/// bid is YES and an ask is NO, and from the deprecated field only without both.
pub proof fn law_the_direction_prefers_the_canonical_fields(trade: TradeBody, out: Option<Side>)
    requires
        call_ensures(TradeBody::direction, (&trade,), out),
    ensures
        trade.taker_outcome_side is Some ==> out == trade.taker_outcome_side,
        trade.taker_outcome_side is None && trade.taker_book_side is None ==> out
            == trade.taker_side,
        trade.taker_outcome_side is None && trade.taker_book_side is Some ==> {
            let side = trade.taker_book_side->0@;
            &&& out == Some(Side::Yes) <==> side == "bid"@
            &&& out == Some(Side::No) <==> side == "ask"@
            &&& out is None <==> side != "bid"@ && side != "ask"@
        },
{
    reveal_strlit("bid");
    reveal_strlit("ask");
    assert("bid"@[0] != "ask"@[0]);
}

/// A level is its first text as a price and its second as a size; where either does not
/// parse, that is the error, the price first.
pub proof fn law_a_level_is_price_and_size(
    level: RawLevel,
    result: Result<(Px, Qty), ParseFixedError>,
    price_raw: &str,
    size_raw: &str,
    price: Result<Px, ParseFixedError>,
    size: Result<Qty, ParseFixedError>,
)
    requires
        call_ensures(RawLevel::parse, (&level,), result),
        call_ensures(RawLevel::price_raw, (&level,), price_raw),
        call_ensures(RawLevel::size_raw, (&level,), size_raw),
        call_ensures(Px::parse_dollars, (price_raw,), price),
        call_ensures(Qty::parse_fp, (size_raw,), size),
    ensures
        price_raw@ == level.0@ && size_raw@ == level.1@,
        result is Ok <==> price is Ok && size is Ok,
        result matches Ok((p, q)) ==> p == price->Ok_0 && q == size->Ok_0,
        price is Err ==> result->Err_0@ == price->Err_0@,
        price is Ok && size is Err ==> result->Err_0@ == size->Err_0@,
{
}

/// What a lifecycle event says of its market, and a fee update of its multiplier.
pub proof fn law_events_are_read_as_sent(
    event: MarketLifecycleBody,
    created: bool,
    grid: bool,
    fee: EventFeeUpdateBody,
    multiplier: Option<String>,
)
    requires
        call_ensures(MarketLifecycleBody::is_created, (&event,), created),
        call_ensures(MarketLifecycleBody::changes_price_grid, (&event,), grid),
        call_ensures(EventFeeUpdateBody::multiplier_raw, (&fee,), multiplier),
    ensures
        created <==> event.event_type@ == "created"@,
        grid <==> event.price_ranges is Some,
        multiplier is Some <==> fee.fee_multiplier_override is Some,
        multiplier matches Some(text) ==> text@ == fee.fee_multiplier_override->0.token@,
{
}

} // verus!
