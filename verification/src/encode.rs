//! Wire message to Arrow batch.
//!
//! Every price and quantity gives two columns, the raw wire text exactly as
//! received and the integer parsed from it. When parsing fails the integer is
//! null and the raw text is still written. Every row carries the complete
//! original message.

use crate::grid_history::{self, grid_hash};
use crate::json::{
    self, bool_field, field, int_field, number_token, uint_field, Json, Node,
};
use crate::px::{self, Px};
use crate::qty::{self, Qty};
use crate::schema::{self, Channel, ColumnKind, Scale};
use crate::sink::{Record, StoreRecord};
use crate::table::{self, batch_of, columns_fit, Cell, CellModel, EncodedBatch, Table};
use vstd::prelude::*;

verus! {

#[derive(Debug, Clone, PartialEq, Eq)]
pub enum EncodeError {
    /// The columns do not make up a batch, which [`encode`] rules out.
    Batch { channel: &'static str },
}

// ---------------------------------------------------------------------------
// Reading a record
// ---------------------------------------------------------------------------
/// The message body; null where the record did not parse or has none.
pub open spec fn body_node(record: Record) -> Node {
    match record.parsed {
        Some(envelope) => match envelope.get("msg"@) {
            Some(body) => body,
            None => Node::Null,
        },
        None => Node::Null,
    }
}

/// The envelope; null where the record did not parse.
pub open spec fn envelope_node(record: Record) -> Node {
    match record.parsed {
        Some(envelope) => envelope,
        None => Node::Null,
    }
}

/// An unsigned number as a signed one, where it fits.
pub open spec fn as_signed(n: Option<u64>) -> Option<i64> {
    match n {
        Some(n) => if n <= i64::MAX {
            Some(n as i64)
        } else {
            None
        },
        None => None,
    }
}

/// The receive time as stored: zero where it does not fit.
pub open spec fn stored_time(received_at: int) -> i64 {
    if i64::MIN <= received_at <= i64::MAX {
        received_at as i64
    } else {
        0
    }
}

/// The columns common to every channel.
pub open spec fn common_cells(
    record: Record,
    exchange_ts_ms: Option<i64>,
    session_id: Seq<char>,
    sid: Option<u64>,
    seq: Option<u64>,
) -> Seq<CellModel> {
    seq![
        CellModel::Timestamp(Some(stored_time(record.received_at))),
        CellModel::Int64(exchange_ts_ms),
        CellModel::Text(Some(session_id)),
        CellModel::Int64(as_signed(sid)),
        CellModel::Int64(as_signed(seq)),
        CellModel::Text(Some(record.raw)),
    ]
}

/// The integer beside a raw price: null where there is none or it does not
/// parse.
pub open spec fn parsed_price(raw: Option<Seq<char>>) -> Option<i64> {
    match raw {
        Some(text) => match px::price_outcome(text) {
            Ok(micros) => Some(micros as i64),
            Err(_) => None,
        },
        None => None,
    }
}

/// The integer beside a raw quantity.
pub open spec fn parsed_quantity(raw: Option<Seq<char>>) -> Option<i64> {
    match raw {
        Some(text) => match qty::quantity_outcome(text) {
            Ok(units) => Some(units as i64),
            Err(_) => None,
        },
        None => None,
    }
}

/// A text, or the empty text where there is none.
pub open spec fn or_empty(text: Option<Seq<char>>) -> Option<Seq<char>> {
    match text {
        Some(text) => Some(text),
        None => Some(Seq::empty()),
    }
}

/// The exchange's time: `ts_ms`, or else the deprecated seconds of `ts`; null where
/// those do not fit milliseconds.
pub open spec fn canonical_time(msg: Node) -> Option<i64> {
    match msg.int_at("ts_ms"@) {
        Some(ms) => Some(ms),
        None => match msg.int_at("ts"@) {
            Some(s) => if i64::MIN <= s * 1_000 <= i64::MAX {
                Some((s * 1_000) as i64)
            } else {
                None
            },
            None => None,
        },
    }
}

// ---------------------------------------------------------------------------
// The rows of each channel
// ---------------------------------------------------------------------------
/// The row of one price level.
pub open spec fn level_row(
    session_id: Seq<char>,
    record: Record,
    side: Seq<char>,
    index: int,
    pair: Seq<Node>,
) -> Seq<CellModel> {
    market_cells(session_id, record) + level_cells(body_node(record), side, index, pair)
}

/// The common columns of a message that has its time in `ts_ms`.
pub open spec fn market_cells(session_id: Seq<char>, record: Record) -> Seq<CellModel> {
    common_cells(
        record,
        body_node(record).int_at("ts_ms"@),
        session_id,
        envelope_node(record).uint_at("sid"@),
        envelope_node(record).uint_at("seq"@),
    )
}

/// The common columns of a message that may have its time in the deprecated
/// `ts`.
pub open spec fn timed_cells(session_id: Seq<char>, record: Record) -> Seq<CellModel> {
    common_cells(
        record,
        canonical_time(body_node(record)),
        session_id,
        envelope_node(record).uint_at("sid"@),
        envelope_node(record).uint_at("seq"@),
    )
}

pub open spec fn level_cells(msg: Node, side: Seq<char>, index: int, pair: Seq<Node>) -> Seq<
    CellModel,
> {
    seq![
        CellModel::Text(or_empty(msg.text_at("market_ticker"@))),
        CellModel::Text(msg.text_at("market_id"@)),
        CellModel::Text(Some(side)),
        CellModel::Text(text_of_item(pair, 0)),
        CellModel::Int64(parsed_price(text_of_item(pair, 0))),
        CellModel::Text(text_of_item(pair, 1)),
        CellModel::Int64(parsed_quantity(text_of_item(pair, 1))),
        CellModel::Int32(Some(level_place(index))),
    ]
}

/// The place of a level as stored; minus one where there is none or it does not
/// fit.
pub open spec fn level_place(index: int) -> i32 {
    if 0 <= index <= i32::MAX {
        index as i32
    } else {
        -1int as i32
    }
}

/// The text at a place of an array.
pub open spec fn text_of_item(items: Seq<Node>, i: int) -> Option<Seq<char>> {
    if i < items.len() {
        items[i].text()
    } else {
        None
    }
}

/// The price and the size of a level; neither where the level is no array.
pub open spec fn pair_of(level: Node) -> Seq<Node> {
    match level.items() {
        Some(pair) => pair,
        None => Seq::empty(),
    }
}

/// The rows of one side: one per level, in order.
pub open spec fn side_rows(
    session_id: Seq<char>,
    record: Record,
    side: Seq<char>,
    levels: Seq<Node>,
) -> Seq<Seq<CellModel>> {
    Seq::new(
        levels.len(),
        |i: int| level_row(session_id, record, side, i, pair_of(levels[i])),
    )
}

/// The row of a snapshot that lists no level: no side, no price and no size, but
/// the message.
pub open spec fn bare_row(session_id: Seq<char>, record: Record) -> Seq<CellModel> {
    level_row(session_id, record, Seq::empty(), -1, Seq::empty())
}

/// The levels of one side; none where the side is absent.
pub open spec fn levels_at(msg: Node, key: Seq<char>) -> Seq<Node> {
    match msg.items_at(key) {
        Some(levels) => levels,
        None => Seq::empty(),
    }
}

pub open spec fn snapshot_rows(session_id: Seq<char>, record: Record) -> Seq<Seq<CellModel>> {
    let msg = body_node(record);
    let rows = side_rows(session_id, record, "yes"@, levels_at(msg, "yes_dollars_fp"@)) + side_rows(
        session_id,
        record,
        "no"@,
        levels_at(msg, "no_dollars_fp"@),
    );
    if rows.len() == 0 {
        seq![bare_row(session_id, record)]
    } else {
        rows
    }
}

pub open spec fn delta_cells(msg: Node) -> Seq<CellModel> {
    seq![
        CellModel::Text(or_empty(msg.text_at("market_ticker"@))),
        CellModel::Text(msg.text_at("market_id"@)),
        CellModel::Text(or_empty(msg.text_at("side"@))),
        CellModel::Text(msg.text_at("price_dollars"@)),
        CellModel::Int64(parsed_price(msg.text_at("price_dollars"@))),
        CellModel::Text(msg.text_at("delta_fp"@)),
        CellModel::Int64(parsed_quantity(msg.text_at("delta_fp"@))),
    ]
}

pub open spec fn delta_row(session_id: Seq<char>, record: Record) -> Seq<CellModel> {
    market_cells(session_id, record) + delta_cells(body_node(record))
}

pub open spec fn ticker_cells(msg: Node) -> Seq<CellModel> {
    seq![
        CellModel::Text(or_empty(msg.text_at("market_ticker"@))),
        CellModel::Text(msg.text_at("market_id"@)),
        CellModel::Text(msg.text_at("price_dollars"@)),
        CellModel::Int64(parsed_price(msg.text_at("price_dollars"@))),
        CellModel::Text(msg.text_at("yes_bid_dollars"@)),
        CellModel::Int64(parsed_price(msg.text_at("yes_bid_dollars"@))),
        CellModel::Text(msg.text_at("yes_ask_dollars"@)),
        CellModel::Int64(parsed_price(msg.text_at("yes_ask_dollars"@))),
        CellModel::Text(msg.text_at("yes_bid_size_fp"@)),
        CellModel::Int64(parsed_quantity(msg.text_at("yes_bid_size_fp"@))),
        CellModel::Text(msg.text_at("yes_ask_size_fp"@)),
        CellModel::Int64(parsed_quantity(msg.text_at("yes_ask_size_fp"@))),
        CellModel::Text(msg.text_at("volume_fp"@)),
        CellModel::Int64(parsed_quantity(msg.text_at("volume_fp"@))),
        CellModel::Text(msg.text_at("open_interest_fp"@)),
        CellModel::Int64(parsed_quantity(msg.text_at("open_interest_fp"@))),
    ]
}

pub open spec fn ticker_row(session_id: Seq<char>, record: Record) -> Seq<CellModel> {
    timed_cells(session_id, record) + ticker_cells(body_node(record))
}

pub open spec fn trade_cells(msg: Node) -> Seq<CellModel> {
    seq![
        CellModel::Text(msg.text_at("trade_id"@)),
        CellModel::Text(or_empty(msg.text_at("market_ticker"@))),
        CellModel::Text(msg.text_at("yes_price_dollars"@)),
        CellModel::Int64(parsed_price(msg.text_at("yes_price_dollars"@))),
        CellModel::Text(msg.text_at("no_price_dollars"@)),
        CellModel::Int64(parsed_price(msg.text_at("no_price_dollars"@))),
        CellModel::Text(msg.text_at("count_fp"@)),
        CellModel::Int64(parsed_quantity(msg.text_at("count_fp"@))),
        CellModel::Text(msg.text_at("taker_outcome_side"@)),
        CellModel::Text(msg.text_at("taker_book_side"@)),
        CellModel::Text(msg.text_at("taker_side"@)),
        CellModel::Boolean(msg.boolean_at("is_block_trade"@)),
    ]
}

pub open spec fn trade_row(session_id: Seq<char>, record: Record) -> Seq<CellModel> {
    timed_cells(session_id, record) + trade_cells(body_node(record))
}

/// The market of a lifecycle event, or the event where there is no market.
pub open spec fn lifecycle_market(msg: Node) -> Option<Seq<char>> {
    match msg.text_at("market_ticker"@) {
        Some(ticker) => Some(ticker),
        None => or_empty(msg.text_at("event_ticker"@)),
    }
}

pub open spec fn lifecycle_cells(msg: Node) -> Seq<CellModel> {
    seq![
        CellModel::Text(or_empty(msg.text_at("event_type"@))),
        CellModel::Text(lifecycle_market(msg)),
        CellModel::Text(msg.text_at("result"@)),
        CellModel::Text(msg.text_at("settlement_value"@)),
        CellModel::Int64(parsed_price(msg.text_at("settlement_value"@))),
        CellModel::Int64(msg.int_at("open_ts"@)),
        CellModel::Int64(msg.int_at("close_ts"@)),
        CellModel::Int64(msg.int_at("determination_ts"@)),
        CellModel::Int64(msg.int_at("settled_ts"@)),
        CellModel::Boolean(msg.boolean_at("is_deactivated"@)),
        CellModel::Text(msg.text_at("price_level_structure"@)),
    ]
}

pub open spec fn lifecycle_row(session_id: Seq<char>, record: Record) -> Seq<CellModel> {
    market_cells(session_id, record) + lifecycle_cells(body_node(record))
}

pub open spec fn fee_cells(msg: Node) -> Seq<CellModel> {
    seq![
        CellModel::Text(or_empty(msg.text_at("event_ticker"@))),
        CellModel::Text(msg.text_at("fee_type_override"@)),
        CellModel::Text(msg.number_token_at("fee_multiplier_override"@)),
    ]
}

pub open spec fn fee_row(session_id: Seq<char>, record: Record) -> Seq<CellModel> {
    market_cells(session_id, record) + fee_cells(body_node(record))
}

/// The text of the grid as JSON; empty where there is none.
pub open spec fn grid_text(msg: Node) -> Seq<char> {
    match msg.get("price_ranges"@) {
        Some(grid) => json::json_text(grid),
        None => Seq::empty(),
    }
}

/// The number of bands, where the grid is an array.
pub open spec fn band_count(msg: Node) -> Option<i32> {
    match msg.items_at("price_ranges"@) {
        Some(bands) => if bands.len() <= i32::MAX {
            Some(bands.len() as i32)
        } else {
            None
        },
        None => None,
    }
}

/// Where a grid was observed; discovery where nothing else is said.
pub open spec fn grid_source(msg: Node) -> Option<Seq<char>> {
    match msg.text_at("source"@) {
        Some(source) => Some(source),
        None => Some("discovery"@),
    }
}

pub open spec fn grid_cells(msg: Node) -> Seq<CellModel> {
    seq![
        CellModel::Text(or_empty(msg.text_at("market_ticker"@))),
        CellModel::Text(grid_source(msg)),
        CellModel::Timestamp(msg.int_at("effective_at_ns"@)),
        CellModel::Text(msg.text_at("price_level_structure"@)),
        CellModel::Text(Some(grid_text(msg))),
        CellModel::Text(Some(grid_history::grid_hash_text(grid_text(msg)))),
        CellModel::Int32(band_count(msg)),
    ]
}

pub open spec fn grid_row(session_id: Seq<char>, record: Record) -> Seq<CellModel> {
    market_cells(session_id, record) + grid_cells(body_node(record))
}

/// The type that the raw text names, as far as it is JSON at all.
pub open spec fn raw_type(raw: Seq<char>) -> Option<Seq<char>> {
    match json::json_of_text(raw) {
        Some(document) => document.text_at("type"@),
        None => None,
    }
}

pub open spec fn unparsed_cells(record: Record) -> Seq<CellModel> {
    seq![
        CellModel::Text(envelope_node(record).text_at("parse_error"@)),
        CellModel::Text(raw_type(record.raw)),
    ]
}

pub open spec fn unparsed_row(session_id: Seq<char>, record: Record) -> Seq<CellModel> {
    common_cells(
        record,
        None,
        session_id,
        envelope_node(record).uint_at("sid"@),
        envelope_node(record).uint_at("seq"@),
    ) + unparsed_cells(record)
}

/// The subscription of a control frame: from the envelope, or else the body.
pub open spec fn control_sid(record: Record) -> Option<u64> {
    match envelope_node(record).uint_at("sid"@) {
        Some(sid) => Some(sid),
        None => body_node(record).uint_at("sid"@),
    }
}

pub open spec fn error_code(msg: Node) -> Option<i32> {
    match msg.int_at("code"@) {
        Some(code) => if i32::MIN <= code <= i32::MAX {
            Some(code as i32)
        } else {
            None
        },
        None => None,
    }
}

pub open spec fn control_cells(record: Record) -> Seq<CellModel> {
    let msg = body_node(record);
    seq![
        CellModel::Text(envelope_node(record).text_at("type"@)),
        CellModel::Text(msg.text_at("channel"@)),
        CellModel::Int32(error_code(msg)),
        CellModel::Text(msg.text_at("msg"@)),
    ]
}

pub open spec fn control_row(session_id: Seq<char>, record: Record) -> Seq<CellModel> {
    common_cells(
        record,
        None,
        session_id,
        control_sid(record),
        envelope_node(record).uint_at("seq"@),
    ) + control_cells(record)
}

/// The rows of one record.
pub open spec fn record_rows(channel: Channel, session_id: Seq<char>, record: Record) -> Seq<
    Seq<CellModel>,
> {
    match channel {
        Channel::OrderbookSnapshot => snapshot_rows(session_id, record),
        Channel::OrderbookDelta => seq![delta_row(session_id, record)],
        Channel::Ticker => seq![ticker_row(session_id, record)],
        Channel::Trade => seq![trade_row(session_id, record)],
        Channel::MarketLifecycle => seq![lifecycle_row(session_id, record)],
        Channel::EventFeeUpdate => seq![fee_row(session_id, record)],
        Channel::PriceRanges => seq![grid_row(session_id, record)],
        Channel::Unparsed => seq![unparsed_row(session_id, record)],
        Channel::Control => seq![control_row(session_id, record)],
    }
}

/// The rows of some records, in order.
pub open spec fn encoded_rows(channel: Channel, session_id: Seq<char>, records: Seq<Record>) -> Seq<
    Seq<CellModel>,
>
    decreases records.len(),
{
    if records.len() == 0 {
        Seq::empty()
    } else {
        encoded_rows(channel, session_id, records.drop_last()) + record_rows(
            channel,
            session_id,
            records.last(),
        )
    }
}

pub open spec fn record_views(records: Seq<StoreRecord>) -> Seq<Record> {
    records.map_values(|record: StoreRecord| record@)
}

/// The columns of some records.
pub open spec fn encoded_columns(
    channel: Channel,
    session_id: Seq<char>,
    records: Seq<Record>,
) -> Seq<Seq<CellModel>> {
    table::columns_at(
        table::kinds_of(schema::columns_of_channel(channel)),
        encoded_rows(channel, session_id, records),
    )
}

// ---------------------------------------------------------------------------
// Building rows
// ---------------------------------------------------------------------------
fn push_cell(row: &mut Vec<Cell>, cell: Cell)
    ensures
        table::cells(final(row)@) == table::cells(old(row)@).push(cell@),
{
    row.push(cell);
    assert(table::cells(row@) =~= table::cells(old(row)@).push(cell@));
}

fn text_cell(text: Option<&str>) -> (out: Cell)
    ensures
        out@ == CellModel::Text(json::opt_text(text)),
{
    match text {
        Some(text) => Cell::Text(Some(text.to_owned())),
        None => Cell::Text(None),
    }
}

fn text_or_empty(text: Option<&str>) -> (out: Cell)
    ensures
        out@ == CellModel::Text(or_empty(json::opt_text(text))),
{
    match text {
        Some(text) => Cell::Text(Some(text.to_owned())),
        None => Cell::Text(Some(String::new())),
    }
}

/// Append a raw price and its integer together, so that the two cannot get out
/// of step.
fn push_price(row: &mut Vec<Cell>, value: Option<&str>)
    ensures
        table::cells(final(row)@) == table::cells(old(row)@).push(
            CellModel::Text(json::opt_text(value)),
        ).push(CellModel::Int64(parsed_price(json::opt_text(value)))),
{
    let parsed: Option<i64> = match value {
        Some(text) => match Px::parse_dollars(text) {
            Ok(price) => Some(price.0),
            Err(_) => None,
        },
        None => None,
    };
    push_cell(row, text_cell(value));
    push_cell(row, Cell::Int64(parsed));
}

/// Append a raw quantity and its integer together.
fn push_qty(row: &mut Vec<Cell>, value: Option<&str>)
    ensures
        table::cells(final(row)@) == table::cells(old(row)@).push(
            CellModel::Text(json::opt_text(value)),
        ).push(CellModel::Int64(parsed_quantity(json::opt_text(value)))),
{
    let parsed: Option<i64> = match value {
        Some(text) => match Qty::parse_fp(text) {
            Ok(quantity) => Some(quantity.0),
            Err(_) => None,
        },
        None => None,
    };
    push_cell(row, text_cell(value));
    push_cell(row, Cell::Int64(parsed));
}

fn signed_of(n: Option<u64>) -> (out: Option<i64>)
    ensures
        out == as_signed(n),
{
    match n {
        Some(n) => if n <= i64::MAX as u64 {
            Some(n as i64)
        } else {
            None
        },
        None => None,
    }
}

/// Start a row with the columns common to every channel.
fn common_row(
    record: &StoreRecord,
    exchange_ts_ms: Option<i64>,
    session_id: &str,
    sid: Option<u64>,
    seq: Option<u64>,
) -> (out: Vec<Cell>)
    ensures
        table::cells(out@) == common_cells(record@, exchange_ts_ms, session_id@, sid, seq),
{
    let received: i64 = if i64::MIN as i128 <= record.received_at && record.received_at
        <= i64::MAX as i128 {
        record.received_at as i64
    } else {
        0
    };
    let mut row: Vec<Cell> = Vec::new();
    push_cell(&mut row, Cell::Timestamp(Some(received)));
    push_cell(&mut row, Cell::Int64(exchange_ts_ms));
    push_cell(&mut row, Cell::Text(Some(session_id.to_owned())));
    push_cell(&mut row, Cell::Int64(signed_of(sid)));
    push_cell(&mut row, Cell::Int64(signed_of(seq)));
    push_cell(&mut row, Cell::Text(Some(record.raw.clone())));
    assert(table::cells(row@) =~= common_cells(record@, exchange_ts_ms, session_id@, sid, seq));
    row
}

/// The message body.
fn body(record: &StoreRecord) -> (out: Option<&Json>)
    ensures
        match out {
            Some(body) => body_node(record@) == body@,
            None => body_node(record@) == Node::Null,
        },
{
    match &record.parsed {
        Some(envelope) => envelope.get("msg"),
        None => None,
    }
}

fn text_in<'a>(value: Option<&'a Json>, key: &str) -> (out: Option<&'a str>)
    ensures
        json::opt_text(out) == (match value {
            Some(value) => value@.text_at(key@),
            None => None,
        }),
{
    match value {
        Some(value) => field(value, key),
        None => None,
    }
}

fn int_in(value: Option<&Json>, key: &str) -> (out: Option<i64>)
    ensures
        out == (match value {
            Some(value) => value@.int_at(key@),
            None => None,
        }),
{
    match value {
        Some(value) => int_field(value, key),
        None => None,
    }
}

fn uint_in(value: Option<&Json>, key: &str) -> (out: Option<u64>)
    ensures
        out == (match value {
            Some(value) => value@.uint_at(key@),
            None => None,
        }),
{
    match value {
        Some(value) => uint_field(value, key),
        None => None,
    }
}

fn bool_in(value: Option<&Json>, key: &str) -> (out: Option<bool>)
    ensures
        out == (match value {
            Some(value) => value@.boolean_at(key@),
            None => None,
        }),
{
    match value {
        Some(value) => bool_field(value, key),
        None => None,
    }
}

fn envelope_sid(record: &StoreRecord) -> (out: Option<u64>)
    ensures
        out == envelope_node(record@).uint_at("sid"@),
{
    uint_in(record.parsed.as_ref(), "sid")
}

fn envelope_seq(record: &StoreRecord) -> (out: Option<u64>)
    ensures
        out == envelope_node(record@).uint_at("seq"@),
{
    uint_in(record.parsed.as_ref(), "seq")
}

fn canonical_ts(msg: Option<&Json>, Ghost(node): Ghost<Node>) -> (out: Option<i64>)
    requires
        match msg {
            Some(value) => node == value@,
            None => node == Node::Null,
        },
    ensures
        out == canonical_time(node),
{
    match int_in(msg, "ts_ms") {
        Some(ms) => Some(ms),
        None => match int_in(msg, "ts") {
            Some(s) => s.checked_mul(1_000),
            None => None,
        },
    }
}

fn empty_row() -> (out: Vec<Cell>)
    ensures
        table::cells(out@) == Seq::<CellModel>::empty(),
{
    let out: Vec<Cell> = Vec::new();
    assert(table::cells(out@) =~= Seq::<CellModel>::empty());
    out
}

/// A row of the common cells and the channel's own.
fn join(common: Vec<Cell>, own: Vec<Cell>) -> (out: Vec<Cell>)
    ensures
        table::cells(out@) == table::cells(common@) + table::cells(own@),
{
    let mut row = common;
    let mut rest = own;
    row.append(&mut rest);
    assert(table::cells(row@) =~= table::cells(common@) + table::cells(own@));
    row
}

fn encode_orderbook_delta(session_id: &str, record: &StoreRecord) -> (row: Vec<Cell>)
    ensures
        table::cells(row@) == delta_row(session_id@, record@),
{
    let msg = body(record);
    let common = common_row(
        record,
        int_in(msg, "ts_ms"),
        session_id,
        envelope_sid(record),
        envelope_seq(record),
    );
    let mut own = empty_row();
    push_cell(&mut own, text_or_empty(text_in(msg, "market_ticker")));
    push_cell(&mut own, text_cell(text_in(msg, "market_id")));
    push_cell(&mut own, text_or_empty(text_in(msg, "side")));
    push_price(&mut own, text_in(msg, "price_dollars"));
    push_qty(&mut own, text_in(msg, "delta_fp"));
    join(common, own)
}

fn encode_ticker(session_id: &str, record: &StoreRecord) -> (row: Vec<Cell>)
    ensures
        table::cells(row@) == ticker_row(session_id@, record@),
{
    let msg = body(record);
    let common = common_row(
        record,
        canonical_ts(msg, Ghost(body_node(record@))),
        session_id,
        envelope_sid(record),
        envelope_seq(record),
    );
    let mut own = empty_row();
    push_cell(&mut own, text_or_empty(text_in(msg, "market_ticker")));
    push_cell(&mut own, text_cell(text_in(msg, "market_id")));
    push_price(&mut own, text_in(msg, "price_dollars"));
    push_price(&mut own, text_in(msg, "yes_bid_dollars"));
    push_price(&mut own, text_in(msg, "yes_ask_dollars"));
    push_qty(&mut own, text_in(msg, "yes_bid_size_fp"));
    push_qty(&mut own, text_in(msg, "yes_ask_size_fp"));
    push_qty(&mut own, text_in(msg, "volume_fp"));
    push_qty(&mut own, text_in(msg, "open_interest_fp"));
    join(common, own)
}

fn encode_trade(session_id: &str, record: &StoreRecord) -> (row: Vec<Cell>)
    ensures
        table::cells(row@) == trade_row(session_id@, record@),
{
    let msg = body(record);
    let common = common_row(
        record,
        canonical_ts(msg, Ghost(body_node(record@))),
        session_id,
        envelope_sid(record),
        envelope_seq(record),
    );
    let mut own = empty_row();
    push_cell(&mut own, text_cell(text_in(msg, "trade_id")));
    push_cell(&mut own, text_or_empty(text_in(msg, "market_ticker")));
    push_price(&mut own, text_in(msg, "yes_price_dollars"));
    push_price(&mut own, text_in(msg, "no_price_dollars"));
    push_qty(&mut own, text_in(msg, "count_fp"));
    push_cell(&mut own, text_cell(text_in(msg, "taker_outcome_side")));
    push_cell(&mut own, text_cell(text_in(msg, "taker_book_side")));
    push_cell(&mut own, text_cell(text_in(msg, "taker_side")));
    push_cell(&mut own, Cell::Boolean(bool_in(msg, "is_block_trade")));
    join(common, own)
}

fn encode_lifecycle(session_id: &str, record: &StoreRecord) -> (row: Vec<Cell>)
    ensures
        table::cells(row@) == lifecycle_row(session_id@, record@),
{
    let msg = body(record);
    let common = common_row(
        record,
        int_in(msg, "ts_ms"),
        session_id,
        envelope_sid(record),
        envelope_seq(record),
    );
    let mut own = empty_row();
    push_cell(&mut own, text_or_empty(text_in(msg, "event_type")));
    let market = match text_in(msg, "market_ticker") {
        Some(ticker) => Some(ticker),
        None => text_in(msg, "event_ticker"),
    };
    push_cell(&mut own, text_or_empty(market));
    push_cell(&mut own, text_cell(text_in(msg, "result")));
    push_price(&mut own, text_in(msg, "settlement_value"));
    push_cell(&mut own, Cell::Int64(int_in(msg, "open_ts")));
    push_cell(&mut own, Cell::Int64(int_in(msg, "close_ts")));
    push_cell(&mut own, Cell::Int64(int_in(msg, "determination_ts")));
    push_cell(&mut own, Cell::Int64(int_in(msg, "settled_ts")));
    push_cell(&mut own, Cell::Boolean(bool_in(msg, "is_deactivated")));
    push_cell(&mut own, text_cell(text_in(msg, "price_level_structure")));
    join(common, own)
}

fn encode_fee_update(session_id: &str, record: &StoreRecord) -> (row: Vec<Cell>)
    ensures
        table::cells(row@) == fee_row(session_id@, record@),
{
    let msg = body(record);
    let common = common_row(
        record,
        int_in(msg, "ts_ms"),
        session_id,
        envelope_sid(record),
        envelope_seq(record),
    );
    let mut own = empty_row();
    push_cell(&mut own, text_or_empty(text_in(msg, "event_ticker")));
    push_cell(&mut own, text_cell(text_in(msg, "fee_type_override")));
    let multiplier = match msg {
        Some(msg) => number_token(msg, "fee_multiplier_override"),
        None => None,
    };
    push_cell(&mut own, Cell::Text(multiplier));
    join(common, own)
}

fn encode_price_ranges(session_id: &str, record: &StoreRecord) -> (row: Vec<Cell>)
    ensures
        table::cells(row@) == grid_row(session_id@, record@),
{
    let msg = body(record);
    let common = common_row(
        record,
        int_in(msg, "ts_ms"),
        session_id,
        envelope_sid(record),
        envelope_seq(record),
    );
    let mut own = empty_row();
    push_cell(&mut own, text_or_empty(text_in(msg, "market_ticker")));
    let source = match text_in(msg, "source") {
        Some(source) => source,
        None => "discovery",
    };
    push_cell(&mut own, Cell::Text(Some(source.to_owned())));
    push_cell(&mut own, Cell::Timestamp(int_in(msg, "effective_at_ns")));
    push_cell(&mut own, text_cell(text_in(msg, "price_level_structure")));
    let grid = match msg {
        Some(msg) => msg.get("price_ranges"),
        None => None,
    };
    let raw = match grid {
        Some(grid) => grid.to_text(),
        None => String::new(),
    };
    let bands: Option<i32> = match grid {
        Some(grid) => match grid.as_array() {
            Some(bands) => if bands.len() <= i32::MAX as usize {
                Some(bands.len() as i32)
            } else {
                None
            },
            None => None,
        },
        None => None,
    };
    assert(raw@ =~= grid_text(body_node(record@)));
    let hash = grid_hash(raw.as_str());
    push_cell(&mut own, Cell::Text(Some(raw)));
    push_cell(&mut own, Cell::Text(Some(hash)));
    push_cell(&mut own, Cell::Int32(bands));
    join(common, own)
}

fn encode_unparsed(session_id: &str, record: &StoreRecord) -> (row: Vec<Cell>)
    ensures
        table::cells(row@) == unparsed_row(session_id@, record@),
{
    // An unparsable message still occupies a place in its subscription's
    // sequence stream, so the ids are carried even here.
    let common = common_row(
        record,
        None,
        session_id,
        envelope_sid(record),
        envelope_seq(record),
    );
    let mut own = empty_row();
    push_cell(&mut own, text_cell(text_in(record.parsed.as_ref(), "parse_error")));
    let document = Json::parse(record.raw.as_str());
    push_cell(&mut own, text_cell(text_in(document.as_ref(), "type")));
    join(common, own)
}

fn encode_control(session_id: &str, record: &StoreRecord) -> (row: Vec<Cell>)
    ensures
        table::cells(row@) == control_row(session_id@, record@),
{
    let msg = body(record);
    // `unsubscribed` carries its ids in the envelope, `subscribed` in the body.
    let sid = match envelope_sid(record) {
        Some(sid) => Some(sid),
        None => uint_in(msg, "sid"),
    };
    let code: Option<i32> = match int_in(msg, "code") {
        Some(code) => if i32::MIN as i64 <= code && code <= i32::MAX as i64 {
            Some(code as i32)
        } else {
            None
        },
        None => None,
    };
    let common = common_row(record, None, session_id, sid, envelope_seq(record));
    let mut own = empty_row();
    push_cell(&mut own, text_cell(text_in(record.parsed.as_ref(), "type")));
    push_cell(&mut own, text_cell(text_in(msg, "channel")));
    push_cell(&mut own, Cell::Int32(code));
    push_cell(&mut own, text_cell(text_in(msg, "msg")));
    join(common, own)
}

/// The text at a place of a level's pair.
fn item_text<'a>(pair: Option<&'a Vec<Json>>, i: usize, Ghost(nodes): Ghost<Seq<Node>>) -> (out:
    Option<&'a str>)
    requires
        is_pair(pair, nodes),
    ensures
        json::opt_text(out) == text_of_item(nodes, i as int),
{
    match pair {
        Some(items) => if i < items.len() {
            assert(nodes[i as int] == items@[i as int]@);
            items[i].as_str()
        } else {
            None
        },
        None => None,
    }
}

/// Whether `nodes` is what the pair of a level holds.
pub open spec fn is_pair(pair: Option<&Vec<Json>>, nodes: Seq<Node>) -> bool {
    match pair {
        Some(items) => {
            &&& nodes.len() == items@.len()
            &&& forall|i: int| 0 <= i < nodes.len() ==> #[trigger] nodes[i] == items@[i]@
        },
        None => nodes.len() == 0,
    }
}

/// The row of one price level, or of none.
fn encode_level(
    session_id: &str,
    record: &StoreRecord,
    side: &'static str,
    index: Option<usize>,
    pair: Option<&Vec<Json>>,
    Ghost(nodes): Ghost<Seq<Node>>,
) -> (row: Vec<Cell>)
    requires
        is_pair(pair, nodes),
    ensures
        table::cells(row@) == level_row(
            session_id@,
            record@,
            side@,
            match index {
                Some(index) => index as int,
                None => -1,
            },
            nodes,
        ),
{
    let msg = body(record);
    let common = common_row(
        record,
        int_in(msg, "ts_ms"),
        session_id,
        envelope_sid(record),
        envelope_seq(record),
    );
    let mut own = empty_row();
    push_cell(&mut own, text_or_empty(text_in(msg, "market_ticker")));
    push_cell(&mut own, text_cell(text_in(msg, "market_id")));
    push_cell(&mut own, Cell::Text(Some(side.to_owned())));
    push_price(&mut own, item_text(pair, 0, Ghost(nodes)));
    push_qty(&mut own, item_text(pair, 1, Ghost(nodes)));
    let place: i32 = match index {
        Some(index) => if index <= i32::MAX as usize {
            index as i32
        } else {
            -1
        },
        None => -1,
    };
    push_cell(&mut own, Cell::Int32(Some(place)));
    join(common, own)
}

// ---------------------------------------------------------------------------
// Rows fit their layout
// ---------------------------------------------------------------------------
/// The kinds of a channel's columns.
pub open spec fn kinds(channel: Channel) -> Seq<ColumnKind> {
    table::kinds_of(schema::columns_of_channel(channel))
}

proof fn lemma_level_row_fits(
    session_id: Seq<char>,
    record: Record,
    side: Seq<char>,
    index: int,
    pair: Seq<Node>,
)
    ensures
        table::row_fits(
            kinds(Channel::OrderbookSnapshot),
            level_row(session_id, record, side, index, pair),
        ),
{
}

/// A row fits where its own cells fit the channel's own columns.
proof fn lemma_row_fits(channel: Channel, common: Seq<CellModel>, own: Seq<CellModel>)
    requires
        table::row_fits(table::kinds_of(schema::common_columns()), common),
        table::row_fits(table::kinds_of(schema::own_columns(channel)), own),
    ensures
        table::row_fits(kinds(channel), common + own),
{
    let row = common + own;
    let first = table::kinds_of(schema::common_columns());
    let second = table::kinds_of(schema::own_columns(channel));
    assert(kinds(channel) =~= first + second);
    assert forall|j: int| 0 <= j < kinds(channel).len() implies (#[trigger] row[j]).kind()
        == kinds(channel)[j] by {
        if j < first.len() {
            assert(common[j].kind() == first[j]);
        } else {
            assert(own[j - first.len()].kind() == second[j - first.len()]);
        }
    }
}

proof fn lemma_ticker_cells_fit(msg: Node)
    ensures
        table::row_fits(table::kinds_of(schema::own_columns(Channel::Ticker)), ticker_cells(msg)),
{
}

proof fn lemma_trade_cells_fit(msg: Node)
    ensures
        table::row_fits(table::kinds_of(schema::own_columns(Channel::Trade)), trade_cells(msg)),
{
}

proof fn lemma_lifecycle_cells_fit(msg: Node)
    ensures
        table::row_fits(
            table::kinds_of(schema::own_columns(Channel::MarketLifecycle)),
            lifecycle_cells(msg),
        ),
{
}

proof fn lemma_single_row_fits(channel: Channel, session_id: Seq<char>, record: Record)
    requires
        channel != Channel::OrderbookSnapshot,
    ensures
        record_rows(channel, session_id, record).len() == 1,
        table::row_fits(kinds(channel), record_rows(channel, session_id, record)[0]),
{
    let msg = body_node(record);
    match channel {
        Channel::OrderbookSnapshot => {},
        Channel::OrderbookDelta => {
            lemma_row_fits(channel, market_cells(session_id, record), delta_cells(msg));
        },
        Channel::Ticker => {
            lemma_ticker_cells_fit(msg);
            lemma_row_fits(channel, timed_cells(session_id, record), ticker_cells(msg));
        },
        Channel::Trade => {
            lemma_trade_cells_fit(msg);
            lemma_row_fits(channel, timed_cells(session_id, record), trade_cells(msg));
        },
        Channel::MarketLifecycle => {
            lemma_lifecycle_cells_fit(msg);
            lemma_row_fits(channel, market_cells(session_id, record), lifecycle_cells(msg));
        },
        Channel::EventFeeUpdate => {
            lemma_row_fits(channel, market_cells(session_id, record), fee_cells(msg));
        },
        Channel::PriceRanges => {
            lemma_row_fits(channel, market_cells(session_id, record), grid_cells(msg));
        },
        Channel::Unparsed => {
            let common = common_cells(
                record,
                None,
                session_id,
                envelope_node(record).uint_at("sid"@),
                envelope_node(record).uint_at("seq"@),
            );
            lemma_row_fits(channel, common, unparsed_cells(record));
        },
        Channel::Control => {
            let common = common_cells(
                record,
                None,
                session_id,
                control_sid(record),
                envelope_node(record).uint_at("seq"@),
            );
            lemma_row_fits(channel, common, control_cells(record));
        },
    }
}

// ---------------------------------------------------------------------------
// Rows are complete
// ---------------------------------------------------------------------------
/// Whether a row has a value in every column that must be present.
pub open spec fn is_complete(fields: Seq<schema::FieldModel>, row: Seq<CellModel>) -> bool {
    &&& row.len() == fields.len()
    &&& forall|j: int|
        0 <= j < fields.len() && !fields[j].nullable ==> !(#[trigger] row[j]).is_null()
}

/// A row is complete where its own cells are.
proof fn lemma_row_complete(channel: Channel, common: Seq<CellModel>, own: Seq<CellModel>)
    requires
        is_complete(schema::common_columns(), common),
        is_complete(schema::own_columns(channel), own),
    ensures
        is_complete(schema::columns_of_channel(channel), common + own),
{
    let row = common + own;
    let fields = schema::columns_of_channel(channel);
    let first = schema::common_columns();
    assert forall|j: int| 0 <= j < fields.len() && !fields[j].nullable implies !(
    #[trigger] row[j]).is_null() by {
        if j < first.len() {
            assert(!common[j].is_null());
        } else {
            assert(!own[j - first.len()].is_null());
        }
    }
}

proof fn lemma_level_row_complete(
    session_id: Seq<char>,
    record: Record,
    side: Seq<char>,
    index: int,
    pair: Seq<Node>,
)
    ensures
        is_complete(
            schema::columns_of_channel(Channel::OrderbookSnapshot),
            level_row(session_id, record, side, index, pair),
        ),
{
    lemma_row_complete(
        Channel::OrderbookSnapshot,
        market_cells(session_id, record),
        level_cells(body_node(record), side, index, pair),
    );
}

proof fn lemma_single_row_complete(channel: Channel, session_id: Seq<char>, record: Record)
    requires
        channel != Channel::OrderbookSnapshot,
    ensures
        is_complete(
            schema::columns_of_channel(channel),
            record_rows(channel, session_id, record)[0],
        ),
{
    let msg = body_node(record);
    match channel {
        Channel::OrderbookSnapshot => {},
        Channel::OrderbookDelta => {
            lemma_row_complete(channel, market_cells(session_id, record), delta_cells(msg));
        },
        Channel::Ticker => {
            lemma_row_complete(channel, timed_cells(session_id, record), ticker_cells(msg));
        },
        Channel::Trade => {
            lemma_row_complete(channel, timed_cells(session_id, record), trade_cells(msg));
        },
        Channel::MarketLifecycle => {
            lemma_row_complete(channel, market_cells(session_id, record), lifecycle_cells(msg));
        },
        Channel::EventFeeUpdate => {
            lemma_row_complete(channel, market_cells(session_id, record), fee_cells(msg));
        },
        Channel::PriceRanges => {
            lemma_row_complete(channel, market_cells(session_id, record), grid_cells(msg));
        },
        Channel::Unparsed => {
            let common = common_cells(
                record,
                None,
                session_id,
                envelope_node(record).uint_at("sid"@),
                envelope_node(record).uint_at("seq"@),
            );
            lemma_row_complete(channel, common, unparsed_cells(record));
        },
        Channel::Control => {
            let common = common_cells(
                record,
                None,
                session_id,
                control_sid(record),
                envelope_node(record).uint_at("seq"@),
            );
            lemma_row_complete(channel, common, control_cells(record));
        },
    }
}

proof fn lemma_record_rows_complete(channel: Channel, session_id: Seq<char>, record: Record)
    ensures
        record_rows(channel, session_id, record).len() > 0,
        forall|i: int|
            0 <= i < record_rows(channel, session_id, record).len() ==> is_complete(
                schema::columns_of_channel(channel),
                #[trigger] record_rows(channel, session_id, record)[i],
            ),
{
    let rows = record_rows(channel, session_id, record);
    if channel == Channel::OrderbookSnapshot {
        let yes = levels_at(body_node(record), "yes_dollars_fp"@);
        let no = levels_at(body_node(record), "no_dollars_fp"@);
        assert forall|i: int| 0 <= i < rows.len() implies is_complete(
            schema::columns_of_channel(channel),
            #[trigger] rows[i],
        ) by {
            if yes.len() + no.len() == 0 {
                lemma_level_row_complete(session_id, record, Seq::empty(), -1, Seq::empty());
            } else if i < yes.len() {
                lemma_level_row_complete(session_id, record, "yes"@, i, pair_of(yes[i]));
            } else {
                let j = i - yes.len();
                lemma_level_row_complete(session_id, record, "no"@, j, pair_of(no[j]));
            }
        }
    } else {
        lemma_single_row_complete(channel, session_id, record);
        lemma_single_row_fits(channel, session_id, record);
    }
}

proof fn lemma_rows_complete(channel: Channel, session_id: Seq<char>, records: Seq<Record>)
    ensures
        forall|i: int|
            0 <= i < encoded_rows(channel, session_id, records).len() ==> is_complete(
                schema::columns_of_channel(channel),
                #[trigger] encoded_rows(channel, session_id, records)[i],
            ),
    decreases records.len(),
{
    if records.len() > 0 {
        let before = encoded_rows(channel, session_id, records.drop_last());
        let last = record_rows(channel, session_id, records.last());
        lemma_rows_complete(channel, session_id, records.drop_last());
        lemma_record_rows_complete(channel, session_id, records.last());
        assert forall|i: int| 0 <= i < (before + last).len() implies is_complete(
            schema::columns_of_channel(channel),
            #[trigger] (before + last)[i],
        ) by {
            if i < before.len() {
                assert((before + last)[i] == before[i]);
            } else {
                assert((before + last)[i] == last[i - before.len()]);
            }
        }
    }
}

/// Every column that must be present is, whatever the records say.
proof fn lemma_columns_complete(channel: Channel, session_id: Seq<char>, records: Seq<Record>)
    ensures
        table::has_required(
            schema::columns_of_channel(channel),
            encoded_columns(channel, session_id, records),
        ),
{
    let fields = schema::columns_of_channel(channel);
    let rows = encoded_rows(channel, session_id, records);
    let columns = encoded_columns(channel, session_id, records);
    lemma_rows_complete(channel, session_id, records);
    assert forall|j: int, i: int|
        0 <= j < fields.len() && 0 <= i < columns[j].len() && !fields[j].nullable implies !(
    #[trigger] columns[j][i]).is_null() by {
        assert(columns[j] == table::column_at(rows, j));
        assert(is_complete(fields, rows[i]));
        assert(columns[j][i] == rows[i][j]);
    }
}

// ---------------------------------------------------------------------------
// Building the table
// ---------------------------------------------------------------------------
/// Append the rows of one side of a snapshot.
fn push_side(
    table: &mut Table,
    session_id: &str,
    record: &StoreRecord,
    side: &'static str,
    key: &str,
    Ghost(rows): Ghost<Seq<Seq<CellModel>>>,
) -> (count: usize)
    requires
        old(table).holds(kinds(Channel::OrderbookSnapshot), rows),
    ensures
        ({
            let levels = levels_at(body_node(record@), key@);
            &&& count == levels.len()
            &&& final(table).holds(
                kinds(Channel::OrderbookSnapshot),
                rows + side_rows(session_id@, record@, side@, levels),
            )
        }),
{
    let ghost wanted = levels_at(body_node(record@), key@);
    let ghost all = side_rows(session_id@, record@, side@, wanted);
    let ghost layout = kinds(Channel::OrderbookSnapshot);
    assert(rows + all.take(0) =~= rows);
    let found = match body(record) {
        Some(msg) => msg.get(key),
        None => None,
    };
    let levels = match found {
        Some(found) => found.as_array(),
        None => None,
    };
    let mut i: usize = 0;
    if let Some(levels) = levels {
        while i < levels.len()
            invariant
                i <= levels@.len() == wanted.len(),
                forall|k: int| 0 <= k < wanted.len() ==> #[trigger] wanted[k] == levels@[k]@,
                layout == kinds(Channel::OrderbookSnapshot),
                all == side_rows(session_id@, record@, side@, wanted),
                table.holds(layout, rows + all.take(i as int)),
            decreases levels@.len() - i,
        {
            assert(wanted[i as int] == levels@[i as int]@);
            let ghost nodes = pair_of(wanted[i as int]);
            let row = encode_level(
                session_id,
                record,
                side,
                Some(i),
                levels[i].as_array(),
                Ghost(nodes),
            );
            proof {
                lemma_level_row_fits(session_id@, record@, side@, i as int, nodes);
            }
            table.push_row(row, Ghost(layout), Ghost(rows + all.take(i as int)));
            assert((rows + all.take(i as int)).push(all[i as int]) =~= rows + all.take(i + 1));
            i += 1;
        }
    }
    assert(all.take(all.len() as int) =~= all);
    i
}

/// Append the rows of one record.
fn push_record(
    table: &mut Table,
    channel: Channel,
    session_id: &str,
    record: &StoreRecord,
    Ghost(rows): Ghost<Seq<Seq<CellModel>>>,
)
    requires
        old(table).holds(kinds(channel), rows),
    ensures
        final(table).holds(kinds(channel), rows + record_rows(channel, session_id@, record@)),
{
    let row = match channel {
        Channel::OrderbookSnapshot => {
            let ghost yes = levels_at(body_node(record@), "yes_dollars_fp"@);
            let ghost no = levels_at(body_node(record@), "no_dollars_fp"@);
            let ghost first = side_rows(session_id@, record@, "yes"@, yes);
            let ghost second = side_rows(session_id@, record@, "no"@, no);
            let bids = push_side(table, session_id, record, "yes", "yes_dollars_fp", Ghost(rows));
            let asks = push_side(
                table,
                session_id,
                record,
                "no",
                "no_dollars_fp",
                Ghost(rows + first),
            );
            assert((rows + first) + second =~= rows + (first + second));
            if bids == 0 && asks == 0 {
                let row = encode_level(session_id, record, "", None, None, Ghost(Seq::empty()));
                proof {
                    reveal_strlit("");
                    assert(""@ =~= Seq::<char>::empty());
                    lemma_level_row_fits(session_id@, record@, Seq::empty(), -1, Seq::empty());
                    assert((rows + first) + second =~= rows);
                }
                table.push_row(row, Ghost(kinds(channel)), Ghost(rows));
                assert(rows.push(bare_row(session_id@, record@)) =~= rows + record_rows(
                    channel,
                    session_id@,
                    record@,
                ));
            }
            return;
        },
        Channel::OrderbookDelta => encode_orderbook_delta(session_id, record),
        Channel::Ticker => encode_ticker(session_id, record),
        Channel::Trade => encode_trade(session_id, record),
        Channel::MarketLifecycle => encode_lifecycle(session_id, record),
        Channel::EventFeeUpdate => encode_fee_update(session_id, record),
        Channel::PriceRanges => encode_price_ranges(session_id, record),
        Channel::Unparsed => encode_unparsed(session_id, record),
        Channel::Control => encode_control(session_id, record),
    };
    proof {
        lemma_single_row_fits(channel, session_id@, record@);
    }
    let ghost cells = table::cells(row@);
    table.push_row(row, Ghost(kinds(channel)), Ghost(rows));
    assert(rows.push(cells) =~= rows + record_rows(channel, session_id@, record@));
}

/// The table of some records.
fn build_table(channel: Channel, session_id: &str, records: &[StoreRecord]) -> (out: Table)
    ensures
        out.holds(kinds(channel), encoded_rows(channel, session_id@, record_views(records@))),
{
    let fields = channel.fields();
    let mut table = Table::new(&fields);
    let ghost views = record_views(records@);
    assert(views.take(0) =~= Seq::<Record>::empty());
    let mut i: usize = 0;
    while i < records.len()
        invariant
            i <= records@.len(),
            views == record_views(records@),
            table.holds(kinds(channel), encoded_rows(channel, session_id@, views.take(i as int))),
        decreases records@.len() - i,
    {
        assert(views[i as int] == records@[i as int]@);
        assert(views.take(i + 1).drop_last() =~= views.take(i as int));
        push_record(
            &mut table,
            channel,
            session_id,
            &records[i],
            Ghost(encoded_rows(channel, session_id@, views.take(i as int))),
        );
        i += 1;
    }
    assert(views.take(views.len() as int) =~= views);
    table
}

/// Encode a batch of records for one channel.
///
/// All records must share the channel; the caller groups them. Whatever the
/// records say, a batch of some gives a batch of rows. The text of a column must
/// fit what 32-bit offsets can reach; [`try_encode`] tests that
/// first.
pub fn encode(channel: Channel, session_id: &str, records: &[StoreRecord]) -> (out: Result<
    Option<EncodedBatch>,
    EncodeError,
>)
    requires
        table::within_offsets(encoded_columns(channel, session_id@, record_views(records@))),
    ensures
        ({
            let columns = encoded_columns(channel, session_id@, record_views(records@));
            match out {
                Ok(None) => records@.len() == 0,
                Ok(Some(batch)) => records@.len() > 0 && table::batch_fields(batch)
                    == schema::columns_of_channel(channel) && table::batch_columns(batch)
                    == columns,
                Err(_) => false,
            }
        }),
{
    if records.len() == 0 {
        return Ok(None);
    }
    let table = build_table(channel, session_id, records);
    let ghost rows = encoded_rows(channel, session_id@, record_views(records@));
    proof {
        lemma_columns_complete(channel, session_id@, record_views(records@));
    }
    match batch_of(channel, table, Ghost(rows)) {
        Some(batch) => Ok(Some(batch)),
        None => Err(EncodeError::Batch { channel: channel.as_str() }),
    }
}

/// [`encode`], where the texts fit; `None` where they do not.
pub fn try_encode(channel: Channel, session_id: &str, records: &[StoreRecord]) -> (out: Option<
    Result<Option<EncodedBatch>, EncodeError>,
>)
    ensures
        ({
            let columns = encoded_columns(channel, session_id@, record_views(records@));
            match out {
                None => !table::within_offsets(columns),
                Some(result) => table::within_offsets(columns) && match result {
                    Ok(None) => records@.len() == 0,
                    Ok(Some(batch)) => records@.len() > 0 && table::batch_fields(batch)
                        == schema::columns_of_channel(channel) && table::batch_columns(batch)
                        == columns,
                    Err(_) => false,
                },
            }
        }),
{
    let table = build_table(channel, session_id, records);
    assert(table::column_cells(table.columns@) =~= encoded_columns(
        channel,
        session_id@,
        record_views(records@),
    ));
    if columns_fit(&table.columns) {
        Some(encode(channel, session_id, records))
    } else {
        None
    }
}

// ---------------------------------------------------------------------------
// Row counts
// ---------------------------------------------------------------------------
/// The number of levels in a snapshot.
pub open spec fn level_count(record: Record) -> nat {
    levels_at(body_node(record), "yes_dollars_fp"@).len() + levels_at(
        body_node(record),
        "no_dollars_fp"@,
    ).len()
}

/// The number of rows that a snapshot gives: one per level, and one where it
/// lists none.
pub open spec fn snapshot_row_count(record: Record) -> nat {
    if level_count(record) == 0 {
        1
    } else {
        level_count(record)
    }
}

/// The number of rows that some records give: one each, but for snapshots.
pub open spec fn row_count(channel: Channel, records: Seq<Record>) -> nat
    decreases records.len(),
{
    if channel != Channel::OrderbookSnapshot {
        records.len()
    } else if records.len() == 0 {
        0
    } else {
        row_count(channel, records.drop_last()) + snapshot_row_count(records.last())
    }
}

proof fn lemma_row_count_grows(channel: Channel, records: Seq<Record>, i: int)
    requires
        0 <= i <= records.len(),
    ensures
        row_count(channel, records.take(i)) <= row_count(channel, records),
    decreases records.len() - i,
{
    if i < records.len() {
        lemma_row_count_grows(channel, records, i + 1);
        assert(records.take(i + 1).drop_last() =~= records.take(i));
    } else {
        assert(records.take(i) =~= records);
    }
}

fn side_len(record: &StoreRecord, key: &str) -> (out: usize)
    ensures
        out == levels_at(body_node(record@), key@).len(),
{
    let found = match body(record) {
        Some(msg) => msg.get(key),
        None => None,
    };
    match found {
        Some(found) => match found.as_array() {
            Some(levels) => levels.len(),
            None => 0,
        },
        None => 0,
    }
}

/// The number of rows a set of records will produce. The writer uses this to
/// reconcile rows dequeued against rows written.
pub fn expected_rows(channel: Channel, records: &[StoreRecord]) -> (out: usize)
    requires
        row_count(channel, record_views(records@)) <= usize::MAX,
    ensures
        out == row_count(channel, record_views(records@)),
{
    match channel {
        Channel::OrderbookSnapshot => {},
        _ => {
            return records.len();
        },
    }
    let ghost views = record_views(records@);
    assert(views.take(0) =~= Seq::<Record>::empty());
    let mut total: usize = 0;
    let mut i: usize = 0;
    while i < records.len()
        invariant
            i <= records@.len(),
            channel == Channel::OrderbookSnapshot,
            views == record_views(records@),
            row_count(channel, views) <= usize::MAX,
            total == row_count(channel, views.take(i as int)),
        decreases records@.len() - i,
    {
        proof {
            assert(views[i as int] == records@[i as int]@);
            assert(views.take(i + 1).drop_last() =~= views.take(i as int));
            lemma_row_count_grows(channel, views, i + 1);
        }
        let yes: usize = side_len(&records[i], "yes_dollars_fp");
        let no: usize = side_len(&records[i], "no_dollars_fp");
        total = if yes == 0 && no == 0 {
            total + 1
        } else {
            total + yes + no
        };
        i += 1;
    }
    assert(views.take(views.len() as int) =~= views);
    total
}

// ---------------------------------------------------------------------------
// Laws
// ---------------------------------------------------------------------------
/// The number of rows announced is the number of rows made, for every channel and
/// whatever the records say.
pub proof fn law_expected_rows_are_encoded(
    channel: Channel,
    session_id: Seq<char>,
    records: Seq<Record>,
)
    ensures
        encoded_rows(channel, session_id, records).len() == row_count(channel, records),
    decreases records.len(),
{
    if records.len() > 0 {
        law_expected_rows_are_encoded(channel, session_id, records.drop_last());
    }
}

/// Whether a row tells when and in which session a record came, and holds its
/// complete text.
pub open spec fn carries(row: Seq<CellModel>, session_id: Seq<char>, record: Record) -> bool {
    &&& row.len() >= 6
    &&& row[0] == CellModel::Timestamp(Some(stored_time(record.received_at)))
    &&& row[2] == CellModel::Text(Some(session_id))
    &&& row[5] == CellModel::Text(Some(record.raw))
}

#[verifier::spinoff_prover]
#[verifier::rlimit(40)]
proof fn lemma_record_rows_carry(channel: Channel, session_id: Seq<char>, record: Record)
    ensures
        record_rows(channel, session_id, record).len() > 0,
        forall|i: int|
            0 <= i < record_rows(channel, session_id, record).len() ==> carries(
                #[trigger] record_rows(channel, session_id, record)[i],
                session_id,
                record,
            ),
{
    let rows = record_rows(channel, session_id, record);
    assert(rows.len() > 0) by {
        if channel == Channel::OrderbookSnapshot {
            assert(rows == snapshot_rows(session_id, record));
        }
    }
    assert forall|i: int| 0 <= i < rows.len() implies carries(
        #[trigger] rows[i],
        session_id,
        record,
    ) by {
        lemma_first_cells(channel, session_id, record, i);
        lemma_row_widths(channel, session_id, record, i);
        assert(rows[i][0] == CellModel::Timestamp(Some(stored_time(record.received_at))));
        assert(rows[i][2] == CellModel::Text(Some(session_id)));
        assert(rows[i][5] == CellModel::Text(Some(record.raw)));
    }
}

/// Every row carries the complete text of a message, when it came and the
/// session it came in.
pub proof fn law_every_row_carries_its_message(
    channel: Channel,
    session_id: Seq<char>,
    records: Seq<Record>,
    i: int,
) -> (k: int)
    requires
        0 <= i < encoded_rows(channel, session_id, records).len(),
    ensures
        0 <= k < records.len(),
        carries(encoded_rows(channel, session_id, records)[i], session_id, records[k]),
        channel != Channel::OrderbookSnapshot ==> k == i,
    decreases records.len(),
{
    let before = encoded_rows(channel, session_id, records.drop_last());
    if i < before.len() {
        law_every_row_carries_its_message(channel, session_id, records.drop_last(), i)
    } else {
        lemma_record_rows_carry(channel, session_id, records.last());
        assert(carries(
            record_rows(channel, session_id, records.last())[i - before.len()],
            session_id,
            records.last(),
        ));
        if channel != Channel::OrderbookSnapshot {
            law_expected_rows_are_encoded(channel, session_id, records.drop_last());
        }
        records.len() - 1
    }
}

/// No message is discarded: each record has a row that carries it, and outside
/// snapshots just one, in the order of the records.
pub proof fn law_no_message_is_dropped(
    channel: Channel,
    session_id: Seq<char>,
    records: Seq<Record>,
    k: int,
) -> (i: int)
    requires
        0 <= k < records.len(),
    ensures
        0 <= i < encoded_rows(channel, session_id, records).len(),
        carries(encoded_rows(channel, session_id, records)[i], session_id, records[k]),
        channel != Channel::OrderbookSnapshot ==> i == k && encoded_rows(
            channel,
            session_id,
            records,
        ).len() == records.len(),
    decreases records.len(),
{
    let rest = records.drop_last();
    let before = encoded_rows(channel, session_id, rest);
    let last = records.last();
    law_expected_rows_are_encoded(channel, session_id, rest);
    law_expected_rows_are_encoded(channel, session_id, records);
    if k < records.len() - 1 {
        let i = law_no_message_is_dropped(channel, session_id, rest, k);
        assert(encoded_rows(channel, session_id, records)[i] == before[i]);
        i
    } else {
        lemma_record_rows_carry(channel, session_id, last);
        let rows = record_rows(channel, session_id, last);
        assert(carries(rows[0], session_id, last));
        assert(encoded_rows(channel, session_id, records)[before.len() as int] == rows[0]);
        before.len() as int
    }
}

/// The integer that belongs beside a raw text, at the pair's scale.
pub open spec fn parsed_at(scale: Scale, raw: Option<Seq<char>>) -> Option<i64> {
    match scale {
        Scale::Price => parsed_price(raw),
        Scale::Quantity => parsed_quantity(raw),
    }
}

/// Whether the cells of a pair agree: the integer is exactly what the raw text
/// parses to, and null where it does not parse.
pub open spec fn pair_agrees(row: Seq<CellModel>, scale: Scale, at: int) -> bool {
    match row[at] {
        CellModel::Text(raw) => row[at + 1] == CellModel::Int64(parsed_at(scale, raw)),
        _ => false,
    }
}

proof fn lemma_level_pairs_agree(
    session_id: Seq<char>,
    record: Record,
    side: Seq<char>,
    index: int,
    pair: Seq<Node>,
    k: int,
)
    requires
        0 <= k < schema::dual_pairs(Channel::OrderbookSnapshot).len(),
    ensures
        pair_agrees(
            level_row(session_id, record, side, index, pair),
            schema::dual_pairs(Channel::OrderbookSnapshot)[k].scale,
            schema::pair_position(Channel::OrderbookSnapshot, k),
        ),
{
}

/// The cells of a pair agree in a row where they agree in its own cells.
proof fn lemma_pair_in_row(common: Seq<CellModel>, own: Seq<CellModel>, scale: Scale, at: int)
    requires
        common.len() == 6,
        0 <= at < own.len() - 1,
        pair_agrees(own, scale, at),
    ensures
        pair_agrees(common + own, scale, at + 6),
{
}

proof fn lemma_ticker_pairs_agree(msg: Node, k: int)
    requires
        0 <= k < schema::dual_pairs(Channel::Ticker).len(),
    ensures
        pair_agrees(ticker_cells(msg), schema::dual_pairs(Channel::Ticker)[k].scale, 2 + 2 * k),
{
    if k == 0 {
    } else if k == 1 {
    } else if k == 2 {
    } else if k == 3 {
    } else if k == 4 {
    } else if k == 5 {
    }
}

proof fn lemma_trade_pairs_agree(msg: Node, k: int)
    requires
        0 <= k < schema::dual_pairs(Channel::Trade).len(),
    ensures
        pair_agrees(trade_cells(msg), schema::dual_pairs(Channel::Trade)[k].scale, 2 + 2 * k),
{
    if k == 0 {
    } else if k == 1 {
    }
}

proof fn lemma_delta_pairs_agree(msg: Node, k: int)
    requires
        0 <= k < schema::dual_pairs(Channel::OrderbookDelta).len(),
    ensures
        pair_agrees(
            delta_cells(msg),
            schema::dual_pairs(Channel::OrderbookDelta)[k].scale,
            3 + 2 * k,
        ),
{
    if k == 0 {
    }
}

proof fn lemma_single_pairs_agree(
    channel: Channel,
    session_id: Seq<char>,
    record: Record,
    k: int,
)
    requires
        channel != Channel::OrderbookSnapshot,
        0 <= k < schema::dual_pairs(channel).len(),
    ensures
        pair_agrees(
            record_rows(channel, session_id, record)[0],
            schema::dual_pairs(channel)[k].scale,
            schema::pair_position(channel, k),
        ),
{
    let msg = body_node(record);
    let scale = schema::dual_pairs(channel)[k].scale;
    match channel {
        Channel::OrderbookDelta => {
            lemma_delta_pairs_agree(msg, k);
            lemma_pair_in_row(market_cells(session_id, record), delta_cells(msg), scale, 3 + 2 * k);
        },
        Channel::Ticker => {
            lemma_ticker_pairs_agree(msg, k);
            lemma_pair_in_row(timed_cells(session_id, record), ticker_cells(msg), scale, 2 + 2 * k);
        },
        Channel::Trade => {
            lemma_trade_pairs_agree(msg, k);
            lemma_pair_in_row(timed_cells(session_id, record), trade_cells(msg), scale, 2 + 2 * k);
        },
        Channel::MarketLifecycle => {
            lemma_pair_in_row(market_cells(session_id, record), lifecycle_cells(msg), scale, 3);
        },
        _ => {},
    }
}

proof fn lemma_record_pairs_agree(
    channel: Channel,
    session_id: Seq<char>,
    record: Record,
    k: int,
)
    requires
        0 <= k < schema::dual_pairs(channel).len(),
    ensures
        forall|i: int|
            0 <= i < record_rows(channel, session_id, record).len() ==> pair_agrees(
                #[trigger] record_rows(channel, session_id, record)[i],
                schema::dual_pairs(channel)[k].scale,
                schema::pair_position(channel, k),
            ),
{
    if channel == Channel::OrderbookSnapshot {
        let rows = record_rows(channel, session_id, record);
        let yes = levels_at(body_node(record), "yes_dollars_fp"@);
        let no = levels_at(body_node(record), "no_dollars_fp"@);
        assert forall|i: int| 0 <= i < rows.len() implies pair_agrees(
            #[trigger] rows[i],
            schema::dual_pairs(channel)[k].scale,
            schema::pair_position(channel, k),
        ) by {
            if yes.len() + no.len() == 0 {
                lemma_level_pairs_agree(session_id, record, Seq::empty(), -1, Seq::empty(), k);
            } else if i < yes.len() {
                lemma_level_pairs_agree(session_id, record, "yes"@, i, pair_of(yes[i]), k);
            } else {
                let j = i - yes.len();
                lemma_level_pairs_agree(session_id, record, "no"@, j, pair_of(no[j]), k);
            }
        }
    } else {
        lemma_single_pairs_agree(channel, session_id, record, k);
        assert(record_rows(channel, session_id, record).len() == 1);
    }
}

/// In every row, the integer of each declared pair is exactly what the raw text
/// beside it parses to, and null where that text is absent or does not parse.
pub proof fn law_dual_columns_agree(
    channel: Channel,
    session_id: Seq<char>,
    records: Seq<Record>,
    i: int,
    k: int,
)
    requires
        0 <= i < encoded_rows(channel, session_id, records).len(),
        0 <= k < schema::dual_pairs(channel).len(),
    ensures
        pair_agrees(
            encoded_rows(channel, session_id, records)[i],
            schema::dual_pairs(channel)[k].scale,
            schema::pair_position(channel, k),
        ),
    decreases records.len(),
{
    let before = encoded_rows(channel, session_id, records.drop_last());
    if i < before.len() {
        law_dual_columns_agree(channel, session_id, records.drop_last(), i, k);
    } else {
        lemma_record_pairs_agree(channel, session_id, records.last(), k);
        assert(encoded_rows(channel, session_id, records)[i] == record_rows(
            channel,
            session_id,
            records.last(),
        )[i - before.len()]);
    }
}

/// Whether a row of a channel holds a cell in its column `j`, which has that name.
pub open spec fn holds_at(
    channel: Channel,
    row: Seq<CellModel>,
    j: int,
    name: Seq<char>,
    cell: CellModel,
) -> bool {
    &&& row.len() == schema::columns_of_channel(channel).len()
    &&& 0 <= j < row.len()
    &&& schema::columns_of_channel(channel)[j].name == name
    &&& row[j] == cell
}

/// The integer beside a text is what the text parses to, and null where there is no
/// text or it does not parse.
pub proof fn law_integers_are_parsed_from_their_texts(text: Seq<char>)
    ensures
        parsed_price(None) is None,
        parsed_quantity(None) is None,
        px::price_outcome(text) matches Ok(micros) ==> parsed_price(Some(text)) == Some(
            micros as i64,
        ),
        px::price_outcome(text) is Err ==> parsed_price(Some(text)) is None,
        qty::quantity_outcome(text) matches Ok(units) ==> parsed_quantity(Some(text)) == Some(
            units as i64,
        ),
        qty::quantity_outcome(text) is Err ==> parsed_quantity(Some(text)) is None,
        or_empty(None) == Some(Seq::<char>::empty()),
        or_empty(Some(text)) == Some(text),
{
}

/// The exchange's time of a trade or ticker message is its `ts_ms` as it stands; only
/// without one are the seconds of `ts` turned into milliseconds.
pub proof fn law_exchange_times_are_milliseconds(msg: Node)
    ensures
        msg.int_at("ts_ms"@) matches Some(ms) ==> canonical_time(msg) == Some(ms),
        msg.int_at("ts_ms"@) is None && msg.int_at("ts"@) is None ==> canonical_time(msg) is None,
        msg.int_at("ts_ms"@) is None ==> (msg.int_at("ts"@) matches Some(s) ==> {
            &&& i64::MIN <= s * 1_000 <= i64::MAX ==> canonical_time(msg) is Some && canonical_time(
                msg,
            )->0 == s * 1_000
            &&& !(i64::MIN <= s * 1_000 <= i64::MAX) ==> canonical_time(msg) is None
        }),
{
}

/// Whether a cell holds an unsigned number, or null where there is none or it is too
/// large for the column.
pub open spec fn holds_number(cell: CellModel, n: Option<u64>) -> bool {
    match n {
        Some(n) => if n <= i64::MAX {
            cell matches CellModel::Int64(Some(held)) && held == n
        } else {
            cell == CellModel::Int64(None)
        },
        None => cell == CellModel::Int64(None),
    }
}

/// Every row of every channel starts with the same columns: when the message came, the
/// exchange's own time, the session, the subscription and sequence number of the
/// envelope, and the complete text.
pub proof fn law_every_row_starts_with_its_provenance(
    channel: Channel,
    session_id: Seq<char>,
    record: Record,
    i: int,
)
    requires
        0 <= i < record_rows(channel, session_id, record).len(),
        i64::MIN <= record.received_at <= i64::MAX,
        record.parsed is Some,
    ensures
        ({
            let row = record_rows(channel, session_id, record)[i];
            let envelope = record.parsed->0;
            let columns = schema::columns_of_channel(channel);
            &&& row.len() == columns.len()
            &&& columns[0].name == "received_at_ns"@ && columns[1].name == "exchange_ts_ms"@
                && columns[2].name == "session_id"@ && columns[3].name == "sid"@
                && columns[4].name == "seq"@ && columns[5].name == "raw_message"@
            &&& row[0] == CellModel::Timestamp(Some(record.received_at as i64))
            &&& row[2] == CellModel::Text(Some(session_id))
            &&& channel != Channel::Control ==> holds_number(row[3], envelope.uint_at("sid"@))
            &&& holds_number(row[4], envelope.uint_at("seq"@))
            &&& row[5] == CellModel::Text(Some(record.raw))
            &&& envelope.get("msg"@) matches Some(msg) ==> {
                &&& channel == Channel::Control ==> holds_number(
                    row[3],
                    if envelope.uint_at("sid"@) is Some {
                        envelope.uint_at("sid"@)
                    } else {
                        msg.uint_at("sid"@)
                    },
                )
                &&& channel == Channel::OrderbookSnapshot || channel == Channel::OrderbookDelta
                    || channel == Channel::MarketLifecycle || channel == Channel::EventFeeUpdate
                    || channel == Channel::PriceRanges ==> row[1] == CellModel::Int64(
                    msg.int_at("ts_ms"@),
                )
                &&& channel == Channel::Ticker || channel == Channel::Trade ==> row[1]
                    == CellModel::Int64(canonical_time(msg))
                &&& (channel == Channel::Ticker || channel == Channel::Trade) && msg.int_at(
                    "ts_ms"@,
                ) is Some ==> row[1] == CellModel::Int64(msg.int_at("ts_ms"@))
            }
            &&& channel == Channel::Unparsed || channel == Channel::Control ==> row[1]
                == CellModel::Int64(None)
        }),
{
    lemma_row_widths(channel, session_id, record, i);
    lemma_first_columns(channel);
    lemma_first_cells(channel, session_id, record, i);
}

proof fn lemma_first_columns(channel: Channel)
    ensures
        schema::columns_of_channel(channel).len() >= 6,
        forall|k: int|
            0 <= k < 6 ==> #[trigger] schema::columns_of_channel(channel)[k]
                == schema::common_columns()[k],
{
}

/// What a channel takes for the exchange's time.
spec fn time_cell(channel: Channel, record: Record) -> Option<i64> {
    match channel {
        Channel::Ticker => canonical_time(body_node(record)),
        Channel::Trade => canonical_time(body_node(record)),
        Channel::Unparsed => None,
        Channel::Control => None,
        _ => body_node(record).int_at("ts_ms"@),
    }
}

#[verifier::spinoff_prover]
#[verifier::rlimit(40)]
proof fn lemma_first_cells(channel: Channel, session_id: Seq<char>, record: Record, i: int)
    requires
        0 <= i < record_rows(channel, session_id, record).len(),
    ensures
        ({
            let row = record_rows(channel, session_id, record)[i];
            let sid = if channel == Channel::Control {
                control_sid(record)
            } else {
                envelope_node(record).uint_at("sid"@)
            };
            let seq = envelope_node(record).uint_at("seq"@);
            let common = common_cells(record, time_cell(channel, record), session_id, sid, seq);
            forall|k: int| 0 <= k < 6 ==> #[trigger] row[k] == common[k]
        }),
{
    match channel {
        Channel::OrderbookSnapshot => {
            let rows = record_rows(channel, session_id, record);
            let yes = levels_at(body_node(record), "yes_dollars_fp"@);
            let no = levels_at(body_node(record), "no_dollars_fp"@);
            if yes.len() + no.len() == 0 {
                assert(rows[i] == bare_row(session_id, record));
            } else if i < yes.len() {
                assert(rows[i] == level_row(session_id, record, "yes"@, i, pair_of(yes[i])));
            } else {
                let k = i - yes.len();
                assert(rows[i] == level_row(session_id, record, "no"@, k, pair_of(no[k])));
            }
        },
        Channel::OrderbookDelta => {},
        Channel::Ticker => {},
        Channel::Trade => {},
        Channel::MarketLifecycle => {},
        Channel::EventFeeUpdate => {},
        Channel::PriceRanges => {},
        Channel::Unparsed => {},
        Channel::Control => {},
    }
}

#[verifier::spinoff_prover]
#[verifier::rlimit(40)]
proof fn lemma_row_widths(channel: Channel, session_id: Seq<char>, record: Record, i: int)
    requires
        0 <= i < record_rows(channel, session_id, record).len(),
    ensures
        record_rows(channel, session_id, record)[i].len() == schema::columns_of_channel(
            channel,
        ).len(),
        schema::columns_of_channel(channel).len() >= 6,
{
    match channel {
        Channel::OrderbookSnapshot => {
            let rows = record_rows(channel, session_id, record);
            let yes = levels_at(body_node(record), "yes_dollars_fp"@);
            let no = levels_at(body_node(record), "no_dollars_fp"@);
            if yes.len() + no.len() == 0 {
                assert(rows[i] == bare_row(session_id, record));
            } else if i < yes.len() {
                assert(rows[i] == level_row(session_id, record, "yes"@, i, pair_of(yes[i])));
            } else {
                let k = i - yes.len();
                assert(rows[i] == level_row(session_id, record, "no"@, k, pair_of(no[k])));
            }
        },
        Channel::OrderbookDelta => {},
        Channel::Ticker => {},
        Channel::Trade => {},
        Channel::MarketLifecycle => {},
        Channel::EventFeeUpdate => {},
        Channel::PriceRanges => {},
        Channel::Unparsed => {},
        Channel::Control => {},
    }
}

/// A record that did not parse still has its row, with nothing read from it.
pub proof fn law_an_unparsed_record_has_no_numbers(
    channel: Channel,
    session_id: Seq<char>,
    record: Record,
    i: int,
)
    requires
        0 <= i < record_rows(channel, session_id, record).len(),
        record.parsed is None,
    ensures
        ({
            let row = record_rows(channel, session_id, record)[i];
            &&& row[1] == CellModel::Int64(None)
            &&& row[3] == CellModel::Int64(None)
            &&& row[4] == CellModel::Int64(None)
            &&& row[5] == CellModel::Text(Some(record.raw))
        }),
{
}

/// A delta is stored with its market, side, price and signed size.
pub proof fn law_a_delta_row_holds_its_message(session_id: Seq<char>, record: Record, msg: Node)
    requires
        record.parsed is Some,
        record.parsed->0.get("msg"@) == Some(msg),
    ensures
        record_rows(Channel::OrderbookDelta, session_id, record).len() == 1,
        ({
            let row = record_rows(Channel::OrderbookDelta, session_id, record)[0];
            &&& holds_at(
                Channel::OrderbookDelta,
                row,
                6,
                "market_ticker"@,
                CellModel::Text(or_empty(msg.text_at("market_ticker"@))),
            )
            &&& holds_at(
                Channel::OrderbookDelta,
                row,
                7,
                "market_id"@,
                CellModel::Text(msg.text_at("market_id"@)),
            )
            &&& holds_at(
                Channel::OrderbookDelta,
                row,
                8,
                "side"@,
                CellModel::Text(or_empty(msg.text_at("side"@))),
            )
            &&& holds_at(
                Channel::OrderbookDelta,
                row,
                9,
                "price_raw"@,
                CellModel::Text(msg.text_at("price_dollars"@)),
            )
            &&& holds_at(
                Channel::OrderbookDelta,
                row,
                10,
                "price_micros"@,
                CellModel::Int64(parsed_price(msg.text_at("price_dollars"@))),
            )
            &&& holds_at(
                Channel::OrderbookDelta,
                row,
                11,
                "delta_raw"@,
                CellModel::Text(msg.text_at("delta_fp"@)),
            )
            &&& holds_at(
                Channel::OrderbookDelta,
                row,
                12,
                "delta_fp_units"@,
                CellModel::Int64(parsed_quantity(msg.text_at("delta_fp"@))),
            )
        }),
{
    let own = schema::own_columns(Channel::OrderbookDelta);
    let columns = schema::columns_of_channel(Channel::OrderbookDelta);
    assert(columns[6] == own[0]);
    assert(columns[7] == own[1]);
    assert(columns[8] == own[2]);
    assert(columns[9] == own[3]);
    assert(columns[10] == own[4]);
    assert(columns[11] == own[5]);
    assert(columns[12] == own[6]);
}

/// A ticker message is stored with its prices, sizes and totals, each under its own name.
pub proof fn law_a_ticker_row_holds_its_message(session_id: Seq<char>, record: Record, msg: Node)
    requires
        record.parsed is Some,
        record.parsed->0.get("msg"@) == Some(msg),
    ensures
        record_rows(Channel::Ticker, session_id, record).len() == 1,
        ({
            let row = record_rows(Channel::Ticker, session_id, record)[0];
            &&& holds_at(
                Channel::Ticker,
                row,
                6,
                "market_ticker"@,
                CellModel::Text(or_empty(msg.text_at("market_ticker"@))),
            )
            &&& holds_at(
                Channel::Ticker,
                row,
                7,
                "market_id"@,
                CellModel::Text(msg.text_at("market_id"@)),
            )
            &&& holds_at(
                Channel::Ticker,
                row,
                8,
                "price_raw"@,
                CellModel::Text(msg.text_at("price_dollars"@)),
            )
            &&& holds_at(
                Channel::Ticker,
                row,
                9,
                "price_micros"@,
                CellModel::Int64(parsed_price(msg.text_at("price_dollars"@))),
            )
            &&& holds_at(
                Channel::Ticker,
                row,
                10,
                "yes_bid_raw"@,
                CellModel::Text(msg.text_at("yes_bid_dollars"@)),
            )
            &&& holds_at(
                Channel::Ticker,
                row,
                11,
                "yes_bid_micros"@,
                CellModel::Int64(parsed_price(msg.text_at("yes_bid_dollars"@))),
            )
            &&& holds_at(
                Channel::Ticker,
                row,
                12,
                "yes_ask_raw"@,
                CellModel::Text(msg.text_at("yes_ask_dollars"@)),
            )
            &&& holds_at(
                Channel::Ticker,
                row,
                13,
                "yes_ask_micros"@,
                CellModel::Int64(parsed_price(msg.text_at("yes_ask_dollars"@))),
            )
            &&& holds_at(
                Channel::Ticker,
                row,
                14,
                "yes_bid_size_raw"@,
                CellModel::Text(msg.text_at("yes_bid_size_fp"@)),
            )
            &&& holds_at(
                Channel::Ticker,
                row,
                15,
                "yes_bid_size_fp_units"@,
                CellModel::Int64(parsed_quantity(msg.text_at("yes_bid_size_fp"@))),
            )
            &&& holds_at(
                Channel::Ticker,
                row,
                16,
                "yes_ask_size_raw"@,
                CellModel::Text(msg.text_at("yes_ask_size_fp"@)),
            )
            &&& holds_at(
                Channel::Ticker,
                row,
                17,
                "yes_ask_size_fp_units"@,
                CellModel::Int64(parsed_quantity(msg.text_at("yes_ask_size_fp"@))),
            )
            &&& holds_at(
                Channel::Ticker,
                row,
                18,
                "volume_raw"@,
                CellModel::Text(msg.text_at("volume_fp"@)),
            )
            &&& holds_at(
                Channel::Ticker,
                row,
                19,
                "volume_fp_units"@,
                CellModel::Int64(parsed_quantity(msg.text_at("volume_fp"@))),
            )
            &&& holds_at(
                Channel::Ticker,
                row,
                20,
                "open_interest_raw"@,
                CellModel::Text(msg.text_at("open_interest_fp"@)),
            )
            &&& holds_at(
                Channel::Ticker,
                row,
                21,
                "open_interest_fp_units"@,
                CellModel::Int64(parsed_quantity(msg.text_at("open_interest_fp"@))),
            )
        }),
{
    let own = schema::own_columns(Channel::Ticker);
    let columns = schema::columns_of_channel(Channel::Ticker);
    assert(columns[6] == own[0]);
    assert(columns[7] == own[1]);
    assert(columns[8] == own[2]);
    assert(columns[9] == own[3]);
    assert(columns[10] == own[4]);
    assert(columns[11] == own[5]);
    assert(columns[12] == own[6]);
    assert(columns[13] == own[7]);
    assert(columns[14] == own[8]);
    assert(columns[15] == own[9]);
    assert(columns[16] == own[10]);
    assert(columns[17] == own[11]);
    assert(columns[18] == own[12]);
    assert(columns[19] == own[13]);
    assert(columns[20] == own[14]);
    assert(columns[21] == own[15]);
}

/// A trade is stored with both its prices, its count and the taker's side.
pub proof fn law_a_trade_row_holds_its_message(session_id: Seq<char>, record: Record, msg: Node)
    requires
        record.parsed is Some,
        record.parsed->0.get("msg"@) == Some(msg),
    ensures
        record_rows(Channel::Trade, session_id, record).len() == 1,
        ({
            let row = record_rows(Channel::Trade, session_id, record)[0];
            &&& holds_at(
                Channel::Trade,
                row,
                6,
                "trade_id"@,
                CellModel::Text(msg.text_at("trade_id"@)),
            )
            &&& holds_at(
                Channel::Trade,
                row,
                7,
                "market_ticker"@,
                CellModel::Text(or_empty(msg.text_at("market_ticker"@))),
            )
            &&& holds_at(
                Channel::Trade,
                row,
                8,
                "yes_price_raw"@,
                CellModel::Text(msg.text_at("yes_price_dollars"@)),
            )
            &&& holds_at(
                Channel::Trade,
                row,
                9,
                "yes_price_micros"@,
                CellModel::Int64(parsed_price(msg.text_at("yes_price_dollars"@))),
            )
            &&& holds_at(
                Channel::Trade,
                row,
                10,
                "no_price_raw"@,
                CellModel::Text(msg.text_at("no_price_dollars"@)),
            )
            &&& holds_at(
                Channel::Trade,
                row,
                11,
                "no_price_micros"@,
                CellModel::Int64(parsed_price(msg.text_at("no_price_dollars"@))),
            )
            &&& holds_at(
                Channel::Trade,
                row,
                12,
                "count_raw"@,
                CellModel::Text(msg.text_at("count_fp"@)),
            )
            &&& holds_at(
                Channel::Trade,
                row,
                13,
                "count_fp_units"@,
                CellModel::Int64(parsed_quantity(msg.text_at("count_fp"@))),
            )
            &&& holds_at(
                Channel::Trade,
                row,
                14,
                "taker_outcome_side"@,
                CellModel::Text(msg.text_at("taker_outcome_side"@)),
            )
            &&& holds_at(
                Channel::Trade,
                row,
                15,
                "taker_book_side"@,
                CellModel::Text(msg.text_at("taker_book_side"@)),
            )
            &&& holds_at(
                Channel::Trade,
                row,
                16,
                "taker_side_deprecated"@,
                CellModel::Text(msg.text_at("taker_side"@)),
            )
            &&& holds_at(
                Channel::Trade,
                row,
                17,
                "is_block_trade"@,
                CellModel::Boolean(msg.boolean_at("is_block_trade"@)),
            )
        }),
{
    let own = schema::own_columns(Channel::Trade);
    let columns = schema::columns_of_channel(Channel::Trade);
    assert(columns[6] == own[0]);
    assert(columns[7] == own[1]);
    assert(columns[8] == own[2]);
    assert(columns[9] == own[3]);
    assert(columns[10] == own[4]);
    assert(columns[11] == own[5]);
    assert(columns[12] == own[6]);
    assert(columns[13] == own[7]);
    assert(columns[14] == own[8]);
    assert(columns[15] == own[9]);
    assert(columns[16] == own[10]);
    assert(columns[17] == own[11]);
}

/// A lifecycle event is stored with its kind, its market or else its event, its result and
/// its times.
pub proof fn law_a_lifecycle_row_holds_its_message(session_id: Seq<char>, record: Record, msg: Node)
    requires
        record.parsed is Some,
        record.parsed->0.get("msg"@) == Some(msg),
    ensures
        record_rows(Channel::MarketLifecycle, session_id, record).len() == 1,
        ({
            let row = record_rows(Channel::MarketLifecycle, session_id, record)[0];
            &&& holds_at(
                Channel::MarketLifecycle,
                row,
                6,
                "event_type"@,
                CellModel::Text(or_empty(msg.text_at("event_type"@))),
            )
            &&& holds_at(
                Channel::MarketLifecycle,
                row,
                7,
                "market_ticker"@,
                CellModel::Text(if msg.text_at("market_ticker"@) is Some {
                    msg.text_at("market_ticker"@)
                } else {
                    or_empty(msg.text_at("event_ticker"@))
                }),
            )
            &&& holds_at(
                Channel::MarketLifecycle,
                row,
                8,
                "result"@,
                CellModel::Text(msg.text_at("result"@)),
            )
            &&& holds_at(
                Channel::MarketLifecycle,
                row,
                9,
                "settlement_value_raw"@,
                CellModel::Text(msg.text_at("settlement_value"@)),
            )
            &&& holds_at(
                Channel::MarketLifecycle,
                row,
                10,
                "settlement_value_micros"@,
                CellModel::Int64(parsed_price(msg.text_at("settlement_value"@))),
            )
            &&& holds_at(
                Channel::MarketLifecycle,
                row,
                11,
                "open_ts"@,
                CellModel::Int64(msg.int_at("open_ts"@)),
            )
            &&& holds_at(
                Channel::MarketLifecycle,
                row,
                12,
                "close_ts"@,
                CellModel::Int64(msg.int_at("close_ts"@)),
            )
            &&& holds_at(
                Channel::MarketLifecycle,
                row,
                13,
                "determination_ts"@,
                CellModel::Int64(msg.int_at("determination_ts"@)),
            )
            &&& holds_at(
                Channel::MarketLifecycle,
                row,
                14,
                "settled_ts"@,
                CellModel::Int64(msg.int_at("settled_ts"@)),
            )
            &&& holds_at(
                Channel::MarketLifecycle,
                row,
                15,
                "is_deactivated"@,
                CellModel::Boolean(msg.boolean_at("is_deactivated"@)),
            )
            &&& holds_at(
                Channel::MarketLifecycle,
                row,
                16,
                "price_level_structure"@,
                CellModel::Text(msg.text_at("price_level_structure"@)),
            )
        }),
{
    let own = schema::own_columns(Channel::MarketLifecycle);
    let columns = schema::columns_of_channel(Channel::MarketLifecycle);
    assert(columns[6] == own[0]);
    assert(columns[7] == own[1]);
    assert(columns[8] == own[2]);
    assert(columns[9] == own[3]);
    assert(columns[10] == own[4]);
    assert(columns[11] == own[5]);
    assert(columns[12] == own[6]);
    assert(columns[13] == own[7]);
    assert(columns[14] == own[8]);
    assert(columns[15] == own[9]);
    assert(columns[16] == own[10]);
}

/// A fee update is stored with its event, and its multiplier as the token that was sent.
pub proof fn law_a_fee_update_row_holds_its_message(session_id: Seq<char>, record: Record, msg: Node)
    requires
        record.parsed is Some,
        record.parsed->0.get("msg"@) == Some(msg),
    ensures
        record_rows(Channel::EventFeeUpdate, session_id, record).len() == 1,
        ({
            let row = record_rows(Channel::EventFeeUpdate, session_id, record)[0];
            &&& holds_at(
                Channel::EventFeeUpdate,
                row,
                6,
                "event_ticker"@,
                CellModel::Text(or_empty(msg.text_at("event_ticker"@))),
            )
            &&& holds_at(
                Channel::EventFeeUpdate,
                row,
                7,
                "fee_type_override"@,
                CellModel::Text(msg.text_at("fee_type_override"@)),
            )
            &&& holds_at(
                Channel::EventFeeUpdate,
                row,
                8,
                "fee_multiplier_override_raw"@,
                CellModel::Text(msg.number_token_at("fee_multiplier_override"@)),
            )
        }),
{
    let own = schema::own_columns(Channel::EventFeeUpdate);
    let columns = schema::columns_of_channel(Channel::EventFeeUpdate);
    assert(columns[6] == own[0]);
    assert(columns[7] == own[1]);
    assert(columns[8] == own[2]);
}

/// An observed grid is stored with where it was seen and when it took effect, if the
/// wire said so; its text, hash and band count are those of `price_ranges`.
pub proof fn law_a_grid_row_holds_its_message(session_id: Seq<char>, record: Record, msg: Node)
    requires
        record.parsed is Some,
        record.parsed->0.get("msg"@) == Some(msg),
    ensures
        record_rows(Channel::PriceRanges, session_id, record).len() == 1,
        ({
            let row = record_rows(Channel::PriceRanges, session_id, record)[0];
            &&& holds_at(
                Channel::PriceRanges,
                row,
                6,
                "market_ticker"@,
                CellModel::Text(or_empty(msg.text_at("market_ticker"@))),
            )
            &&& holds_at(
                Channel::PriceRanges,
                row,
                7,
                "source"@,
                CellModel::Text(if msg.text_at("source"@) is Some {
                    msg.text_at("source"@)
                } else {
                    Some("discovery"@)
                }),
            )
            &&& holds_at(
                Channel::PriceRanges,
                row,
                8,
                "effective_at"@,
                CellModel::Timestamp(msg.int_at("effective_at_ns"@)),
            )
            &&& holds_at(
                Channel::PriceRanges,
                row,
                9,
                "price_level_structure"@,
                CellModel::Text(msg.text_at("price_level_structure"@)),
            )
            &&& msg.get("price_ranges"@) matches Some(grid) ==> {
                &&& holds_at(
                    Channel::PriceRanges,
                    row,
                    10,
                    "price_ranges_raw"@,
                    CellModel::Text(Some(json::json_text(grid))),
                )
                &&& holds_at(
                    Channel::PriceRanges,
                    row,
                    11,
                    "price_ranges_hash"@,
                    CellModel::Text(Some(grid_history::grid_hash_text(json::json_text(grid)))),
                )
                &&& grid is Array && grid->Array_0.len() <= i32::MAX ==> holds_at(
                    Channel::PriceRanges,
                    row,
                    12,
                    "band_count"@,
                    CellModel::Int32(Some(grid->Array_0.len() as i32)),
                )
                &&& !(grid is Array) ==> holds_at(
                    Channel::PriceRanges,
                    row,
                    12,
                    "band_count"@,
                    CellModel::Int32(None),
                )
            }
        }),
{
    let own = schema::own_columns(Channel::PriceRanges);
    let columns = schema::columns_of_channel(Channel::PriceRanges);
    assert(columns[6] == own[0]);
    assert(columns[7] == own[1]);
    assert(columns[8] == own[2]);
    assert(columns[9] == own[3]);
    assert(columns[10] == own[4]);
    assert(columns[11] == own[5]);
    assert(columns[12] == own[6]);
}

/// An unparsed message is stored with the error and, where its text is JSON, the type it
/// names.
pub proof fn law_an_unparsed_row_holds_its_message(session_id: Seq<char>, record: Record)
    ensures
        record_rows(Channel::Unparsed, session_id, record).len() == 1,
        ({
            let row = record_rows(Channel::Unparsed, session_id, record)[0];
            &&& holds_at(
                Channel::Unparsed,
                row,
                6,
                "parse_error"@,
                CellModel::Text(
                    if record.parsed is Some {
                        record.parsed->0.text_at("parse_error"@)
                    } else {
                        None
                    },
                ),
            )
            &&& holds_at(
                Channel::Unparsed,
                row,
                7,
                "message_type"@,
                CellModel::Text(
                    if json::json_of_text(record.raw) is Some {
                        json::json_of_text(record.raw)->0.text_at("type"@)
                    } else {
                        None
                    },
                ),
            )
        }),
{
    let own = schema::own_columns(Channel::Unparsed);
    let columns = schema::columns_of_channel(Channel::Unparsed);
    assert(columns[6] == own[0]);
    assert(columns[7] == own[1]);
}

/// A control frame is stored with its type, its channel, and the code and text of an
/// error.
pub proof fn law_a_control_row_holds_its_message(
    session_id: Seq<char>,
    record: Record,
    msg: Node,
)
    requires
        record.parsed is Some,
        record.parsed->0.get("msg"@) == Some(msg),
    ensures
        record_rows(Channel::Control, session_id, record).len() == 1,
        ({
            let row = record_rows(Channel::Control, session_id, record)[0];
            &&& holds_at(
                Channel::Control,
                row,
                6,
                "message_type"@,
                CellModel::Text(record.parsed->0.text_at("type"@)),
            )
            &&& holds_at(
                Channel::Control,
                row,
                7,
                "channel"@,
                CellModel::Text(msg.text_at("channel"@)),
            )
            &&& msg.int_at("code"@) is Some && i32::MIN <= msg.int_at("code"@)->0 <= i32::MAX
                ==> holds_at(
                Channel::Control,
                row,
                8,
                "error_code"@,
                CellModel::Int32(Some(msg.int_at("code"@)->0 as i32)),
            )
            &&& msg.int_at("code"@) is None ==> holds_at(
                Channel::Control,
                row,
                8,
                "error_code"@,
                CellModel::Int32(None),
            )
            &&& holds_at(
                Channel::Control,
                row,
                9,
                "error_message"@,
                CellModel::Text(msg.text_at("msg"@)),
            )
        }),
{
    let own = schema::own_columns(Channel::Control);
    let columns = schema::columns_of_channel(Channel::Control);
    assert(columns[6] == own[0]);
    assert(columns[7] == own[1]);
    assert(columns[8] == own[2]);
    assert(columns[9] == own[3]);
}

/// Whether a row is that of one listed level: its side, its place in the list, and its
/// price and size as they were sent.
pub open spec fn is_level_row(
    row: Seq<CellModel>,
    msg: Node,
    side: Seq<char>,
    place: int,
    level: Node,
) -> bool {
    let price = match level {
        Node::Array(pair) => if pair.len() > 0 {
            pair[0].text()
        } else {
            None
        },
        _ => None,
    };
    let size = match level {
        Node::Array(pair) => if pair.len() > 1 {
            pair[1].text()
        } else {
            None
        },
        _ => None,
    };
    let channel = Channel::OrderbookSnapshot;
    &&& holds_at(
        channel,
        row,
        6,
        "market_ticker"@,
        CellModel::Text(or_empty(msg.text_at("market_ticker"@))),
    )
    &&& holds_at(channel, row, 7, "market_id"@, CellModel::Text(msg.text_at("market_id"@)))
    &&& holds_at(channel, row, 8, "side"@, CellModel::Text(Some(side)))
    &&& holds_at(channel, row, 9, "price_raw"@, CellModel::Text(price))
    &&& holds_at(channel, row, 10, "price_micros"@, CellModel::Int64(parsed_price(price)))
    &&& holds_at(channel, row, 11, "size_raw"@, CellModel::Text(size))
    &&& holds_at(channel, row, 12, "size_fp_units"@, CellModel::Int64(parsed_quantity(size)))
    &&& place <= i32::MAX ==> holds_at(
        channel,
        row,
        13,
        "level_index"@,
        CellModel::Int32(Some(place as i32)),
    )
}

proof fn lemma_level_row(
    session_id: Seq<char>,
    record: Record,
    side: Seq<char>,
    place: int,
    level: Node,
)
    requires
        0 <= place,
    ensures
        is_level_row(
            level_row(session_id, record, side, place, pair_of(level)),
            body_node(record),
            side,
            place,
            level,
        ),
{
    let own = schema::own_columns(Channel::OrderbookSnapshot);
    let columns = schema::columns_of_channel(Channel::OrderbookSnapshot);

    assert(columns[6] == own[0]);
    assert(columns[7] == own[1]);
    assert(columns[8] == own[2]);
    assert(columns[9] == own[3]);
    assert(columns[10] == own[4]);
    assert(columns[11] == own[5]);
    assert(columns[12] == own[6]);
    assert(columns[13] == own[7]);
}

/// A snapshot gives one row per listed level and no other: first the YES levels, then
/// the NO levels, each in the order of its list and under its own side. A snapshot that
/// lists none gives one row that carries the message.
pub proof fn law_a_snapshot_has_a_row_per_level(
    session_id: Seq<char>,
    record: Record,
    msg: Node,
    yes: Seq<Node>,
    no: Seq<Node>,
)
    requires
        record.parsed is Some,
        record.parsed->0.get("msg"@) == Some(msg),
        msg.get("yes_dollars_fp"@) == Some(Node::Array(yes)) || yes.len() == 0 && msg.get(
            "yes_dollars_fp"@,
        ) is None,
        msg.get("no_dollars_fp"@) == Some(Node::Array(no)) || no.len() == 0 && msg.get(
            "no_dollars_fp"@,
        ) is None,
    ensures
        ({
            let rows = record_rows(Channel::OrderbookSnapshot, session_id, record);
            &&& yes.len() + no.len() > 0 ==> rows.len() == yes.len() + no.len()
            &&& forall|i: int|
                0 <= i < yes.len() ==> is_level_row(#[trigger] rows[i], msg, "yes"@, i, yes[i])
            &&& forall|i: int|
                yes.len() <= i < yes.len() + no.len() ==> is_level_row(
                    #[trigger] rows[i],
                    msg,
                    "no"@,
                    i - yes.len(),
                    no[i - yes.len()],
                )
            &&& yes.len() + no.len() == 0 ==> rows.len() == 1 && rows[0][5] == CellModel::Text(
                Some(record.raw),
            ) && rows[0][9] == CellModel::Text(None) && rows[0][11] == CellModel::Text(None)
        }),
{
    let rows = record_rows(Channel::OrderbookSnapshot, session_id, record);
    assert(levels_at(msg, "yes_dollars_fp"@) =~= yes);
    assert(levels_at(msg, "no_dollars_fp"@) =~= no);
    assert forall|i: int| 0 <= i < yes.len() implies is_level_row(
        #[trigger] rows[i],
        msg,
        "yes"@,
        i,
        yes[i],
    ) by {
        lemma_level_row(session_id, record, "yes"@, i, yes[i]);
    }
    assert forall|i: int| yes.len() <= i < yes.len() + no.len() implies is_level_row(
        #[trigger] rows[i],
        msg,
        "no"@,
        i - yes.len(),
        no[i - yes.len()],
    ) by {
        lemma_level_row(session_id, record, "no"@, i - yes.len(), no[i - yes.len()]);
    }
}

/// The rows of a batch are the rows of its records, one record after the other, and a
/// column of the batch holds what the rows have at its place.
pub proof fn law_a_batch_is_its_rows(
    channel: Channel,
    session_id: Seq<char>,
    records: Seq<Record>,
    record: Record,
    i: int,
    j: int,
)
    requires
        0 <= i < encoded_rows(channel, session_id, records).len(),
        0 <= j < schema::columns_of_channel(channel).len(),
    ensures
        encoded_rows(channel, session_id, Seq::empty()).len() == 0,
        encoded_rows(channel, session_id, records.push(record)) == encoded_rows(
            channel,
            session_id,
            records,
        ) + record_rows(channel, session_id, record),
        encoded_columns(channel, session_id, records).len() == schema::columns_of_channel(
            channel,
        ).len(),
        encoded_columns(channel, session_id, records)[j].len() == encoded_rows(
            channel,
            session_id,
            records,
        ).len(),
        encoded_columns(channel, session_id, records)[j][i] == encoded_rows(
            channel,
            session_id,
            records,
        )[i][j],
{
    assert(records.push(record).drop_last() =~= records);
}

/// What [`encode`] gives for some records is a batch under the channel's columns whose
/// rows are theirs; there is none exactly where there are no records.
pub proof fn law_encoding_gives_the_rows(
    channel: Channel,
    session_id: &str,
    records: &[StoreRecord],
    out: Result<Option<EncodedBatch>, EncodeError>,
    i: int,
    j: int,
)
    requires
        call_ensures(encode, (channel, session_id, records), out),
    ensures
        out is Ok,
        out == Ok::<Option<EncodedBatch>, EncodeError>(None) <==> records@.len() == 0,
        ({
            let views = Seq::new(records@.len(), |k: int| records@[k]@);
            let rows = encoded_rows(channel, session_id@, views);
            &&& out matches Ok(Some(batch)) ==> table::batch_fields(batch)
                == schema::columns_of_channel(channel)
            &&& 0 <= i < rows.len() && 0 <= j < schema::columns_of_channel(channel).len() ==> (
            out matches Ok(Some(batch)) ==> table::batch_columns(batch)[j][i] == rows[i][j])
        }),
{
    let views = Seq::new(records@.len(), |k: int| records@[k]@);
    assert(record_views(records@) =~= views);
}

} // verus!
