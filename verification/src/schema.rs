//! Column layouts for each capture channel.
//!
//! Every price and quantity is stored twice: the raw wire text exactly as
//! received beside the parsed integer, so that a parser bug is survivable. Both
//! are nullable: a message that lacks a value must still make a row. Timestamps
//! are UTC nanoseconds.

use arrow::datatypes::{DataType, Field, TimeUnit};
use std::sync::Arc;
use vstd::prelude::*;

verus! {

/// The channels captured, each written to its own partition.
#[derive(Copy, Clone, Debug, PartialEq, Eq, Structural, Hash, PartialOrd, Ord)]
pub enum Channel {
    OrderbookSnapshot,
    OrderbookDelta,
    Ticker,
    Trade,
    MarketLifecycle,
    EventFeeUpdate,
    /// Tick-grid observations, from both discovery and lifecycle events.
    PriceRanges,
    /// Anything that failed to deserialize. Never dropped.
    Unparsed,
    /// Subscription control frames. They consume sequence numbers, so leaving
    /// them out would look exactly like lost market data.
    Control,
}

/// What a column holds.
#[derive(Copy, Clone, Debug, PartialEq, Eq, Structural)]
pub enum ColumnKind {
    Text,
    Int64,
    Int32,
    Boolean,
    /// Nanoseconds since the Unix epoch, UTC.
    Timestamp,
}

/// One column of a layout.
#[derive(Copy, Clone, Debug)]
pub struct FieldSpec {
    pub name: &'static str,
    pub kind: ColumnKind,
    pub nullable: bool,
}

/// What a [`FieldSpec`] says.
pub struct FieldModel {
    pub name: Seq<char>,
    pub kind: ColumnKind,
    pub nullable: bool,
}

pub open spec fn field_model(field: FieldSpec) -> FieldModel {
    FieldModel { name: field.name@, kind: field.kind, nullable: field.nullable }
}

pub open spec fn field_models(fields: Seq<FieldSpec>) -> Seq<FieldModel> {
    fields.map_values(|field: FieldSpec| field_model(field))
}

/// A column that is always present.
pub open spec fn required(name: Seq<char>, kind: ColumnKind) -> FieldModel {
    FieldModel { name, kind, nullable: false }
}

/// A column that may be null.
pub open spec fn optional(name: Seq<char>, kind: ColumnKind) -> FieldModel {
    FieldModel { name, kind, nullable: true }
}

/// The columns present on every row, whatever the channel.
pub open spec fn common_columns() -> Seq<FieldModel> {
    seq![
        required("received_at_ns"@, ColumnKind::Timestamp),
        optional("exchange_ts_ms"@, ColumnKind::Int64),
        required("session_id"@, ColumnKind::Text),
        optional("sid"@, ColumnKind::Int64),
        optional("seq"@, ColumnKind::Int64),
        required("raw_message"@, ColumnKind::Text),
    ]
}

/// The columns that a channel adds to the common ones.
pub open spec fn own_columns(channel: Channel) -> Seq<FieldModel> {
    match channel {
        Channel::OrderbookSnapshot => seq![
            required("market_ticker"@, ColumnKind::Text),
            optional("market_id"@, ColumnKind::Text),
            required("side"@, ColumnKind::Text),
            optional("price_raw"@, ColumnKind::Text),
            optional("price_micros"@, ColumnKind::Int64),
            optional("size_raw"@, ColumnKind::Text),
            optional("size_fp_units"@, ColumnKind::Int64),
            required("level_index"@, ColumnKind::Int32),
        ],
        Channel::OrderbookDelta => seq![
            required("market_ticker"@, ColumnKind::Text),
            optional("market_id"@, ColumnKind::Text),
            required("side"@, ColumnKind::Text),
            optional("price_raw"@, ColumnKind::Text),
            optional("price_micros"@, ColumnKind::Int64),
            optional("delta_raw"@, ColumnKind::Text),
            optional("delta_fp_units"@, ColumnKind::Int64),
        ],
        Channel::Ticker => seq![
            required("market_ticker"@, ColumnKind::Text),
            optional("market_id"@, ColumnKind::Text),
            optional("price_raw"@, ColumnKind::Text),
            optional("price_micros"@, ColumnKind::Int64),
            optional("yes_bid_raw"@, ColumnKind::Text),
            optional("yes_bid_micros"@, ColumnKind::Int64),
            optional("yes_ask_raw"@, ColumnKind::Text),
            optional("yes_ask_micros"@, ColumnKind::Int64),
            optional("yes_bid_size_raw"@, ColumnKind::Text),
            optional("yes_bid_size_fp_units"@, ColumnKind::Int64),
            optional("yes_ask_size_raw"@, ColumnKind::Text),
            optional("yes_ask_size_fp_units"@, ColumnKind::Int64),
            optional("volume_raw"@, ColumnKind::Text),
            optional("volume_fp_units"@, ColumnKind::Int64),
            optional("open_interest_raw"@, ColumnKind::Text),
            optional("open_interest_fp_units"@, ColumnKind::Int64),
        ],
        Channel::Trade => seq![
            optional("trade_id"@, ColumnKind::Text),
            required("market_ticker"@, ColumnKind::Text),
            optional("yes_price_raw"@, ColumnKind::Text),
            optional("yes_price_micros"@, ColumnKind::Int64),
            optional("no_price_raw"@, ColumnKind::Text),
            optional("no_price_micros"@, ColumnKind::Int64),
            optional("count_raw"@, ColumnKind::Text),
            optional("count_fp_units"@, ColumnKind::Int64),
            optional("taker_outcome_side"@, ColumnKind::Text),
            optional("taker_book_side"@, ColumnKind::Text),
            optional("taker_side_deprecated"@, ColumnKind::Text),
            optional("is_block_trade"@, ColumnKind::Boolean),
        ],
        Channel::MarketLifecycle => seq![
            required("event_type"@, ColumnKind::Text),
            required("market_ticker"@, ColumnKind::Text),
            optional("result"@, ColumnKind::Text),
            optional("settlement_value_raw"@, ColumnKind::Text),
            optional("settlement_value_micros"@, ColumnKind::Int64),
            optional("open_ts"@, ColumnKind::Int64),
            optional("close_ts"@, ColumnKind::Int64),
            optional("determination_ts"@, ColumnKind::Int64),
            optional("settled_ts"@, ColumnKind::Int64),
            optional("is_deactivated"@, ColumnKind::Boolean),
            optional("price_level_structure"@, ColumnKind::Text),
        ],
        Channel::EventFeeUpdate => seq![
            required("event_ticker"@, ColumnKind::Text),
            optional("fee_type_override"@, ColumnKind::Text),
            optional("fee_multiplier_override_raw"@, ColumnKind::Text),
        ],
        Channel::PriceRanges => seq![
            required("market_ticker"@, ColumnKind::Text),
            required("source"@, ColumnKind::Text),
            optional("effective_at"@, ColumnKind::Timestamp),
            optional("price_level_structure"@, ColumnKind::Text),
            required("price_ranges_raw"@, ColumnKind::Text),
            required("price_ranges_hash"@, ColumnKind::Text),
            optional("band_count"@, ColumnKind::Int32),
        ],
        Channel::Unparsed => seq![
            optional("parse_error"@, ColumnKind::Text),
            optional("message_type"@, ColumnKind::Text),
        ],
        Channel::Control => seq![
            optional("message_type"@, ColumnKind::Text),
            optional("channel"@, ColumnKind::Text),
            optional("error_code"@, ColumnKind::Int32),
            optional("error_message"@, ColumnKind::Text),
        ],
    }
}

/// All columns of a channel.
pub open spec fn columns_of_channel(channel: Channel) -> Seq<FieldModel> {
    common_columns() + own_columns(channel)
}

/// The scale a parsed column is written at.
#[derive(Copy, Clone, Debug, PartialEq, Eq, Structural)]
pub enum Scale {
    /// Micro-dollars.
    Price,
    /// Hundredths of a contract.
    Quantity,
}

/// A raw-text column paired with the integer column derived from it.
#[derive(Copy, Clone, Debug)]
pub struct DualColumn {
    pub raw: &'static str,
    pub parsed: &'static str,
    pub scale: Scale,
}

/// What a [`DualColumn`] says.
pub struct DualModel {
    pub raw: Seq<char>,
    pub parsed: Seq<char>,
    pub scale: Scale,
}

pub open spec fn dual_models(columns: Seq<DualColumn>) -> Seq<DualModel> {
    columns.map_values(
        |column: DualColumn|
            DualModel { raw: column.raw@, parsed: column.parsed@, scale: column.scale },
    )
}

pub open spec fn price_pair(raw: Seq<char>, parsed: Seq<char>) -> DualModel {
    DualModel { raw, parsed, scale: Scale::Price }
}

pub open spec fn quantity_pair(raw: Seq<char>, parsed: Seq<char>) -> DualModel {
    DualModel { raw, parsed, scale: Scale::Quantity }
}

/// The raw and parsed column pairs of a channel.
pub open spec fn dual_pairs(channel: Channel) -> Seq<DualModel> {
    match channel {
        Channel::OrderbookSnapshot => seq![
            price_pair("price_raw"@, "price_micros"@),
            quantity_pair("size_raw"@, "size_fp_units"@),
        ],
        Channel::OrderbookDelta => seq![
            price_pair("price_raw"@, "price_micros"@),
            quantity_pair("delta_raw"@, "delta_fp_units"@),
        ],
        Channel::Ticker => seq![
            price_pair("price_raw"@, "price_micros"@),
            price_pair("yes_bid_raw"@, "yes_bid_micros"@),
            price_pair("yes_ask_raw"@, "yes_ask_micros"@),
            quantity_pair("yes_bid_size_raw"@, "yes_bid_size_fp_units"@),
            quantity_pair("yes_ask_size_raw"@, "yes_ask_size_fp_units"@),
            quantity_pair("volume_raw"@, "volume_fp_units"@),
            quantity_pair("open_interest_raw"@, "open_interest_fp_units"@),
        ],
        Channel::Trade => seq![
            price_pair("yes_price_raw"@, "yes_price_micros"@),
            price_pair("no_price_raw"@, "no_price_micros"@),
            quantity_pair("count_raw"@, "count_fp_units"@),
        ],
        Channel::MarketLifecycle => seq![
            price_pair("settlement_value_raw"@, "settlement_value_micros"@),
        ],
        _ => Seq::empty(),
    }
}

impl DualColumn {
    pub fn price(raw: &'static str, parsed: &'static str) -> (out: DualColumn)
        ensures
            out == (DualColumn { raw, parsed, scale: Scale::Price }),
    {
        DualColumn { raw, parsed, scale: Scale::Price }
    }

    pub fn quantity(raw: &'static str, parsed: &'static str) -> (out: DualColumn)
        ensures
            out == (DualColumn { raw, parsed, scale: Scale::Quantity }),
    {
        DualColumn { raw, parsed, scale: Scale::Quantity }
    }
}

fn needed(name: &'static str, kind: ColumnKind) -> (out: FieldSpec)
    ensures
        field_model(out) == required(name@, kind),
{
    FieldSpec { name, kind, nullable: false }
}

fn maybe(name: &'static str, kind: ColumnKind) -> (out: FieldSpec)
    ensures
        field_model(out) == optional(name@, kind),
{
    FieldSpec { name, kind, nullable: true }
}

/// The time zone of every timestamp column.
pub const TIME_ZONE: &'static str = "UTC";

#[verifier::external_type_specification]
#[verifier::external_body]
pub struct ExSchema(arrow::datatypes::Schema);

/// The fields that an Arrow schema holds, in order: name, type and nullability.
/// A text is `Utf8`, a timestamp is in nanoseconds with the time zone [`TIME_ZONE`].
pub uninterp spec fn schema_fields(schema: arrow::datatypes::Schema) -> Seq<FieldModel>;

/// `arrow::datatypes::Schema::new` keeps the fields it is given, in order, each
/// made by `Field::new` from its name, its type and its nullability.
#[verifier::external_body]
fn arrow_schema(fields: Vec<FieldSpec>, zone: &str) -> (out: Arc<arrow::datatypes::Schema>)
    requires
        zone@ == TIME_ZONE@,
    ensures
        schema_fields(*out) == field_models(fields@),
{
    let fields = fields.into_iter().map(|field| {
        let data_type = match field.kind {
            ColumnKind::Text => DataType::Utf8,
            ColumnKind::Int64 => DataType::Int64,
            ColumnKind::Int32 => DataType::Int32,
            ColumnKind::Boolean => DataType::Boolean,
            ColumnKind::Timestamp => DataType::Timestamp(TimeUnit::Nanosecond, Some(zone.into())),
        };
        Field::new(field.name, data_type, field.nullable)
    });
    Arc::new(arrow::datatypes::Schema::new(fields.collect::<Vec<_>>()))
}

impl Channel {
    pub open spec fn label(self) -> Seq<char> {
        match self {
            Channel::OrderbookSnapshot => "orderbook_snapshot"@,
            Channel::OrderbookDelta => "orderbook_delta"@,
            Channel::Ticker => "ticker"@,
            Channel::Trade => "trade"@,
            Channel::MarketLifecycle => "market_lifecycle"@,
            Channel::EventFeeUpdate => "event_fee_update"@,
            Channel::PriceRanges => "price_ranges"@,
            Channel::Unparsed => "unparsed"@,
            Channel::Control => "control"@,
        }
    }

    pub fn as_str(self) -> (out: &'static str)
        ensures
            out@ == self.label(),
    {
        match self {
            Channel::OrderbookSnapshot => "orderbook_snapshot",
            Channel::OrderbookDelta => "orderbook_delta",
            Channel::Ticker => "ticker",
            Channel::Trade => "trade",
            Channel::MarketLifecycle => "market_lifecycle",
            Channel::EventFeeUpdate => "event_fee_update",
            Channel::PriceRanges => "price_ranges",
            Channel::Unparsed => "unparsed",
            Channel::Control => "control",
        }
    }

    /// Every channel, once.
    pub fn all() -> (out: [Channel; 9])
        ensures
            out@ == all_channels(),
    {
        let out = [
            Channel::OrderbookSnapshot,
            Channel::OrderbookDelta,
            Channel::Ticker,
            Channel::Trade,
            Channel::MarketLifecycle,
            Channel::EventFeeUpdate,
            Channel::PriceRanges,
            Channel::Unparsed,
            Channel::Control,
        ];
        assert(out@ =~= all_channels());
        out
    }

    fn common_fields() -> (out: Vec<FieldSpec>)
        ensures
            field_models(out@) == common_columns(),
    {
        let out = vec![
            needed("received_at_ns", ColumnKind::Timestamp),
            maybe("exchange_ts_ms", ColumnKind::Int64),
            needed("session_id", ColumnKind::Text),
            maybe("sid", ColumnKind::Int64),
            maybe("seq", ColumnKind::Int64),
            needed("raw_message", ColumnKind::Text),
        ];
        assert(field_models(out@) =~= common_columns());
        out
    }

    fn orderbook_snapshot_schema() -> (out: Vec<FieldSpec>)
        ensures
            field_models(out@) == own_columns(Channel::OrderbookSnapshot),
    {
        let out = vec![
            needed("market_ticker", ColumnKind::Text),
            maybe("market_id", ColumnKind::Text),
            needed("side", ColumnKind::Text),
            maybe("price_raw", ColumnKind::Text),
            maybe("price_micros", ColumnKind::Int64),
            maybe("size_raw", ColumnKind::Text),
            maybe("size_fp_units", ColumnKind::Int64),
            needed("level_index", ColumnKind::Int32),
        ];
        assert(field_models(out@) =~= own_columns(Channel::OrderbookSnapshot));
        out
    }

    fn orderbook_delta_schema() -> (out: Vec<FieldSpec>)
        ensures
            field_models(out@) == own_columns(Channel::OrderbookDelta),
    {
        let out = vec![
            needed("market_ticker", ColumnKind::Text),
            maybe("market_id", ColumnKind::Text),
            needed("side", ColumnKind::Text),
            maybe("price_raw", ColumnKind::Text),
            maybe("price_micros", ColumnKind::Int64),
            maybe("delta_raw", ColumnKind::Text),
            maybe("delta_fp_units", ColumnKind::Int64),
        ];
        assert(field_models(out@) =~= own_columns(Channel::OrderbookDelta));
        out
    }

    fn ticker_schema() -> (out: Vec<FieldSpec>)
        ensures
            field_models(out@) == own_columns(Channel::Ticker),
    {
        let out = vec![
            needed("market_ticker", ColumnKind::Text),
            maybe("market_id", ColumnKind::Text),
            maybe("price_raw", ColumnKind::Text),
            maybe("price_micros", ColumnKind::Int64),
            maybe("yes_bid_raw", ColumnKind::Text),
            maybe("yes_bid_micros", ColumnKind::Int64),
            maybe("yes_ask_raw", ColumnKind::Text),
            maybe("yes_ask_micros", ColumnKind::Int64),
            maybe("yes_bid_size_raw", ColumnKind::Text),
            maybe("yes_bid_size_fp_units", ColumnKind::Int64),
            maybe("yes_ask_size_raw", ColumnKind::Text),
            maybe("yes_ask_size_fp_units", ColumnKind::Int64),
            maybe("volume_raw", ColumnKind::Text),
            maybe("volume_fp_units", ColumnKind::Int64),
            maybe("open_interest_raw", ColumnKind::Text),
            maybe("open_interest_fp_units", ColumnKind::Int64),
        ];
        assert(field_models(out@) =~= own_columns(Channel::Ticker));
        out
    }

    fn trade_schema() -> (out: Vec<FieldSpec>)
        ensures
            field_models(out@) == own_columns(Channel::Trade),
    {
        let out = vec![
            maybe("trade_id", ColumnKind::Text),
            needed("market_ticker", ColumnKind::Text),
            maybe("yes_price_raw", ColumnKind::Text),
            maybe("yes_price_micros", ColumnKind::Int64),
            maybe("no_price_raw", ColumnKind::Text),
            maybe("no_price_micros", ColumnKind::Int64),
            maybe("count_raw", ColumnKind::Text),
            maybe("count_fp_units", ColumnKind::Int64),
            maybe("taker_outcome_side", ColumnKind::Text),
            maybe("taker_book_side", ColumnKind::Text),
            maybe("taker_side_deprecated", ColumnKind::Text),
            maybe("is_block_trade", ColumnKind::Boolean),
        ];
        assert(field_models(out@) =~= own_columns(Channel::Trade));
        out
    }

    fn market_lifecycle_schema() -> (out: Vec<FieldSpec>)
        ensures
            field_models(out@) == own_columns(Channel::MarketLifecycle),
    {
        let out = vec![
            needed("event_type", ColumnKind::Text),
            needed("market_ticker", ColumnKind::Text),
            maybe("result", ColumnKind::Text),
            maybe("settlement_value_raw", ColumnKind::Text),
            maybe("settlement_value_micros", ColumnKind::Int64),
            maybe("open_ts", ColumnKind::Int64),
            maybe("close_ts", ColumnKind::Int64),
            maybe("determination_ts", ColumnKind::Int64),
            maybe("settled_ts", ColumnKind::Int64),
            maybe("is_deactivated", ColumnKind::Boolean),
            maybe("price_level_structure", ColumnKind::Text),
        ];
        assert(field_models(out@) =~= own_columns(Channel::MarketLifecycle));
        out
    }

    fn event_fee_update_schema() -> (out: Vec<FieldSpec>)
        ensures
            field_models(out@) == own_columns(Channel::EventFeeUpdate),
    {
        let out = vec![
            needed("event_ticker", ColumnKind::Text),
            maybe("fee_type_override", ColumnKind::Text),
            maybe("fee_multiplier_override_raw", ColumnKind::Text),
        ];
        assert(field_models(out@) =~= own_columns(Channel::EventFeeUpdate));
        out
    }

    fn price_ranges_schema() -> (out: Vec<FieldSpec>)
        ensures
            field_models(out@) == own_columns(Channel::PriceRanges),
    {
        let out = vec![
            needed("market_ticker", ColumnKind::Text),
            needed("source", ColumnKind::Text),
            maybe("effective_at", ColumnKind::Timestamp),
            maybe("price_level_structure", ColumnKind::Text),
            needed("price_ranges_raw", ColumnKind::Text),
            needed("price_ranges_hash", ColumnKind::Text),
            maybe("band_count", ColumnKind::Int32),
        ];
        assert(field_models(out@) =~= own_columns(Channel::PriceRanges));
        out
    }

    fn unparsed_schema() -> (out: Vec<FieldSpec>)
        ensures
            field_models(out@) == own_columns(Channel::Unparsed),
    {
        let out = vec![
            maybe("parse_error", ColumnKind::Text),
            maybe("message_type", ColumnKind::Text),
        ];
        assert(field_models(out@) =~= own_columns(Channel::Unparsed));
        out
    }

    fn control_schema() -> (out: Vec<FieldSpec>)
        ensures
            field_models(out@) == own_columns(Channel::Control),
    {
        let out = vec![
            maybe("message_type", ColumnKind::Text),
            maybe("channel", ColumnKind::Text),
            maybe("error_code", ColumnKind::Int32),
            maybe("error_message", ColumnKind::Text),
        ];
        assert(field_models(out@) =~= own_columns(Channel::Control));
        out
    }

    /// The columns of a channel, the common ones first.
    pub fn fields(self) -> (out: Vec<FieldSpec>)
        ensures
            field_models(out@) == columns_of_channel(self),
    {
        let mut out = Channel::common_fields();
        let mut own = match self {
            Channel::OrderbookSnapshot => Channel::orderbook_snapshot_schema(),
            Channel::OrderbookDelta => Channel::orderbook_delta_schema(),
            Channel::Ticker => Channel::ticker_schema(),
            Channel::Trade => Channel::trade_schema(),
            Channel::MarketLifecycle => Channel::market_lifecycle_schema(),
            Channel::EventFeeUpdate => Channel::event_fee_update_schema(),
            Channel::PriceRanges => Channel::price_ranges_schema(),
            Channel::Unparsed => Channel::unparsed_schema(),
            Channel::Control => Channel::control_schema(),
        };
        let ghost first = field_models(out@);
        let ghost second = field_models(own@);
        out.append(&mut own);
        assert(field_models(out@) =~= first + second);
        out
    }

    /// The Arrow schema of a channel.
    pub fn schema(self) -> (out: Arc<arrow::datatypes::Schema>)
        ensures
            schema_fields(*out) == columns_of_channel(self),
    {
        arrow_schema(self.fields(), TIME_ZONE)
    }

    /// The raw and parsed column pairs that a round-trip check must verify.
    pub fn dual_columns(self) -> (out: Vec<DualColumn>)
        ensures
            dual_models(out@) == dual_pairs(self),
    {
        let out = match self {
            Channel::OrderbookSnapshot => vec![
                DualColumn::price("price_raw", "price_micros"),
                DualColumn::quantity("size_raw", "size_fp_units"),
            ],
            Channel::OrderbookDelta => vec![
                DualColumn::price("price_raw", "price_micros"),
                DualColumn::quantity("delta_raw", "delta_fp_units"),
            ],
            Channel::Ticker => vec![
                DualColumn::price("price_raw", "price_micros"),
                DualColumn::price("yes_bid_raw", "yes_bid_micros"),
                DualColumn::price("yes_ask_raw", "yes_ask_micros"),
                DualColumn::quantity("yes_bid_size_raw", "yes_bid_size_fp_units"),
                DualColumn::quantity("yes_ask_size_raw", "yes_ask_size_fp_units"),
                DualColumn::quantity("volume_raw", "volume_fp_units"),
                DualColumn::quantity("open_interest_raw", "open_interest_fp_units"),
            ],
            Channel::Trade => vec![
                DualColumn::price("yes_price_raw", "yes_price_micros"),
                DualColumn::price("no_price_raw", "no_price_micros"),
                DualColumn::quantity("count_raw", "count_fp_units"),
            ],
            Channel::MarketLifecycle => vec![
                DualColumn::price("settlement_value_raw", "settlement_value_micros"),
            ],
            _ => Vec::new(),
        };
        assert(dual_models(out@) =~= dual_pairs(self));
        out
    }
}

pub open spec fn all_channels() -> Seq<Channel> {
    seq![
        Channel::OrderbookSnapshot,
        Channel::OrderbookDelta,
        Channel::Ticker,
        Channel::Trade,
        Channel::MarketLifecycle,
        Channel::EventFeeUpdate,
        Channel::PriceRanges,
        Channel::Unparsed,
        Channel::Control,
    ]
}

/// Every channel is listed, and none twice.
pub proof fn law_all_channels_are_listed_once(channel: Channel)
    ensures
        all_channels().contains(channel),
        all_channels().no_duplicates(),
{
    let all = all_channels();
    assert(all[0] == Channel::OrderbookSnapshot);
    assert(all[1] == Channel::OrderbookDelta);
    assert(all[2] == Channel::Ticker);
    assert(all[3] == Channel::Trade);
    assert(all[4] == Channel::MarketLifecycle);
    assert(all[5] == Channel::EventFeeUpdate);
    assert(all[6] == Channel::PriceRanges);
    assert(all[7] == Channel::Unparsed);
    assert(all[8] == Channel::Control);
}

/// The columns of a pair stand side by side in the layout: the raw text and,
/// next to it, a nullable integer.
pub open spec fn is_pair_at(fields: Seq<FieldModel>, pair: DualModel, i: int) -> bool {
    &&& 0 <= i < fields.len() - 1
    &&& fields[i].name == pair.raw
    &&& fields[i].kind == ColumnKind::Text
    &&& fields[i + 1].name == pair.parsed
    &&& fields[i + 1].kind == ColumnKind::Int64
    &&& fields[i + 1].nullable
}

/// Where the pair `k` of a channel stands in its layout.
pub open spec fn pair_position(channel: Channel, k: int) -> int {
    match channel {
        Channel::OrderbookSnapshot => 9 + 2 * k,
        Channel::OrderbookDelta => 9 + 2 * k,
        Channel::Ticker => 8 + 2 * k,
        Channel::Trade => 8 + 2 * k,
        Channel::MarketLifecycle => 9 + 2 * k,
        _ => 0,
    }
}

/// What the name of an integer column of a scale ends in.
pub open spec fn suffix(scale: Scale) -> Seq<char> {
    match scale {
        Scale::Price => "_micros"@,
        Scale::Quantity => "_fp_units"@,
    }
}

/// Whether a name is that of an integer column of a scale.
pub open spec fn is_scaled(name: Seq<char>, scale: Scale) -> bool {
    name.len() >= suffix(scale).len() && name.skip(name.len() - suffix(scale).len()) == suffix(
        scale,
    )
}

/// The name without its scale.
pub open spec fn stem(name: Seq<char>, scale: Scale) -> Seq<char> {
    name.take(name.len() - suffix(scale).len())
}

/// Whether a name is that of no integer column of either scale.
pub open spec fn is_plain(name: Seq<char>) -> bool {
    !is_scaled(name, Scale::Price) && !is_scaled(name, Scale::Quantity)
}

/// A name is plain where it differs from both suffixes at some place from its end.
proof fn lemma_plain(name: Seq<char>, from_micros: int, from_units: int)
    requires
        0 < from_micros <= 7,
        0 < from_units <= 9,
        from_micros <= name.len() ==> name[name.len() - from_micros] != "_micros"@[7 - from_micros],
        from_units <= name.len() ==> name[name.len() - from_units] != "_fp_units"@[9 - from_units],
    ensures
        is_plain(name),
{
    reveal_strlit("_micros");
    reveal_strlit("_fp_units");
    if name.len() >= 7 {
        assert(name.skip(name.len() - 7)[7 - from_micros] == name[name.len() - from_micros]);
    }
    if name.len() >= 9 {
        assert(name.skip(name.len() - 9)[9 - from_units] == name[name.len() - from_units]);
    }
}

proof fn lemma_plain_names()
    ensures
        is_plain("received_at_ns"@),
        is_plain("exchange_ts_ms"@),
        is_plain("session_id"@),
        is_plain("sid"@),
        is_plain("seq"@),
        is_plain("raw_message"@),
        is_plain("market_ticker"@),
        is_plain("market_id"@),
        is_plain("side"@),
        is_plain("price_raw"@),
        is_plain("size_raw"@),
        is_plain("level_index"@),
        is_plain("delta_raw"@),
        is_plain("yes_bid_raw"@),
        is_plain("yes_ask_raw"@),
        is_plain("yes_bid_size_raw"@),
        is_plain("yes_ask_size_raw"@),
        is_plain("volume_raw"@),
        is_plain("open_interest_raw"@),
        is_plain("trade_id"@),
        is_plain("yes_price_raw"@),
        is_plain("no_price_raw"@),
        is_plain("count_raw"@),
        is_plain("taker_outcome_side"@),
        is_plain("taker_book_side"@),
        is_plain("taker_side_deprecated"@),
        is_plain("is_block_trade"@),
        is_plain("event_type"@),
        is_plain("result"@),
        is_plain("settlement_value_raw"@),
        is_plain("open_ts"@),
        is_plain("close_ts"@),
        is_plain("determination_ts"@),
        is_plain("settled_ts"@),
        is_plain("is_deactivated"@),
        is_plain("price_level_structure"@),
        is_plain("event_ticker"@),
        is_plain("fee_type_override"@),
        is_plain("fee_multiplier_override_raw"@),
        is_plain("source"@),
        is_plain("effective_at"@),
        is_plain("price_ranges_raw"@),
        is_plain("price_ranges_hash"@),
        is_plain("band_count"@),
        is_plain("parse_error"@),
        is_plain("message_type"@),
        is_plain("channel"@),
        is_plain("error_code"@),
        is_plain("error_message"@),
{
    reveal_strlit("_micros");
    reveal_strlit("_fp_units");
    reveal_strlit("received_at_ns");
    lemma_plain("received_at_ns"@, 2, 2);
    reveal_strlit("exchange_ts_ms");
    lemma_plain("exchange_ts_ms"@, 2, 2);
    reveal_strlit("session_id");
    lemma_plain("session_id"@, 1, 1);
    reveal_strlit("sid");
    lemma_plain("sid"@, 1, 1);
    reveal_strlit("seq");
    lemma_plain("seq"@, 1, 1);
    reveal_strlit("raw_message");
    lemma_plain("raw_message"@, 1, 1);
    reveal_strlit("market_ticker");
    lemma_plain("market_ticker"@, 1, 1);
    reveal_strlit("market_id");
    lemma_plain("market_id"@, 1, 1);
    reveal_strlit("side");
    lemma_plain("side"@, 1, 1);
    reveal_strlit("price_raw");
    lemma_plain("price_raw"@, 1, 1);
    reveal_strlit("size_raw");
    lemma_plain("size_raw"@, 1, 1);
    reveal_strlit("level_index");
    lemma_plain("level_index"@, 1, 1);
    reveal_strlit("delta_raw");
    lemma_plain("delta_raw"@, 1, 1);
    reveal_strlit("yes_bid_raw");
    lemma_plain("yes_bid_raw"@, 1, 1);
    reveal_strlit("yes_ask_raw");
    lemma_plain("yes_ask_raw"@, 1, 1);
    reveal_strlit("yes_bid_size_raw");
    lemma_plain("yes_bid_size_raw"@, 1, 1);
    reveal_strlit("yes_ask_size_raw");
    lemma_plain("yes_ask_size_raw"@, 1, 1);
    reveal_strlit("volume_raw");
    lemma_plain("volume_raw"@, 1, 1);
    reveal_strlit("open_interest_raw");
    lemma_plain("open_interest_raw"@, 1, 1);
    reveal_strlit("trade_id");
    lemma_plain("trade_id"@, 1, 1);
    reveal_strlit("yes_price_raw");
    lemma_plain("yes_price_raw"@, 1, 1);
    reveal_strlit("no_price_raw");
    lemma_plain("no_price_raw"@, 1, 1);
    reveal_strlit("count_raw");
    lemma_plain("count_raw"@, 1, 1);
    reveal_strlit("taker_outcome_side");
    lemma_plain("taker_outcome_side"@, 1, 1);
    reveal_strlit("taker_book_side");
    lemma_plain("taker_book_side"@, 1, 1);
    reveal_strlit("taker_side_deprecated");
    lemma_plain("taker_side_deprecated"@, 1, 1);
    reveal_strlit("is_block_trade");
    lemma_plain("is_block_trade"@, 1, 1);
    reveal_strlit("event_type");
    lemma_plain("event_type"@, 1, 1);
    reveal_strlit("result");
    lemma_plain("result"@, 1, 1);
    reveal_strlit("settlement_value_raw");
    lemma_plain("settlement_value_raw"@, 1, 1);
    reveal_strlit("open_ts");
    lemma_plain("open_ts"@, 2, 3);
    reveal_strlit("close_ts");
    lemma_plain("close_ts"@, 2, 3);
    reveal_strlit("determination_ts");
    lemma_plain("determination_ts"@, 2, 3);
    reveal_strlit("settled_ts");
    lemma_plain("settled_ts"@, 2, 3);
    reveal_strlit("is_deactivated");
    lemma_plain("is_deactivated"@, 1, 1);
    reveal_strlit("price_level_structure");
    lemma_plain("price_level_structure"@, 1, 1);
    reveal_strlit("event_ticker");
    lemma_plain("event_ticker"@, 1, 1);
    reveal_strlit("fee_type_override");
    lemma_plain("fee_type_override"@, 1, 1);
    reveal_strlit("fee_multiplier_override_raw");
    lemma_plain("fee_multiplier_override_raw"@, 1, 1);
    reveal_strlit("source");
    lemma_plain("source"@, 1, 1);
    reveal_strlit("effective_at");
    lemma_plain("effective_at"@, 1, 1);
    reveal_strlit("price_ranges_raw");
    lemma_plain("price_ranges_raw"@, 1, 1);
    reveal_strlit("price_ranges_hash");
    lemma_plain("price_ranges_hash"@, 1, 1);
    reveal_strlit("band_count");
    lemma_plain("band_count"@, 1, 1);
    reveal_strlit("parse_error");
    lemma_plain("parse_error"@, 1, 1);
    reveal_strlit("message_type");
    lemma_plain("message_type"@, 1, 1);
    reveal_strlit("channel");
    lemma_plain("channel"@, 1, 1);
    reveal_strlit("error_code");
    lemma_plain("error_code"@, 1, 1);
    reveal_strlit("error_message");
    lemma_plain("error_message"@, 1, 1);
}

/// The names of a pair: one stem, with the scale behind it and with `_raw`.
pub open spec fn share_a_stem(pair: DualModel) -> bool {
    is_scaled(pair.parsed, pair.scale) && pair.raw == stem(pair.parsed, pair.scale) + "_raw"@
}

proof fn lemma_pair_names()
    ensures
        share_a_stem(price_pair("price_raw"@, "price_micros"@)),
        share_a_stem(quantity_pair("size_raw"@, "size_fp_units"@)),
        share_a_stem(quantity_pair("delta_raw"@, "delta_fp_units"@)),
        share_a_stem(price_pair("yes_bid_raw"@, "yes_bid_micros"@)),
        share_a_stem(price_pair("yes_ask_raw"@, "yes_ask_micros"@)),
        share_a_stem(quantity_pair("yes_bid_size_raw"@, "yes_bid_size_fp_units"@)),
        share_a_stem(quantity_pair("yes_ask_size_raw"@, "yes_ask_size_fp_units"@)),
        share_a_stem(quantity_pair("volume_raw"@, "volume_fp_units"@)),
        share_a_stem(quantity_pair("open_interest_raw"@, "open_interest_fp_units"@)),
        share_a_stem(price_pair("yes_price_raw"@, "yes_price_micros"@)),
        share_a_stem(price_pair("no_price_raw"@, "no_price_micros"@)),
        share_a_stem(quantity_pair("count_raw"@, "count_fp_units"@)),
        share_a_stem(price_pair("settlement_value_raw"@, "settlement_value_micros"@)),
{
    reveal_strlit("_micros");
    reveal_strlit("_fp_units");
    reveal_strlit("_raw");
    assert(share_a_stem(price_pair("price_raw"@, "price_micros"@))) by {
        reveal_strlit("price_raw");
        reveal_strlit("price_micros");
        assert("price_micros"@.skip(5) =~= "_micros"@);
        assert("price_raw"@ =~= stem("price_micros"@, Scale::Price) + "_raw"@);
    }
    assert(share_a_stem(quantity_pair("size_raw"@, "size_fp_units"@))) by {
        reveal_strlit("size_raw");
        reveal_strlit("size_fp_units");
        assert("size_fp_units"@.skip(4) =~= "_fp_units"@);
        assert("size_raw"@ =~= stem("size_fp_units"@, Scale::Quantity) + "_raw"@);
    }
    assert(share_a_stem(quantity_pair("delta_raw"@, "delta_fp_units"@))) by {
        reveal_strlit("delta_raw");
        reveal_strlit("delta_fp_units");
        assert("delta_fp_units"@.skip(5) =~= "_fp_units"@);
        assert("delta_raw"@ =~= stem("delta_fp_units"@, Scale::Quantity) + "_raw"@);
    }
    assert(share_a_stem(price_pair("yes_bid_raw"@, "yes_bid_micros"@))) by {
        reveal_strlit("yes_bid_raw");
        reveal_strlit("yes_bid_micros");
        assert("yes_bid_micros"@.skip(7) =~= "_micros"@);
        assert("yes_bid_raw"@ =~= stem("yes_bid_micros"@, Scale::Price) + "_raw"@);
    }
    assert(share_a_stem(price_pair("yes_ask_raw"@, "yes_ask_micros"@))) by {
        reveal_strlit("yes_ask_raw");
        reveal_strlit("yes_ask_micros");
        assert("yes_ask_micros"@.skip(7) =~= "_micros"@);
        assert("yes_ask_raw"@ =~= stem("yes_ask_micros"@, Scale::Price) + "_raw"@);
    }
    assert(share_a_stem(quantity_pair("yes_bid_size_raw"@, "yes_bid_size_fp_units"@))) by {
        reveal_strlit("yes_bid_size_raw");
        reveal_strlit("yes_bid_size_fp_units");
        assert("yes_bid_size_fp_units"@.skip(12) =~= "_fp_units"@);
        assert("yes_bid_size_raw"@ =~= stem("yes_bid_size_fp_units"@, Scale::Quantity) + "_raw"@);
    }
    assert(share_a_stem(quantity_pair("yes_ask_size_raw"@, "yes_ask_size_fp_units"@))) by {
        reveal_strlit("yes_ask_size_raw");
        reveal_strlit("yes_ask_size_fp_units");
        assert("yes_ask_size_fp_units"@.skip(12) =~= "_fp_units"@);
        assert("yes_ask_size_raw"@ =~= stem("yes_ask_size_fp_units"@, Scale::Quantity) + "_raw"@);
    }
    assert(share_a_stem(quantity_pair("volume_raw"@, "volume_fp_units"@))) by {
        reveal_strlit("volume_raw");
        reveal_strlit("volume_fp_units");
        assert("volume_fp_units"@.skip(6) =~= "_fp_units"@);
        assert("volume_raw"@ =~= stem("volume_fp_units"@, Scale::Quantity) + "_raw"@);
    }
    assert(share_a_stem(quantity_pair("open_interest_raw"@, "open_interest_fp_units"@))) by {
        reveal_strlit("open_interest_raw");
        reveal_strlit("open_interest_fp_units");
        assert("open_interest_fp_units"@.skip(13) =~= "_fp_units"@);
        assert("open_interest_raw"@ =~= stem("open_interest_fp_units"@, Scale::Quantity) + "_raw"@);
    }
    assert(share_a_stem(price_pair("yes_price_raw"@, "yes_price_micros"@))) by {
        reveal_strlit("yes_price_raw");
        reveal_strlit("yes_price_micros");
        assert("yes_price_micros"@.skip(9) =~= "_micros"@);
        assert("yes_price_raw"@ =~= stem("yes_price_micros"@, Scale::Price) + "_raw"@);
    }
    assert(share_a_stem(price_pair("no_price_raw"@, "no_price_micros"@))) by {
        reveal_strlit("no_price_raw");
        reveal_strlit("no_price_micros");
        assert("no_price_micros"@.skip(8) =~= "_micros"@);
        assert("no_price_raw"@ =~= stem("no_price_micros"@, Scale::Price) + "_raw"@);
    }
    assert(share_a_stem(quantity_pair("count_raw"@, "count_fp_units"@))) by {
        reveal_strlit("count_raw");
        reveal_strlit("count_fp_units");
        assert("count_fp_units"@.skip(5) =~= "_fp_units"@);
        assert("count_raw"@ =~= stem("count_fp_units"@, Scale::Quantity) + "_raw"@);
    }
    assert(share_a_stem(price_pair("settlement_value_raw"@, "settlement_value_micros"@))) by {
        reveal_strlit("settlement_value_raw");
        reveal_strlit("settlement_value_micros");
        assert("settlement_value_micros"@.skip(16) =~= "_micros"@);
        assert("settlement_value_raw"@ =~= stem("settlement_value_micros"@, Scale::Price) + "_raw"@);
    }
}

/// No name says both scales.
proof fn lemma_one_scale(name: Seq<char>)
    ensures
        !(is_scaled(name, Scale::Price) && is_scaled(name, Scale::Quantity)),
{
    reveal_strlit("_micros");
    reveal_strlit("_fp_units");
    if is_scaled(name, Scale::Price) && is_scaled(name, Scale::Quantity) {
        assert(name.skip(name.len() - 7)[5] == name[name.len() - 2]);
        assert(name.skip(name.len() - 9)[7] == name[name.len() - 2]);
    }
}

/// Every declared pair is really in the layout: the raw text with its integer
/// right beside it, the integer may be null, and the two names share their stem.
pub proof fn law_dual_pairs_are_in_the_layout(channel: Channel, k: int)
    requires
        0 <= k < dual_pairs(channel).len(),
    ensures
        is_pair_at(
            columns_of_channel(channel),
            dual_pairs(channel)[k],
            pair_position(channel, k),
        ),
        share_a_stem(dual_pairs(channel)[k]),
{
    lemma_pair_names();
}

/// Every column whose name says that it holds a price or a quantity belongs to
/// exactly one declared pair, at the scale that its name says.
pub proof fn law_every_scaled_column_is_paired(channel: Channel, j: int, scale: Scale) -> (k: int)
    requires
        0 <= j < columns_of_channel(channel).len(),
        is_scaled(columns_of_channel(channel)[j].name, scale),
    ensures
        0 <= k < dual_pairs(channel).len(),
        dual_pairs(channel)[k].parsed == columns_of_channel(channel)[j].name,
        dual_pairs(channel)[k].scale == scale,
        forall|other: int|
            0 <= other < dual_pairs(channel).len() && pair_position(channel, other) + 1 == j
                <==> other == k,
{
    lemma_plain_names();
    lemma_pair_names();
    lemma_one_scale(columns_of_channel(channel)[j].name);
    (j - 1 - pair_position(channel, 0)) / 2
}

/// Each channel is stored under a name of its own.
pub proof fn law_channels_have_their_names(channel: Channel, label: &'static str, all: [Channel; 9])
    requires
        call_ensures(Channel::as_str, (channel,), label),
        call_ensures(Channel::all, (), all),
    ensures
        channel is OrderbookSnapshot ==> label@ == "orderbook_snapshot"@,
        channel is OrderbookDelta ==> label@ == "orderbook_delta"@,
        channel is Ticker ==> label@ == "ticker"@,
        channel is Trade ==> label@ == "trade"@,
        channel is MarketLifecycle ==> label@ == "market_lifecycle"@,
        channel is EventFeeUpdate ==> label@ == "event_fee_update"@,
        channel is PriceRanges ==> label@ == "price_ranges"@,
        channel is Unparsed ==> label@ == "unparsed"@,
        channel is Control ==> label@ == "control"@,
        all@.contains(channel),
{
    law_all_channels_are_listed_once(channel);
}

/// The message, when it came and its session are never null, on any channel; what the
/// exchange may leave out may be null.
pub proof fn law_provenance_is_never_null(channel: Channel)
    ensures
        ({
            let columns = columns_of_channel(channel);
            &&& !columns[0].nullable && columns[0].kind is Timestamp
            &&& columns[1].nullable && columns[1].kind is Int64
            &&& !columns[2].nullable && columns[2].kind is Text
            &&& columns[3].nullable && columns[3].kind is Int64
            &&& columns[4].nullable && columns[4].kind is Int64
            &&& !columns[5].nullable && columns[5].kind is Text
        }),
{
    let columns = columns_of_channel(channel);
    assert(columns[0] == common_columns()[0] && columns[1] == common_columns()[1] && columns[2]
        == common_columns()[2] && columns[3] == common_columns()[3] && columns[4]
        == common_columns()[4] && columns[5] == common_columns()[5]);
}

/// A pair of columns is named in the order raw, parsed, at the scale of its kind.
pub proof fn law_pairs_are_raw_then_parsed(
    raw: &'static str,
    parsed: &'static str,
    price: DualColumn,
    quantity: DualColumn,
)
    requires
        call_ensures(DualColumn::price, (raw, parsed), price),
        call_ensures(DualColumn::quantity, (raw, parsed), quantity),
    ensures
        price.raw == raw && price.parsed == parsed && price.scale is Price,
        quantity.raw == raw && quantity.parsed == parsed && quantity.scale is Quantity,
{
}

/// The fields, the schema and the pairs of a channel are those of its layout.
pub proof fn law_a_channel_has_its_layout(
    channel: Channel,
    fields: Vec<FieldSpec>,
    schema: Arc<arrow::datatypes::Schema>,
    pairs: Vec<DualColumn>,
    i: int,
)
    requires
        call_ensures(Channel::fields, (channel,), fields),
        call_ensures(Channel::schema, (channel,), schema),
        call_ensures(Channel::dual_columns, (channel,), pairs),
    ensures
        fields@.len() == columns_of_channel(channel).len(),
        schema_fields(*schema).len() == fields@.len(),
        0 <= i < fields@.len() ==> schema_fields(*schema)[i].name == fields@[i].name@,
        pairs@.len() == dual_pairs(channel).len(),
{
    assert(field_models(fields@).len() == fields@.len());
    assert(dual_models(pairs@).len() == pairs@.len());
    if 0 <= i < fields@.len() {
        assert(field_models(fields@)[i] == field_model(fields@[i]));
    }
}

} // verus!
