//! From a wire message through encoder and store to a Parquet file and back, with
//! every file held in memory.

use arrow::array::{
    Array, ArrayRef, BooleanArray, Int32Array, Int64Array, RecordBatch, StringArray,
    TimestampNanosecondArray,
};
use chrono::TimeZone;
use kalshi_alpha::encode::{encode, expected_rows, try_encode, EncodeError};
use kalshi_alpha::grid_history::{grid_hash, GridHistory, GridSource, GridVerdict};
use kalshi_alpha::json::Json;
use kalshi_alpha::parse::format_scaled;
use kalshi_alpha::px::{Px, PX_SCALE};
use kalshi_alpha::qty::Qty;
use kalshi_alpha::quarantine::{destination, inspect_bytes, is_candidate, Defect};
use kalshi_alpha::schema::{Channel, Scale};
use kalshi_alpha::session::{Environment, SessionError, SessionMetadata};
use kalshi_alpha::sink::StoreRecord;
use kalshi_alpha::writer::{
    data_filename, group_by_channel, partition_dir, partition_key, StoreLedger, StoreStats,
    WriterConfig,
};
use parquet::arrow::arrow_reader::ParquetRecordBatchReaderBuilder;
use parquet::arrow::ArrowWriter;
use parquet::file::metadata::KeyValue;
use parquet::file::properties::WriterProperties;
use std::collections::HashMap;
use std::collections::HashSet;
use std::sync::Arc;
use tokio_tungstenite::tungstenite::Bytes;

const MINUTE: i128 = 60_000_000_000;

fn now() -> i128 {
    i128::from(chrono::Utc::now().timestamp_nanos_opt().expect("representable"))
}

fn utc(year: i32, month: u32, day: u32, hour: u32, minute: u32) -> i128 {
    let at = chrono::Utc.with_ymd_and_hms(year, month, day, hour, minute, 0).unwrap();
    i128::from(at.timestamp_nanos_opt().expect("representable"))
}

fn session() -> SessionMetadata {
    SessionMetadata::new(
        "no_leg",
        Environment::Demo,
        1,
        vec!["orderbook_delta".to_owned()],
        "wss://external-api-ws.demo.kalshi.co/trade-api/ws/v2".to_owned(),
        now(),
    )
    .expect("valid session")
}

/// A Parquet file being written.
struct OpenWriter {
    channel: Channel,
    partition: String,
    path: String,
    writer: ArrowWriter<Vec<u8>>,
}

/// Carries out the plans of a ledger on files in memory.
struct MemoryStore {
    ledger: StoreLedger,
    writers: Vec<OpenWriter>,
    files: Vec<(String, Vec<u8>)>,
    sidecars: Vec<String>,
}

impl MemoryStore {
    fn open(config: WriterConfig, session: SessionMetadata) -> MemoryStore {
        MemoryStore {
            ledger: StoreLedger::open(config, session),
            writers: Vec::new(),
            files: Vec::new(),
            sidecars: Vec::new(),
        }
    }

    fn close_file(&mut self, channel: Channel, partition: &str) {
        if self.ledger.begin_close(channel, partition).is_none() {
            return;
        }
        let place = self
            .writers
            .iter()
            .position(|open| open.channel == channel && open.partition == partition)
            .expect("an open writer");
        let open = self.writers.remove(place);
        self.files.push((open.path, open.writer.into_inner().expect("footer")));
        self.ledger.closed();
    }

    fn write_batch(&mut self, channel: Channel, batch: &RecordBatch, at: i128) {
        let plan = self.ledger.plan_write(channel, at);
        if plan.close {
            self.close_file(channel, &plan.partition);
        }
        if let Some(file) = plan.open {
            let dir = format!("{}/{}", channel.as_str(), file.dir);
            if let Some(name) = file.sidecar {
                self.sidecars.push(format!("{dir}/{name}"));
                self.ledger.sidecar_written(channel, plan.partition.clone());
            }
            let pairs = self.ledger.session().as_key_value_pairs();
            let metadata = pairs.into_iter().map(|(key, value)| KeyValue::new(key, value));
            let properties = WriterProperties::builder()
                .set_key_value_metadata(Some(metadata.collect()))
                .build();
            let writer = ArrowWriter::try_new(Vec::new(), channel.schema(), Some(properties));
            self.writers.push(OpenWriter {
                channel,
                partition: plan.partition.clone(),
                path: format!("{dir}/{}", file.filename),
                writer: writer.expect("writer"),
            });
            self.ledger.opened(channel, plan.partition.clone(), at);
        }
        let open = self
            .writers
            .iter_mut()
            .find(|open| open.channel == channel && open.partition == plan.partition)
            .expect("an open writer");
        open.writer.write(batch).expect("write");
        self.ledger.written(
            channel,
            &plan.partition,
            batch.num_rows() as u64,
            batch.get_array_memory_size() as u64,
        );
    }

    fn write_records(&mut self, channel: Channel, records: &[StoreRecord], at: i128) -> usize {
        self.ledger.dequeued(channel, records);
        let session_id = self.ledger.session().session_id.clone();
        let batch = try_encode(channel, &session_id, records).expect("fits").expect("encodes");
        match batch {
            Some(batch) => {
                self.write_batch(channel, &batch.inner, at);
                batch.inner.num_rows()
            }
            None => 0,
        }
    }

    fn roll_due_files(&mut self, at: i128) -> usize {
        let due = self.ledger.due_files(at);
        for key in &due {
            self.close_file(key.channel, &key.partition);
        }
        due.len()
    }

    fn close_all(&mut self, at: i128) {
        self.ledger.end_session(at);
        for key in self.ledger.open_files() {
            self.close_file(key.channel, &key.partition);
        }
    }

    fn stats(&self) -> StoreStats {
        self.ledger.stats()
    }
}

fn partition_of(path: &str) -> &str {
    path.split('/').nth(1).expect("a partition")
}

fn read_back(bytes: &[u8]) -> RecordBatch {
    let mut reader = ParquetRecordBatchReaderBuilder::try_new(Bytes::from(bytes.to_vec()))
        .expect("footer readable")
        .build()
        .expect("reader");
    reader.next().expect("at least one batch").expect("batch reads")
}

fn footer(bytes: &[u8]) -> HashMap<String, String> {
    let builder =
        ParquetRecordBatchReaderBuilder::try_new(Bytes::from(bytes.to_vec())).expect("footer");
    builder
        .metadata()
        .file_metadata()
        .key_value_metadata()
        .expect("key/value metadata present")
        .iter()
        .filter_map(|entry| entry.value.clone().map(|v| (entry.key.clone(), v)))
        .collect()
}

/// Build a record the way the daemon does: parse the wire text, keep the raw.
fn record(channel: Channel, raw: &str) -> StoreRecord {
    StoreRecord { channel, received_at: now(), raw: raw.to_owned(), parsed: Json::parse(raw) }
}

/// Run records through the store and read back what landed.
fn round_trip(channel: Channel, records: &[StoreRecord]) -> (RecordBatch, SessionMetadata) {
    let session = session();
    let mut store = MemoryStore::open(WriterConfig::new("data".to_owned()), session.clone());
    let at = now();
    let written = store.write_records(channel, records, at);
    assert!(written > 0, "the encoder produced no rows for {}", channel.as_str());
    let stats = store.stats();
    assert_eq!(
        stats.rows_lost(),
        0,
        "rows vanished for {}: expected {}, wrote {}",
        channel.as_str(),
        stats.rows_expected,
        stats.rows_written
    );
    store.close_all(at);
    assert_eq!(store.files.len(), 1, "expected exactly one parquet file");
    (read_back(&store.files[0].1), session)
}

const SNAPSHOT: &str = r#"{"type":"orderbook_snapshot","sid":2,"seq":2,
  "msg":{"market_ticker":"FED-23DEC-T3.00",
         "market_id":"9b0f6b43-5b68-4f9f-9f02-9a2d1b8ac1a1",
         "yes_dollars_fp":[["0.0800","300.00"],["0.2200","333.00"]],
         "no_dollars_fp":[["0.5400","20.00"],["0.5600","146.00"]]}}"#;
const DELTA: &str = r#"{"type":"orderbook_delta","sid":2,"seq":3,
  "msg":{"market_ticker":"FED-23DEC-T3.00",
         "market_id":"9b0f6b43-5b68-4f9f-9f02-9a2d1b8ac1a1",
         "price_dollars":"0.960","delta_fp":"-54.00","side":"yes",
         "ts_ms":1710000000123}}"#;

const TICKER: &str = r#"{"type":"ticker","sid":4,
  "msg":{"market_ticker":"KXNFLGAME-25SEP09-KC","market_id":"abc",
         "price_dollars":"0.4300","yes_bid_dollars":"0.4200",
         "yes_ask_dollars":"0.4400","yes_bid_size_fp":"100.00",
         "yes_ask_size_fp":"50.00","volume_fp":"12345.00",
         "open_interest_fp":"6789.00","ts_ms":1710000000123}}"#;

const TRADE_CANONICAL: &str = r#"{"type":"trade","sid":3,
  "msg":{"trade_id":"t-1","market_ticker":"KXNFLGAME-25SEP09-KC",
         "yes_price_dollars":"0.4300","no_price_dollars":"0.5700",
         "count_fp":"10.00","taker_outcome_side":"yes","taker_book_side":"bid",
         "is_block_trade":false,"ts_ms":1710000000123}}"#;
const TRADE_DEPRECATED: &str = r#"{"type":"trade","sid":3,
  "msg":{"trade_id":"t-2","market_ticker":"KXNFLGAME-25SEP09-KC",
         "yes_price_dollars":"0.4100","count_fp":"5.00",
         "taker_side":"no","ts":1710000000}}"#;

const LIFECYCLE_DETERMINED: &str = r#"{"type":"market_lifecycle_v2","sid":9,
  "msg":{"event_type":"determined","market_ticker":"KXNFLGAME-25SEP09-KC",
         "result":"yes","determination_ts":1710000000,
         "settlement_value":"1.0000","settled_ts":1710000100}}"#;

const FEE_UPDATE_SET: &str = r#"{"type":"event_fee_update","sid":11,
  "msg":{"event_ticker":"KXNFLGAME-25SEP09","fee_type_override":"quadratic",
         "fee_multiplier_override":1.25}}"#;

const FEE_UPDATE_CLEARED: &str = r#"{"type":"event_fee_update","sid":11,
  "msg":{"event_ticker":"KXNFLGAME-25SEP09","fee_type_override":null,
         "fee_multiplier_override":null}}"#;

const GARBAGE: &str = r#"{"type":"some_future_channel","sid":1,"msg":{"x":1}}"#;

fn strings<'a>(batch: &'a RecordBatch, column: &str) -> &'a StringArray {
    batch
        .column_by_name(column)
        .unwrap_or_else(|| panic!("missing column {column}"))
        .as_any()
        .downcast_ref::<StringArray>()
        .unwrap_or_else(|| panic!("{column} is not Utf8"))
}

fn ints<'a>(batch: &'a RecordBatch, column: &str) -> &'a Int64Array {
    batch
        .column_by_name(column)
        .unwrap_or_else(|| panic!("missing column {column}"))
        .as_any()
        .downcast_ref::<Int64Array>()
        .unwrap_or_else(|| panic!("{column} is not Int64"))
}

fn opt_str(batch: &RecordBatch, column: &str, row: usize) -> Option<String> {
    let array = strings(batch, column);
    if array.is_null(row) {
        None
    } else {
        Some(array.value(row).to_owned())
    }
}

fn opt_int(batch: &RecordBatch, column: &str, row: usize) -> Option<i64> {
    let array = ints(batch, column);
    if array.is_null(row) {
        None
    } else {
        Some(array.value(row))
    }
}

#[test]
fn snapshot_fans_out_to_one_row_per_price_level_with_both_sides() {
    let (batch, _) = round_trip(
        Channel::OrderbookSnapshot,
        &[record(Channel::OrderbookSnapshot, SNAPSHOT)],
    );
    assert_eq!(batch.num_rows(), 4, "every level must produce a row");

    let sides = strings(&batch, "side");
    let prices = strings(&batch, "price_raw");
    let micros = ints(&batch, "price_micros");
    let sizes = strings(&batch, "size_raw");
    let units = ints(&batch, "size_fp_units");
    let index = batch
        .column_by_name("level_index")
        .expect("level_index")
        .as_any()
        .downcast_ref::<Int32Array>()
        .expect("Int32");

    let mut seen = Vec::new();
    for row in 0..batch.num_rows() {
        seen.push((
            sides.value(row).to_owned(),
            prices.value(row).to_owned(),
            micros.value(row),
            sizes.value(row).to_owned(),
            units.value(row),
            index.value(row),
        ));
    }
    seen.sort();

    assert_eq!(
        seen,
        vec![
            (
                "no".to_owned(),
                "0.5400".to_owned(),
                540_000,
                "20.00".to_owned(),
                2_000,
                0
            ),
            (
                "no".to_owned(),
                "0.5600".to_owned(),
                560_000,
                "146.00".to_owned(),
                14_600,
                1
            ),
            (
                "yes".to_owned(),
                "0.0800".to_owned(),
                80_000,
                "300.00".to_owned(),
                30_000,
                0
            ),
            (
                "yes".to_owned(),
                "0.2200".to_owned(),
                220_000,
                "333.00".to_owned(),
                33_300,
                1
            ),
        ],
        "every level's side, raw price, parsed price, raw size, parsed size and \
         wire position must survive to disk"
    );
}

#[test]
fn snapshot_preserves_the_wire_ordering_via_level_index() {
    let (batch, _) = round_trip(
        Channel::OrderbookSnapshot,
        &[record(Channel::OrderbookSnapshot, SNAPSHOT)],
    );
    let sides = strings(&batch, "side");
    let prices = strings(&batch, "price_raw");
    let index = batch
        .column_by_name("level_index")
        .expect("level_index")
        .as_any()
        .downcast_ref::<Int32Array>()
        .expect("Int32");
    for row in 0..batch.num_rows() {
        if sides.value(row) == "yes" && prices.value(row) == "0.2200" {
            assert_eq!(
                index.value(row),
                1,
                "best YES bid is last in the wire array"
            );
        }
    }
}

#[test]
fn delta_survives_with_its_signed_quantity_and_three_decimal_price() {
    let (batch, session) = round_trip(
        Channel::OrderbookDelta,
        &[record(Channel::OrderbookDelta, DELTA)],
    );
    assert_eq!(batch.num_rows(), 1);

    assert_eq!(strings(&batch, "market_ticker").value(0), "FED-23DEC-T3.00");
    assert_eq!(
        strings(&batch, "market_id").value(0),
        "9b0f6b43-5b68-4f9f-9f02-9a2d1b8ac1a1"
    );
    assert_eq!(strings(&batch, "side").value(0), "yes");
    assert_eq!(strings(&batch, "price_raw").value(0), "0.960");
    assert_eq!(ints(&batch, "price_micros").value(0), 960_000);
    assert_eq!(strings(&batch, "delta_raw").value(0), "-54.00");
    assert_eq!(ints(&batch, "delta_fp_units").value(0), -5_400);
    assert_eq!(opt_int(&batch, "sid", 0), Some(2));
    assert_eq!(opt_int(&batch, "seq", 0), Some(3));
    assert_eq!(
        opt_int(&batch, "exchange_ts_ms", 0),
        Some(1_710_000_000_123)
    );
    assert_eq!(
        strings(&batch, "session_id").value(0),
        session.session_id,
        "every row must name the session that produced it"
    );
}

#[test]
fn the_complete_original_message_is_stored_on_every_row() {
    let (batch, _) = round_trip(
        Channel::OrderbookDelta,
        &[record(Channel::OrderbookDelta, DELTA)],
    );
    let raw = strings(&batch, "raw_message").value(0);
    assert_eq!(raw, DELTA, "raw_message must be the exact bytes received");
    let reparsed: serde_json::Value = serde_json::from_str(raw).expect("valid JSON");
    assert_eq!(reparsed["msg"]["price_dollars"], "0.960");
    assert_eq!(reparsed["msg"]["delta_fp"], "-54.00");
}

#[test]
fn the_receive_timestamp_is_utc_nanoseconds() {
    let before = now();
    let (batch, _) = round_trip(
        Channel::OrderbookDelta,
        &[record(Channel::OrderbookDelta, DELTA)],
    );
    let after = now();

    let column = batch
        .column_by_name("received_at_ns")
        .expect("received_at_ns")
        .as_any()
        .downcast_ref::<TimestampNanosecondArray>()
        .expect("timestamp column");
    let value = column.value(0);
    assert!(
        i128::from(value) >= before && i128::from(value) <= after,
        "receive timestamp is outside the window in which the row was made"
    );
    assert_ne!(
        Some(value / 1_000_000),
        opt_int(&batch, "exchange_ts_ms", 0),
        "our clock and the exchange's must not be the same column"
    );
}

#[test]
fn every_ticker_price_and_size_survives_in_both_forms() {
    let (batch, _) = round_trip(Channel::Ticker, &[record(Channel::Ticker, TICKER)]);
    assert_eq!(batch.num_rows(), 1);

    let expected: &[(&str, &str, &str, i64)] = &[
        ("price_raw", "price_micros", "0.4300", 430_000),
        ("yes_bid_raw", "yes_bid_micros", "0.4200", 420_000),
        ("yes_ask_raw", "yes_ask_micros", "0.4400", 440_000),
        (
            "yes_bid_size_raw",
            "yes_bid_size_fp_units",
            "100.00",
            10_000,
        ),
        ("yes_ask_size_raw", "yes_ask_size_fp_units", "50.00", 5_000),
        ("volume_raw", "volume_fp_units", "12345.00", 1_234_500),
        (
            "open_interest_raw",
            "open_interest_fp_units",
            "6789.00",
            678_900,
        ),
    ];
    for (raw_col, parsed_col, raw_value, parsed_value) in expected {
        assert_eq!(
            strings(&batch, raw_col).value(0),
            *raw_value,
            "{raw_col} did not survive"
        );
        assert_eq!(
            ints(&batch, parsed_col).value(0),
            *parsed_value,
            "{parsed_col} was mis-parsed"
        );
    }
}

#[test]
fn trade_stores_the_canonical_direction_fields() {
    let (batch, _) = round_trip(Channel::Trade, &[record(Channel::Trade, TRADE_CANONICAL)]);
    assert_eq!(opt_str(&batch, "trade_id", 0).as_deref(), Some("t-1"));
    assert_eq!(
        opt_str(&batch, "taker_outcome_side", 0).as_deref(),
        Some("yes")
    );
    assert_eq!(
        opt_str(&batch, "taker_book_side", 0).as_deref(),
        Some("bid")
    );
    assert_eq!(
        opt_str(&batch, "taker_side_deprecated", 0),
        None,
        "a message without the deprecated field must store null, not an empty string"
    );
    assert_eq!(strings(&batch, "yes_price_raw").value(0), "0.4300");
    assert_eq!(ints(&batch, "no_price_micros").value(0), 570_000);
    assert_eq!(ints(&batch, "count_fp_units").value(0), 1_000);

    let block = batch
        .column_by_name("is_block_trade")
        .expect("is_block_trade")
        .as_any()
        .downcast_ref::<BooleanArray>()
        .expect("Boolean");
    assert!(!block.value(0));
}

#[test]
fn trade_with_only_the_deprecated_fields_still_captures_everything() {
    let (batch, _) = round_trip(Channel::Trade, &[record(Channel::Trade, TRADE_DEPRECATED)]);

    assert_eq!(
        opt_str(&batch, "taker_side_deprecated", 0).as_deref(),
        Some("no"),
        "the deprecated direction must be captured when it is the only one present"
    );
    assert_eq!(opt_str(&batch, "taker_outcome_side", 0), None);
    assert_eq!(opt_str(&batch, "taker_book_side", 0), None);
    assert_eq!(
        opt_int(&batch, "exchange_ts_ms", 0),
        Some(1_710_000_000_000),
        "deprecated ts (seconds) must be converted to milliseconds"
    );
    assert_eq!(opt_str(&batch, "no_price_raw", 0), None);
    assert_eq!(opt_int(&batch, "no_price_micros", 0), None);
    assert_eq!(strings(&batch, "raw_message").value(0), TRADE_DEPRECATED);
}

#[test]
fn determined_lifecycle_events_store_the_settlement_value_in_both_forms() {
    let (batch, _) = round_trip(
        Channel::MarketLifecycle,
        &[record(Channel::MarketLifecycle, LIFECYCLE_DETERMINED)],
    );
    assert_eq!(strings(&batch, "event_type").value(0), "determined");
    assert_eq!(
        strings(&batch, "market_ticker").value(0),
        "KXNFLGAME-25SEP09-KC"
    );
    assert_eq!(opt_str(&batch, "result", 0).as_deref(), Some("yes"));
    assert_eq!(
        opt_str(&batch, "settlement_value_raw", 0).as_deref(),
        Some("1.0000")
    );
    assert_eq!(
        opt_int(&batch, "settlement_value_micros", 0),
        Some(PX_SCALE),
        "settlement value must parse to exactly $1.00"
    );
    assert_eq!(opt_int(&batch, "determination_ts", 0), Some(1_710_000_000));
    assert_eq!(opt_int(&batch, "settled_ts", 0), Some(1_710_000_100));
}

#[test]
fn fee_multiplier_is_stored_as_a_raw_token_not_a_float() {
    let (batch, _) = round_trip(
        Channel::EventFeeUpdate,
        &[record(Channel::EventFeeUpdate, FEE_UPDATE_SET)],
    );
    assert_eq!(
        strings(&batch, "event_ticker").value(0),
        "KXNFLGAME-25SEP09"
    );
    assert_eq!(
        opt_str(&batch, "fee_type_override", 0).as_deref(),
        Some("quadratic")
    );
    assert_eq!(
        opt_str(&batch, "fee_multiplier_override_raw", 0).as_deref(),
        Some("1.25"),
        "the multiplier must be preserved as its wire token"
    );
}

#[test]
fn a_cleared_fee_override_is_recorded_as_an_event_not_skipped() {
    let (batch, _) = round_trip(
        Channel::EventFeeUpdate,
        &[record(Channel::EventFeeUpdate, FEE_UPDATE_CLEARED)],
    );
    assert_eq!(
        batch.num_rows(),
        1,
        "a cleared override must still be a row"
    );
    assert_eq!(opt_str(&batch, "fee_type_override", 0), None);
    assert_eq!(opt_str(&batch, "fee_multiplier_override_raw", 0), None);
    assert_eq!(strings(&batch, "raw_message").value(0), FEE_UPDATE_CLEARED);
}

#[test]
fn an_unrecognized_message_is_stored_rather_than_discarded() {
    let (batch, _) = round_trip(Channel::Unparsed, &[record(Channel::Unparsed, GARBAGE)]);
    assert_eq!(batch.num_rows(), 1);
    assert_eq!(strings(&batch, "raw_message").value(0), GARBAGE);
    assert_eq!(
        opt_str(&batch, "message_type", 0).as_deref(),
        Some("some_future_channel"),
        "even an unknown message usually names its own type"
    );
}

#[test]
fn a_field_that_fails_to_parse_keeps_its_raw_string_with_a_null_integer() {
    let malformed = r#"{"type":"orderbook_delta","sid":2,"seq":4,
      "msg":{"market_ticker":"M","market_id":"x","price_dollars":"not-a-price",
             "delta_fp":"1.005","side":"yes"}}"#;
    let (batch, _) = round_trip(
        Channel::OrderbookDelta,
        &[record(Channel::OrderbookDelta, malformed)],
    );
    assert_eq!(
        batch.num_rows(),
        1,
        "an unparsable field must not drop the row"
    );

    assert_eq!(strings(&batch, "price_raw").value(0), "not-a-price");
    assert_eq!(
        opt_int(&batch, "price_micros", 0),
        None,
        "an unparsable price must be null, never zero"
    );
    assert_eq!(strings(&batch, "delta_raw").value(0), "1.005");
    assert_eq!(opt_int(&batch, "delta_fp_units", 0), None);
}

#[test]
fn no_rows_are_lost_across_a_mixed_multi_message_batch() {
    let records: Vec<StoreRecord> = vec![
        record(Channel::OrderbookDelta, DELTA),
        record(Channel::OrderbookDelta, DELTA),
        record(Channel::OrderbookDelta, DELTA),
    ];
    let (batch, _) = round_trip(Channel::OrderbookDelta, &records);
    assert_eq!(batch.num_rows(), 3);
}


#[test]
fn session_metadata_reaches_the_footer_of_an_encoded_file() {
    let session = session();
    let mut store = MemoryStore::open(WriterConfig::new("data".to_owned()), session.clone());
    let at = now();
    store.write_records(
        Channel::OrderbookDelta,
        &[record(Channel::OrderbookDelta, DELTA)],
        at,
    );
    store.close_all(at);

    let (path, bytes) = &store.files[0];
    let kv = footer(bytes);
    assert_eq!(kv.get("kalshi.pricing_convention").map(String::as_str), Some("no_leg"));
    assert_eq!(kv.get("kalshi.px_scale").map(String::as_str), Some("1000000"));
    assert_eq!(kv.get("kalshi.qty_scale").map(String::as_str), Some("100"));
    assert_eq!(kv.get("kalshi.environment").map(String::as_str), Some("demo"));
    assert!(kv.contains_key("kalshi.git_sha"));

    let partition = path.rsplit_once('/').expect("a directory").0;
    assert!(store.sidecars.contains(&format!("{partition}/{}", session.sidecar_filename())));
}

fn minimal_batch() -> RecordBatch {
    let schema = Channel::Unparsed.schema();
    let now_ns = i64::try_from(now()).expect("representable");
    let cols: Vec<ArrayRef> = vec![
        Arc::new(TimestampNanosecondArray::from(vec![now_ns]).with_timezone("UTC")),
        Arc::new(Int64Array::from(vec![None::<i64>])),
        Arc::new(StringArray::from(vec!["s"])),
        Arc::new(Int64Array::from(vec![None::<i64>])),
        Arc::new(Int64Array::from(vec![None::<i64>])),
        Arc::new(StringArray::from(vec!["{}"])),
        Arc::new(StringArray::from(vec![Some("err")])),
        Arc::new(StringArray::from(vec![Some("unknown")])),
    ];
    RecordBatch::try_new(schema, cols).expect("batch")
}

#[test]
fn files_roll_on_the_age_bound_not_only_on_size() {
    let mut config = WriterConfig::new("data".to_owned());
    config.max_file_age = 5 * MINUTE;
    config.max_file_bytes = u64::MAX;

    let mut store = MemoryStore::open(config, session());
    let start = utc(2026, 11, 1, 12, 0);

    store.write_batch(Channel::Unparsed, &minimal_batch(), start);
    assert_eq!(store.stats().open_files, 1);

    store.write_batch(Channel::Unparsed, &minimal_batch(), start + 4 * MINUTE);
    assert_eq!(store.stats().files_closed, 0, "rolled too early");

    store.write_batch(Channel::Unparsed, &minimal_batch(), start + 6 * MINUTE);
    assert_eq!(store.stats().files_closed, 1, "did not roll on the age bound");

    store.close_all(start + 6 * MINUTE);
    assert_eq!(store.stats().open_files, 0);
}

#[test]
fn an_idle_channel_still_rolls_its_open_file() {
    let mut config = WriterConfig::new("data".to_owned());
    config.max_file_age = 5 * MINUTE;

    let mut store = MemoryStore::open(config, session());
    let start = utc(2026, 11, 1, 12, 0);
    store.write_batch(Channel::Unparsed, &minimal_batch(), start);

    let rolled = store.roll_due_files(start + 6 * MINUTE);
    assert_eq!(rolled, 1, "an idle file must still be rolled");
    assert_eq!(store.stats().open_files, 0);

    assert_eq!(store.files.len(), 1);
    assert_eq!(inspect_bytes(&store.files[0].1), None, "file is complete");
}

#[test]
fn every_file_closed_by_shutdown_is_readable() {
    let mut store = MemoryStore::open(WriterConfig::new("data".to_owned()), session());
    let at = now();
    for _ in 0..3 {
        store.write_batch(Channel::Unparsed, &minimal_batch(), at);
    }
    store.close_all(at);

    assert!(!store.files.is_empty());
    for (path, bytes) in &store.files {
        assert_eq!(inspect_bytes(bytes), None, "{path} was left incomplete by shutdown");
    }
}

#[test]
fn a_file_never_spans_two_utc_dates() {
    let mut config = WriterConfig::new("data".to_owned());
    config.max_file_age = 24 * 60 * MINUTE;
    let mut store = MemoryStore::open(config, session());

    let before = utc(2026, 11, 1, 23, 59);
    let after = utc(2026, 11, 2, 0, 1);

    store.write_batch(Channel::Unparsed, &minimal_batch(), before);
    store.write_batch(Channel::Unparsed, &minimal_batch(), after);
    store.close_all(after);

    let partitions: HashSet<&str> =
        store.files.iter().map(|(path, _)| partition_of(path)).collect();
    assert!(partitions.contains("date=2026-11-01"));
    assert!(partitions.contains("date=2026-11-02"));
}

#[test]
fn files_roll_on_the_size_bound() {
    let mut config = WriterConfig::new("data".to_owned());
    config.max_file_bytes = 1;
    let mut store = MemoryStore::open(config, session());
    let at = utc(2026, 11, 1, 12, 0);
    store.write_batch(Channel::Unparsed, &minimal_batch(), at);
    store.write_batch(Channel::Unparsed, &minimal_batch(), at + MINUTE);
    let stats = store.stats();
    assert_eq!((stats.files_closed, stats.open_files, stats.rows_written), (1, 1, 2));
    assert_eq!(store.sidecars.len(), 1, "one session file per partition");
}

#[test]
fn a_footerless_file_is_recognized_as_incomplete() {
    let mut file = b"PAR1".to_vec();
    file.extend_from_slice(&[0u8; 4096]);
    assert_eq!(inspect_bytes(&file), Some(Defect::MissingFooterMagic));
}

/// Move incomplete files aside, as the scan of a directory does. The files are
/// named by their path under the root.
fn quarantine(files: &mut Vec<(String, Vec<u8>)>) -> Vec<(String, Defect, usize)> {
    let mut moved = Vec::new();
    for (path, bytes) in files.iter_mut() {
        let mut directories: Vec<String> = path.split('/').map(str::to_owned).collect();
        let name = directories.pop().expect("a name");
        if !is_candidate(&directories, &name) {
            continue;
        }
        if let Some(defect) = inspect_bytes(bytes) {
            *path = format!("{}/{name}", destination(&directories).join("/"));
            moved.push((path.clone(), defect, bytes.len()));
        }
    }
    moved
}

fn written_by_a_clean_run() -> Vec<(String, Vec<u8>)> {
    let mut store = MemoryStore::open(WriterConfig::new("data".to_owned()), session());
    let at = now();
    store.write_batch(Channel::Unparsed, &minimal_batch(), at);
    store.close_all(at);
    store
        .files
        .iter()
        .map(|(path, bytes)| (path.trim_start_matches("data/").to_owned(), bytes.clone()))
        .collect()
}

#[test]
fn startup_quarantines_incomplete_files_without_deleting_them() {
    let mut files = written_by_a_clean_run();
    let healthy = files.clone();
    let mut broken = b"PAR1".to_vec();
    broken.extend_from_slice(&[7u8; 2048]);
    files.push(("orderbook_delta/date=2026-11-01/crashed.parquet".to_owned(), broken.clone()));

    let quarantined = quarantine(&mut files);
    assert_eq!(quarantined.len(), 1, "expected exactly one bad file");
    let (moved_to, defect, bytes) = &quarantined[0];
    assert_eq!(*defect, Defect::MissingFooterMagic);
    assert_eq!(moved_to, "_quarantine/orderbook_delta/date=2026-11-01/crashed.parquet");
    assert_eq!(*bytes, 2052);
    assert!(
        files.contains(&(moved_to.clone(), broken)),
        "quarantined bytes must be preserved, never deleted"
    );

    assert_eq!(healthy.len(), 1, "a healthy file must not be quarantined");
    assert_eq!(files[0], healthy[0]);
    assert_eq!(inspect_bytes(&files[0].1), None);
}

#[test]
fn quarantine_leaves_a_clean_directory_untouched() {
    let mut files = written_by_a_clean_run();
    let before = files.clone();
    assert!(quarantine(&mut files).is_empty());
    // And it is idempotent.
    assert!(quarantine(&mut files).is_empty());
    assert_eq!(files, before);
}

#[test]
fn quarantine_does_not_rescan_its_own_output() {
    let stale = (
        "_quarantine/orderbook_delta/already-bad.parquet".to_owned(),
        b"PAR1garbage".to_vec(),
    );
    let mut files = vec![stale.clone()];
    assert!(quarantine(&mut files).is_empty());
    assert_eq!(files, vec![stale], "already-quarantined files must be left alone");
}

#[test]
fn every_defect_is_told_apart() {
    assert_eq!(inspect_bytes(b"PAR1garbage"), Some(Defect::TooShort));
    assert_eq!(inspect_bytes(b"not a parquet PAR1"), Some(Defect::MissingHeaderMagic));
    assert_eq!(inspect_bytes(b"PAR1....PAR1"), None);
    assert_eq!(Defect::TooShort.as_str(), "too_short");
    assert_eq!(Defect::MissingHeaderMagic.as_str(), "missing_header_magic");
    assert_eq!(Defect::MissingFooterMagic.as_str(), "missing_footer_magic");
}

const GRID_A: &str = r#"[{"start":"0.0100","end":"0.9900","step":"0.0100"}]"#;
const GRID_B: &str = r#"[{"start":"0.0001","end":"0.9999","step":"0.0001"}]"#;

#[test]
fn repeated_identical_observations_are_not_written() {
    let mut history = GridHistory::new();
    assert_eq!(
        history.observe("KXNFLGAME-25SEP09-KC", GridSource::Discovery, GRID_A),
        GridVerdict::FirstObservation
    );
    for _ in 0..288 {
        assert_eq!(
            history.observe("KXNFLGAME-25SEP09-KC", GridSource::Discovery, GRID_A),
            GridVerdict::Unchanged
        );
    }
    assert_eq!(history.changes_recorded(), 1);
    assert_eq!(history.unchanged_observations(), 288);
}

#[test]
fn a_real_grid_change_is_recorded() {
    let mut history = GridHistory::new();
    history.observe("M", GridSource::Discovery, GRID_A);
    assert_eq!(
        history.observe("M", GridSource::Discovery, GRID_B),
        GridVerdict::Changed,
        "a different grid must produce a row"
    );
    assert_eq!(
        history.observe("M", GridSource::Discovery, GRID_A),
        GridVerdict::Changed
    );
    assert_eq!(history.changes_recorded(), 3);
}

#[test]
fn discovery_and_lifecycle_are_tracked_separately() {
    let mut history = GridHistory::new();
    assert_eq!(
        history.observe("M", GridSource::Discovery, GRID_A),
        GridVerdict::FirstObservation
    );
    assert_eq!(
        history.observe("M", GridSource::Lifecycle, GRID_A),
        GridVerdict::FirstObservation,
        "a lifecycle report must not be suppressed by a prior discovery read"
    );
}

#[test]
fn markets_do_not_interfere_with_each_other() {
    let mut history = GridHistory::new();
    history.observe("MARKET-A", GridSource::Discovery, GRID_A);
    assert_eq!(
        history.observe("MARKET-B", GridSource::Discovery, GRID_A),
        GridVerdict::FirstObservation,
        "an identical grid on a different market is still that market's first"
    );
    assert_eq!(history.tracked_markets(), 2);
}

#[test]
fn only_writable_verdicts_produce_rows() {
    assert!(GridVerdict::FirstObservation.should_write());
    assert!(GridVerdict::Changed.should_write());
    assert!(!GridVerdict::Unchanged.should_write());
}

#[test]
fn a_session_cannot_omit_the_facts_that_make_data_interpretable() {
    assert!(SessionMetadata::new(
        "",
        Environment::Demo,
        1,
        vec!["c".to_owned()],
        "wss://x".to_owned(),
        now()
    )
    .is_err());
    assert!(SessionMetadata::new(
        "no_leg",
        Environment::Demo,
        1,
        vec![],
        "wss://x".to_owned(),
        now()
    )
    .is_err());
    assert!(SessionMetadata::new(
        "no_leg",
        Environment::Demo,
        1,
        vec!["c".to_owned()],
        String::new(),
        now()
    )
    .is_err());
}

#[test]
fn a_session_records_the_revision_it_was_built_from() {
    let at = utc(2026, 11, 1, 12, 0);
    let session = SessionMetadata::of_revision(
        "yes_leg",
        Environment::Prod,
        25,
        vec!["trade".to_owned()],
        "wss://x".to_owned(),
        at,
        "0123456789abcdef",
    )
    .expect("valid session");
    assert_eq!(session.session_id, "20261101T120000Z-01234567");
    assert_eq!(session.git_sha, "0123456789abcdef");
    assert_eq!(session.sidecar_filename(), "_session-20261101T120000Z-01234567.json");
}

#[test]
fn an_unclosed_session_is_visible_as_such() {
    let session = session();
    assert_eq!(session.ended_at, None);
    let mut closed = session.clone();
    closed.close(now());
    assert!(closed.ended_at.is_some());
}
fn independent_parse(input: &str, scale: u32) -> Result<i64, String> {
    if input.is_empty() {
        return Err("empty".to_owned());
    }
    let (sign, body) = match input.strip_prefix('-') {
        Some(rest) => (-1i128, rest),
        None => (1i128, input),
    };

    let (whole, fraction) = match body.split_once('.') {
        Some((w, f)) => (w, f),
        None => (body, ""),
    };
    if whole.is_empty() || !whole.bytes().all(|b| b.is_ascii_digit()) {
        return Err(format!("bad integer part in {input:?}"));
    }
    if !fraction.bytes().all(|b| b.is_ascii_digit()) {
        return Err(format!("bad fraction in {input:?}"));
    }

    let width = scale as usize;
    if fraction.len() > width && fraction[width..].bytes().any(|b| b != b'0') {
        return Err(format!("excess precision in {input:?}"));
    }

    let mut padded = fraction.to_owned();
    padded.truncate(width);
    while padded.len() < width {
        padded.push('0');
    }

    let combined = format!("{whole}{padded}");
    let magnitude = combined
        .parse::<i128>()
        .map_err(|err| format!("could not parse {combined:?}: {err}"))?;
    i64::try_from(sign * magnitude).map_err(|_| format!("{input:?} overflows i64"))
}

#[test]
fn the_independent_parser_agrees_with_known_values() {
    assert_eq!(independent_parse("0.5500", 6), Ok(550_000));
    assert_eq!(independent_parse("0.960", 6), Ok(960_000));
    assert_eq!(independent_parse("0.0001", 6), Ok(100));
    assert_eq!(independent_parse("1.0000", 6), Ok(1_000_000));
    assert_eq!(independent_parse("0", 6), Ok(0));
    assert_eq!(independent_parse("-0.5500", 6), Ok(-550_000));
    assert_eq!(independent_parse("10.00", 2), Ok(1_000));
    assert_eq!(independent_parse("-54.00", 2), Ok(-5_400));
    assert_eq!(independent_parse("0.01", 2), Ok(1));
    assert!(independent_parse("0.1234567", 6).is_err());
    assert!(independent_parse("abc", 6).is_err());
}

#[test]
fn the_two_parsers_agree_across_the_whole_price_range() {
    let mut micros = -2_000_000i64;
    while micros <= 2_000_000 {
        let rendered = format_scaled(micros, 6);
        let production = Px::parse_dollars(&rendered).map(|p| p.micros());
        let independent = independent_parse(&rendered, 6);
        assert_eq!(
            production.map_err(|e| e.to_display_string()),
            independent,
            "parsers disagree on {rendered:?}"
        );
        micros += 7_919;
    }
}

const PRICE_CASES: &[&str] = &[
    "0", "0.0001", "0.0010", "0.0800", "0.4300", "0.5500", "0.960", "0.9999", "1.0000", "0.123456",
];
const SIZE_CASES: &[&str] = &[
    "0.01",
    "1.00",
    "10.00",
    "300.00",
    "-54.00",
    "0.00",
    "999999.99",
    "13.00",
    "1.50",
    "-0.01",
];

fn build_delta_batch() -> RecordBatch {
    let schema = Channel::OrderbookDelta.schema();
    let count = PRICE_CASES.len();
    let now_ns = i64::try_from(now()).expect("representable");

    let received: ArrayRef =
        Arc::new(TimestampNanosecondArray::from(vec![now_ns; count]).with_timezone("UTC"));
    let exchange_ts: ArrayRef = Arc::new(Int64Array::from(vec![Some(1_710_000_000_123i64); count]));
    let session: ArrayRef = Arc::new(StringArray::from(vec!["test-session"; count]));
    let sid: ArrayRef = Arc::new(Int64Array::from(vec![Some(1i64); count]));
    let seq: ArrayRef = Arc::new(Int64Array::from(
        (0..count).map(|i| Some(i as i64)).collect::<Vec<_>>(),
    ));
    let raw_message: ArrayRef = Arc::new(StringArray::from(vec!["{}"; count]));
    let market: ArrayRef = Arc::new(StringArray::from(vec!["KXNFLGAME-25SEP09-KC"; count]));
    let market_id: ArrayRef = Arc::new(StringArray::from(vec![Some("uuid"); count]));
    let side: ArrayRef = Arc::new(StringArray::from(vec!["yes"; count]));
    let price_raw: ArrayRef = Arc::new(StringArray::from(PRICE_CASES.to_vec()));
    let price_micros: ArrayRef = Arc::new(Int64Array::from(
        PRICE_CASES
            .iter()
            .map(|s| Px::parse_dollars(s).ok().map(|p| p.micros()))
            .collect::<Vec<_>>(),
    ));
    let delta_raw: ArrayRef = Arc::new(StringArray::from(SIZE_CASES.to_vec()));
    let delta_units: ArrayRef = Arc::new(Int64Array::from(
        SIZE_CASES
            .iter()
            .map(|s| Qty::parse_fp(s).ok().map(|q| q.fp_units()))
            .collect::<Vec<_>>(),
    ));

    RecordBatch::try_new(
        schema,
        vec![
            received,
            exchange_ts,
            session,
            sid,
            seq,
            raw_message,
            market,
            market_id,
            side,
            price_raw,
            price_micros,
            delta_raw,
            delta_units,
        ],
    )
    .expect("batch matches schema")
}
/// Verify each dual column of some files with the independent parser only.
fn verify_round_trip(files: &[(String, Vec<u8>)], channel: Channel) -> Result<usize, String> {
    assert!(!files.is_empty(), "no parquet files were written");
    let duals = channel.dual_columns();
    assert!(!duals.is_empty(), "channel declares no dual columns to check");

    let mut rows_checked = 0usize;
    for (_, bytes) in files {
        let batch = read_back(bytes);
        for dual in &duals {
            let raw_column = strings(&batch, dual.raw);
            let parsed_column = ints(&batch, dual.parsed);
            let scale = match dual.scale {
                Scale::Price => 6,
                Scale::Quantity => 2,
            };
            for row in 0..batch.num_rows() {
                if raw_column.is_null(row) {
                    continue;
                }
                let raw = raw_column.value(row);
                let stored = opt_int(&batch, dual.parsed, row);
                let recomputed = independent_parse(raw, scale).ok();
                if stored != recomputed {
                    return Err(format!("column {} row {row}", dual.parsed));
                }
                assert_eq!(parsed_column.is_null(row), recomputed.is_none());
                rows_checked += 1;
            }
        }
    }
    Ok(rows_checked)
}

#[test]
fn every_raw_column_reproduces_its_parsed_value_after_a_write_and_read() {
    let mut store = MemoryStore::open(WriterConfig::new("data".to_owned()), session());
    let at = now();
    store.write_batch(Channel::OrderbookDelta, &build_delta_batch(), at);
    store.close_all(at);

    let checked = verify_round_trip(&store.files, Channel::OrderbookDelta);
    assert_eq!(
        checked,
        Ok(PRICE_CASES.len() + SIZE_CASES.len()),
        "not every value was checked"
    );
}

#[test]
fn the_round_trip_check_actually_catches_a_corrupted_column() {
    let mut store = MemoryStore::open(WriterConfig::new("data".to_owned()), session());
    let at = now();
    store.write_batch(Channel::OrderbookDelta, &build_corrupted_batch(), at);
    store.close_all(at);

    let outcome = verify_round_trip(&store.files, Channel::OrderbookDelta);
    assert!(outcome.is_err(), "the check accepted a corrupted price_micros column");
}

fn build_corrupted_batch() -> RecordBatch {
    let batch = build_delta_batch();
    let schema = batch.schema();
    let mut columns: Vec<ArrayRef> = batch.columns().to_vec();
    let index = schema
        .index_of("price_micros")
        .expect("schema has price_micros");
    let original = columns[index]
        .as_any()
        .downcast_ref::<Int64Array>()
        .expect("Int64");
    let corrupted: Int64Array = original.iter().map(|v| v.map(|n| n + 1)).collect();
    columns[index] = Arc::new(corrupted);
    RecordBatch::try_new(schema, columns).expect("batch rebuilds")
}

#[test]
fn every_partition_carries_a_session_sidecar() {
    let session = session();
    let mut store = MemoryStore::open(WriterConfig::new("data".to_owned()), session.clone());
    let at = now();
    store.write_batch(Channel::OrderbookDelta, &build_delta_batch(), at);
    store.close_all(at);

    assert!(!store.files.is_empty());
    for (path, _) in &store.files {
        let partition = path.rsplit_once('/').expect("a directory").0;
        let sidecar = format!("{partition}/{}", session.sidecar_filename());
        assert!(store.sidecars.contains(&sidecar), "{partition} has no session sidecar");
    }
    let recovered = store.ledger.session();
    assert_eq!(recovered.pricing_convention, "no_leg");
    assert_eq!(recovered.px_scale, PX_SCALE);
    assert_eq!(recovered.qty_scale, kalshi_alpha::qty::QTY_SCALE);
    assert_eq!(recovered.environment, Environment::Demo);
    assert_eq!(recovered.parser_version, kalshi_alpha::session::PARSER_VERSION);
    assert_eq!(recovered.docs_spec_date, "2026-08-28");
    assert!(!recovered.git_sha.is_empty());
    assert_eq!(recovered.orderbook_shard_size, 1);
    assert!(recovered.ended_at.is_some(), "a cleanly closed session must record its end time");
}

#[test]
fn session_facts_are_also_in_the_parquet_footer() {
    let mut store = MemoryStore::open(WriterConfig::new("data".to_owned()), session());
    let at = now();
    store.write_batch(Channel::OrderbookDelta, &build_delta_batch(), at);
    store.close_all(at);

    let kv = footer(&store.files[0].1);
    assert_eq!(kv.get("kalshi.pricing_convention").map(String::as_str), Some("no_leg"));
    assert_eq!(kv.get("kalshi.px_scale").map(String::as_str), Some("1000000"));
    assert_eq!(kv.get("kalshi.qty_scale").map(String::as_str), Some("100"));
    assert_eq!(kv.get("kalshi.environment").map(String::as_str), Some("demo"));
    assert_eq!(kv.get("kalshi.docs_spec_date").map(String::as_str), Some("2026-08-28"));
    assert!(kv.contains_key("kalshi.git_sha"));
}

#[test]
fn partitions_use_utc_dates_across_the_dst_transition() {
    let before_fallback = utc(2026, 11, 1, 5, 30);
    let after_fallback = utc(2026, 11, 1, 6, 30);
    assert_ne!(before_fallback, after_fallback);

    let mut store = MemoryStore::open(WriterConfig::new("data".to_owned()), session());
    for at in [before_fallback, after_fallback] {
        store.write_batch(Channel::OrderbookDelta, &build_delta_batch(), at);
    }
    store.close_all(after_fallback);
    for (path, _) in &store.files {
        assert_eq!(partition_of(path), "date=2026-11-01", "partition must be a UTC date");
    }
}

#[test]
fn names_are_made_of_utc_times() {
    let at = utc(2026, 11, 1, 23, 59) + 7_000_000;
    assert_eq!(partition_key(at), "2026-11-01");
    assert_eq!(partition_dir("2026-11-01"), "date=2026-11-01");
    assert_eq!(
        data_filename(Channel::Trade, at, "s"),
        "trade-20261101T235900.007Z-s.parquet"
    );
    assert_eq!(partition_key(-1), "1969-12-31");
    let session = SessionMetadata::new(
        "no_leg",
        Environment::Prod,
        2,
        vec!["trade".to_owned()],
        "wss://x".to_owned(),
        at,
    )
    .expect("valid session");
    assert_eq!(session.session_id, "20261101T235900Z-unknown");
    assert_eq!(session.sidecar_filename(), "_session-20261101T235900Z-unknown.json");
    let pairs = session.as_key_value_pairs();
    assert_eq!(
        pairs.last(),
        Some(&(
            "kalshi.started_at".to_owned(),
            "2026-11-01T23:59:00.007+00:00".to_owned()
        ))
    );
}

#[test]
fn a_missing_fact_is_named() {
    let missing = SessionMetadata::new(
        "",
        Environment::Demo,
        1,
        vec!["c".to_owned()],
        "wss://x".to_owned(),
        now(),
    )
    .unwrap_err();
    assert_eq!(missing, SessionError::MissingField { field: "pricing_convention" });
    assert_eq!(
        missing.to_display_string(),
        "session field pricing_convention must be set explicitly; capture refuses to guess it"
    );
}

#[test]
fn a_level_without_a_size_is_stored_with_a_null_size() {
    let raw = r#"{"type":"orderbook_snapshot","sid":2,"seq":2,
      "msg":{"market_ticker":"M","yes_dollars_fp":[["0.0800"]]}}"#;
    let (batch, _) = round_trip(
        Channel::OrderbookSnapshot,
        &[record(Channel::OrderbookSnapshot, raw)],
    );
    assert_eq!(batch.num_rows(), 1);
    assert_eq!(opt_str(&batch, "price_raw", 0).as_deref(), Some("0.0800"));
    assert_eq!(opt_int(&batch, "price_micros", 0), Some(80_000));
    assert_eq!(opt_str(&batch, "size_raw", 0), None);
    assert_eq!(opt_int(&batch, "size_fp_units", 0), None);
}

#[test]
fn an_encoding_error_names_its_channel() {
    let error = EncodeError::Batch { channel: "orderbook_snapshot" };
    assert_eq!(
        error.to_display_string(),
        "building a record batch for orderbook_snapshot"
    );
}

#[test]
fn an_entry_that_is_no_pair_still_has_its_row() {
    let raw = r#"{"msg":{"yes_dollars_fp":[["0.0800","1.00"],7],"no_dollars_fp":[null]}}"#;
    let records = [record(Channel::OrderbookSnapshot, raw)];
    assert_eq!(expected_rows(Channel::OrderbookSnapshot, &records), 3);
    let (batch, _) = round_trip(Channel::OrderbookSnapshot, &records);
    assert_eq!(batch.num_rows(), 3);
    assert_eq!(opt_str(&batch, "price_raw", 1), None);
    assert_eq!(strings(&batch, "side").value(2), "no");
    for row in 0..3 {
        assert_eq!(strings(&batch, "raw_message").value(row), raw);
    }
}

#[test]
fn a_snapshot_without_levels_still_has_a_row() {
    for raw in [r#"{"sid":2,"msg":{"market_ticker":"M"}}"#, "not json"] {
        let records = [record(Channel::OrderbookSnapshot, raw)];
        assert_eq!(expected_rows(Channel::OrderbookSnapshot, &records), 1);
        let (batch, _) = round_trip(Channel::OrderbookSnapshot, &records);
        assert_eq!(batch.num_rows(), 1);
        assert_eq!(strings(&batch, "raw_message").value(0), raw);
        assert_eq!(strings(&batch, "side").value(0), "");
        assert_eq!(opt_str(&batch, "price_raw", 0), None);
        let place = batch
            .column_by_name("level_index")
            .expect("level_index")
            .as_any()
            .downcast_ref::<Int32Array>()
            .expect("Int32");
        assert_eq!(place.value(0), -1);
    }
}

#[test]
fn a_delta_without_a_price_does_not_cost_its_batch() {
    let bare = r#"{"type":"orderbook_delta","sid":2,"seq":5,"msg":{"market_ticker":"M"}}"#;
    let (batch, _) = round_trip(
        Channel::OrderbookDelta,
        &[record(Channel::OrderbookDelta, DELTA), record(Channel::OrderbookDelta, bare)],
    );
    assert_eq!(batch.num_rows(), 2);
    assert_eq!(opt_str(&batch, "price_raw", 1), None);
    assert_eq!(opt_str(&batch, "delta_raw", 1), None);
    assert_eq!(strings(&batch, "raw_message").value(1), bare);
}

#[test]
fn nothing_gives_no_batch() {
    assert!(encode(Channel::Trade, "s", &[]).expect("encodes").is_none());
    assert_eq!(expected_rows(Channel::Trade, &[]), 0);
}

#[test]
fn a_time_beyond_milliseconds_is_stored_as_null() {
    let raw = r#"{"msg":{"market_ticker":"M","ts":9223372036854775807}}"#;
    let batch = try_encode(Channel::Ticker, "s", &[record(Channel::Ticker, raw)])
        .expect("fits")
        .expect("encodes")
        .expect("rows");
    assert_eq!(opt_int(&batch.inner, "exchange_ts_ms", 0), None);
    assert_eq!(strings(&batch.inner, "raw_message").value(0), raw);
}

#[test]
fn control_frames_are_stored_with_their_error() {
    let raw = r#"{"id":3,"type":"error","seq":9,"msg":{"code":25,"msg":"overflow","sid":4}}"#;
    let (batch, _) = round_trip(Channel::Control, &[record(Channel::Control, raw)]);
    assert_eq!(opt_str(&batch, "message_type", 0).as_deref(), Some("error"));
    assert_eq!(opt_str(&batch, "error_message", 0).as_deref(), Some("overflow"));
    assert_eq!(opt_int(&batch, "sid", 0), Some(4));
    assert_eq!(opt_int(&batch, "seq", 0), Some(9));
    let code = batch
        .column_by_name("error_code")
        .expect("error_code")
        .as_any()
        .downcast_ref::<Int32Array>()
        .expect("Int32");
    assert_eq!(code.value(0), 25);
}

#[test]
fn grids_are_stored_with_their_hash_and_size() {
    let raw = format!(r#"{{"msg":{{"market_ticker":"M","price_ranges":{GRID_A}}}}}"#);
    let (batch, _) = round_trip(Channel::PriceRanges, &[record(Channel::PriceRanges, &raw)]);
    assert_eq!(strings(&batch, "source").value(0), "discovery");
    let stored = strings(&batch, "price_ranges_raw").value(0);
    assert_eq!(Json::parse(stored), Json::parse(GRID_A));
    assert_eq!(strings(&batch, "price_ranges_hash").value(0), grid_hash(stored));
    let bands = batch
        .column_by_name("band_count")
        .expect("band_count")
        .as_any()
        .downcast_ref::<Int32Array>()
        .expect("Int32");
    assert_eq!(bands.value(0), 1);
    assert_eq!(grid_hash(""), "cbf29ce484222325");
}

#[test]
fn a_mixed_batch_is_grouped_by_channel_in_order() {
    let records = vec![
        record(Channel::Trade, "1"),
        record(Channel::Ticker, "2"),
        record(Channel::Trade, "3"),
    ];
    let groups = group_by_channel(records);
    let texts: Vec<(Channel, Vec<&str>)> = groups
        .iter()
        .map(|(channel, group)| (*channel, group.iter().map(|r| r.raw.as_str()).collect()))
        .collect();
    assert_eq!(
        texts,
        vec![(Channel::Trade, vec!["1", "3"]), (Channel::Ticker, vec!["2"])]
    );
}

#[test]
fn rows_lost_is_the_difference_of_the_counts() {
    let stats = StoreStats {
        open_files: 0,
        files_closed: 0,
        rows_written: 7,
        bytes_written: 0,
        records_dequeued: 3,
        rows_expected: 9,
    };
    assert_eq!(stats.rows_lost(), 2);
    let full = StoreStats { rows_expected: u64::MAX, rows_written: 0, ..stats };
    assert_eq!(full.rows_lost(), i64::MAX);
}

#[test]
fn every_channel_has_the_common_columns_first() {
    let mut names = HashSet::new();
    for channel in Channel::all() {
        assert!(names.insert(channel.as_str()), "{} occurs twice", channel.as_str());
        let schema = channel.schema();
        let fields: Vec<&str> =
            schema.fields().iter().take(6).map(|field| field.name().as_str()).collect();
        assert_eq!(
            fields,
            vec!["received_at_ns", "exchange_ts_ms", "session_id", "sid", "seq", "raw_message"]
        );
        for dual in channel.dual_columns() {
            let raw = schema.index_of(dual.raw).expect("raw column");
            assert_eq!(schema.index_of(dual.parsed).expect("parsed column"), raw + 1);
        }
    }
}

#[test]
fn every_scaled_column_stands_beside_the_text_it_was_read_from() {
    for channel in Channel::all() {
        let mut pairs = 0;
        let schema = channel.schema();
        let duals = channel.dual_columns();
        for field in schema.fields() {
            let scaled = [("_micros", Scale::Price), ("_fp_units", Scale::Quantity)];
            for (suffix, scale) in scaled {
                let Some(stem) = field.name().strip_suffix(suffix) else {
                    continue;
                };
                let raw = format!("{stem}_raw");
                let found: Vec<_> = duals.iter().filter(|d| d.parsed == field.name()).collect();
                assert_eq!(found.len(), 1, "{}", field.name());
                assert_eq!((found[0].raw, found[0].scale), (raw.as_str(), scale));
                pairs += 1;
            }
        }
        assert_eq!(pairs, duals.len(), "{}", channel.as_str());
    }
}

#[test]
fn a_copied_record_holds_the_same_document() {
    let raw = r#"{"type":"trade","msg":{"n":[1,null,true,"x"]}}"#;
    let record = StoreRecord {
        channel: Channel::Trade,
        received_at: 7,
        raw: raw.to_owned(),
        parsed: Json::parse(raw),
    };
    let copy = record.clone();
    assert_eq!(copy.raw, record.raw);
    let texts = [copy, record].map(|r| r.parsed.expect("parsed").to_text());
    assert_eq!(texts[0], texts[1]);
    assert!(texts[0].contains(r#"[1,null,true,"x"]"#));
}
