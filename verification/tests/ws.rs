//! The socket's protocol: message fields, sequence tracking, subscription ids, the
//! recovery ladder, commands and backoff.

use kalshi_alpha::json::{Json, JsonNumber};
use kalshi_alpha::px::Px;
use kalshi_alpha::qty::Qty;
use kalshi_alpha::ticker::Side;
use kalshi_alpha::wire::{
    ErrorBody, ErrorPayload, EventFeeUpdateBody, EventFeeUpdatePayload, MarketLifecycleBody,
    MarketLifecyclePayload, OrderbookDeltaBody, OrderbookDeltaPayload, OrderbookSnapshotBody,
    OrderbookSnapshotPayload, RawLevel, ServerMessage, SubscribedBody, SubscribedPayload,
    TickerBody, TickerPayload, TradeBody, TradePayload, UnsubscribedPayload,
};
use kalshi_alpha::ws::{
    jittered, read_frame, recovery_for_error, Backoff, Command, CommandDesk, Frame,
    PricingConvention, RecoveryMethod, SeqOutcome, SubscriptionRegistry, WsError,
};

const SECOND: i128 = 1_000_000_000;
const NOW: i128 = 1_760_000_000_000_000_000;

fn text(s: &str) -> Option<String> {
    Some(s.to_owned())
}

fn decoded(command: &Command) -> serde_json::Value {
    serde_json::from_str(&command.to_json()).expect("valid json")
}

fn delta(sid: u64, seq: u64, msg: OrderbookDeltaBody) -> ServerMessage {
    ServerMessage::OrderbookDelta(OrderbookDeltaPayload { sid, seq, msg })
}

fn lifecycle_body(event_type: &str) -> MarketLifecycleBody {
    MarketLifecycleBody {
        event_type: event_type.to_owned(),
        market_ticker: "KXNFLGAME-25SEP09-KC".to_owned(),
        exchange_index: None,
        open_ts: None,
        close_ts: None,
        result: None,
        determination_ts: None,
        settlement_value: None,
        settled_ts: None,
        is_deactivated: None,
        price_level_structure: None,
        price_ranges: None,
        strike_type: None,
        floor_strike: None,
        cap_strike: None,
        custom_strike: None,
        yes_sub_title: None,
        additional_metadata: None,
    }
}

fn trade_body(market_ticker: &str) -> TradeBody {
    TradeBody {
        trade_id: None,
        market_ticker: market_ticker.to_owned(),
        yes_price_dollars: None,
        no_price_dollars: None,
        count_fp: None,
        taker_outcome_side: None,
        taker_book_side: None,
        taker_side: None,
        is_block_trade: None,
        ts_ms: None,
        ts: None,
    }
}

fn ticker_body(market_ticker: &str) -> TickerBody {
    TickerBody {
        market_ticker: market_ticker.to_owned(),
        market_id: None,
        price_dollars: None,
        yes_bid_dollars: None,
        yes_ask_dollars: None,
        yes_bid_size_fp: None,
        yes_ask_size_fp: None,
        last_trade_size_fp: None,
        volume_fp: None,
        open_interest_fp: None,
        dollar_volume: None,
        dollar_open_interest: None,
        ts_ms: None,
        ts: None,
        time: None,
    }
}

#[test]
fn orderbook_subscribe_always_states_the_pricing_convention() {
    for convention in [
        PricingConvention::NoLegPricing,
        PricingConvention::YesLegPricing,
    ] {
        let command = Command::Subscribe {
            id: 1,
            channels: vec!["orderbook_delta".to_owned()],
            market_tickers: vec!["KXNFLGAME-25SEP09-KC".to_owned()],
            use_yes_price: Some(convention.use_yes_price()),
        };
        let json = decoded(&command);
        assert_eq!(
            json["params"]["use_yes_price"],
            serde_json::Value::Bool(convention.use_yes_price()),
            "use_yes_price missing or wrong for {convention:?}"
        );
    }
}

#[test]
fn pricing_convention_has_no_default_and_must_be_configured() {
    assert_eq!(
        PricingConvention::parse("no_leg").expect("valid"),
        PricingConvention::NoLegPricing
    );
    assert_eq!(
        PricingConvention::parse("yes_leg").expect("valid"),
        PricingConvention::YesLegPricing
    );
    let err = PricingConvention::parse("").expect_err("empty must not resolve");
    let rendered = err.to_display_string();
    assert!(
        rendered.contains("no default"),
        "unhelpful error: {rendered}"
    );
    assert!(PricingConvention::parse("true").is_err());
    assert!(PricingConvention::parse("yes").is_err());
}

#[test]
fn the_convention_has_a_stable_label_for_the_parquet_schema() {
    assert_eq!(PricingConvention::NoLegPricing.as_str(), "no_leg");
    assert_eq!(PricingConvention::YesLegPricing.as_str(), "yes_leg");
    assert!(!PricingConvention::NoLegPricing.use_yes_price());
    assert!(PricingConvention::YesLegPricing.use_yes_price());
}

#[test]
fn only_orderbook_messages_carry_a_sequence_number() {
    let delta = delta(
        2,
        3,
        OrderbookDeltaBody {
            market_ticker: "FED-23DEC-T3.00".to_owned(),
            market_id: text("9b0f6b43-5b68-4f9f-9f02-9a2d1b8ac1a1"),
            price_dollars: "0.960".to_owned(),
            delta_fp: "-54.00".to_owned(),
            side: Side::Yes,
            ts: None,
            ts_ms: None,
        },
    );
    assert_eq!(delta.seq(), Some(3));

    let lifecycle = ServerMessage::MarketLifecycle(MarketLifecyclePayload {
        sid: 7,
        msg: lifecycle_body("created"),
    });
    assert_eq!(lifecycle.seq(), None, "gaps on this channel are undetectable");
    assert_eq!(lifecycle.sid(), Some(7));

    let ticker = ServerMessage::Ticker(TickerPayload {
        sid: 4,
        msg: ticker_body("KXNFLGAME-25SEP09-KC"),
    });
    assert_eq!(ticker.seq(), None);
}

fn registry_with_sid(sid: u64) -> SubscriptionRegistry {
    registry_with_sid_at(sid, NOW)
}

fn registry_with_sid_at(sid: u64, now: i128) -> SubscriptionRegistry {
    let mut registry = SubscriptionRegistry::new();
    registry.register(
        sid,
        "orderbook_delta".to_owned(),
        vec!["KXNFLGAME-25SEP09-KC".to_owned()],
        now,
    );
    registry
}

#[test]
fn a_new_subscription_is_invalid_until_a_snapshot_arrives() {
    let registry = registry_with_sid(1);
    let state = registry.get(1).expect("registered");
    assert!(
        !state.is_valid(),
        "a subscription must not be readable before its snapshot"
    );
}

#[test]
fn contiguous_sequences_keep_the_book_valid() {
    let now = NOW;
    let mut registry = registry_with_sid(1);
    let state = registry.get_mut(1).expect("registered");
    state.accept_snapshot(10, now);
    assert!(state.is_valid());
    assert_eq!(state.observe_seq(11, now), SeqOutcome::InOrder);
    assert_eq!(state.observe_seq(12, now), SeqOutcome::InOrder);
    assert!(state.is_valid());
    assert_eq!(state.gap_count(), 0);
}

#[test]
fn a_skipped_sequence_invalidates_the_book_and_is_counted() {
    let now = NOW;
    let mut registry = registry_with_sid(1);
    let state = registry.get_mut(1).expect("registered");
    state.accept_snapshot(10, now);

    assert_eq!(
        state.observe_seq(14, now),
        SeqOutcome::Gap {
            expected: 11,
            got: 14,
            skipped: 3
        }
    );
    assert!(!state.is_valid(), "a gapped book must not read as valid");
    assert_eq!(state.gap_count(), 1);
    assert_eq!(state.observe_seq(15, now), SeqOutcome::InOrder);
    assert!(!state.is_valid());

    state.accept_snapshot(20, now);
    assert!(state.is_valid());
}

#[test]
fn a_sequence_regression_is_reported_rather_than_ignored() {
    let now = NOW;
    let mut registry = registry_with_sid(1);
    let state = registry.get_mut(1).expect("registered");
    state.accept_snapshot(10, now);
    assert_eq!(
        state.observe_seq(9, now),
        SeqOutcome::Regression { last: 10, got: 9 }
    );
    assert_eq!(
        state.observe_seq(10, now),
        SeqOutcome::Regression { last: 10, got: 10 },
        "a repeated sequence number is a regression, not in-order"
    );
    assert_eq!(state.observe_seq(11, now), SeqOutcome::InOrder);
}

#[test]
fn invalid_duration_accumulates_across_separate_outages() {
    let start = NOW;
    let mut registry = registry_with_sid_at(1, start);
    let state = registry.get_mut(1).expect("registered");

    state.accept_snapshot(1, start);
    state.observe_seq(5, start);
    state.accept_snapshot(6, start + 5 * SECOND);
    let later = start + 10 * SECOND;
    state.observe_seq(20, later);
    state.accept_snapshot(21, later + 3 * SECOND);

    let total = state.invalid_duration(later + 3 * SECOND);
    assert_eq!(total / SECOND, 8, "expected 5s + 3s of invalidity");
    assert_eq!(state.gap_count(), 2);
}

#[test]
fn a_retired_sid_takes_its_sequence_counter_with_it() {
    let now = NOW;
    let mut registry = registry_with_sid(1);
    registry
        .get_mut(1)
        .expect("registered")
        .accept_snapshot(500, now);

    let retired = registry.retire(1).expect("was registered");
    assert_eq!(retired.sid(), 1);
    assert!(
        registry.get(1).is_none(),
        "a retired sid must be gone, not reset"
    );
    registry.register(
        2,
        "orderbook_delta".to_owned(),
        vec!["KXNFLGAME-25SEP09-KC".to_owned()],
        now,
    );
    let state = registry.get_mut(2).expect("registered");
    assert!(!state.is_valid(), "the new sid starts invalid");
    state.accept_snapshot(1, now);
    assert_eq!(state.observe_seq(2, now), SeqOutcome::InOrder);
    assert_eq!(state.gap_count(), 0);
}

#[test]
fn losing_the_connection_retires_every_sid() {
    let mut registry = registry_with_sid(1);
    registry.register(2, "ticker".to_owned(), vec![], NOW);
    assert_eq!(registry.len(), 2);
    registry.retire_all();
    assert!(registry.is_empty());
    assert!(registry.get(1).is_none());
}

#[test]
fn a_gap_on_one_sid_does_not_disturb_another() {
    let now = NOW;
    let mut registry = registry_with_sid(1);
    registry.register(
        2,
        "orderbook_delta".to_owned(),
        vec!["OTHER-MARKET".to_owned()],
        now,
    );

    registry.get_mut(1).expect("a").accept_snapshot(1, now);
    registry.get_mut(2).expect("b").accept_snapshot(1, now);

    registry.get_mut(1).expect("a").observe_seq(99, now);

    assert!(!registry.get(1).expect("a").is_valid());
    assert!(
        registry.get(2).expect("b").is_valid(),
        "a gap on sid 1 must not invalidate sid 2"
    );
    assert_eq!(registry.invalid_sids(), vec![1]);
    assert_eq!(registry.total_gaps(), 1);
}

#[test]
fn the_recovery_ladder_runs_cheapest_first() {
    assert_eq!(
        RecoveryMethod::ladder(),
        [
            RecoveryMethod::GetSnapshot,
            RecoveryMethod::Resubscribe,
            RecoveryMethod::Reconnect
        ]
    );
    assert_eq!(
        RecoveryMethod::GetSnapshot.escalate(),
        Some(RecoveryMethod::Resubscribe)
    );
    assert_eq!(
        RecoveryMethod::Resubscribe.escalate(),
        Some(RecoveryMethod::Reconnect)
    );
    assert_eq!(
        RecoveryMethod::Reconnect.escalate(),
        None,
        "reconnect is the last rung"
    );
}

#[test]
fn get_snapshot_does_not_modify_the_subscription() {
    let command = Command::GetSnapshot {
        id: 127,
        sid: 456,
        market_tickers: vec!["KXNFLGAME-25SEP09-KC".to_owned()],
    };
    let json = decoded(&command);
    assert_eq!(json["cmd"], "update_subscription");
    assert_eq!(json["params"]["action"], "get_snapshot");
    assert_eq!(json["params"]["sids"], serde_json::Value::from(vec![456u64]));
    assert_eq!(
        json["params"]["market_tickers"],
        serde_json::Value::from(vec!["KXNFLGAME-25SEP09-KC"])
    );
}

#[test]
fn recovery_methods_are_counted_separately() {
    let mut registry = registry_with_sid(1);
    registry.record_recovery(RecoveryMethod::GetSnapshot);
    registry.record_recovery(RecoveryMethod::GetSnapshot);
    registry.record_recovery(RecoveryMethod::Reconnect);
    let counts = registry.recovery_counts();
    assert!(counts.contains(&(RecoveryMethod::GetSnapshot, 2)));
    assert!(counts.contains(&(RecoveryMethod::Reconnect, 1)));
}

#[test]
fn terminal_errors_trigger_a_resubscribe_not_a_snapshot_request() {
    for code in [10u32, 17, 25] {
        let error = ErrorBody {
            code,
            msg: "terminal".to_owned(),
            market_ticker: None,
        };
        assert!(error.is_terminal(), "code {code} should be terminal");
        assert_eq!(
            recovery_for_error(&error),
            Some(RecoveryMethod::Resubscribe),
            "code {code} should resubscribe"
        );
    }
    let benign = ErrorBody {
        code: 6,
        msg: "already subscribed".to_owned(),
        market_ticker: None,
    };
    assert!(!benign.is_terminal());
    assert_eq!(recovery_for_error(&benign), None);
}

#[test]
fn buffer_overflow_is_recognized_as_our_own_slowness() {
    let error = ErrorBody {
        code: 25,
        msg: "subscription buffer overflow".to_owned(),
        market_ticker: None,
    };
    assert!(error.is_buffer_overflow());
    assert!(error.is_terminal());
}

#[test]
fn trade_parses_without_any_deprecated_fields() {
    let payload = TradePayload {
        sid: 3,
        msg: TradeBody {
            trade_id: text("abc"),
            yes_price_dollars: text("0.4300"),
            no_price_dollars: text("0.5700"),
            count_fp: text("10.00"),
            taker_outcome_side: Some(Side::Yes),
            taker_book_side: text("bid"),
            is_block_trade: Some(false),
            ts_ms: Some(1710000000123),
            ..trade_body("KXNFLGAME-25SEP09-KC")
        },
    };
    assert_eq!(payload.msg.direction(), Some(Side::Yes));
    assert_eq!(payload.msg.taker_side, None);
    assert_eq!(payload.msg.ts, None);
}

#[test]
fn trade_prefers_canonical_direction_fields_over_the_deprecated_one() {
    let body = TradeBody {
        taker_outcome_side: Some(Side::No),
        taker_side: Some(Side::Yes),
        ts_ms: Some(1),
        ..trade_body("M")
    };
    assert_eq!(body.direction(), Some(Side::No), "the canonical field must win");

    let legacy = TradeBody { taker_side: Some(Side::Yes), ..trade_body("M") };
    assert_eq!(legacy.direction(), Some(Side::Yes));
}

#[test]
fn book_side_maps_to_outcome_side_per_the_spec() {
    for (book_side, expected) in [("bid", Side::Yes), ("ask", Side::No)] {
        let body = TradeBody { taker_book_side: text(book_side), ..trade_body("M") };
        assert_eq!(body.direction(), Some(expected), "for {book_side}");
    }
}

#[test]
fn orderbook_delta_ts_is_a_string_on_this_channel() {
    let message = delta(
        2,
        3,
        OrderbookDeltaBody {
            market_ticker: "M".to_owned(),
            market_id: text("x"),
            price_dollars: "0.96".to_owned(),
            delta_fp: "-54.00".to_owned(),
            side: Side::No,
            ts: text("2026-09-01T12:00:00Z"),
            ts_ms: Some(1710000000123),
        },
    );
    let ServerMessage::OrderbookDelta(payload) = message else {
        panic!("wrong variant");
    };
    assert_eq!(payload.msg.ts.as_deref(), Some("2026-09-01T12:00:00Z"));
    assert_eq!(payload.msg.ts_ms, Some(1710000000123));
}

#[test]
fn determined_events_carry_the_settlement_value() {
    let body = MarketLifecycleBody {
        result: text("yes"),
        determination_ts: Some(1710000000),
        settlement_value: text("1.0000"),
        ..lifecycle_body("determined")
    };
    assert_eq!(body.settlement_value.as_deref(), Some("1.0000"));
    assert_eq!(body.result.as_deref(), Some("yes"));
    let value = Px::parse_dollars(body.settlement_value.as_deref().expect("present"))
        .expect("valid fixed-point dollars");
    assert_eq!(value, Px::one_dollar());
}

#[test]
fn price_level_structure_updates_are_recognized_as_grid_changes() {
    let body = MarketLifecycleBody {
        price_level_structure: text("penny"),
        price_ranges: Json::parse(r#"[{"start":"0.0100","end":"0.9900","step":"0.0100"}]"#),
        ..lifecycle_body("price_level_structure_updated")
    };
    assert!(body.changes_price_grid());
    assert!(!body.is_created());
    assert!(lifecycle_body("created").is_created());
}

#[test]
fn event_fee_updates_are_captured_including_cleared_overrides() {
    let Some(Json::Number(multiplier)) = Json::parse("1.25") else {
        panic!("not a number");
    };
    let set = EventFeeUpdatePayload {
        sid: 11,
        msg: EventFeeUpdateBody {
            event_ticker: "KXNFLGAME-25SEP09".to_owned(),
            fee_type_override: text("quadratic"),
            fee_multiplier_override: Some(multiplier),
        },
    };
    assert_eq!(set.msg.fee_type_override.as_deref(), Some("quadratic"));
    assert_eq!(set.msg.multiplier_raw().as_deref(), Some("1.25"));

    let cleared = EventFeeUpdateBody {
        event_ticker: "KXNFLGAME-25SEP09".to_owned(),
        fee_type_override: None,
        fee_multiplier_override: None,
    };
    assert_eq!(cleared.fee_type_override, None);
    assert_eq!(cleared.multiplier_raw(), None);
}

#[test]
fn snapshot_levels_parse_into_typed_values_and_keep_their_raw_strings() {
    let level = |price: &str, size: &str| RawLevel(price.to_owned(), size.to_owned());
    let payload = OrderbookSnapshotPayload {
        sid: 2,
        seq: 2,
        msg: OrderbookSnapshotBody {
            market_ticker: "FED-23DEC-T3.00".to_owned(),
            market_id: text("x"),
            yes_dollars_fp: vec![level("0.0800", "300.00"), level("0.2200", "333.00")],
            no_dollars_fp: vec![level("0.5400", "20.00")],
        },
    };
    assert_eq!(payload.seq, 2);
    assert_eq!(payload.msg.yes_dollars_fp.len(), 2);
    assert_eq!(payload.msg.no_dollars_fp.len(), 1);

    let (price, size) = payload.msg.yes_dollars_fp[0].parse().expect("parses");
    assert_eq!(price, Px::parse_dollars("0.0800").expect("valid"));
    assert_eq!(size, Qty::parse_fp("300.00").expect("valid"));
    assert_eq!(payload.msg.yes_dollars_fp[0].price_raw(), "0.0800");
    assert_eq!(payload.msg.yes_dollars_fp[0].size_raw(), "300.00");
    assert!(level("x", "1.00").parse().is_err());
    assert!(level("1.00", "x").parse().is_err());
}

#[test]
fn subscribed_carries_a_fresh_sid_and_unsubscribed_a_final_seq() {
    let subscribed = ServerMessage::Subscribed(SubscribedPayload {
        id: Some(1),
        msg: SubscribedBody { channel: "orderbook_delta".to_owned(), sid: 1 },
    });
    assert_eq!(subscribed.sid(), Some(1));

    let unsubscribed =
        ServerMessage::Unsubscribed(UnsubscribedPayload { id: Some(102), sid: 2, seq: Some(7) });
    assert_eq!(unsubscribed.sid(), Some(2));
    let ServerMessage::Unsubscribed(payload) = unsubscribed else {
        panic!("wrong variant");
    };
    assert_eq!(payload.sid, 2);
    assert_eq!(payload.seq, Some(7), "final seq for the retired sid");
}

#[test]
fn errors_deserialize_with_their_code() {
    let message = ServerMessage::Error(ErrorPayload {
        id: Some(123),
        msg: ErrorBody {
            code: 6,
            msg: "Already subscribed".to_owned(),
            market_ticker: None,
        },
    });
    assert_eq!(message.sid(), None);
    let ServerMessage::Error(payload) = message else {
        panic!("wrong variant");
    };
    assert_eq!(payload.msg.code, 6);
    assert!(!payload.msg.is_terminal());
}

#[test]
fn subscribe_omits_use_yes_price_for_non_orderbook_channels() {
    let command = Command::Subscribe {
        id: 5,
        channels: vec!["market_lifecycle_v2".to_owned()],
        market_tickers: vec![],
        use_yes_price: None,
    };
    let json = decoded(&command);
    assert!(json["params"].get("use_yes_price").is_none());
    assert!(json["params"].get("market_tickers").is_none());
}

#[test]
fn unsubscribe_encodes_the_documented_shape() {
    let command = Command::Unsubscribe {
        id: 124,
        sids: vec![1, 2],
    };
    let json = decoded(&command);
    assert_eq!(json["cmd"], "unsubscribe");
    assert_eq!(json["params"]["sids"], serde_json::Value::from(vec![1u64, 2]));
}

#[test]
fn backoff_grows_and_is_capped() {
    let mut backoff = Backoff::new(500, 60_000);
    assert_eq!(backoff.next_delay(0), 500);
    assert_eq!(backoff.next_delay(0), 1_000);
    assert_eq!(backoff.next_delay(0), 2_000);
    for _ in 0..20 {
        backoff.next_delay(0);
    }
    assert_eq!(backoff.peek(), 60_000, "must cap");
}

#[test]
fn backoff_resets_after_a_successful_connection() {
    let mut backoff = Backoff::new(500, 60_000);
    backoff.next_delay(0);
    backoff.next_delay(0);
    backoff.reset();
    assert_eq!(backoff.next_delay(0), 500);
}

#[test]
fn backoff_jitter_spreads_delays_without_leaving_the_envelope() {
    let mut backoff = Backoff::new(10_000, 10_000);
    let mut seen = std::collections::HashSet::new();
    for _ in 0..40 {
        let delay = backoff.next_delay(3_000);
        assert!(
            (7_000..=13_000).contains(&delay),
            "jittered delay {delay} left the +/-30% envelope"
        );
        seen.insert(delay);
    }
    assert!(seen.len() > 1, "jitter produced identical delays every time");
}

#[test]
fn jitter_is_exact_for_a_given_offset() {
    assert_eq!(jittered(10_000, 3_000, 0), 7_000);
    assert_eq!(jittered(10_000, 3_000, 6_000), 13_000);
    assert_eq!(jittered(1_000, 3_000, 5), 5);
    assert_eq!(jittered(u64::MAX, 0, 5), u64::MAX);
}

#[test]
fn commands_are_numbered_and_only_the_orderbook_states_its_pricing() {
    let mut desk = CommandDesk::new();
    let channels = vec!["ticker".to_owned(), "orderbook_delta".to_owned()];
    let first = desk.subscribe(channels, vec!["M".to_owned()], PricingConvention::YesLegPricing);
    let json = decoded(&first);
    assert_eq!(json["id"], serde_json::Value::from(1u64));
    assert_eq!(json["params"]["use_yes_price"], serde_json::Value::Bool(true));
    let second =
        desk.subscribe(vec!["ticker".to_owned()], vec![], PricingConvention::YesLegPricing);
    let json = decoded(&second);
    assert_eq!(json["id"], serde_json::Value::from(2u64));
    assert!(json["params"].get("use_yes_price").is_none());
    let third = decoded(&desk.unsubscribe(vec![9]));
    assert_eq!(third["id"], serde_json::Value::from(3u64));
    let fourth = decoded(&desk.request_snapshot(9, vec!["M".to_owned()]));
    assert_eq!(fourth["id"], serde_json::Value::from(4u64));
}

#[test]
fn frames_are_text_nothing_or_the_end() {
    assert_eq!(read_frame(Frame::Text("{}".to_owned())), Ok(Some("{}".to_owned())));
    assert_eq!(read_frame(Frame::Other), Ok(None));
    let closed = |reason: &str| Err(WsError::Closed { reason: reason.to_owned() });
    assert_eq!(read_frame(Frame::Close(Some((1000, "bye".to_owned())))), closed("1000 bye"));
    assert_eq!(read_frame(Frame::Close(None)), closed("no close frame"));
    assert_eq!(read_frame(Frame::Ended), closed("stream ended"));
    assert_eq!(
        read_frame(Frame::Ended).unwrap_err().to_display_string(),
        "socket closed: stream ended"
    );
}

#[test]
fn numbers_keep_their_token() {
    let Some(Json::Number(number)) = Json::parse("1.250") else {
        panic!("not a number");
    };
    assert_eq!(
        number,
        JsonNumber { token: "1.250".to_owned(), as_i64: None, as_u64: None }
    );
    let Some(Json::Number(number)) = Json::parse("-7") else {
        panic!("not a number");
    };
    assert_eq!((number.as_i64, number.as_u64), (Some(-7), None));
    assert_eq!(Json::parse("{"), None);
    let document = r#"{"b":[1,"x",null],"a":true}"#;
    assert!(Json::parse(document).expect("JSON").to_text().contains(r#"[1,"x",null]"#));
}
