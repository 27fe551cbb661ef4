//! What the daemon decides about environments, subscriptions and messages.

use kalshi_alpha::book::AnyBook;
use kalshi_alpha::capture::{
    after_connection, blank_key_id, book_for, capture_environment, connection_environment,
    must_stop, observe_seq_with_books, orderbook_channels, reconcile_pass, series_to_capture,
    shard_size, shards, take_in, tickers_among, tilde_rest, writer_step, ConnectionEnd, GateError,
    Metrics, NextStep, WriterAction, WriterEvent, WriterState,
};
use kalshi_alpha::json::Json;
use kalshi_alpha::probe::{
    book_rows, compare_conventions, find_snapshot, no_side_prices, probe_target, PricingVerdict,
    Probe,
};
use kalshi_alpha::px::Px;
use kalshi_alpha::qty::Qty;
use kalshi_alpha::quarantine::{destination, is_candidate};
use kalshi_alpha::rest::{LearnedVia, MarketRegistry};
use kalshi_alpha::schema::Channel;
use kalshi_alpha::session::Environment;
use kalshi_alpha::sink::Offered;
use kalshi_alpha::wire::{
    ErrorBody, ErrorPayload, OkPayload, OrderbookSnapshotBody, OrderbookSnapshotPayload, RawLevel,
    ServerMessage, SubscribedBody, SubscribedPayload, UnsubscribedPayload,
};
use kalshi_alpha::ws::{
    Backoff, PricingConvention, ReceivedMessage, SeqOutcome, SubscriptionRegistry,
};

fn texts(list: &[&str]) -> Vec<String> {
    list.iter().map(|s| s.to_string()).collect()
}

fn received(raw: &str, parsed: Option<ServerMessage>) -> ReceivedMessage {
    ReceivedMessage { received_at: 5, raw: raw.to_owned(), parsed }
}

#[test]
fn production_needs_an_acknowledgement_and_a_clean_tree() {
    assert_eq!(capture_environment("demo", false, true, false), Ok(Environment::Demo));
    assert_eq!(
        capture_environment("prod", false, false, false),
        Err(GateError::Unacknowledged)
    );
    assert_eq!(capture_environment("prod", true, true, false), Err(GateError::DirtyTree));
    assert_eq!(capture_environment("prod", true, true, true), Ok(Environment::Prod));
    assert_eq!(capture_environment("prod", true, false, false), Ok(Environment::Prod));
    assert_eq!(
        connection_environment("staging", true),
        Err(GateError::UnknownEnvironment { name: "staging".to_owned() })
    );
    assert_eq!(connection_environment("prod", true), Ok(Environment::Prod));
}

#[test]
fn a_key_id_of_white_space_is_blank() {
    assert!(blank_key_id(""));
    assert!(blank_key_id(" \t\n\u{2003}"));
    assert!(!blank_key_id(" a "));
}

#[test]
fn only_a_leading_tilde_and_slash_mean_home() {
    assert_eq!(tilde_rest("~/keys/k.pem").as_deref(), Some("keys/k.pem"));
    assert_eq!(tilde_rest("~/").as_deref(), Some(""));
    assert_eq!(tilde_rest("~user/k.pem"), None);
    assert_eq!(tilde_rest("/etc/k.pem"), None);
}

#[test]
fn the_command_line_goes_before_the_configuration() {
    assert_eq!(shard_size(Some(3), 1), 3);
    assert_eq!(shard_size(None, 1), 1);
    assert_eq!(series_to_capture(texts(&[]), texts(&["A"])), texts(&["A"]));
    assert_eq!(series_to_capture(texts(&["B"]), texts(&["A"])), texts(&["B"]));
}

#[test]
fn the_lifecycle_channel_is_subscribed_apart() {
    let channels = texts(&["orderbook_delta", "market_lifecycle_v2", "trade"]);
    assert_eq!(orderbook_channels(&channels), texts(&["orderbook_delta", "trade"]));
}

#[test]
fn markets_are_sharded_in_order() {
    let markets = texts(&["A", "B", "C", "D", "E"]);
    assert_eq!(
        shards(&markets, 2),
        vec![texts(&["A", "B"]), texts(&["C", "D"]), texts(&["E"])]
    );
    assert_eq!(shards(&markets, 0).len(), 5);
    assert_eq!(shards(&markets, usize::MAX), vec![markets.clone()]);
    assert!(shards(&texts(&[]), 3).is_empty());
}

#[test]
fn books_start_empty_in_the_configured_convention() {
    let book = book_for("kxnfl-a", PricingConvention::YesLegPricing);
    assert_eq!(book.convention_label(), "yes_leg");
    assert!(!book.is_valid());
    match book_for("not a ticker", PricingConvention::NoLegPricing) {
        AnyBook::NoLeg(book) => assert_eq!(book.market().as_str(), "INVALID"),
        AnyBook::YesLeg(_) => panic!("wrong convention"),
    }
}

#[test]
fn messages_are_counted_registered_and_recorded() {
    let mut registry = SubscriptionRegistry::new();
    let mut metrics = Metrics::default();
    let raw = r#"{"type":"subscribed","msg":{"sid":4}}"#;
    let subscribed = ServerMessage::Subscribed(SubscribedPayload {
        id: Some(1),
        msg: SubscribedBody { channel: "trade".to_owned(), sid: 4 },
    });
    let record = take_in(&mut registry, &mut metrics, received(raw, Some(subscribed)));
    assert_eq!(record.channel, Channel::Control);
    assert_eq!(record.received_at, 5);
    assert_eq!(record.raw, raw);
    assert_eq!(record.parsed, Json::parse(raw));
    assert_eq!(registry.get(4).expect("registered").channel(), "trade");

    let gone =
        ServerMessage::Unsubscribed(UnsubscribedPayload { id: None, sid: 4, seq: Some(9) });
    take_in(&mut registry, &mut metrics, received("{}", Some(gone)));
    assert!(registry.get(4).is_none());

    let record = take_in(&mut registry, &mut metrics, received("é", None));
    assert_eq!(record.channel, Channel::Unparsed);
    assert_eq!(record.parsed, None);
    let ok = ServerMessage::Acknowledged(OkPayload { id: None, sid: None, seq: None });
    assert_eq!(
        take_in(&mut registry, &mut metrics, received("{}", Some(ok))).channel,
        Channel::Control
    );
    assert_eq!(metrics.messages, 4);
    assert_eq!(metrics.bytes, raw.len() as u64 + 2 + 2 + 2);
    assert_eq!(metrics.unparsed, 1);
    metrics.count_reconnect();
    metrics.count_misses(3);
    assert_eq!((metrics.reconnects, metrics.reconciliation_misses), (1, 3));
}

#[test]
fn only_a_missing_writer_stops_capture() {
    assert!(!must_stop(Offered::Queued));
    assert!(!must_stop(Offered::Dropped));
    assert!(must_stop(Offered::WriterGone));
}

#[test]
fn names_that_are_no_tickers_are_passed_over() {
    let tickers = tickers_among(&texts(&["kxnfl-a", "not a ticker", "KXNFL-B"]));
    let names: Vec<&str> = tickers.iter().map(|t| t.as_str()).collect();
    assert_eq!(names, vec!["KXNFL-A", "KXNFL-B"]);
}

fn snapshot(no_price: &str) -> OrderbookSnapshotBody {
    let level = |price: &str| RawLevel(price.to_owned(), "1.00".to_owned());
    OrderbookSnapshotBody {
        market_ticker: "M".to_owned(),
        market_id: None,
        yes_dollars_fp: vec![level("0.4000")],
        no_dollars_fp: vec![level(no_price)],
    }
}

#[test]
fn conventions_are_told_apart_by_their_no_prices() {
    let payload = OrderbookSnapshotPayload { sid: 1, seq: 1, msg: snapshot("0.5700") };
    let ok = || ServerMessage::Acknowledged(OkPayload { id: None, sid: None, seq: None });
    let messages = vec![ok(), ServerMessage::OrderbookSnapshot(payload)];
    let found = find_snapshot(&messages).expect("a snapshot");
    let no_leg = book_rows(&found.msg);
    assert_eq!(no_leg.len(), 2);
    assert_eq!((no_leg[0].side, no_leg[0].price.as_str()), ("yes", "0.4000"));
    assert_eq!(no_side_prices(&no_leg), texts(&["0.5700"]));
    let yes_leg = book_rows(&snapshot("0.4300"));
    assert_eq!(compare_conventions(Some(&no_leg), Some(&yes_leg)), PricingVerdict::Differ);
    assert_eq!(compare_conventions(Some(&no_leg), Some(&no_leg)), PricingVerdict::Identical);
    assert_eq!(compare_conventions(Some(&no_leg), None), PricingVerdict::Unsettled);
    assert!(find_snapshot(&vec![ok()]).is_none());
}

#[test]
fn a_probe_keeps_the_first_real_limit() {
    let error = |code: u32, msg: &str| {
        Some(ServerMessage::Error(ErrorPayload {
            id: None,
            msg: ErrorBody { code, msg: msg.to_owned(), market_ticker: None },
        }))
    };
    let mut probe = Probe::new();
    probe.on_message(&Some(ServerMessage::Subscribed(SubscribedPayload {
        id: None,
        msg: SubscribedBody { channel: "ticker".to_owned(), sid: 1 },
    })));
    probe.on_message(&error(6, "already subscribed"));
    assert!(!probe.is_over());
    probe.on_message(&error(26, "market limit"));
    probe.on_message(&error(27, "too many requests"));
    probe.on_socket_error("reset".to_owned());
    assert!(probe.is_over());
    assert_eq!(probe.established, 1);
    assert_eq!(probe.first_error, Some((26, "market limit".to_owned())));
    let mut broken = Probe::new();
    broken.on_socket_error("reset".to_owned());
    assert_eq!(broken.first_error, Some((0, "reset".to_owned())));
    let markets = texts(&["A", "B"]);
    assert_eq!(probe_target(&markets, 0), "A");
    assert_eq!(probe_target(&markets, 3), "B");
}

#[test]
fn reconciliation_counts_what_the_live_path_missed() {
    let mut registry = MarketRegistry::new();
    let mut metrics = Metrics::default();
    registry.observe_startup(tickers_among(&texts(&["MKT-A"])), 1);

    let crawl = texts(&["mkt-a", "MKT-B", "not a ticker", "MKT-B", "MKT-C"]);
    let result = reconcile_pass(&mut registry, &mut metrics, &crawl, 2);
    assert!(!result.is_clean());
    let missed: Vec<&str> = result.missed_by_live_path.iter().map(|t| t.0.as_str()).collect();
    assert_eq!(missed, vec!["MKT-B", "MKT-C"]);
    assert_eq!(metrics.reconciliation_misses, 2);
    let known = registry.get(&result.newly_known[0]).expect("known now");
    assert_eq!((known.learned_via, known.first_seen_at), (LearnedVia::Reconciliation, 2));

    let again = reconcile_pass(&mut registry, &mut metrics, &crawl, 3);
    assert!(again.is_clean());
    assert_eq!(metrics.reconciliation_misses, 2);
}

#[test]
fn a_lost_connection_is_counted_and_made_again() {
    let mut metrics = Metrics::default();
    let mut backoff = Backoff::new(100, 300);
    for delay_ms in [100, 200, 300, 300] {
        assert_eq!(
            after_connection(ConnectionEnd::Lost, &mut metrics, &mut backoff, 0),
            NextStep::Reconnect { delay_ms }
        );
    }
    assert_eq!(metrics.reconnects, 4);
    match after_connection(ConnectionEnd::Lost, &mut metrics, &mut backoff, 50) {
        NextStep::Reconnect { delay_ms } => assert!((250..=350).contains(&delay_ms)),
        NextStep::Stop => panic!("a lost connection is no reason to stop"),
    }
    assert_eq!(
        after_connection(ConnectionEnd::Finished, &mut metrics, &mut backoff, 50),
        NextStep::Stop
    );
    assert_eq!(metrics.reconnects, 5);
}

#[test]
fn the_writer_drains_the_queue_before_it_closes_the_store() {
    let mut state = WriterState::Running;
    let mut actions = Vec::new();
    for event in [
        WriterEvent::Tick,
        WriterEvent::Taken { records: 3 },
        WriterEvent::Taken { records: 0 },
        WriterEvent::Shutdown,
        WriterEvent::Tick,
        WriterEvent::Taken { records: 2 },
        WriterEvent::QueueClosed,
        WriterEvent::Taken { records: 0 },
        WriterEvent::Taken { records: 0 },
    ] {
        let (next, action) = writer_step(state, event);
        state = next;
        actions.push(action);
    }
    assert_eq!(
        actions,
        vec![
            WriterAction::RollDueFiles,
            WriterAction::WriteBatch,
            WriterAction::Nothing,
            WriterAction::Nothing,
            WriterAction::Nothing,
            WriterAction::WriteBatch,
            WriterAction::Nothing,
            WriterAction::CloseStore,
            WriterAction::Nothing,
        ]
    );
    assert_eq!(state, WriterState::Stopped);
    assert_eq!(
        writer_step(WriterState::Running, WriterEvent::QueueClosed),
        (WriterState::Draining, WriterAction::Nothing)
    );
}

#[test]
fn only_parquet_files_outside_quarantine_are_judged() {
    let partition = texts(&["orderbook_delta", "date=2026-11-01"]);
    assert!(is_candidate(&partition, "crashed.parquet"));
    assert!(is_candidate(&texts(&[]), "a.parquet"));
    assert!(!is_candidate(&partition, "session-1.json"));
    assert!(!is_candidate(&partition, ".parquet"));
    assert!(!is_candidate(&partition, "parquet"));

    let aside = destination(&partition);
    assert_eq!(aside, texts(&["_quarantine", "orderbook_delta", "date=2026-11-01"]));
    assert!(!is_candidate(&aside, "crashed.parquet"));
    // Only the directory at the root is set apart.
    assert!(is_candidate(&texts(&["x", "_quarantine"]), "a.parquet"));
}

fn seeded(market: &str, convention: PricingConvention, sid: u64, seq: u64) -> AnyBook {
    let levels = [(Px(400_000), Qty(100))];
    let mut book = book_for(market, convention);
    match &mut book {
        AnyBook::NoLeg(book) => book.apply_snapshot(sid, seq, &levels, &levels).expect("ascends"),
        AnyBook::YesLeg(book) => book.apply_snapshot(sid, seq, &levels, &[]).expect("ascends"),
    };
    book
}

#[test]
fn a_gap_invalidates_every_book_of_its_subscription_and_no_other() {
    let mut registry = SubscriptionRegistry::new();
    registry.register(7, "orderbook_delta".to_owned(), texts(&["KXA", "KXB"]), 0);
    let state = registry.get_mut(7).expect("registered");
    state.accept_snapshot(3, 1);
    let mut books = vec![
        seeded("KXA", PricingConvention::NoLegPricing, 7, 2),
        seeded("KXB", PricingConvention::YesLegPricing, 7, 3),
        seeded("KXC", PricingConvention::NoLegPricing, 8, 3),
        book_for("KXD", PricingConvention::NoLegPricing),
    ];
    let valid = |books: &[AnyBook]| books.iter().map(|b| b.is_valid()).collect::<Vec<_>>();

    assert_eq!(observe_seq_with_books(state, &mut books, 4, 2), SeqOutcome::InOrder);
    assert_eq!(valid(&books), [true, true, true, false]);
    assert_eq!(
        observe_seq_with_books(state, &mut books, 6, 3),
        SeqOutcome::Gap { expected: 5, got: 6, skipped: 1 }
    );
    assert_eq!(valid(&books), [false, false, true, false]);
    assert!(books[0].levels().is_none() && books[1].levels().is_none());
    assert!(!state.is_valid());
    assert_eq!(
        observe_seq_with_books(state, &mut books, 6, 4),
        SeqOutcome::Regression { last: 6, got: 6 }
    );
    assert_eq!(valid(&books), [false, false, true, false]);
    let sids: Vec<Option<u64>> = books.iter().map(|b| b.sid()).collect();
    assert_eq!(sids, [Some(7), Some(7), Some(8), None]);
}
