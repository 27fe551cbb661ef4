//! Pure logic of the REST side: the limiter's arithmetic, retries, clock skew,
//! discovery and its reconciliation, and observations of the tick grid.

use kalshi_alpha::json::Json;
use kalshi_alpha::px::Px;
use kalshi_alpha::ranges::{PriceRange, PriceRanges};
use kalshi_alpha::rest::{
    apply_tier, exhausted, observations_from_discovery, refusal, signing_path, signing_prefix_from,
    tier_from, AccountLimits, Bucket, BucketLimit, ClockSkew, Crawl, DiscoveryPass, LearnedVia, Market,
    MarketRegistry, PageItem, PriceRangeSource, RateLimiter, RestConfig, RestError, Retry,
    RetryAction, SkewLevel, TierKnowledge, SKEW_ERROR_MS, SKEW_WARN_MS,
};
use kalshi_alpha::ticker::Ticker;

const SECOND: i128 = 1_000_000_000;
const MILLI: i128 = 1_000_000;
const NOW: i128 = 1_760_000_000_000_000_000;

/// 2026-10-21 07:28:00 UTC, in milliseconds.
const SERVER_MS: i64 = 1_792_567_680_000;

#[test]
fn bucket_starts_full_and_spends_without_waiting() {
    let mut limiter = RateLimiter::new(200, 200, NOW);
    for _ in 0..20 {
        assert_eq!(limiter.acquire(10, NOW), Some(0));
    }
    assert_ne!(limiter.acquire(10, NOW), Some(0));
}

#[test]
fn bucket_throttles_once_the_budget_is_spent() {
    let mut limiter = RateLimiter::new(20, 20, NOW);
    assert_eq!(limiter.acquire(10, NOW), Some(0));
    assert_eq!(limiter.acquire(10, NOW), Some(0));
    let wait = limiter.acquire(10, NOW).expect("waiting helps");
    assert!(wait >= 400, "third request should wait for refill, waits {wait}");
    assert_eq!(limiter.acquire(10, NOW + i128::from(wait) * MILLI), Some(0));
}

#[test]
fn bucket_refills_on_elapsed_time_not_per_request() {
    let mut limiter = RateLimiter::new(100, 100, NOW);
    assert_eq!(limiter.acquire(100, NOW), Some(0));
    assert_eq!(limiter.acquire(20, NOW + 300 * MILLI), Some(0), "idle time did not credit");
    assert_ne!(limiter.acquire(20, NOW + 300 * MILLI), Some(0));
}

#[test]
fn bucket_can_be_reconfigured_from_the_reported_tier() {
    let mut limiter = RateLimiter::new(10, 10, NOW);
    assert_eq!(limiter.acquire(10, NOW), Some(0));
    limiter.reconfigure(1_000, 2_000, NOW);
    for _ in 0..50 {
        assert_eq!(limiter.acquire(10, NOW), Some(0));
    }
}

#[test]
fn a_wait_is_rounded_up_so_that_it_is_long_enough() {
    let mut limiter = RateLimiter::new(3, 1, NOW);
    assert_eq!(limiter.acquire(1, NOW), Some(0));
    assert_eq!(limiter.acquire(1, NOW), Some(334));
    assert_ne!(limiter.acquire(1, NOW + 333 * MILLI), Some(0));
    let mut limiter = RateLimiter::new(3, 1, NOW);
    assert_eq!(limiter.acquire(1, NOW), Some(0));
    assert_eq!(limiter.acquire(1, NOW + 334 * MILLI), Some(0));
}

#[test]
fn a_wait_on_an_overdrawn_bucket_covers_what_is_owed() {
    let mut bucket = Bucket::new(3, 1, NOW);
    bucket.spend(5);
    assert_eq!(bucket.wait_for(1), Some(1_667));
    bucket.refill(NOW + 1_667 * MILLI);
    assert_eq!(bucket.wait_for(1), Some(0));
}

#[test]
fn a_request_dearer_than_the_bucket_is_never_let_through() {
    let mut limiter = RateLimiter::new(0, 10, NOW);
    assert_eq!(limiter.acquire(10, NOW), Some(0));
    assert_eq!(limiter.acquire(1, NOW), None, "nothing ever refills");
}

#[test]
fn parses_the_http_date_header_and_computes_skew() {
    let server = "Wed, 21 Oct 2026 07:28:00 GMT";
    let local = SERVER_MS;
    let skew = ClockSkew::from_date_header(server, local).expect("parses");
    assert_eq!(skew.delta_ms, 0);
    assert!(!skew.is_concerning());
}

#[test]
fn skew_sign_says_which_clock_is_ahead() {
    let server = "Wed, 21 Oct 2026 07:28:00 GMT";
    let ahead = SERVER_MS + 10_000;
    let skew = ClockSkew::from_date_header(server, ahead).expect("parses");
    assert_eq!(skew.delta_ms, 10_000);
    assert!(skew.is_concerning());
    let behind = SERVER_MS - 10_000;
    let skew = ClockSkew::from_date_header(server, behind).expect("parses");
    assert_eq!(skew.delta_ms, -10_000);
    assert!(skew.is_concerning());
}

#[test]
fn skew_thresholds_bracket_the_documented_levels() {
    let server = "Wed, 21 Oct 2026 07:28:00 GMT";
    let at = |secs: i64| {
        let local = SERVER_MS + secs * 1_000;
        ClockSkew::from_date_header(server, local).expect("parses")
    };
    assert!(
        !at(4).is_concerning(),
        "4s should be below the WARN threshold"
    );
    assert!(at(5).is_concerning(), "5s should reach the WARN threshold");
    assert!(at(-5).is_concerning());
    assert_eq!(SKEW_WARN_MS, 5_000);
    assert_eq!(SKEW_ERROR_MS, 30_000);
}

#[test]
fn malformed_date_headers_yield_no_skew_rather_than_a_wrong_one() {
    let local = SERVER_MS;
    for bad in [
        "",
        "not a date",
        "1700000000",
        "Wed, 99 Xxx 2026 07:28:00 GMT",
    ] {
        assert_eq!(
            ClockSkew::from_date_header(bad, local),
            None,
            "{bad:?} should not parse"
        );
    }
}

fn t(s: &str) -> Ticker {
    Ticker::parse(s).expect("valid ticker")
}

#[test]
fn startup_seeds_the_registry() {
    let mut registry = MarketRegistry::new();
    let added = registry.observe_startup(vec![t("KXNFL-A"), t("KXNFL-B")], NOW);
    assert_eq!(added.len(), 2);
    assert_eq!(registry.len(), 2);
    assert!(registry.contains(&t("KXNFL-A")));
}

#[test]
fn the_live_lifecycle_path_grows_the_registry() {
    let mut registry = MarketRegistry::new();
    registry.observe_startup(vec![t("KXNFL-A")], NOW);
    assert!(registry.observe_lifecycle(t("KXNFL-C"), NOW));
    assert!(!registry.observe_lifecycle(t("KXNFL-C"), NOW));
    assert_eq!(registry.len(), 2);
}

#[test]
fn reconciliation_is_clean_when_the_live_path_kept_up() {
    let mut registry = MarketRegistry::new();
    registry.observe_startup(vec![t("KXNFL-A")], NOW);
    registry.observe_lifecycle(t("KXNFL-B"), NOW);
    let result = registry.reconcile(vec![t("KXNFL-A"), t("KXNFL-B")], NOW);
    assert!(result.is_clean());
    assert!(result.missed_by_live_path.is_empty());
}

#[test]
fn reconciliation_flags_markets_the_live_path_missed() {
    let mut registry = MarketRegistry::new();
    registry.observe_startup(vec![t("KXNFL-A")], NOW);

    let result = registry.reconcile(vec![t("KXNFL-A"), t("KXNFL-MISSED")], NOW);
    assert!(!result.is_clean(), "a missed market must not read as clean");
    assert_eq!(result.missed_by_live_path, vec![t("KXNFL-MISSED")]);
    let second = registry.reconcile(vec![t("KXNFL-A"), t("KXNFL-MISSED")], NOW);
    assert!(second.is_clean());
}

#[test]
fn registry_records_how_each_market_was_learned() {
    let mut registry = MarketRegistry::new();
    let now = NOW;
    registry.observe_startup(vec![t("KXNFL-A")], now);
    registry.observe_lifecycle(t("KXNFL-B"), now);
    registry.reconcile(vec![t("KXNFL-C")], now);

    assert_eq!(
        registry.get(&t("KXNFL-A")).map(|m| m.learned_via),
        Some(LearnedVia::StartupDiscovery)
    );
    assert_eq!(
        registry.get(&t("KXNFL-B")).map(|m| m.learned_via),
        Some(LearnedVia::Lifecycle)
    );
    assert_eq!(
        registry.get(&t("KXNFL-C")).map(|m| m.learned_via),
        Some(LearnedVia::Reconciliation)
    );
}

fn market_json(ticker: &str) -> Json {
    let text = format!(
        r#"{{"ticker":"{ticker}","event_ticker":"KXNFLGAME-25SEP09","status":"active",
            "price_level_structure":"penny_with_fine_tails",
            "price_ranges":[{{"start":"0.0100","end":"0.9900","step":"0.0100"}}]}}"#
    );
    Json::parse(&text).expect("JSON")
}

fn market(ticker: &str) -> Market {
    let px = |s: &str| Px::parse_dollars(s).expect("valid");
    Market {
        ticker: ticker.to_owned(),
        event_ticker: Some("KXNFLGAME-25SEP09".to_owned()),
        status: Some("active".to_owned()),
        open_time: None,
        close_time: None,
        price_level_structure: Some("penny_with_fine_tails".to_owned()),
        price_ranges: PriceRanges::new(vec![PriceRange {
            start: px("0.0100"),
            end: px("0.9900"),
            step: px("0.0100"),
        }])
        .expect("valid grid"),
    }
}

#[test]
fn discovery_observations_carry_no_effective_time() {
    let raw = market_json("KXNFLGAME-25SEP09-KC");
    let market = market("KXNFLGAME-25SEP09-KC");
    let now = NOW;
    let pass = DiscoveryPass {
        started_at: now,
        finished_at: now,
        cursors: vec![String::new()],
        markets: vec![market],
        raw_markets: vec![raw],
    };

    let observations = observations_from_discovery(&pass);
    assert_eq!(observations.len(), 1);
    let obs = &observations[0];
    assert_eq!(obs.source, PriceRangeSource::Discovery);
    assert_eq!(
        obs.effective_at, None,
        "discovery must not invent an effective time"
    );
    assert_eq!(obs.observed_at, now, "observed_at is our receive clock");
    assert_eq!(obs.market, t("KXNFLGAME-25SEP09-KC"));
}

#[test]
fn observations_retain_the_raw_grid_json() {
    let raw = market_json("KXNFLGAME-25SEP09-KC");
    let market = market("KXNFLGAME-25SEP09-KC");
    let pass = DiscoveryPass {
        started_at: NOW,
        finished_at: NOW,
        cursors: vec![String::new()],
        markets: vec![market],
        raw_markets: vec![raw],
    };
    let observations = observations_from_discovery(&pass);
    let obs = &observations[0];
    assert!(obs.ranges_raw.contains("0.0100"));
    assert!(obs.ranges_raw.contains("step"));
    assert_eq!(
        obs.price_level_structure.as_deref(),
        Some("penny_with_fine_tails")
    );
}

#[test]
fn a_discovery_pass_records_its_window_and_cursor_sequence() {
    let started = NOW;
    let finished = started + 4 * SECOND;
    let pass = DiscoveryPass {
        started_at: started,
        finished_at: finished,
        cursors: vec![String::new(), "cur_a".to_owned(), "cur_b".to_owned()],
        markets: vec![],
        raw_markets: vec![],
    };
    assert_eq!(pass.page_count(), 3);
    assert_eq!(pass.cursors[0], "", "first page is always the empty cursor");
    assert!(pass.finished_at > pass.started_at);
}

#[test]
fn an_observation_of_a_market_without_a_grid_holds_none() {
    let raw = Json::parse(r#"{"ticker":"KXNFLGAME-25SEP09-KC"}"#).expect("JSON");
    let mut market = market("KXNFLGAME-25SEP09-KC");
    market.price_ranges = PriceRanges::default();
    let pass = DiscoveryPass {
        started_at: NOW,
        finished_at: NOW,
        cursors: vec![String::new()],
        markets: vec![market],
        raw_markets: vec![raw],
    };
    let observations = observations_from_discovery(&pass);
    assert!(observations[0].ranges.is_empty());
    assert_eq!(observations[0].ranges_raw, "");
}

#[test]
fn a_market_without_a_usable_ticker_is_not_observed() {
    let pass = DiscoveryPass {
        started_at: NOW,
        finished_at: NOW,
        cursors: vec![String::new()],
        markets: vec![market("not a ticker"), market("KXNFL-A")],
        raw_markets: vec![market_json("x"), market_json("KXNFL-A")],
    };
    let observations = observations_from_discovery(&pass);
    assert_eq!(observations.len(), 1);
    assert_eq!(observations[0].market, t("KXNFL-A"));
}

#[test]
fn skew_is_logged_by_its_size() {
    assert_eq!(ClockSkew::between(1_000, 0).log(), SkewLevel::Info);
    assert_eq!(ClockSkew::between(5_000, 0).log(), SkewLevel::Warn);
    assert_eq!(ClockSkew::between(0, 30_000).log(), SkewLevel::Error);
}

#[test]
fn a_crawl_asks_once_per_status_and_page() {
    let mut crawl = Crawl::new("KXNFL", vec!["open".to_owned(), "closed".to_owned()]);
    let query = crawl.next_query().expect("a first page");
    let pairs: Vec<(&str, &str)> =
        query.iter().map(|(k, v)| (k.as_str(), v.as_str())).collect();
    assert_eq!(
        pairs,
        vec![
            ("series_ticker", "KXNFL"),
            ("mve_filter", "exclude"),
            ("limit", "1000"),
            ("status", "open"),
        ]
    );
    let item = |ticker: &str| PageItem { market: Some(market(ticker)), raw: market_json(ticker) };
    crawl.accept_page(vec![item("A"), item("B")], "next".to_owned());
    let query = crawl.next_query().expect("a second page");
    assert_eq!(query.last(), Some(&("cursor".to_owned(), "next".to_owned())));
    crawl.accept_page(vec![PageItem { market: None, raw: market_json("?") }], String::new());
    let query = crawl.next_query().expect("the second status");
    assert_eq!(query.last(), Some(&("status".to_owned(), "closed".to_owned())));
    crawl.accept_page(vec![item("B"), item("C")], String::new());
    assert!(crawl.next_query().is_none());
    let pass = crawl.finish(NOW, NOW + SECOND);
    let tickers: Vec<&str> = pass.markets.iter().map(|m| m.ticker.as_str()).collect();
    assert_eq!(tickers, vec!["A", "B", "C"], "a market seen twice is kept once");
    assert_eq!(pass.raw_markets.len(), 3);
    assert_eq!(pass.cursors, vec!["".to_owned(), "next".to_owned(), "".to_owned()]);
}

#[test]
fn a_crawl_without_statuses_has_no_filter() {
    let mut crawl = Crawl::new("KXNFL", vec![]);
    let query = crawl.next_query().expect("a page");
    assert_eq!(query.len(), 3);
    crawl.accept_page(vec![], String::new());
    assert!(crawl.next_query().is_none());
}

#[test]
fn requests_are_retried_on_rate_limits_and_server_errors_only() {
    let config = RestConfig { max_attempts: 3, ..RestConfig::default() };
    let mut retry = Retry::start(&config);
    assert!(retry.may_send());
    assert_eq!(retry.on_status(200), RetryAction::Decode);
    let mut retry = Retry::start(&config);
    assert_eq!(retry.on_status(429), RetryAction::Wait { millis: 250 });
    assert_eq!(retry.on_status(503), RetryAction::Wait { millis: 500 });
    assert_eq!(retry.on_status(503), RetryAction::Refuse, "no attempt is left");
    let mut retry = Retry::start(&config);
    assert_eq!(retry.on_status(404), RetryAction::Refuse);
    let mut retry = Retry::start(&config);
    for _ in 0..3 {
        assert!(retry.may_send());
        assert!(matches!(retry.on_status(429), RetryAction::Wait { .. }));
    }
    assert!(!retry.may_send());
    assert_eq!(
        exhausted("/markets", &config),
        RestError::Exhausted { path: "/markets".to_owned(), attempts: 3 }
    );
    assert_eq!(
        exhausted("/markets", &config).to_display_string(),
        "gave up on /markets after 3 attempts"
    );
}

#[test]
fn a_refusal_keeps_at_most_the_start_of_the_body() {
    let error = refusal("/markets", 400, "bad");
    assert_eq!(error.to_display_string(), "/markets returned 400: bad");
    let long = "é".repeat(300);
    match refusal("/markets", 400, &long) {
        RestError::Status { body, .. } => {
            assert_eq!(body, format!("{}...", "é".repeat(256)));
        }
        other => panic!("{other:?}"),
    }
}

#[test]
fn the_signed_path_has_the_prefix_of_the_base_url() {
    let prefix = signing_prefix_from("https://external-api.kalshi.com/trade-api/v2");
    assert_eq!(prefix, "/trade-api/v2");
    assert_eq!(signing_path(&prefix, "/markets"), "/trade-api/v2/markets");
    assert_eq!(signing_prefix_from("https://external-api.kalshi.com"), "");
    assert_eq!(signing_prefix_from("https://external-api.kalshi.com/"), "");
    assert_eq!(signing_prefix_from("host/a/b//"), "/a/b");
}

#[test]
fn the_reported_tier_reaches_the_limiter() {
    let limit = |refill_rate: u32, bucket_capacity: u32| BucketLimit { refill_rate, bucket_capacity };
    let reported = tier_from(Ok(AccountLimits {
        usage_tier: "premier".to_owned(),
        read: limit(1_000, 2_000),
        write: limit(1, 1),
    }));
    assert_eq!(
        reported,
        TierKnowledge::Reported {
            tier: "premier".to_owned(),
            read_refill: 1_000,
            read_capacity: 2_000
        }
    );
    let mut limiter = RateLimiter::new(1, 1, NOW);
    apply_tier(&mut limiter, &reported, NOW);
    assert_eq!(limiter.acquire(2_000, NOW), Some(0));
    let unknown = tier_from(Err("no route".to_owned()));
    assert_eq!(unknown, TierKnowledge::Unknown { reason: "no route".to_owned() });
    let mut limiter = RateLimiter::new(1, 1, NOW);
    apply_tier(&mut limiter, &unknown, NOW);
    assert_eq!(limiter.acquire(1, NOW), Some(0));
    assert_ne!(limiter.acquire(1, NOW), Some(0));
}
