//! Exactness of the fixed-point layer: prices, quantities, notionals, the tick
//! grid and tickers.

use kalshi_alpha::json::Json;
use kalshi_alpha::notional::{Notional, NOTIONAL_SCALE, NOTIONAL_SCALE_DIGITS};
use kalshi_alpha::parse::{format_scaled, parse_scaled, ParseFixedError};
use kalshi_alpha::px::{Px, PX_SCALE, PX_SCALE_DIGITS};
use kalshi_alpha::qty::{Qty, QTY_SCALE, QTY_SCALE_DIGITS};
use kalshi_alpha::ranges::{GridSnap, PriceRange, PriceRangeError, PriceRanges};
use kalshi_alpha::ticker::{Side, Ticker, TickerError};
use std::path::{Path, PathBuf};


#[test]
fn parses_the_documented_wire_values_exactly() {
    let cases = [
        ("0", 0),
        ("0.0010", 1_000),
        ("0.5500", 550_000),
        ("0.9999", 999_900),
        ("1.0000", 1_000_000),
        ("0.0001", 100),
        ("0.0000", 0),
        ("0.123456", 123_456),
        ("12.500000", 12_500_000),
        ("0.960", 960_000),
        ("0.001", 1_000),
        ("0.999", 999_000),
        ("1.000", 1_000_000),
        ("0.5", 500_000),
        ("0.55", 550_000),
        ("1.0", 1_000_000),
        ("0.00001", 10),
    ];
    for (input, expected) in cases {
        assert_eq!(
            Px::parse_dollars(input).map(Px::micros),
            Ok(expected),
            "parsing {input:?}"
        );
    }
}

#[test]
fn decimal_width_does_not_change_the_value() {
    let widths = ["0.96", "0.960", "0.9600", "0.96000", "0.960000"];
    let expected = Px::parse_dollars("0.960").map(Px::micros);
    assert_eq!(expected, Ok(960_000));
    for raw in widths {
        assert_eq!(
            Px::parse_dollars(raw).map(Px::micros),
            expected,
            "width-dependent parse for {raw:?}"
        );
    }
    for raw in ["10", "10.0", "10.00"] {
        assert_eq!(
            Qty::parse_fp(raw).map(Qty::fp_units),
            Ok(1_000),
            "for {raw:?}"
        );
    }
}

#[test]
fn parses_negatives() {
    assert_eq!(Px::parse_dollars("-0.5500").map(Px::micros), Ok(-550_000));
    assert_eq!(Px::parse_dollars("-1.0000").map(Px::micros), Ok(-1_000_000));
    assert_eq!(Px::parse_dollars("-0").map(Px::micros), Ok(0));
    assert_eq!(Px::parse_dollars("-0.000000").map(Px::micros), Ok(0));
    assert_eq!(Qty::parse_fp("-54.00").map(Qty::fp_units), Ok(-5_400));
}

#[test]
fn rejects_precision_it_cannot_represent_instead_of_truncating() {
    let err = Px::parse_dollars("0.1234567").unwrap_err();
    assert!(
        matches!(&err, ParseFixedError::ExcessPrecision { excess, scale, .. }
                 if excess == "7" && *scale == 6),
        "got {err:?}"
    );
    let err = Qty::parse_fp("1.005").unwrap_err();
    assert!(
        matches!(err, ParseFixedError::ExcessPrecision { .. }),
        "got {err:?}"
    );
    assert!(err.to_display_string().contains("Refusing to truncate"));
}

#[test]
fn accepts_excess_trailing_zeros_because_nothing_is_lost() {
    assert_eq!(
        Px::parse_dollars("1.0000000").map(Px::micros),
        Ok(1_000_000)
    );
    assert_eq!(
        Px::parse_dollars("0.55000000000").map(Px::micros),
        Ok(550_000)
    );
    assert_eq!(Qty::parse_fp("10.0000").map(Qty::fp_units), Ok(1_000));
}

#[test]
fn rejects_malformed_input() {
    let cases: Vec<(&str, fn(&ParseFixedError) -> bool)> = vec![
        ("", |e| matches!(e, ParseFixedError::Empty)),
        ("-", |e| matches!(e, ParseFixedError::MissingIntegerDigits { .. })),
        (".5", |e| matches!(e, ParseFixedError::MissingIntegerDigits { .. })),
        ("5.", |e| matches!(e, ParseFixedError::MissingFractionDigits { .. })),
        ("1.2.3", |e| matches!(e, ParseFixedError::MultipleDecimalPoints { .. })),
        ("abc", |e| matches!(e, ParseFixedError::InvalidChar { .. })),
        ("0x10", |e| matches!(e, ParseFixedError::InvalidChar { .. })),
        ("1e6", |e| matches!(e, ParseFixedError::InvalidChar { .. })),
        ("+1.0", |e| matches!(e, ParseFixedError::InvalidChar { .. })),
        (" 1.0", |e| matches!(e, ParseFixedError::InvalidChar { .. })),
        ("1.0 ", |e| matches!(e, ParseFixedError::InvalidChar { .. })),
        ("1,0", |e| matches!(e, ParseFixedError::InvalidChar { .. })),
        ("NaN", |e| matches!(e, ParseFixedError::InvalidChar { .. })),
        ("inf", |e| matches!(e, ParseFixedError::InvalidChar { .. })),
        ("１.０", |e| matches!(e, ParseFixedError::InvalidChar { .. })), // full-width digits
        ("--1", |e| matches!(e, ParseFixedError::InvalidChar { .. })),
    ];
    for (input, expected) in cases {
        let err = Px::parse_dollars(input).expect_err(&format!("{input:?} should not parse"));
        assert!(expected(&err), "{input:?} produced unexpected {err:?}");
    }
}

#[test]
fn rejects_values_that_overflow_i64() {
    let huge = "9".repeat(30);
    assert!(matches!(
        Px::parse_dollars(&huge),
        Err(ParseFixedError::Overflow { .. })
    ));
}

#[test]
fn parsing_never_routes_through_f64() {
    let a = Px::parse_dollars("0.100000").map(Px::micros);
    let b = Px::parse_dollars("0.200000").map(Px::micros);
    let c = Px::parse_dollars("0.300000").map(Px::micros);
    assert_eq!(a.and_then(|a| b.map(|b| a + b)), c);
}

#[test]
fn every_price_round_trips_through_its_string_form() {
    let mut value = -2_000_000i64;
    while value <= 2_000_000 {
        let px = Px::from_micros(value);
        let rendered = px.to_dollar_string();
        assert_eq!(
            Px::parse_dollars(&rendered).map(Px::micros),
            Ok(value),
            "round trip failed for {value} rendered as {rendered:?}"
        );
        value += 9_973;
    }
}

#[test]
fn every_quantity_round_trips_through_its_string_form() {
    for units in [-1_000_000i64, -5_400, -1, 0, 1, 99, 100, 1_000, 123_456_789] {
        let qty = Qty::from_fp_units(units);
        assert_eq!(
            Qty::parse_fp(&qty.to_fp_string()).map(Qty::fp_units),
            Ok(units)
        );
    }
}

#[test]
fn wire_strings_round_trip_back_to_their_original_text_shape() {
    for raw in ["0.5500", "0.0001", "0.9999", "1.0000", "0"] {
        let parsed = Px::parse_dollars(raw).expect("valid");
        let reparsed = Px::parse_dollars(&parsed.to_dollar_string()).expect("valid");
        assert_eq!(parsed, reparsed, "for {raw:?}");
    }
}

#[test]
fn yes_and_no_sum_to_exactly_one_dollar() {
    let mut micros = 0i64;
    while micros <= PX_SCALE {
        let yes = Px::from_micros(micros);
        let no = yes.complement();
        assert_eq!(
            yes.checked_add(no),
            Some(Px::one_dollar()),
            "YES {yes:?} + NO {no:?} != $1.00"
        );
        assert_eq!(
            no.complement(),
            yes,
            "complement is not an involution at {yes:?}"
        );
        micros += 1;
        if micros > 1_000 {
            micros += 997;
        }
    }
}

#[test]
fn the_documented_example_holds() {
    let yes_bid = Px::parse_dollars("0.4300").expect("valid");
    assert_eq!(
        yes_bid.complement(),
        Px::parse_dollars("0.5700").expect("valid")
    );
}

#[test]
fn spread_and_mid_are_exact() {
    let yes_bid = Px::parse_dollars("0.4200").expect("valid");
    let no_bid = Px::parse_dollars("0.5600").expect("valid");
    let yes_ask = no_bid.complement();
    assert_eq!(yes_ask, Px::parse_dollars("0.4400").expect("valid"));
    assert_eq!(
        yes_ask.checked_sub(yes_bid),
        Some(Px::parse_dollars("0.0200").expect("valid"))
    );
    assert_eq!(
        yes_bid.midpoint(yes_ask),
        Px::parse_dollars("0.4300").expect("valid")
    );
}

#[test]
fn midpoint_rounds_toward_negative_infinity_consistently() {
    let a = Px::from_micros(1);
    let b = Px::from_micros(2);
    assert_eq!(a.midpoint(b), Px::from_micros(1));
    let a = Px::from_micros(-1);
    let b = Px::from_micros(-2);
    assert_eq!(a.midpoint(b), Px::from_micros(-2));
}

#[test]
fn notional_is_the_exact_product_at_scale_1e8() {
    let px = Px::parse_dollars("0.5500").expect("valid");
    let qty = Qty::parse_fp("10.00").expect("valid");
    let n = Notional::from_px_qty(px, qty).expect("no overflow");
    assert_eq!(n.units(), 550_000 * 1_000);
    assert_eq!(n.to_dollar_string(), "5.50000000");
    assert_eq!(n.to_micro_dollars(), 5_500_000);
}

#[test]
fn notional_handles_fractional_contracts() {
    let px = Px::parse_dollars("0.9999").expect("valid");
    let qty = Qty::parse_fp("0.01").expect("valid");
    let n = Notional::from_px_qty(px, qty).expect("no overflow");
    assert_eq!(n.units(), 999_900);
    assert_eq!(n.to_dollar_string(), "0.00999900");
}

#[test]
fn notional_scale_is_the_sum_of_its_factors_scales() {
    assert_eq!(
        NOTIONAL_SCALE_DIGITS,
        PX_SCALE_DIGITS + QTY_SCALE_DIGITS
    );
    let one = Notional::from_px_qty(Px::one_dollar(), Qty::one_contract()).expect("no overflow");
    assert_eq!(one.units(), NOTIONAL_SCALE);
    assert_eq!(PX_SCALE * QTY_SCALE, NOTIONAL_SCALE);
}

#[test]
fn notional_rounding_is_half_away_from_zero_and_symmetric() {
    assert_eq!(Notional::from_units(50).to_micro_dollars(), 1);
    assert_eq!(Notional::from_units(-50).to_micro_dollars(), -1);
    assert_eq!(Notional::from_units(49).to_micro_dollars(), 0);
    assert_eq!(Notional::from_units(-49).to_micro_dollars(), 0);
    assert_eq!(Notional::from_units(150).to_micro_dollars(), 2);
    assert_eq!(Notional::from_units(-150).to_micro_dollars(), -2);
    for units in [-150i64, -50, -49, -1, 0, 1, 49, 50, 150, 12_345] {
        assert_eq!(
            Notional::from_units(units).to_micro_dollars(),
            -Notional::from_units(-units).to_micro_dollars(),
            "asymmetric rounding at {units}"
        );
    }
}

#[test]
fn notional_reports_overflow_rather_than_wrapping() {
    let huge_px = Px::from_micros(i64::MAX);
    let huge_qty = Qty::from_fp_units(i64::MAX);
    assert_eq!(Notional::from_px_qty(huge_px, huge_qty), None);
}

fn band(start: &str, end: &str, step: &str) -> PriceRange {
    PriceRange {
        start: Px::parse_dollars(start).expect("valid"),
        end: Px::parse_dollars(end).expect("valid"),
        step: Px::parse_dollars(step).expect("valid"),
    }
}

fn nonuniform_grid() -> PriceRanges {
    PriceRanges::new(vec![
        band("0.0001", "0.0500", "0.0001"),
        band("0.0500", "0.9500", "0.0100"),
        band("0.9500", "0.9999", "0.0001"),
    ])
    .expect("valid grid")
}

#[test]
fn validates_prices_against_the_published_grid() {
    let grid = nonuniform_grid();
    assert!(grid.is_valid(Px::parse_dollars("0.0001").expect("valid")));
    assert!(grid.is_valid(Px::parse_dollars("0.0234").expect("valid")));
    assert!(grid.is_valid(Px::parse_dollars("0.4300").expect("valid")));
    assert!(grid.is_valid(Px::parse_dollars("0.9876").expect("valid")));
    assert!(!grid.is_valid(Px::parse_dollars("0.4301").expect("valid")));
    assert!(!grid.is_valid(Px::parse_dollars("1.5000").expect("valid")));
}

#[test]
fn snaps_to_the_nearest_valid_price() {
    let grid = nonuniform_grid();
    let px = |s: &str| Px::parse_dollars(s).expect("valid");
    assert_eq!(
        grid.snap_to_grid(px("0.4300")),
        Some(GridSnap::Exact(px("0.4300")))
    );
    assert_eq!(
        grid.snap_to_grid(px("0.4301")),
        Some(GridSnap::Snapped(px("0.4300")))
    );
    assert_eq!(
        grid.snap_to_grid(px("0.4299")),
        Some(GridSnap::Snapped(px("0.4300")))
    );
    assert_eq!(
        grid.snap_to_grid(px("0.4350")),
        Some(GridSnap::Snapped(px("0.4400")))
    );
    for raw in ["0.0037", "0.4301", "0.9501"] {
        let snap = grid.snap_to_grid(px(raw)).expect("non-empty grid");
        assert!(grid.is_valid(snap.price()), "{raw} snapped to invalid");
    }
}

#[test]
fn clamping_from_outside_the_grid_is_reported_not_hidden() {
    let grid = nonuniform_grid();
    let px = |s: &str| Px::parse_dollars(s).expect("valid");

    let above = grid.snap_to_grid(px("2.0000")).expect("non-empty grid");
    assert_eq!(above, GridSnap::Clamped(px("0.9999")));
    assert!(above.is_clamped());
    assert!(above.was_modified());

    let below = grid.snap_to_grid(px("0.0000")).expect("non-empty grid");
    assert!(
        below.is_clamped(),
        "below the lowest band should clamp, got {below:?}"
    );
    let exact = grid.snap_to_grid(px("0.4300")).expect("non-empty grid");
    assert!(!exact.was_modified());
    assert!(!exact.is_clamped());
}

#[test]
fn an_empty_grid_invents_nothing() {
    let grid = PriceRanges::default();
    assert!(grid.is_empty());
    assert!(!grid.is_valid(Px::parse_dollars("0.5000").expect("valid")));
    assert_eq!(
        grid.snap_to_grid(Px::parse_dollars("0.5000").expect("valid")),
        None
    );
}

#[test]
fn rejects_structurally_invalid_grids() {
    assert!(PriceRanges::new(vec![band("0.1000", "0.9000", "0.0000")]).is_err());
    assert!(PriceRanges::new(vec![band("0.9000", "0.1000", "0.0100")]).is_err());
    assert!(PriceRanges::new(vec![
        band("0.5000", "0.9000", "0.0100"),
        band("0.1000", "0.4000", "0.0100"),
    ])
    .is_err());
}

#[test]
fn ticker_accepts_every_ticker_kalshi_actually_documents() {
    for ticker in [
        "KXNFLGAME-25SEP09-KC",
        "CPI-22DEC-TN0.1",
        "FED-23DEC-T3.00",
        "HIGHNY-22DEC23-B53.5",
        "INXD-23SEP14-B4487",
        "KXBTC-25APR30-T0915-B95000",
        "KXBTC15M-26APR160100-00",
        "KXMVE-TEST-EVENT-M1",
        "TSLA-23DEC-T200",
    ] {
        assert!(
            Ticker::parse(ticker).is_ok(),
            "rejected real ticker {ticker:?}"
        );
    }
}

#[test]
fn ticker_normalizes_case_so_partitions_cannot_collide() {
    let upper = Ticker::parse("KXNFLGAME-25SEP09-KC").expect("valid");
    let lower = Ticker::parse("kxnflgame-25sep09-kc").expect("valid");
    let mixed = Ticker::parse("KxNflGame-25Sep09-Kc").expect("valid");
    assert_eq!(upper, lower);
    assert_eq!(upper, mixed);
    assert_eq!(upper.as_str(), "KXNFLGAME-25SEP09-KC");
    assert!(Ticker::parse_strict("KXNFLGAME-25SEP09-KC").is_ok());
    assert!(Ticker::parse_strict("kxnflgame-25sep09-kc").is_err());
    assert!(Ticker::is_canonical("KXNFLGAME-25SEP09-KC"));
    assert!(!Ticker::is_canonical("kxnflgame-25sep09-kc"));
}

#[test]
fn ticker_round_trips_through_its_partition_path_representation() {
    for raw in [
        "KXNFLGAME-25SEP09-KC",
        "CPI-22DEC-TN0.1",
        "HIGHNY-22DEC23-B53.5",
        "KXBTC15M-26APR160100-00",
    ] {
        let ticker = Ticker::parse(raw).expect("valid");
        let root = Path::new("data/orderbook_delta");
        let joined: PathBuf = root.join(ticker.as_partition_component());
        assert!(joined.starts_with(root), "{raw} escaped the data root");
        assert_eq!(
            joined.components().count(),
            root.components().count() + 1,
            "{raw} did not produce exactly one path component"
        );
        let recovered = joined
            .file_name()
            .and_then(|n| n.to_str())
            .expect("utf-8 component");
        assert_eq!(Ticker::parse(recovered).expect("valid"), ticker);
        assert_eq!(recovered, ticker.as_str());
    }
}

#[test]
fn ticker_rejects_what_is_unsafe_as_a_path_component() {
    assert!(Ticker::parse("").is_err());
    assert!(Ticker::parse("..").is_err());
    assert!(Ticker::parse(".").is_err());
    assert!(Ticker::parse("../../etc/passwd").is_err());
    assert!(Ticker::parse(".hidden").is_err());
    assert!(Ticker::parse("A/B").is_err());
    assert!(Ticker::parse("A\\B").is_err());
    assert!(Ticker::parse("A B").is_err());
    assert!(Ticker::parse("A\0B").is_err());
    assert!(Ticker::parse("A\nB").is_err());
    assert!(Ticker::parse(&"A".repeat(129)).is_err());
}

#[test]
fn scales_are_what_the_docs_say_they_are() {
    assert_eq!(PX_SCALE, 1_000_000, "Px is micro-dollars");
    assert_eq!(
        QTY_SCALE, 100,
        "Qty is the documented _fp scale: 2 decimals"
    );
    assert_eq!(Qty::one_contract().fp_units(), 100);
    assert_eq!(Px::one_dollar().micros(), 1_000_000);
}


fn grid_of(document: &Json) -> PriceRanges {
    let price = |band: &Json, key: &str| {
        Px::parse_dollars(band.get(key).and_then(Json::as_str).expect("a text")).expect("a price")
    };
    let bands = document.as_array().expect("an array").iter().map(|band| PriceRange {
        start: price(band, "start"),
        end: price(band, "end"),
        step: price(band, "step"),
    });
    PriceRanges::new(bands.collect()).expect("valid grid")
}

#[test]
fn grid_deserializes_from_the_wire_shape() {
    let json = r#"[
        {"start":"0.0100","end":"0.9900","step":"0.0100"}
    ]"#;
    let grid = grid_of(&Json::parse(json).expect("JSON"));
    assert_eq!(grid.bands().len(), 1);
    assert!(grid.is_valid(Px::parse_dollars("0.4300").expect("valid")));
    assert!(!grid.is_valid(Px::parse_dollars("0.4350").expect("valid")));
}

#[test]
fn sides_oppose_each_other() {
    assert_eq!(Side::Yes.as_str(), "yes");
    assert_eq!(Side::No.as_str(), "no");
    assert_eq!(Side::Yes.opposite(), Side::No);
    assert_eq!(Side::No.opposite(), Side::Yes);
}

#[test]
fn every_parse_error_says_what_is_wrong() {
    let message = |input: &str| Px::parse_dollars(input).unwrap_err().to_display_string();
    assert_eq!(message(""), "cannot parse an empty string as a fixed-point value");
    assert_eq!(
        message("1\n"),
        "invalid character '\\n' in \"1\\n\": expected only ASCII digits, an optional leading \
         '-', and at most one '.'"
    );
    assert_eq!(message(".5"), "no digits before the decimal point in \".5\"");
    assert_eq!(message("5."), "no digits after the decimal point in \"5.\"");
    assert_eq!(message("1.2.3"), "more than one decimal point in \"1.2.3\"");
    assert_eq!(
        message("0.1234567"),
        "\"0.1234567\" carries more precision than scale 1e-6 can hold: excess digits \"7\" are \
         non-zero. Refusing to truncate."
    );
    assert_eq!(
        message("99999999999999999999"),
        "\"99999999999999999999\" at scale 1e-6 does not fit in i64"
    );
    assert_eq!(
        parse_scaled("1", 19).unwrap_err(),
        ParseFixedError::UnsupportedScale { scale: 19 }
    );
    assert_eq!(
        parse_scaled("1", 19).unwrap_err().to_display_string(),
        "internal: scale 19 exceeds the supported maximum of 18"
    );
}

#[test]
fn the_extremes_of_i64_parse_and_print() {
    assert_eq!(parse_scaled("9223372036854775807", 0), Ok(i64::MAX));
    assert_eq!(parse_scaled("-9223372036854775808", 0), Ok(i64::MIN));
    assert!(parse_scaled("9223372036854775808", 0).is_err());
    assert_eq!(format_scaled(i64::MIN, 6), "-9223372036854.775808");
    assert_eq!(format_scaled(-1, 6), "-0.000001");
    assert_eq!(format_scaled(42, 0), "42.0");
}

#[test]
fn complements_saturate_where_they_do_not_fit() {
    assert_eq!(Px::from_micros(i64::MIN).complement(), Px::from_micros(i64::MAX));
    assert_eq!(Px::from_micros(i64::MIN).checked_complement(), None);
    assert_eq!(Px::from_micros(i64::MAX).checked_add(Px::from_micros(1)), None);
    assert_eq!(Px::from_micros(i64::MIN).checked_sub(Px::from_micros(1)), None);
    assert_eq!(Px::zero().complement(), Px::one_dollar());
}

#[test]
fn prices_and_grids_are_shown_with_a_dollar_sign() {
    assert_eq!(Px::parse_dollars("0.43").expect("valid").to_display_string(), "$0.430000");
    let grid = PriceRanges::new(vec![band("0.0100", "0.9900", "0.0100")]).expect("valid grid");
    assert_eq!(grid.duplicate(), grid);
    assert!(grid.to_display_string().contains("$0.010000"));
}

#[test]
fn every_grid_error_names_its_band() {
    let px = |s: &str| Px::parse_dollars(s).expect("valid");
    let step = PriceRanges::new(vec![band("0.1000", "0.9000", "0.0000")]).unwrap_err();
    assert_eq!(step, PriceRangeError::NonPositiveStep { index: 0, step: px("0") });
    assert_eq!(
        step.to_display_string(),
        "band 0 has step $0.000000; a step must be strictly positive"
    );
    let inverted = PriceRanges::new(vec![band("0.9000", "0.1000", "0.0100")]).unwrap_err();
    assert_eq!(
        inverted,
        PriceRangeError::Inverted { index: 0, start: px("0.9"), end: px("0.1") }
    );
    assert_eq!(
        inverted.to_display_string(),
        "band 0 has start $0.900000 after end $0.100000"
    );
    let unsorted = PriceRanges::new(vec![
        band("0.5000", "0.9000", "0.0100"),
        band("0.1000", "0.4000", "0.0100"),
    ])
    .unwrap_err();
    assert_eq!(
        unsorted,
        PriceRangeError::Unsorted { index: 1, start: px("0.1"), previous: px("0.5") }
    );
    assert_eq!(
        unsorted.to_display_string(),
        "band 1 starts at $0.100000, before the previous band's start $0.500000; bands must be \
         sorted ascending"
    );
}

#[test]
fn every_ticker_error_is_distinct() {
    assert_eq!(Ticker::parse(""), Err(TickerError::Empty));
    assert_eq!(
        Ticker::parse("A/B"),
        Err(TickerError::InvalidChar { input: "A/B".to_owned(), ch: '/' })
    );
    assert_eq!(
        Ticker::parse(".hidden"),
        Err(TickerError::UnsafeAsPath { input: ".hidden".to_owned() })
    );
    let long = "A".repeat(129);
    assert_eq!(Ticker::parse(&long), Err(TickerError::TooLong { input: long.clone() }));
    assert_eq!(
        Ticker::parse_strict("abc"),
        Err(TickerError::NotUppercase { input: "abc".to_owned() })
    );
    assert_eq!(
        Ticker::parse("A/B").unwrap_err().to_display_string(),
        "ticker \"A/B\" contains '/'; expected only A-Z, a-z, 0-9, '-', '.', '_'"
    );
    assert_eq!(Ticker::parse("").unwrap_err().to_display_string(), "empty ticker");
    assert_eq!(
        Ticker::parse_strict("abc").unwrap_err().to_display_string(),
        "ticker \"abc\" is not uppercase; use Ticker::parse to normalize it"
    );
}

#[test]
fn quantities_and_notionals_add_without_wrapping() {
    let qty = Qty::parse_fp("1.50").expect("valid");
    assert_eq!(qty.checked_add(qty), Some(Qty::from_fp_units(300)));
    assert_eq!(Qty::from_fp_units(i64::MAX).checked_add(qty), None);
    assert_eq!(Qty::from_fp_units(i64::MIN).checked_sub(qty), None);
    assert!(Qty::zero().is_zero());
    assert!(Qty::from_fp_units(-1).is_negative());
    assert_eq!(
        Notional::from_units(7).checked_add(Notional::from_units(8)),
        Some(Notional::from_units(15))
    );
    assert_eq!(Notional::from_units(i64::MIN).checked_sub(Notional::from_units(1)), None);
    assert_eq!(Notional::zero().to_micro_dollars(), 0);
}
