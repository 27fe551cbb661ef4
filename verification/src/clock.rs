//! Calendar texts of instants, which are nanoseconds since the Unix epoch.

use crate::parse::{self, push_decimal, push_fixed_digits};
use chrono::Datelike;
use vstd::prelude::*;

verus! {

pub const NANOS_PER_SECOND: i128 = 1_000_000_000;

/// The whole seconds of an instant, rounded down.
pub open spec fn seconds_of(at: int) -> int {
    at / 1_000_000_000
}

/// The nanoseconds of an instant past its whole second.
pub open spec fn nanos_of(at: int) -> int {
    at % 1_000_000_000
}

/// Whether the calendar reaches an instant: the years -262143 to 262142.
pub open spec fn in_calendar(at: int) -> bool {
    -8_334_601_228_800 <= seconds_of(at) <= 8_210_266_876_799
}

/// Year, month and day in UTC, by `chrono::DateTime`.
pub uninterp spec fn utc_date(seconds: int) -> (i32, u32, u32);

/// The pattern of a text to the second.
pub const SECOND_PATTERN: &'static str = "%Y%m%dT%H%M%SZ";

/// The pattern of a text to the millisecond.
pub const MILLI_PATTERN: &'static str = "%Y%m%dT%H%M%S%.3fZ";

/// The text of an instant in UTC by a `strftime` pattern, by `chrono`.
pub uninterp spec fn pattern_text(seconds: int, nanos: int, pattern: Seq<char>) -> Seq<char>;

/// The text of a second in UTC, as in `20260101T000000Z`.
pub open spec fn second_stamp(seconds: int) -> Seq<char> {
    pattern_text(seconds, 0, SECOND_PATTERN@)
}

/// The text of an instant in UTC, as in `20260101T000000.000Z`.
pub open spec fn milli_stamp(seconds: int, nanos: int) -> Seq<char> {
    pattern_text(seconds, nanos, MILLI_PATTERN@)
}

/// The RFC 3339 text of an instant in UTC, by `chrono`.
pub uninterp spec fn rfc3339_text(seconds: int, nanos: int) -> Seq<char>;

/// `chrono::DateTime::from_timestamp` and the `Datelike` readings of it depend on
/// the second alone; months and days count from one.
#[verifier::external_body]
fn chrono_date(seconds: i64) -> (out: (i32, u32, u32))
    requires
        -8_334_601_228_800 <= seconds <= 8_210_266_876_799,
    ensures
        out == utc_date(seconds as int),
        1 <= out.1 <= 12,
        1 <= out.2 <= 31,
{
    let at = chrono::DateTime::from_timestamp(seconds, 0).unwrap_or_default();
    (at.year(), at.month(), at.day())
}

/// `chrono::DateTime::format` depends on the instant and the pattern alone. On a
/// pattern that it does not know the text cannot be written out, so only the two
/// patterns of this module are handed to it.
#[verifier::external_body]
fn chrono_text(seconds: i64, nanos: u32, pattern: &str) -> (out: String)
    requires
        -8_334_601_228_800 <= seconds <= 8_210_266_876_799,
        nanos < 1_000_000_000,
        pattern@ == SECOND_PATTERN@ || pattern@ == MILLI_PATTERN@,
    ensures
        out@ == pattern_text(seconds as int, nanos as int, pattern@),
{
    let at = chrono::DateTime::from_timestamp(seconds, nanos).unwrap_or_default();
    at.format(pattern).to_string()
}

/// `chrono::DateTime::to_rfc3339` depends on the instant alone.
#[verifier::external_body]
fn chrono_rfc3339(seconds: i64, nanos: u32) -> (out: String)
    requires
        -8_334_601_228_800 <= seconds <= 8_210_266_876_799,
        nanos < 1_000_000_000,
    ensures
        out@ == rfc3339_text(seconds as int, nanos as int),
{
    chrono::DateTime::from_timestamp(seconds, nanos).unwrap_or_default().to_rfc3339()
}

/// The whole seconds and the rest of an instant.
fn split_instant(at: i128) -> (out: (i64, u32))
    requires
        in_calendar(at as int),
    ensures
        out.0 == seconds_of(at as int),
        out.1 == nanos_of(at as int),
        out.1 < 1_000_000_000,
{
    let shifted: i128 = at + 10_000_000_000_000i128 * NANOS_PER_SECOND;
    let seconds: i128 = shifted / NANOS_PER_SECOND - 10_000_000_000_000i128;
    let nanos: i128 = shifted % NANOS_PER_SECOND;
    (seconds as i64, nanos as u32)
}

/// The decimal of `n` with leading zeros up to `width` digits.
pub open spec fn zero_filled(n: nat, width: nat) -> Seq<char> {
    if parse::decimal(n).len() >= width {
        parse::decimal(n)
    } else {
        parse::fixed_digits(n, width)
    }
}

/// A year with at least four characters, the sign included.
pub open spec fn year_text(year: int) -> Seq<char> {
    if year < 0 {
        seq!['-'] + zero_filled((-year) as nat, 3)
    } else {
        zero_filled(year as nat, 4)
    }
}

/// A date as `YYYY-MM-DD`.
pub open spec fn date_text(date: (i32, u32, u32)) -> Seq<char> {
    year_text(date.0 as int) + seq!['-'] + zero_filled(date.1 as nat, 2) + seq!['-'] + zero_filled(
        date.2 as nat,
        2,
    )
}

fn push_zero_filled(out: &mut String, n: u32, width: u32)
    requires
        width <= 4,
    ensures
        final(out)@ == old(out)@ + zero_filled(n as nat, width as nat),
{
    let wide = if width <= 1 {
        true
    } else if width == 2 {
        n >= 10
    } else if width == 3 {
        n >= 100
    } else {
        n >= 1_000
    };
    proof {
        reveal_with_fuel(parse::decimal, 5);
        lemma_decimal_len(n as nat);
    }
    if wide {
        push_decimal(out, n as u128);
    } else {
        push_fixed_digits(out, n as u128, width);
    }
}

proof fn lemma_decimal_len(n: nat)
    ensures
        parse::decimal(n).len() >= 1,
        n < 10 ==> parse::decimal(n).len() == 1,
        10 <= n < 100 ==> parse::decimal(n).len() == 2,
        100 <= n < 1_000 ==> parse::decimal(n).len() == 3,
        n >= 10 ==> parse::decimal(n).len() >= 2,
        n >= 100 ==> parse::decimal(n).len() >= 3,
        n >= 1_000 ==> parse::decimal(n).len() >= 4,
    decreases n,
{
    if n >= 10 {
        lemma_decimal_len(n / 10);
    }
}

/// The text of a date.
pub fn date_string(date: (i32, u32, u32)) -> (out: String)
    ensures
        out@ == date_text(date),
{
    let (year, month, day) = date;
    let mut out = String::new();
    if year < 0 {
        out.push('-');
        push_zero_filled(&mut out, (-(year as i64)) as u32, 3);
    } else {
        push_zero_filled(&mut out, year as u32, 4);
    }
    assert(out@ =~= year_text(year as int));
    out.push('-');
    push_zero_filled(&mut out, month, 2);
    out.push('-');
    push_zero_filled(&mut out, day, 2);
    assert(out@ =~= date_text(date));
    out
}

/// The UTC date of an instant, as `YYYY-MM-DD`.
pub fn utc_date_string(at: i128) -> (out: String)
    requires
        in_calendar(at as int),
    ensures
        out@ == date_text(utc_date(seconds_of(at as int))),
{
    let (seconds, _) = split_instant(at);
    date_string(chrono_date(seconds))
}

pub fn second_stamp_string(at: i128) -> (out: String)
    requires
        in_calendar(at as int),
    ensures
        out@ == second_stamp(seconds_of(at as int)),
{
    let (seconds, _) = split_instant(at);
    chrono_text(seconds, 0, SECOND_PATTERN)
}

pub fn milli_stamp_string(at: i128) -> (out: String)
    requires
        in_calendar(at as int),
    ensures
        out@ == milli_stamp(seconds_of(at as int), nanos_of(at as int)),
{
    let (seconds, nanos) = split_instant(at);
    chrono_text(seconds, nanos, MILLI_PATTERN)
}

pub fn rfc3339_string(at: i128) -> (out: String)
    requires
        in_calendar(at as int),
    ensures
        out@ == rfc3339_text(seconds_of(at as int), nanos_of(at as int)),
{
    let (seconds, nanos) = split_instant(at);
    chrono_rfc3339(seconds, nanos)
}

/// An instant is its whole seconds and less than a second past them, before the epoch
/// too.
pub proof fn law_an_instant_is_seconds_and_nanoseconds(at: int)
    ensures
        seconds_of(at) * 1_000_000_000 + nanos_of(at) == at,
        0 <= nanos_of(at) < 1_000_000_000,
        at >= 0 <==> seconds_of(at) >= 0,
{
}

/// A date is written year, month, day, with four, two and two digits, so that texts sort
/// as dates do.
pub proof fn law_dates_are_written_year_first(year: i32, month: u32, day: u32)
    requires
        0 <= year <= 9999,
        1 <= month <= 12,
        1 <= day <= 31,
    ensures
        ({
            let text = date_text((year, month, day));
            &&& text.len() == 10
            &&& text[4] == '-' && text[7] == '-'
            &&& parse::digits_value(text.subrange(0, 4)) == year
            &&& parse::digits_value(text.subrange(5, 7)) == month
            &&& parse::digits_value(text.subrange(8, 10)) == day
        }),
{
    lemma_zero_filled(year as nat, 4);
    lemma_zero_filled(month as nat, 2);
    lemma_zero_filled(day as nat, 2);
    let text = date_text((year, month, day));
    assert(text.subrange(0, 4) =~= zero_filled(year as nat, 4));
    assert(text.subrange(5, 7) =~= zero_filled(month as nat, 2));
    assert(text.subrange(8, 10) =~= zero_filled(day as nat, 2));
}

proof fn lemma_zero_filled(n: nat, width: nat)
    requires
        width == 2 && n < 100 || width == 4 && n < 10_000,
    ensures
        zero_filled(n, width).len() == width,
        parse::digits_value(zero_filled(n, width)) == n,
{
    lemma_decimal_len(n);
    lemma_decimal_at_most(n);
    parse::law_digits_are_read_as_written(Seq::empty(), '0', n);
    reveal_with_fuel(parse::pow10, 5);
    parse::lemma_fixed_digits(n, width);
}

proof fn lemma_decimal_at_most(n: nat)
    ensures
        n < 100 ==> parse::decimal(n).len() <= 2,
        n < 10_000 ==> parse::decimal(n).len() <= 4,
{
    reveal_with_fuel(parse::decimal, 5);
}

/// File and session texts are made by these patterns.
pub proof fn law_stamps_follow_their_patterns(seconds: int, nanos: int)
    ensures
        second_stamp(seconds) == pattern_text(seconds, 0, "%Y%m%dT%H%M%SZ"@),
        milli_stamp(seconds, nanos) == pattern_text(seconds, nanos, "%Y%m%dT%H%M%S%.3fZ"@),
{
}

} // verus!
