//! [`Px`]: a price in micro-dollars.

use crate::parse::{self, format_scaled, parse_scaled, ParseFailure, ParseFixedError};
use vstd::prelude::*;

verus! {

/// Fractional digits held by [`Px`].
pub const PX_SCALE_DIGITS: u32 = 6;

/// `10^PX_SCALE_DIGITS`: one dollar in micro-dollars.
pub const PX_SCALE: i64 = 1_000_000;

/// A price in micro-dollars: `$1.00 == 1_000_000`.
///
/// There is no arithmetic against raw integers and no operator overloading:
/// every scale conversion is a named method.
#[derive(Copy, Clone, PartialEq, Eq, Structural, PartialOrd, Ord, Hash, Debug)]
pub struct Px(pub i64);

/// The `i64` nearest to `value`.
pub open spec fn saturated(value: int) -> int {
    if value > i64::MAX {
        i64::MAX as int
    } else if value < i64::MIN {
        i64::MIN as int
    } else {
        value
    }
}

/// Whether `value` fits an `i64`.
pub open spec fn fits(value: int) -> bool {
    i64::MIN <= value <= i64::MAX
}

/// What parsing a price text gives.
pub open spec fn price_outcome(text: Seq<char>) -> Result<int, ParseFailure> {
    parse::parse_outcome(text, PX_SCALE_DIGITS)
}

/// A price as shown to people.
pub open spec fn price_display(price: Px) -> Seq<char> {
    seq!['$'] + price_text(price)
}

/// The text of a price: six fractional digits.
pub open spec fn price_text(price: Px) -> Seq<char> {
    parse::scaled_text(price.0 as int, PX_SCALE_DIGITS as nat)
}

impl Px {
    pub fn zero() -> (out: Px)
        ensures
            out == Px(0),
    {
        Px(0)
    }

    /// `$1.00`. A binary market's YES and NO legs sum to exactly this.
    pub fn one_dollar() -> (out: Px)
        ensures
            out == Px(PX_SCALE),
    {
        Px(PX_SCALE)
    }

    pub fn from_micros(micros: i64) -> (out: Px)
        ensures
            out == Px(micros),
    {
        Px(micros)
    }

    pub fn micros(self) -> (out: i64)
        ensures
            out == self.0,
    {
        self.0
    }

    /// Parse a `*_dollars` wire string, e.g. `"0.5500"`.
    pub fn parse_dollars(s: &str) -> (result: Result<Px, ParseFixedError>)
        ensures
            match result {
                Ok(price) => price_outcome(s@) == Ok::<int, ParseFailure>(price.0 as int),
                Err(error) => price_outcome(s@) == Err::<int, ParseFailure>(error@),
            },
    {
        match parse_scaled(s, PX_SCALE_DIGITS) {
            Ok(micros) => Ok(Px(micros)),
            Err(error) => Err(error),
        }
    }

    /// The complementary price: `$1.00 - self`.
    ///
    /// Saturates rather than panicking for prices that no wire value reaches.
    pub fn complement(self) -> (out: Px)
        ensures
            out.0 == saturated(PX_SCALE - self.0),
    {
        match PX_SCALE.checked_sub(self.0) {
            Some(micros) => Px(micros),
            None => Px(i64::MAX),
        }
    }

    /// [`Px::complement`] that reports overflow instead of saturating.
    pub fn checked_complement(self) -> (out: Option<Px>)
        ensures
            match out {
                Some(price) => price.0 == PX_SCALE - self.0,
                None => !fits(PX_SCALE - self.0),
            },
    {
        match PX_SCALE.checked_sub(self.0) {
            Some(micros) => Some(Px(micros)),
            None => None,
        }
    }

    pub fn checked_add(self, other: Px) -> (out: Option<Px>)
        ensures
            match out {
                Some(price) => price.0 == self.0 + other.0,
                None => !fits(self.0 + other.0),
            },
    {
        match self.0.checked_add(other.0) {
            Some(micros) => Some(Px(micros)),
            None => None,
        }
    }

    /// Difference between two prices: a spread, when applied to an ask and a bid.
    pub fn checked_sub(self, other: Px) -> (out: Option<Px>)
        ensures
            match out {
                Some(price) => price.0 == self.0 - other.0,
                None => !fits(self.0 - other.0),
            },
    {
        match self.0.checked_sub(other.0) {
            Some(micros) => Some(Px(micros)),
            None => None,
        }
    }

    /// Midpoint of two prices, rounded toward negative infinity.
    pub fn midpoint(self, other: Px) -> (out: Px)
        ensures
            2 * out.0 <= self.0 + other.0 < 2 * out.0 + 2,
    {
        let sum: i128 = self.0 as i128 + other.0 as i128;
        let mid: i128 = if sum >= 0 {
            sum / 2
        } else {
            -((1 - sum) / 2)
        };
        Px(mid as i64)
    }

    /// Exact decimal string with 6 fractional digits.
    pub fn to_dollar_string(self) -> (out: String)
        ensures
            out@ == price_text(self),
    {
        format_scaled(self.0, PX_SCALE_DIGITS)
    }

    /// The price as shown to people: a dollar sign before the exact decimal.
    pub fn to_display_string(self) -> (out: String)
        ensures
            out@ == price_display(self),
    {
        let mut out = String::new();
        out.push('$');
        out.append(self.to_dollar_string().as_str());
        assert(out@ =~= price_display(self));
        out
    }
}

/// YES and NO prices that are complements sum to exactly one dollar, and taking
/// the complement twice gives the price back.
pub proof fn law_complement_sums_to_one_dollar(price: Px)
    requires
        fits(PX_SCALE - price.0),
    ensures
        price.0 + saturated(PX_SCALE - price.0) == PX_SCALE,
        saturated(PX_SCALE - saturated(PX_SCALE - price.0)) == price.0,
{
}

/// Every price survives its text form.
pub proof fn law_price_text_round_trips(price: Px)
    ensures
        price_outcome(price_text(price)) == Ok::<int, ParseFailure>(price.0 as int),
{
    parse::law_format_then_parse(price.0, PX_SCALE_DIGITS);
}

/// A price is counted in millionths of a dollar, and its text has six digits after the
/// point.
pub proof fn law_prices_are_in_micro_dollars(price: Px)
    ensures
        PX_SCALE == 1_000_000,
        PX_SCALE_DIGITS == 6,
        price_text(price).len() >= 8,
        price_text(price)[price_text(price).len() - 7] == '.',
        price.0 < 0 <==> price_text(price)[0] == '-',
        price_display(price) == seq!['$'] + price_text(price),
{
    parse::law_scaled_texts_have_one_form(price.0 as int, 6);
}

/// A price text is read at its value: dollars as millions, and each digit after the
/// point at its place.
pub proof fn law_price_texts_are_read_at_their_value(
    text: &str,
    whole: Seq<char>,
    frac: Seq<char>,
    result: Result<Px, ParseFixedError>,
)
    requires
        call_ensures(Px::parse_dollars, (text,), result),
        text@ == whole + (seq!['.'] + frac),
        0 < whole.len() <= 12,
        0 < frac.len() <= 6,
        forall|i: int| 0 <= i < whole.len() ==> '0' <= #[trigger] whole[i] <= '9',
        forall|i: int| 0 <= i < frac.len() ==> '0' <= #[trigger] frac[i] <= '9',
    ensures
        result matches Ok(price) && price.0 == parse::digits_value(whole) * 1_000_000
            + parse::digits_value(frac) * parse::pow10((6 - frac.len()) as nat),
{
    parse::law_decimals_are_accepted_at_their_value(false, whole, frac, 6);
    assert(Seq::<char>::empty() + whole + (seq!['.'] + frac) =~= text@);
    reveal_with_fuel(parse::pow10, 13);
    parse::lemma_digits_value_bounds(whole);
    parse::lemma_digits_value_bounds(frac);
    parse::lemma_pow10_monotone(whole.len(), 12);
    parse::lemma_pow10_adds(frac.len(), (6 - frac.len()) as nat);
    let f = parse::digits_value(frac);
    let a = parse::pow10(frac.len());
    let b = parse::pow10((6 - frac.len()) as nat);
    parse::lemma_pow10_positive((6 - frac.len()) as nat);
    assert(0 <= f * b < 1_000_000) by (nonlinear_arith)
        requires
            0 <= f < a,
            a * b == 1_000_000,
            b >= 1,
    ;
}

/// Arithmetic on prices is that of their micro-dollars, or nothing where it does not fit.
pub proof fn law_price_arithmetic_is_exact(
    a: Px,
    b: Px,
    sum: Option<Px>,
    difference: Option<Px>,
    rest: Option<Px>,
    complement: Px,
    middle: Px,
    one: Px,
    zero: Px,
)
    requires
        call_ensures(Px::checked_add, (a, b), sum),
        call_ensures(Px::checked_sub, (a, b), difference),
        call_ensures(Px::checked_complement, (a,), rest),
        call_ensures(Px::complement, (a,), complement),
        call_ensures(Px::midpoint, (a, b), middle),
        call_ensures(Px::one_dollar, (), one),
        call_ensures(Px::zero, (), zero),
    ensures
        sum is Some <==> i64::MIN <= a.0 + b.0 <= i64::MAX,
        sum matches Some(price) ==> price.0 - b.0 == a.0,
        difference is Some <==> i64::MIN <= a.0 - b.0 <= i64::MAX,
        difference matches Some(price) ==> price.0 + b.0 == a.0,
        rest is Some <==> i64::MIN <= 1_000_000 - a.0 <= i64::MAX,
        rest matches Some(price) ==> price == complement && price.0 + a.0 == 1_000_000,
        rest is None ==> complement.0 == i64::MAX,
        a.0 + b.0 - 1 <= 2 * middle.0 <= a.0 + b.0,
        one.0 == 1_000_000,
        zero.0 == 0,
{
}

/// A price is its micro-dollars either way, and its text is read back as the price.
pub proof fn law_prices_are_read_back_as_written(
    price: Px,
    micros: i64,
    again: Px,
    written: String,
    shown: String,
    text: &str,
    result: Result<Px, ParseFixedError>,
)
    requires
        call_ensures(Px::micros, (price,), micros),
        call_ensures(Px::from_micros, (micros,), again),
        call_ensures(Px::to_dollar_string, (price,), written),
        call_ensures(Px::to_display_string, (price,), shown),
        text@ == written@,
        call_ensures(Px::parse_dollars, (text,), result),
    ensures
        again == price && micros == price.0,
        result matches Ok(read) && read == price,
        shown@ == seq!['$'] + written@,
{
    law_price_text_round_trips(price);
}

} // verus!
