//! [`Qty`]: a contract count in hundredths of a contract.

use crate::parse::{self, format_scaled, parse_scaled, ParseFailure, ParseFixedError};
use crate::px;
use vstd::prelude::*;

verus! {

/// Fractional digits held by [`Qty`].
///
/// Not the scale of a price: the exchange defines the two differently.
pub const QTY_SCALE_DIGITS: u32 = 2;

/// `10^QTY_SCALE_DIGITS`: one whole contract.
pub const QTY_SCALE: i64 = 100;

/// Contract quantity in hundredths of a contract. `1.00 contract == 100`.
///
/// Signed, because an order book delta is a signed mutation.
#[derive(Copy, Clone, PartialEq, Eq, Structural, PartialOrd, Ord, Debug)]
pub struct Qty(pub i64);

/// What parsing a quantity text gives.
pub open spec fn quantity_outcome(text: Seq<char>) -> Result<int, ParseFailure> {
    parse::parse_outcome(text, QTY_SCALE_DIGITS)
}

/// The text of a quantity: two fractional digits.
pub open spec fn quantity_text(quantity: Qty) -> Seq<char> {
    parse::scaled_text(quantity.0 as int, QTY_SCALE_DIGITS as nat)
}

impl Qty {
    pub fn zero() -> (out: Qty)
        ensures
            out == Qty(0),
    {
        Qty(0)
    }

    pub fn one_contract() -> (out: Qty)
        ensures
            out == Qty(QTY_SCALE),
    {
        Qty(QTY_SCALE)
    }

    pub fn from_fp_units(units: i64) -> (out: Qty)
        ensures
            out == Qty(units),
    {
        Qty(units)
    }

    /// The raw scaled integer: hundredths of a contract.
    pub fn fp_units(self) -> (out: i64)
        ensures
            out == self.0,
    {
        self.0
    }

    /// Parse an `_fp` wire string, e.g. `"10.00"`.
    ///
    /// Rejects rather than truncates beyond 2 decimals.
    pub fn parse_fp(s: &str) -> (result: Result<Qty, ParseFixedError>)
        ensures
            match result {
                Ok(quantity) => quantity_outcome(s@) == Ok::<int, ParseFailure>(quantity.0 as int),
                Err(error) => quantity_outcome(s@) == Err::<int, ParseFailure>(error@),
            },
    {
        match parse_scaled(s, QTY_SCALE_DIGITS) {
            Ok(units) => Ok(Qty(units)),
            Err(error) => Err(error),
        }
    }

    pub fn checked_add(self, other: Qty) -> (out: Option<Qty>)
        ensures
            match out {
                Some(quantity) => quantity.0 == self.0 + other.0,
                None => !px::fits(self.0 + other.0),
            },
    {
        match self.0.checked_add(other.0) {
            Some(units) => Some(Qty(units)),
            None => None,
        }
    }

    pub fn checked_sub(self, other: Qty) -> (out: Option<Qty>)
        ensures
            match out {
                Some(quantity) => quantity.0 == self.0 - other.0,
                None => !px::fits(self.0 - other.0),
            },
    {
        match self.0.checked_sub(other.0) {
            Some(units) => Some(Qty(units)),
            None => None,
        }
    }

    pub fn is_zero(self) -> (out: bool)
        ensures
            out == (self.0 == 0),
    {
        self.0 == 0
    }

    pub fn is_negative(self) -> (out: bool)
        ensures
            out == (self.0 < 0),
    {
        self.0 < 0
    }

    /// Exact decimal string with 2 fractional digits.
    pub fn to_fp_string(self) -> (out: String)
        ensures
            out@ == quantity_text(self),
    {
        format_scaled(self.0, QTY_SCALE_DIGITS)
    }
}

/// Every quantity survives its text form.
pub proof fn law_quantity_text_round_trips(quantity: Qty)
    ensures
        quantity_outcome(quantity_text(quantity)) == Ok::<int, ParseFailure>(quantity.0 as int),
{
    parse::law_format_then_parse(quantity.0, QTY_SCALE_DIGITS);
}

/// A quantity is counted in hundredths of a contract, and its text has two digits after
/// the point.
pub proof fn law_quantities_are_in_hundredths(quantity: Qty)
    ensures
        QTY_SCALE == 100,
        QTY_SCALE_DIGITS == 2,
        quantity_text(quantity).len() >= 4,
        quantity_text(quantity)[quantity_text(quantity).len() - 3] == '.',
        quantity.0 < 0 <==> quantity_text(quantity)[0] == '-',
{
    parse::law_scaled_texts_have_one_form(quantity.0 as int, 2);
}

/// A quantity text is read at its value: whole contracts as hundreds, and each digit
/// after the point at its place.
pub proof fn law_quantity_texts_are_read_at_their_value(
    text: &str,
    whole: Seq<char>,
    frac: Seq<char>,
    result: Result<Qty, ParseFixedError>,
)
    requires
        call_ensures(Qty::parse_fp, (text,), result),
        text@ == whole + (seq!['.'] + frac),
        0 < whole.len() <= 16,
        0 < frac.len() <= 2,
        forall|i: int| 0 <= i < whole.len() ==> '0' <= #[trigger] whole[i] <= '9',
        forall|i: int| 0 <= i < frac.len() ==> '0' <= #[trigger] frac[i] <= '9',
    ensures
        result matches Ok(quantity) && quantity.0 == parse::digits_value(whole) * 100
            + parse::digits_value(frac) * parse::pow10((2 - frac.len()) as nat),
{
    parse::law_decimals_are_accepted_at_their_value(false, whole, frac, 2);
    assert(Seq::<char>::empty() + whole + (seq!['.'] + frac) =~= text@);
    reveal_with_fuel(parse::pow10, 17);
    parse::lemma_digits_value_bounds(whole);
    parse::lemma_digits_value_bounds(frac);
    parse::lemma_pow10_monotone(whole.len(), 16);
    parse::lemma_pow10_adds(frac.len(), (2 - frac.len()) as nat);
    let f = parse::digits_value(frac);
    let a = parse::pow10(frac.len());
    let b = parse::pow10((2 - frac.len()) as nat);
    parse::lemma_pow10_positive((2 - frac.len()) as nat);
    assert(0 <= f * b < 100) by (nonlinear_arith)
        requires
            0 <= f < a,
            a * b == 100,
            b >= 1,
    ;
}

/// Arithmetic on quantities is that of their hundredths, or nothing where it does not
/// fit.
pub proof fn law_quantity_arithmetic_is_exact(
    a: Qty,
    b: Qty,
    sum: Option<Qty>,
    difference: Option<Qty>,
    zero: bool,
    negative: bool,
    one: Qty,
)
    requires
        call_ensures(Qty::checked_add, (a, b), sum),
        call_ensures(Qty::checked_sub, (a, b), difference),
        call_ensures(Qty::is_zero, (a,), zero),
        call_ensures(Qty::is_negative, (a,), negative),
        call_ensures(Qty::one_contract, (), one),
    ensures
        sum is Some <==> i64::MIN <= a.0 + b.0 <= i64::MAX,
        sum matches Some(quantity) ==> quantity.0 - b.0 == a.0,
        difference is Some <==> i64::MIN <= a.0 - b.0 <= i64::MAX,
        difference matches Some(quantity) ==> quantity.0 + b.0 == a.0,
        zero <==> a.0 == 0,
        negative <==> a.0 < 0,
        one.0 == 100,
{
}

/// A quantity is its hundredths either way, and its text is read back as the quantity.
pub proof fn law_quantities_are_read_back_as_written(
    quantity: Qty,
    units: i64,
    again: Qty,
    written: String,
    text: &str,
    result: Result<Qty, ParseFixedError>,
)
    requires
        call_ensures(Qty::fp_units, (quantity,), units),
        call_ensures(Qty::from_fp_units, (units,), again),
        call_ensures(Qty::to_fp_string, (quantity,), written),
        text@ == written@,
        call_ensures(Qty::parse_fp, (text,), result),
    ensures
        again == quantity && units == quantity.0,
        result matches Ok(read) && read == quantity,
{
    law_quantity_text_round_trips(quantity);
}

} // verus!
