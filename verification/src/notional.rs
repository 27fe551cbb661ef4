//! [`Notional`]: the exact product of a price and a quantity.

use crate::parse::{self, format_scaled};
use crate::px::{self, Px, PX_SCALE, PX_SCALE_DIGITS};
use crate::qty::{Qty, QTY_SCALE, QTY_SCALE_DIGITS};
use vstd::prelude::*;

verus! {

/// Fractional digits held by [`Notional`]: the sum of its factors' digits,
/// which is why the product needs no rounding.
pub const NOTIONAL_SCALE_DIGITS: u32 = 8;

/// `10^NOTIONAL_SCALE_DIGITS`.
pub const NOTIONAL_SCALE: i64 = 100_000_000;

/// `Px * Qty`, in hundred-millionths of a dollar.
#[derive(Copy, Clone, PartialEq, Eq, Structural, PartialOrd, Ord, Debug)]
pub struct Notional(pub i64);

impl Notional {
    pub fn zero() -> (out: Notional)
        ensures
            out == Notional(0),
    {
        Notional(0)
    }

    /// `price * quantity`, exact; nothing only where it does not fit an `i64`.
    pub fn from_px_qty(price: Px, quantity: Qty) -> (out: Option<Notional>)
        ensures
            match out {
                Some(notional) => notional.0 == price.0 * quantity.0,
                None => !px::fits(price.0 * quantity.0),
            },
    {
        let p: i128 = price.0 as i128;
        let q: i128 = quantity.0 as i128;
        proof {
            assert(-85070591730234615865843651857942052864 <= p * q
                <= 85070591730234615865843651857942052864) by (nonlinear_arith)
                requires
                    i64::MIN <= p <= i64::MAX,
                    i64::MIN <= q <= i64::MAX,
            ;
        }
        let product: i128 = p * q;
        if i64::MIN as i128 <= product && product <= i64::MAX as i128 {
            Some(Notional(product as i64))
        } else {
            None
        }
    }

    pub fn from_units(units: i64) -> (out: Notional)
        ensures
            out == Notional(units),
    {
        Notional(units)
    }

    /// The raw scaled integer.
    pub fn units(self) -> (out: i64)
        ensures
            out == self.0,
    {
        self.0
    }

    pub fn checked_add(self, other: Notional) -> (out: Option<Notional>)
        ensures
            match out {
                Some(notional) => notional.0 == self.0 + other.0,
                None => !px::fits(self.0 + other.0),
            },
    {
        match self.0.checked_add(other.0) {
            Some(units) => Some(Notional(units)),
            None => None,
        }
    }

    pub fn checked_sub(self, other: Notional) -> (out: Option<Notional>)
        ensures
            match out {
                Some(notional) => notional.0 == self.0 - other.0,
                None => !px::fits(self.0 - other.0),
            },
    {
        match self.0.checked_sub(other.0) {
            Some(units) => Some(Notional(units)),
            None => None,
        }
    }

    /// The one scale-reducing function: hundred-millionths to micro-dollars,
    /// rounding half away from zero.
    pub fn to_micro_dollars(self) -> (out: i64)
        ensures
            out == rounded_half_away(self.0 as int),
    {
        let value: i128 = self.0 as i128;
        let rounded: i128 = if value >= 0 {
            (value + 50) / 100
        } else {
            -((50 - value) / 100)
        };
        rounded as i64
    }

    /// Exact decimal string with 8 fractional digits.
    pub fn to_dollar_string(self) -> (out: String)
        ensures
            out@ == parse::scaled_text(self.0 as int, NOTIONAL_SCALE_DIGITS as nat),
    {
        format_scaled(self.0, NOTIONAL_SCALE_DIGITS)
    }

    /// The amount as shown to people: a dollar sign before the exact decimal.
    pub fn to_display_string(self) -> (out: String)
        ensures
            out@ == seq!['$'] + parse::scaled_text(self.0 as int, NOTIONAL_SCALE_DIGITS as nat),
    {
        let mut out = String::new();
        out.push('$');
        out.append(self.to_dollar_string().as_str());
        assert(out@ =~= seq!['$'] + parse::scaled_text(self.0 as int, NOTIONAL_SCALE_DIGITS as nat));
        out
    }
}

/// `units / 100` rounded to the nearest integer, a half going away from zero.
pub open spec fn rounded_half_away(units: int) -> int {
    if units >= 0 {
        (units + 50) / 100
    } else {
        -((50 - units) / 100)
    }
}

/// Rounding is symmetric about zero and never off by more than half a unit.
pub proof fn law_rounding_is_symmetric(units: int)
    ensures
        rounded_half_away(-units) == -rounded_half_away(units),
        -50 <= units - 100 * rounded_half_away(units) <= 50,
{
}

/// The scale of a product is the product of its factors' scales.
pub proof fn law_scales_multiply()
    ensures
        NOTIONAL_SCALE == PX_SCALE * QTY_SCALE,
        NOTIONAL_SCALE_DIGITS == PX_SCALE_DIGITS + QTY_SCALE_DIGITS,
        PX_SCALE == parse::pow10(PX_SCALE_DIGITS as nat),
        QTY_SCALE == parse::pow10(QTY_SCALE_DIGITS as nat),
        NOTIONAL_SCALE == parse::pow10(NOTIONAL_SCALE_DIGITS as nat),
{
    reveal_with_fuel(parse::pow10, 9);
}

/// A notional is the price times the quantity, to the last digit, or nothing where that
/// does not fit; and it is reduced to micro-dollars by the nearest, a half away from
/// zero.
pub proof fn law_a_notional_is_the_product(
    price: Px,
    quantity: Qty,
    product: Option<Notional>,
    amount: Notional,
    micros: i64,
    other: Notional,
    sum: Option<Notional>,
    difference: Option<Notional>,
)
    requires
        call_ensures(Notional::from_px_qty, (price, quantity), product),
        call_ensures(Notional::to_micro_dollars, (amount,), micros),
        call_ensures(Notional::checked_add, (amount, other), sum),
        call_ensures(Notional::checked_sub, (amount, other), difference),
    ensures
        product is Some <==> i64::MIN <= price.0 * quantity.0 <= i64::MAX,
        product matches Some(notional) ==> notional.0 == price.0 * quantity.0,
        amount.0 >= 0 ==> amount.0 - 50 < 100 * micros <= amount.0 + 50,
        amount.0 < 0 ==> amount.0 - 50 <= 100 * micros < amount.0 + 50,
        sum is Some <==> i64::MIN <= amount.0 + other.0 <= i64::MAX,
        sum matches Some(notional) ==> notional.0 - other.0 == amount.0,
        difference is Some <==> i64::MIN <= amount.0 - other.0 <= i64::MAX,
        difference matches Some(notional) ==> notional.0 + other.0 == amount.0,
        NOTIONAL_SCALE == 100_000_000,
{
}

/// A notional is its units either way, and is shown as its dollars.
pub proof fn law_notionals_are_their_units(
    notional: Notional,
    units: i64,
    again: Notional,
    written: String,
    shown: String,
)
    requires
        call_ensures(Notional::units, (notional,), units),
        call_ensures(Notional::from_units, (units,), again),
        call_ensures(Notional::to_dollar_string, (notional,), written),
        call_ensures(Notional::to_display_string, (notional,), shown),
    ensures
        again == notional && units == notional.0,
        shown@ == seq!['$'] + written@,
        written@ == parse::scaled_text(units as int, 8),
{
}

} // verus!
