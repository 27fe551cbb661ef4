//! Exact decimal-string to scaled-integer parsing.
//!
//! Ticks go down to $0.0001, which has no exact binary representation, so
//! nothing here ever passes through a float. Excess precision is an error, not
//! a truncation; the one exception is trailing zeros, which lose nothing.

use crate::text::{chars_of, string_of};
use vstd::prelude::*;

verus! {

/// The largest scale the parser accepts.
pub const MAX_SCALE_DIGITS: u32 = 18;

/// Everything that can go wrong turning a wire string into a scaled integer.
#[derive(Debug, Clone, PartialEq, Eq)]
pub enum ParseFixedError {
    Empty,
    InvalidChar { input: String, ch: char },
    MissingIntegerDigits { input: String },
    MissingFractionDigits { input: String },
    MultipleDecimalPoints { input: String },
    ExcessPrecision { input: String, scale: u32, excess: String },
    Overflow { input: String, scale: u32 },
    UnsupportedScale { scale: u32 },
}

/// What a [`ParseFixedError`] says, with its texts as character sequences.
pub enum ParseFailure {
    Empty,
    InvalidChar { input: Seq<char>, ch: char },
    MissingIntegerDigits { input: Seq<char> },
    MissingFractionDigits { input: Seq<char> },
    MultipleDecimalPoints { input: Seq<char> },
    ExcessPrecision { input: Seq<char>, scale: u32, excess: Seq<char> },
    Overflow { input: Seq<char>, scale: u32 },
    UnsupportedScale { scale: u32 },
}

impl View for ParseFixedError {
    type V = ParseFailure;

    open spec fn view(&self) -> ParseFailure {
        match self {
            ParseFixedError::Empty => ParseFailure::Empty,
            ParseFixedError::InvalidChar { input, ch } => ParseFailure::InvalidChar {
                input: input@,
                ch: *ch,
            },
            ParseFixedError::MissingIntegerDigits { input } => ParseFailure::MissingIntegerDigits {
                input: input@,
            },
            ParseFixedError::MissingFractionDigits { input } => ParseFailure::MissingFractionDigits {
                input: input@,
            },
            ParseFixedError::MultipleDecimalPoints { input } => ParseFailure::MultipleDecimalPoints {
                input: input@,
            },
            ParseFixedError::ExcessPrecision { input, scale, excess } => ParseFailure::ExcessPrecision {
                input: input@,
                scale: *scale,
                excess: excess@,
            },
            ParseFixedError::Overflow { input, scale } => ParseFailure::Overflow {
                input: input@,
                scale: *scale,
            },
            ParseFixedError::UnsupportedScale { scale } => ParseFailure::UnsupportedScale {
                scale: *scale,
            },
        }
    }
}

// ---------------------------------------------------------------------------
// Decimal digits
// ---------------------------------------------------------------------------
/// `10^n`.
pub open spec fn pow10(n: nat) -> int
    decreases n,
{
    if n == 0 {
        1
    } else {
        10 * pow10((n - 1) as nat)
    }
}

pub open spec fn is_digit(c: char) -> bool {
    '0' <= c <= '9'
}

pub open spec fn digit_value(c: char) -> int {
    c as int - '0' as int
}

/// The character that stands for a digit `0..=9`.
pub open spec fn digit_char(d: int) -> char {
    (d + '0' as int) as char
}

pub open spec fn all_digits(s: Seq<char>) -> bool {
    forall|i: int| 0 <= i < s.len() ==> is_digit(#[trigger] s[i])
}

pub open spec fn all_zeros(s: Seq<char>) -> bool {
    forall|i: int| 0 <= i < s.len() ==> #[trigger] s[i] == '0'
}

/// The number that a run of digits denotes, most significant digit first.
pub open spec fn digits_value(s: Seq<char>) -> int
    decreases s.len(),
{
    if s.len() == 0 {
        0
    } else {
        digits_value(s.drop_last()) * 10 + digit_value(s.last())
    }
}

/// `s` cut off or right-padded with zeros to exactly `width` characters.
pub open spec fn zero_padded(s: Seq<char>, width: nat) -> Seq<char> {
    Seq::new(
        width,
        |i: int|
            if i < s.len() {
                s[i]
            } else {
                '0'
            },
    )
}

/// The first character that is no digit.
pub open spec fn first_non_digit(s: Seq<char>) -> Option<char>
    decreases s.len(),
{
    if s.len() == 0 {
        None
    } else if !is_digit(s[0]) {
        Some(s[0])
    } else {
        first_non_digit(s.drop_first())
    }
}

/// The position of the first `.`, or the length where there is none.
pub open spec fn dot_position(s: Seq<char>) -> int
    decreases s.len(),
{
    if s.len() == 0 || s[0] == '.' {
        0
    } else {
        1 + dot_position(s.drop_first())
    }
}

/// Whether the text starts with a minus sign.
pub open spec fn is_negative_text(input: Seq<char>) -> bool {
    input.len() > 0 && input[0] == '-'
}

/// The text without its leading minus sign, if it has one.
pub open spec fn unsigned_text(input: Seq<char>) -> Seq<char> {
    if is_negative_text(input) {
        input.drop_first()
    } else {
        input
    }
}

/// What stands before the first `.` of the unsigned text.
pub open spec fn integer_part(input: Seq<char>) -> Seq<char> {
    unsigned_text(input).take(dot_position(unsigned_text(input)))
}

/// Whether there is a `.` at all.
pub open spec fn has_dot(input: Seq<char>) -> bool {
    dot_position(unsigned_text(input)) < unsigned_text(input).len()
}

/// What stands after the first `.`; empty where there is none.
pub open spec fn fraction_part(input: Seq<char>) -> Seq<char> {
    if has_dot(input) {
        unsigned_text(input).skip(dot_position(unsigned_text(input)) + 1)
    } else {
        Seq::empty()
    }
}

/// The scaled magnitude of a text whose parts are all digits.
pub open spec fn scaled_magnitude(input: Seq<char>, scale: nat) -> int {
    digits_value(integer_part(input)) * pow10(scale) + digits_value(
        zero_padded(fraction_part(input), scale),
    )
}

/// The digits that the scale has no room for.
pub open spec fn excess_digits(input: Seq<char>, scale: nat) -> Seq<char> {
    if fraction_part(input).len() > scale {
        fraction_part(input).skip(scale as int)
    } else {
        Seq::empty()
    }
}

pub open spec fn signed(negative: bool, magnitude: int) -> int {
    if negative {
        -magnitude
    } else {
        magnitude
    }
}

/// What [`parse_scaled`] answers for every text and scale.
pub open spec fn parse_outcome(input: Seq<char>, scale: u32) -> Result<int, ParseFailure> {
    if scale > MAX_SCALE_DIGITS {
        Err(ParseFailure::UnsupportedScale { scale })
    } else if input.len() == 0 {
        Err(ParseFailure::Empty)
    } else if fraction_part(input).contains('.') {
        Err(ParseFailure::MultipleDecimalPoints { input })
    } else if integer_part(input).len() == 0 {
        Err(ParseFailure::MissingIntegerDigits { input })
    } else if first_non_digit(integer_part(input)) is Some {
        Err(ParseFailure::InvalidChar { input, ch: first_non_digit(integer_part(input))->0 })
    } else if has_dot(input) && fraction_part(input).len() == 0 {
        Err(ParseFailure::MissingFractionDigits { input })
    } else if first_non_digit(fraction_part(input)) is Some {
        Err(ParseFailure::InvalidChar { input, ch: first_non_digit(fraction_part(input))->0 })
    } else if scaled_magnitude(input, scale as nat) > i128::MAX {
        Err(ParseFailure::Overflow { input, scale })
    } else if !all_zeros(excess_digits(input, scale as nat)) {
        Err(
            ParseFailure::ExcessPrecision {
                input,
                scale,
                excess: excess_digits(input, scale as nat),
            },
        )
    } else {
        let value = signed(is_negative_text(input), scaled_magnitude(input, scale as nat));
        if i64::MIN <= value <= i64::MAX {
            Ok(value)
        } else {
            Err(ParseFailure::Overflow { input, scale })
        }
    }
}

/// Whether an executable result says what the model says.
pub open spec fn parse_agrees(
    result: Result<i64, ParseFixedError>,
    model: Result<int, ParseFailure>,
) -> bool {
    match result {
        Ok(value) => model == Ok::<int, ParseFailure>(value as int),
        Err(error) => model == Err::<int, ParseFailure>(error@),
    }
}

// ---------------------------------------------------------------------------
// Facts about digits
// ---------------------------------------------------------------------------
pub proof fn lemma_pow10_positive(n: nat)
    ensures
        pow10(n) >= 1,
    decreases n,
{
    if n > 0 {
        lemma_pow10_positive((n - 1) as nat);
    }
}

pub proof fn lemma_pow10_adds(a: nat, b: nat)
    ensures
        pow10(a + b) == pow10(a) * pow10(b),
    decreases a,
{
    if a > 0 {
        lemma_pow10_adds((a - 1) as nat, b);
        assert((a + b - 1) as nat == ((a - 1) as nat) + b);
        assert(10 * (pow10((a - 1) as nat) * pow10(b)) == (10 * pow10((a - 1) as nat)) * pow10(b))
            by (nonlinear_arith);
    }
}

pub proof fn lemma_pow10_monotone(a: nat, b: nat)
    requires
        a <= b,
    ensures
        pow10(a) <= pow10(b),
    decreases b,
{
    lemma_pow10_positive(b);
    if a < b {
        lemma_pow10_monotone(a, (b - 1) as nat);
        lemma_pow10_positive((b - 1) as nat);
    }
}

/// The powers of ten that fit the machine types used here.
pub proof fn lemma_pow10_bounds(n: nat)
    requires
        n <= 38,
    ensures
        1 <= pow10(n) <= 100_000_000_000_000_000_000_000_000_000_000_000_000,
        n <= 18 ==> pow10(n) <= 1_000_000_000_000_000_000,
{
    reveal_with_fuel(pow10, 20);
    assert(pow10(18) == 1_000_000_000_000_000_000);
    assert(pow10(19) == 10_000_000_000_000_000_000);
    lemma_pow10_adds(19, 19);
    lemma_pow10_positive(n);
    lemma_pow10_monotone(n, 38);
    if n <= 18 {
        lemma_pow10_monotone(n, 18);
    }
}

pub proof fn lemma_digits_value_bounds(s: Seq<char>)
    requires
        all_digits(s),
    ensures
        0 <= digits_value(s) < pow10(s.len()),
    decreases s.len(),
{
    if s.len() > 0 {
        assert(all_digits(s.drop_last())) by {
            assert forall|i: int| 0 <= i < s.drop_last().len() implies is_digit(
                #[trigger] s.drop_last()[i],
            ) by {
                assert(is_digit(s[i]));
            }
        }
        lemma_digits_value_bounds(s.drop_last());
        assert(is_digit(s[s.len() - 1]));
    }
}

pub proof fn lemma_digits_value_concat(a: Seq<char>, b: Seq<char>)
    ensures
        digits_value(a + b) == digits_value(a) * pow10(b.len()) + digits_value(b),
    decreases b.len(),
{
    if b.len() == 0 {
        assert(a + b =~= a);
    } else {
        lemma_digits_value_concat(a, b.drop_last());
        assert((a + b).drop_last() =~= a + b.drop_last());
        assert((a + b).last() == b.last());
        let x = digits_value(a);
        let p = pow10((b.len() - 1) as nat);
        assert((x * p) * 10 == x * (10 * p)) by (nonlinear_arith);
    }
}

pub proof fn lemma_digits_value_zeros(s: Seq<char>)
    requires
        all_zeros(s),
    ensures
        digits_value(s) == 0,
    decreases s.len(),
{
    if s.len() > 0 {
        assert(s[s.len() - 1] == '0');
        assert(all_zeros(s.drop_last())) by {
            assert forall|i: int| 0 <= i < s.drop_last().len() implies #[trigger] s.drop_last()[i]
                == '0' by {
                assert(s[i] == '0');
            }
        }
        lemma_digits_value_zeros(s.drop_last());
    }
}

pub proof fn lemma_first_non_digit(s: Seq<char>)
    ensures
        first_non_digit(s) is None <==> all_digits(s),
    decreases s.len(),
{
    if s.len() > 0 {
        lemma_first_non_digit(s.drop_first());
        if is_digit(s[0]) {
            if all_digits(s.drop_first()) {
                assert forall|i: int| 0 <= i < s.len() implies is_digit(#[trigger] s[i]) by {
                    if i > 0 {
                        assert(is_digit(s.drop_first()[i - 1]));
                    }
                }
            } else {
                let j = choose|j: int|
                    0 <= j < s.drop_first().len() && !is_digit(#[trigger] s.drop_first()[j]);
                assert(!is_digit(s[j + 1]));
            }
        }
    }
}

pub proof fn lemma_first_non_digit_at(s: Seq<char>, k: int)
    requires
        0 <= k < s.len(),
        !is_digit(s[k]),
        forall|i: int| 0 <= i < k ==> is_digit(#[trigger] s[i]),
    ensures
        first_non_digit(s) == Some(s[k]),
    decreases s.len(),
{
    if k > 0 {
        assert(is_digit(s[0]));
        assert forall|i: int| 0 <= i < k - 1 implies is_digit(#[trigger] s.drop_first()[i]) by {
            assert(is_digit(s[i + 1]));
        }
        lemma_first_non_digit_at(s.drop_first(), k - 1);
    }
}

pub proof fn lemma_dot_position(s: Seq<char>)
    ensures
        0 <= dot_position(s) <= s.len(),
        dot_position(s) < s.len() ==> s[dot_position(s)] == '.',
        forall|i: int| 0 <= i < dot_position(s) ==> #[trigger] s[i] != '.',
    decreases s.len(),
{
    if s.len() > 0 && s[0] != '.' {
        lemma_dot_position(s.drop_first());
        assert forall|i: int| 0 <= i < dot_position(s) implies #[trigger] s[i] != '.' by {
            if i > 0 {
                assert(s.drop_first()[i - 1] == s[i]);
            }
        }
        if dot_position(s) < s.len() {
            assert(s.drop_first()[dot_position(s) - 1] == s[dot_position(s)]);
        }
    }
}

pub proof fn lemma_dot_position_at(s: Seq<char>, k: int)
    requires
        0 <= k <= s.len(),
        k < s.len() ==> s[k] == '.',
        forall|i: int| 0 <= i < k ==> #[trigger] s[i] != '.',
    ensures
        dot_position(s) == k,
{
    lemma_dot_position(s);
}

// ---------------------------------------------------------------------------
// Parsing
// ---------------------------------------------------------------------------
/// The first character of `part` that is no digit is reported as invalid.
fn reject_non_digits(chars: &Vec<char>, from: usize, to: usize, input: &str) -> (result: Result<
    (),
    ParseFixedError,
>)
    requires
        from <= to <= chars@.len(),
    ensures
        match first_non_digit(chars@.subrange(from as int, to as int)) {
            None => result is Ok,
            Some(ch) => result matches Err(error) && error@ == (ParseFailure::InvalidChar {
                input: input@,
                ch,
            }),
        },
{
    let ghost part = chars@.subrange(from as int, to as int);
    let mut i: usize = from;
    while i < to
        invariant
            from <= i <= to <= chars@.len(),
            part == chars@.subrange(from as int, to as int),
            forall|k: int| 0 <= k < i - from ==> is_digit(#[trigger] part[k]),
        decreases to - i,
    {
        let c = chars[i];
        assert(part[i - from] == c);
        if !('0' <= c && c <= '9') {
            proof {
                lemma_first_non_digit_at(part, i - from);
            }
            return Err(ParseFixedError::InvalidChar { input: input.to_owned(), ch: c });
        }
        i += 1;
    }
    proof {
        lemma_first_non_digit(part);
    }
    Ok(())
}

/// `10^n` for the scales the parser accepts.
fn power_of_ten(n: u32) -> (out: i128)
    requires
        n <= 38,
    ensures
        out == pow10(n as nat),
{
    let mut out: i128 = 1;
    let mut i: u32 = 0;
    while i < n
        invariant
            i <= n <= 38,
            out == pow10(i as nat),
        decreases n - i,
    {
        proof {
            lemma_pow10_bounds((i + 1) as nat);
        }
        out = out * 10;
        i += 1;
    }
    out
}

proof fn lemma_digits_value_prefix(s: Seq<char>, i: int)
    requires
        0 <= i < s.len(),
    ensures
        digits_value(s.take(i + 1)) == digits_value(s.take(i)) * 10 + digit_value(s[i]),
{
    assert(s.take(i + 1).drop_last() =~= s.take(i));
}

proof fn lemma_digits_value_prefix_le(s: Seq<char>, i: int)
    requires
        all_digits(s),
        0 <= i <= s.len(),
    ensures
        digits_value(s.take(i)) <= digits_value(s),
{
    let a = s.take(i);
    let b = s.skip(i);
    assert(s =~= a + b);
    lemma_digits_value_concat(a, b);
    assert(all_digits(a)) by {
        assert forall|k: int| 0 <= k < a.len() implies is_digit(#[trigger] a[k]) by {
            assert(is_digit(s[k]));
        }
    }
    assert(all_digits(b)) by {
        assert forall|k: int| 0 <= k < b.len() implies is_digit(#[trigger] b[k]) by {
            assert(is_digit(s[k + i]));
        }
    }
    lemma_digits_value_bounds(a);
    lemma_digits_value_bounds(b);
    lemma_pow10_positive(b.len());
    assert(digits_value(a) <= digits_value(a) * pow10(b.len())) by (nonlinear_arith)
        requires
            digits_value(a) >= 0,
            pow10(b.len()) >= 1,
    ;
}

/// The value of a run of digits, or nothing where it does not fit an `i128`.
fn accumulate_digits(chars: &Vec<char>, from: usize, to: usize) -> (out: Option<i128>)
    requires
        from <= to <= chars@.len(),
        all_digits(chars@.subrange(from as int, to as int)),
    ensures
        match out {
            Some(value) => value == digits_value(chars@.subrange(from as int, to as int)),
            None => digits_value(chars@.subrange(from as int, to as int)) > i128::MAX,
        },
        out matches Some(value) ==> value >= 0,
{
    let ghost part = chars@.subrange(from as int, to as int);
    let mut value: i128 = 0;
    let mut i: usize = from;
    assert(part.take(0) =~= Seq::<char>::empty());
    while i < to
        invariant
            from <= i <= to <= chars@.len(),
            part == chars@.subrange(from as int, to as int),
            all_digits(part),
            value >= 0,
            value == digits_value(part.take(i - from)),
        decreases to - i,
    {
        let c = chars[i];
        assert(part[i - from] == c);
        assert(is_digit(part[i - from]));
        proof {
            lemma_digits_value_prefix(part, i - from);
            lemma_digits_value_prefix_le(part, i + 1 - from);
        }
        let digit: i128 = (c as u32 - '0' as u32) as i128;
        let tens: i128 = match value.checked_mul(10) {
            Some(v) => v,
            None => return None,
        };
        value = match tens.checked_add(digit) {
            Some(v) => v,
            None => return None,
        };
        i += 1;
    }
    assert(part.take(part.len() as int) =~= part);
    Some(value)
}

/// The first `scale` digits after the point, right-padded with zeros.
fn fraction_digits(chars: &Vec<char>, from: usize, scale: u32) -> (out: i128)
    requires
        from <= chars@.len(),
        scale <= MAX_SCALE_DIGITS,
        all_digits(chars@.skip(from as int)),
    ensures
        out == digits_value(zero_padded(chars@.skip(from as int), scale as nat)),
        0 <= out < pow10(scale as nat),
{
    let ghost frac = chars@.skip(from as int);
    let ghost padded = zero_padded(frac, scale as nat);
    proof {
        assert(all_digits(padded)) by {
            assert forall|k: int| 0 <= k < padded.len() implies is_digit(#[trigger] padded[k]) by {
                if k < frac.len() {
                    assert(is_digit(frac[k]));
                }
            }
        }
        lemma_digits_value_bounds(padded);
        lemma_pow10_bounds(scale as nat);
        assert(padded.take(0) =~= Seq::<char>::empty());
    }
    let available: usize = chars.len() - from;
    let mut value: i128 = 0;
    let mut i: u32 = 0;
    while i < scale
        invariant
            i <= scale <= MAX_SCALE_DIGITS,
            from <= chars@.len(),
            available == chars.len() - from,
            frac == chars@.skip(from as int),
            padded == zero_padded(frac, scale as nat),
            all_digits(padded),
            digits_value(padded) < pow10(scale as nat) <= 1_000_000_000_000_000_000,
            0 <= value,
            value == digits_value(padded.take(i as int)),
        decreases scale - i,
    {
        proof {
            lemma_digits_value_prefix(padded, i as int);
            lemma_digits_value_prefix_le(padded, i as int);
            assert(is_digit(padded[i as int]));
        }
        let digit: i128 = if (i as usize) < available {
            let c = chars[from + i as usize];
            assert(c == frac[i as int]);
            (c as u32 - '0' as u32) as i128
        } else {
            0
        };
        value = value * 10 + digit;
        i += 1;
    }
    assert(padded.take(padded.len() as int) =~= padded);
    value
}

/// Whether a run of characters is all zeros.
fn only_zeros(chars: &Vec<char>, from: usize) -> (out: bool)
    requires
        from <= chars@.len(),
    ensures
        out == all_zeros(chars@.skip(from as int)),
{
    let ghost tail = chars@.skip(from as int);
    let mut i: usize = from;
    while i < chars.len()
        invariant
            from <= i <= chars@.len(),
            tail == chars@.skip(from as int),
            forall|k: int| 0 <= k < i - from ==> #[trigger] tail[k] == '0',
        decreases chars@.len() - i,
    {
        assert(tail[i - from] == chars@[i as int]);
        if chars[i] != '0' {
            return false;
        }
        i += 1;
    }
    true
}

/// The position of the first `.` at or after `from`.
fn find_dot(chars: &Vec<char>, from: usize) -> (out: usize)
    requires
        from <= chars@.len(),
    ensures
        from <= out <= chars@.len(),
        out == from + dot_position(chars@.skip(from as int)),
{
    let ghost tail = chars@.skip(from as int);
    let mut i: usize = from;
    while i < chars.len()
        invariant_except_break
            from <= i <= chars@.len(),
            tail == chars@.skip(from as int),
            forall|k: int| 0 <= k < i - from ==> #[trigger] tail[k] != '.',
        ensures
            from <= i <= chars@.len(),
            i < chars@.len() ==> tail[i - from] == '.',
            forall|k: int| 0 <= k < i - from ==> #[trigger] tail[k] != '.',
        decreases chars@.len() - i,
    {
        assert(tail[i - from] == chars@[i as int]);
        if chars[i] == '.' {
            break;
        }
        i += 1;
    }
    proof {
        lemma_dot_position_at(tail, i - from);
    }
    i
}

/// The scaled value of a text whose two parts are known to be digits.
fn scale_digits(
    chars: &Vec<char>,
    start: usize,
    dot: usize,
    frac_start: usize,
    scale: u32,
    input: &str,
) -> (result: Result<i64, ParseFixedError>)
    requires
        scale <= MAX_SCALE_DIGITS,
        chars@ == input@,
        start == (if is_negative_text(input@) { 1int } else { 0int }),
        start <= dot <= frac_start <= chars@.len(),
        integer_part(input@) == chars@.subrange(start as int, dot as int),
        fraction_part(input@) == chars@.skip(frac_start as int),
        all_digits(integer_part(input@)),
        all_digits(fraction_part(input@)),
    ensures
        ({
            let magnitude = scaled_magnitude(input@, scale as nat);
            let excess = excess_digits(input@, scale as nat);
            let value = signed(is_negative_text(input@), magnitude);
            parse_agrees(
                result,
                if magnitude > i128::MAX {
                    Err(ParseFailure::Overflow { input: input@, scale })
                } else if !all_zeros(excess) {
                    Err(ParseFailure::ExcessPrecision { input: input@, scale, excess })
                } else if i64::MIN <= value <= i64::MAX {
                    Ok(value)
                } else {
                    Err(ParseFailure::Overflow { input: input@, scale })
                },
            )
        }),
{
    let ghost text = input@;
    let negative = start == 1;
    let len = chars.len();
    proof {
        lemma_digits_value_bounds(integer_part(text));
        lemma_pow10_bounds(scale as nat);
    }
    let ghost whole = digits_value(integer_part(text));
    let ghost power = pow10(scale as nat);
    let ghost magnitude = scaled_magnitude(text, scale as nat);
    let frac_value = fraction_digits(chars, frac_start, scale);
    proof {
        assert(whole <= whole * power) by (nonlinear_arith)
            requires
                whole >= 0,
                power >= 1,
        ;
        assert(magnitude == whole * power + frac_value);
    }
    let int_value = match accumulate_digits(chars, start, dot) {
        Some(value) => value,
        None => return Err(ParseFixedError::Overflow { input: input.to_owned(), scale }),
    };
    let scaled = match int_value.checked_mul(power_of_ten(scale)) {
        Some(value) => value,
        None => return Err(ParseFixedError::Overflow { input: input.to_owned(), scale }),
    };
    let value = match scaled.checked_add(frac_value) {
        Some(value) => value,
        None => return Err(ParseFixedError::Overflow { input: input.to_owned(), scale }),
    };
    // Anything beyond the scale must be zero, or digits would be lost.
    if len - frac_start > scale as usize {
        let cut: usize = frac_start + scale as usize;
        assert(excess_digits(text, scale as nat) =~= chars@.skip(cut as int));
        if !only_zeros(chars, cut) {
            assert(chars@.subrange(cut as int, len as int) =~= chars@.skip(cut as int));
            return Err(
                ParseFixedError::ExcessPrecision {
                    input: input.to_owned(),
                    scale,
                    excess: string_of(chars, cut, len),
                },
            );
        }
    }
    assert(all_zeros(excess_digits(text, scale as nat)));
    let result: i128 = if negative {
        -value
    } else {
        value
    };
    if i64::MIN as i128 <= result && result <= i64::MAX as i128 {
        Ok(result as i64)
    } else {
        Err(ParseFixedError::Overflow { input: input.to_owned(), scale })
    }
}

/// Parse `input` as a decimal string into an integer scaled by `10^scale`.
///
/// Accepts an optional leading `-`, one or more ASCII digits, optionally a `.`
/// followed by one or more ASCII digits. Everything else is rejected.
pub fn parse_scaled(input: &str, scale: u32) -> (result: Result<i64, ParseFixedError>)
    ensures
        parse_agrees(result, parse_outcome(input@, scale)),
{
    if scale > MAX_SCALE_DIGITS {
        return Err(ParseFixedError::UnsupportedScale { scale });
    }
    let chars = chars_of(input);
    if chars.len() == 0 {
        return Err(ParseFixedError::Empty);
    }
    let ghost text = input@;
    let negative = chars[0] == '-';
    let start: usize = if negative {
        1
    } else {
        0
    };
    let ghost body = chars@.skip(start as int);
    assert(body =~= unsigned_text(text));
    let dot = find_dot(&chars, start);
    proof {
        lemma_dot_position(body);
    }
    let len = chars.len();
    assert(integer_part(text) =~= chars@.subrange(start as int, dot as int));
    let frac_start: usize = if dot < len {
        dot + 1
    } else {
        len
    };
    let ghost frac = chars@.skip(frac_start as int);
    assert(fraction_part(text) =~= frac);
    let second_dot = find_dot(&chars, frac_start);
    proof {
        lemma_dot_position(frac);
        assert(frac.contains('.') <==> second_dot < len) by {
            if second_dot < len {
                assert(frac[second_dot - frac_start] == '.');
            } else if frac.contains('.') {
                let k = choose|k: int| 0 <= k < frac.len() && #[trigger] frac[k] == '.';
                assert(frac[k] != '.');
            }
        }
    }
    if second_dot < len {
        return Err(ParseFixedError::MultipleDecimalPoints { input: input.to_owned() });
    }
    if dot == start {
        return Err(ParseFixedError::MissingIntegerDigits { input: input.to_owned() });
    }
    match reject_non_digits(&chars, start, dot, input) {
        Ok(()) => {},
        Err(error) => return Err(error),
    }
    if dot < len && frac_start == len {
        return Err(ParseFixedError::MissingFractionDigits { input: input.to_owned() });
    }
    assert(chars@.subrange(frac_start as int, len as int) =~= frac);
    match reject_non_digits(&chars, frac_start, len, input) {
        Ok(()) => {},
        Err(error) => return Err(error),
    }
    proof {
        lemma_first_non_digit(integer_part(text));
        lemma_first_non_digit(frac);
    }
    scale_digits(&chars, start, dot, frac_start, scale, input)
}

// ---------------------------------------------------------------------------
// Formatting
// ---------------------------------------------------------------------------
/// The decimal numeral of `n`, without leading zeros.
pub open spec fn decimal(n: nat) -> Seq<char>
    decreases n,
{
    if n < 10 {
        seq![digit_char(n as int)]
    } else {
        decimal(n / 10).push(digit_char((n % 10) as int))
    }
}

/// The last `width` digits of `n`, with leading zeros.
pub open spec fn fixed_digits(n: nat, width: nat) -> Seq<char>
    decreases width,
{
    if width == 0 {
        Seq::empty()
    } else {
        fixed_digits(n / 10, (width - 1) as nat).push(digit_char((n % 10) as int))
    }
}

pub open spec fn magnitude_of(value: int) -> nat {
    if value < 0 {
        (-value) as nat
    } else {
        value as nat
    }
}

/// The text of a scaled integer: sign, whole part, point, `scale` fractional
/// digits (one zero where the scale is zero).
pub open spec fn scaled_text(value: int, scale: nat) -> Seq<char> {
    let magnitude = magnitude_of(value);
    let whole = decimal((magnitude as int / pow10(scale)) as nat);
    let frac = if scale == 0 {
        seq!['0']
    } else {
        fixed_digits((magnitude as int % pow10(scale)) as nat, scale)
    };
    (if value < 0 {
        seq!['-']
    } else {
        Seq::empty()
    }) + whole + seq!['.'] + frac
}

/// Appends the digit `d`.
fn push_digit(out: &mut String, d: u8)
    requires
        d < 10,
    ensures
        final(out)@ == old(out)@.push(digit_char(d as int)),
{
    out.push((d + 48u8) as char);
}

/// Appends the decimal numeral of `n`.
pub fn push_decimal(out: &mut String, n: u128)
    ensures
        final(out)@ == old(out)@ + decimal(n as nat),
    decreases n,
{
    if n >= 10 {
        push_decimal(out, n / 10);
    }
    push_digit(out, (n % 10) as u8);
    assert(final(out)@ =~= old(out)@ + decimal(n as nat));
}

/// Appends the last `width` digits of `n`.
pub fn push_fixed_digits(out: &mut String, n: u128, width: u32)
    ensures
        final(out)@ == old(out)@ + fixed_digits(n as nat, width as nat),
    decreases width,
{
    if width > 0 {
        push_fixed_digits(out, n / 10, width - 1);
        push_digit(out, (n % 10) as u8);
    }
    assert(final(out)@ =~= old(out)@ + fixed_digits(n as nat, width as nat));
}

/// Render a scaled integer to its exact decimal string with `scale`
/// fractional digits: the inverse of [`parse_scaled`].
pub fn format_scaled(value: i64, scale: u32) -> (out: String)
    requires
        scale <= 38,
    ensures
        out@ == scaled_text(value as int, scale as nat),
{
    let magnitude: u128 = if value < 0 {
        (-(value as i128)) as u128
    } else {
        value as u128
    };
    proof {
        lemma_pow10_bounds(scale as nat);
    }
    let divisor: u128 = power_of_ten(scale) as u128;
    let mut out = String::new();
    if value < 0 {
        out.push('-');
    }
    push_decimal(&mut out, magnitude / divisor);
    out.push('.');
    if scale == 0 {
        out.push('0');
    } else {
        push_fixed_digits(&mut out, magnitude % divisor, scale);
    }
    assert(out@ =~= scaled_text(value as int, scale as nat));
    out
}

// ---------------------------------------------------------------------------
// Laws
// ---------------------------------------------------------------------------
proof fn lemma_digit_char(d: int)
    requires
        0 <= d <= 9,
    ensures
        is_digit(digit_char(d)),
        digit_value(digit_char(d)) == d,
{
}

proof fn lemma_all_digits_push(s: Seq<char>, c: char)
    requires
        all_digits(s),
        is_digit(c),
    ensures
        all_digits(s.push(c)),
{
    assert forall|i: int| 0 <= i < s.push(c).len() implies is_digit(#[trigger] s.push(c)[i]) by {
        if i < s.len() {
            assert(is_digit(s[i]));
        }
    }
}

proof fn lemma_decimal(n: nat)
    ensures
        all_digits(decimal(n)),
        decimal(n).len() > 0,
        digits_value(decimal(n)) == n,
    decreases n,
{
    lemma_digit_char((n % 10) as int);
    if n < 10 {
        assert(decimal(n).drop_last() =~= Seq::<char>::empty());
        assert(digits_value(decimal(n).drop_last()) == 0);
    } else {
        lemma_decimal(n / 10);
        lemma_all_digits_push(decimal(n / 10), digit_char((n % 10) as int));
        assert(decimal(n).drop_last() =~= decimal(n / 10));
    }
}

pub proof fn lemma_fixed_digits(n: nat, width: nat)
    requires
        n < pow10(width),
    ensures
        all_digits(fixed_digits(n, width)),
        fixed_digits(n, width).len() == width,
        digits_value(fixed_digits(n, width)) == n,
    decreases width,
{
    if width > 0 {
        lemma_digit_char((n % 10) as int);
        lemma_fixed_digits(n / 10, (width - 1) as nat);
        lemma_all_digits_push(
            fixed_digits(n / 10, (width - 1) as nat),
            digit_char((n % 10) as int),
        );
        assert(fixed_digits(n, width).drop_last() =~= fixed_digits(n / 10, (width - 1) as nat));
    }
}

/// The parts of a text that is put together from a sign, digits, a point and
/// digits are what it was put together from.
proof fn lemma_parts_of(negative: bool, whole: Seq<char>, frac: Seq<char>)
    requires
        all_digits(whole),
        whole.len() > 0,
    ensures
        ({
            let sign = if negative { seq!['-'] } else { Seq::<char>::empty() };
            let text = sign + whole + seq!['.'] + frac;
            &&& text.len() > 0
            &&& is_negative_text(text) == negative
            &&& has_dot(text)
            &&& integer_part(text) == whole
            &&& fraction_part(text) == frac
        }),
{
    let sign = if negative { seq!['-'] } else { Seq::<char>::empty() };
    let text = sign + whole + seq!['.'] + frac;
    let body = whole + seq!['.'] + frac;
    assert(is_digit(whole[0]));
    if negative {
        assert(text[0] == '-');
        assert(text.drop_first() =~= body);
    } else {
        assert(text =~= body);
        assert(text[0] == whole[0]);
    }
    assert(body[whole.len() as int] == '.');
    assert forall|i: int| 0 <= i < whole.len() implies #[trigger] body[i] != '.' by {
        assert(is_digit(whole[i]));
        assert(body[i] == whole[i]);
    }
    lemma_dot_position_at(body, whole.len() as int);
    assert(body.take(whole.len() as int) =~= whole);
    assert(body.skip(whole.len() as int + 1) =~= frac);
}

proof fn lemma_digits_have_no_dot(s: Seq<char>)
    requires
        all_digits(s),
    ensures
        !s.contains('.'),
{
    if s.contains('.') {
        let k = choose|k: int| 0 <= k < s.len() && #[trigger] s[k] == '.';
        assert(is_digit(s[k]));
    }
}

/// Formatting and then parsing gives every value back, at every scale the
/// parser accepts.
pub proof fn law_format_then_parse(value: i64, scale: u32)
    requires
        scale <= MAX_SCALE_DIGITS,
    ensures
        parse_outcome(scaled_text(value as int, scale as nat), scale) == Ok::<int, ParseFailure>(
            value as int,
        ),
{
    let n = scale as nat;
    let text = scaled_text(value as int, n);
    let magnitude = magnitude_of(value as int);
    let power = pow10(n);
    lemma_pow10_bounds(n);
    let high = (magnitude as int / power) as nat;
    let low = (magnitude as int % power) as nat;
    assert(magnitude == high * power + low && 0 <= high && low < power) by (nonlinear_arith)
        requires
            power >= 1,
            magnitude >= 0,
            high == magnitude as int / power,
            low == magnitude as int % power,
    ;
    let whole = decimal(high);
    lemma_decimal(high);
    let frac = if scale == 0 { seq!['0'] } else { fixed_digits(low, n) };
    lemma_fixed_digits(low, n);
    assert(all_digits(frac)) by {
        if scale == 0 {
            assert(is_digit('0'));
        }
    }
    lemma_parts_of(value < 0, whole, frac);
    lemma_digits_have_no_dot(frac);
    lemma_first_non_digit(whole);
    lemma_first_non_digit(frac);
    let padded = zero_padded(frac, n);
    if scale == 0 {
        assert(padded =~= Seq::<char>::empty());
        assert(excess_digits(text, n) =~= seq!['0']);
    } else {
        assert(padded =~= frac);
        assert(excess_digits(text, n) =~= Seq::<char>::empty());
    }
    assert(all_zeros(excess_digits(text, n)));
    assert(scaled_magnitude(text, n) == magnitude);
}

/// Writing a fractional text one zero wider does not change its value.
pub proof fn law_trailing_zero_changes_nothing(input: Seq<char>, scale: u32)
    requires
        parse_outcome(input, scale) is Ok,
        has_dot(input),
    ensures
        parse_outcome(input.push('0'), scale) == parse_outcome(input, scale),
{
    let n = scale as nat;
    let whole = integer_part(input);
    let frac = fraction_part(input);
    let wide = input.push('0');
    lemma_first_non_digit(whole);
    lemma_first_non_digit(frac);
    lemma_dot_position(unsigned_text(input));
    let sign = if is_negative_text(input) { seq!['-'] } else { Seq::<char>::empty() };
    let body = unsigned_text(input);
    let at = dot_position(body);
    assert(body =~= whole + seq!['.'] + frac) by {
        assert(body[at] == '.');
        assert(body =~= body.take(at) + seq![body[at]] + body.skip(at + 1));
    }
    assert(input =~= sign + body);
    assert(wide =~= sign + whole + seq!['.'] + frac.push('0'));
    lemma_parts_of(is_negative_text(input), whole, frac.push('0'));
    assert(is_digit('0'));
    lemma_all_digits_push(frac, '0');
    lemma_digits_have_no_dot(frac.push('0'));
    lemma_first_non_digit(frac.push('0'));
    assert(zero_padded(frac.push('0'), n) =~= zero_padded(frac, n));
    let before = excess_digits(input, n);
    let after = excess_digits(wide, n);
    assert forall|i: int| 0 <= i < after.len() implies #[trigger] after[i] == '0' by {
        if i < before.len() {
            assert(before[i] == '0');
            assert(after[i] == before[i]);
        }
    }
}

/// A value that parses is exactly the decimal that was written: shifting it by
/// the digits after the point gives all the written digits, shifted by the
/// scale. Nothing is rounded and nothing is cut off.
pub proof fn law_parse_is_exact(input: Seq<char>, scale: u32)
    requires
        parse_outcome(input, scale) is Ok,
    ensures
        (parse_outcome(input, scale)->Ok_0) * pow10(fraction_part(input).len()) == signed(
            is_negative_text(input),
            digits_value(integer_part(input) + fraction_part(input)) * pow10(scale as nat),
        ),
{
    let n = scale as nat;
    let whole = integer_part(input);
    let frac = fraction_part(input);
    let padded = zero_padded(frac, n);
    lemma_digits_value_concat(whole, frac);
    let w = digits_value(whole);
    let f = digits_value(frac);
    let p = digits_value(padded);
    let ps = pow10(n);
    let pf = pow10(frac.len());
    assert(p * pf == f * ps) by {
        if frac.len() <= n {
            let extra = (n - frac.len()) as nat;
            let zeros = padded.skip(frac.len() as int);
            assert(padded =~= frac + zeros);
            assert(all_zeros(zeros));
            lemma_digits_value_zeros(zeros);
            lemma_digits_value_concat(frac, zeros);
            lemma_pow10_adds(extra, frac.len());
            assert(p == f * pow10(extra));
            assert((f * pow10(extra)) * pf == f * (pow10(extra) * pf)) by (nonlinear_arith);
        } else {
            let extra = (frac.len() - n) as nat;
            let rest = frac.skip(n as int);
            assert(excess_digits(input, n) =~= rest);
            assert(frac =~= padded + rest);
            lemma_digits_value_zeros(rest);
            lemma_digits_value_concat(padded, rest);
            lemma_pow10_adds(extra, n);
            assert(f == p * pow10(extra));
            assert(p * (pow10(extra) * ps) == (p * pow10(extra)) * ps) by (nonlinear_arith);
        }
    }
    assert((w * ps + p) * pf == (w * pf + f) * ps) by (nonlinear_arith)
        requires
            p * pf == f * ps,
    ;
    assert((-(w * ps + p)) * pf == -((w * ps + p) * pf)) by (nonlinear_arith);
}

/// Digits are read as they are written: one more digit makes ten times the number and
/// the digit, and the numeral of a number reads as the number, without a leading zero.
pub proof fn law_digits_are_read_as_written(s: Seq<char>, c: char, n: nat)
    ensures
        digits_value(Seq::empty()) == 0,
        digits_value(s.push(c)) == 10 * digits_value(s) + (c as int - '0' as int),
        pow10(0) == 1,
        pow10(n + 1) == 10 * pow10(n),
        digits_value(decimal(n)) == n,
        decimal(n).len() >= 1,
        decimal(n).len() > 1 ==> decimal(n)[0] != '0',
        forall|i: int| 0 <= i < decimal(n).len() ==> '0' <= #[trigger] decimal(n)[i] <= '9',
{
    assert(s.push(c).drop_last() =~= s);
    lemma_decimal(n);
    lemma_no_leading_zero(n);
    assert forall|i: int| 0 <= i < decimal(n).len() implies '0' <= #[trigger] decimal(n)[i]
        <= '9' by {
        assert(is_digit(decimal(n)[i]));
    }
}

proof fn lemma_no_leading_zero(n: nat)
    ensures
        n > 0 ==> decimal(n).len() > 0 && decimal(n)[0] != '0',
        n < 10 ==> decimal(n).len() == 1,
    decreases n,
{
    lemma_digit_char((n % 10) as int);
    if n >= 10 {
        lemma_no_leading_zero(n / 10);
        assert(decimal(n)[0] == decimal(n / 10)[0]);
    }
}

/// A decimal that is written out: an optional minus, digits, and where there are any a
/// point and the digits after it.
pub open spec fn written(negative: bool, whole: Seq<char>, frac: Seq<char>) -> Seq<char> {
    (if negative {
        seq!['-']
    } else {
        Seq::empty()
    }) + whole + (if frac.len() > 0 {
        seq!['.'] + frac
    } else {
        Seq::empty()
    })
}

proof fn lemma_parts_of_written(negative: bool, whole: Seq<char>, frac: Seq<char>)
    requires
        all_digits(whole),
        whole.len() > 0,
    ensures
        ({
            let text = written(negative, whole, frac);
            &&& text.len() > 0
            &&& is_negative_text(text) == negative
            &&& has_dot(text) == (frac.len() > 0)
            &&& integer_part(text) == whole
            &&& fraction_part(text) == frac
        }),
{
    let text = written(negative, whole, frac);
    let sign = if negative { seq!['-'] } else { Seq::<char>::empty() };
    if frac.len() > 0 {
        assert(text =~= sign + whole + seq!['.'] + frac);
        lemma_parts_of(negative, whole, frac);
    } else {
        assert(text =~= sign + whole);
        assert(is_digit(whole[0]));
        assert(text[0] == (if negative { '-' } else { whole[0] }));
        let body = unsigned_text(text);
        assert(body =~= whole);
        assert forall|i: int| 0 <= i < whole.len() implies #[trigger] body[i] != '.' by {
            assert(is_digit(whole[i]));
        }
        lemma_dot_position_at(body, whole.len() as int);
        assert(body.take(whole.len() as int) =~= whole);
        assert(fraction_part(text) =~= frac);
    }
}

/// Every decimal with room in the scale is accepted at its exact value, where that fits
/// an `i64`, and else refused as an overflow.
pub proof fn law_decimals_are_accepted_at_their_value(
    negative: bool,
    whole: Seq<char>,
    frac: Seq<char>,
    scale: u32,
)
    requires
        scale <= 18,
        whole.len() > 0,
        frac.len() <= scale,
        forall|i: int| 0 <= i < whole.len() ==> '0' <= #[trigger] whole[i] <= '9',
        forall|i: int| 0 <= i < frac.len() ==> '0' <= #[trigger] frac[i] <= '9',
    ensures
        ({
            let text = (if negative {
                seq!['-']
            } else {
                Seq::empty()
            }) + whole + (if frac.len() > 0 {
                seq!['.'] + frac
            } else {
                Seq::empty()
            });
            let magnitude = digits_value(whole) * pow10(scale as nat) + digits_value(frac) * pow10(
                (scale - frac.len()) as nat,
            );
            let value = if negative {
                -magnitude
            } else {
                magnitude
            };
            if i64::MIN <= value <= i64::MAX {
                parse_outcome(text, scale) == Ok::<int, ParseFailure>(value)
            } else {
                parse_outcome(text, scale) == Err::<int, ParseFailure>(
                    ParseFailure::Overflow { input: text, scale },
                )
            }
        }),
{
    let n = scale as nat;
    let text = written(negative, whole, frac);
    assert(all_digits(whole));
    assert(all_digits(frac));
    lemma_parts_of_written(negative, whole, frac);
    lemma_digits_have_no_dot(frac);
    lemma_first_non_digit(whole);
    lemma_first_non_digit(frac);
    let padded = zero_padded(frac, n);
    let zeros = padded.skip(frac.len() as int);
    assert(padded =~= frac + zeros);
    assert(all_zeros(zeros));
    lemma_digits_value_zeros(zeros);
    lemma_digits_value_concat(frac, zeros);
    assert(excess_digits(text, n) =~= Seq::<char>::empty());
    lemma_digits_value_bounds(whole);
    lemma_digits_value_bounds(frac);
    lemma_pow10_positive(n);
    lemma_pow10_positive((n - frac.len()) as nat);
    let w = digits_value(whole);
    let f = digits_value(frac);
    let ps = pow10(n);
    let pr = pow10((n - frac.len()) as nat);
    assert(w * ps >= 0 && f * pr >= 0) by (nonlinear_arith)
        requires
            w >= 0,
            f >= 0,
            ps >= 1,
            pr >= 1,
    ;
}

/// Digits that the scale has no room for are an error unless they are all zero: they
/// are named, and nothing is cut off.
pub proof fn law_excess_digits_are_refused(
    negative: bool,
    whole: Seq<char>,
    frac: Seq<char>,
    scale: u32,
    k: int,
)
    requires
        scale <= 18,
        whole.len() > 0,
        forall|i: int| 0 <= i < whole.len() ==> '0' <= #[trigger] whole[i] <= '9',
        forall|i: int| 0 <= i < frac.len() ==> '0' <= #[trigger] frac[i] <= '9',
        scale <= k < frac.len(),
        frac[k] != '0',
    ensures
        ({
            let text = (if negative {
                seq!['-']
            } else {
                Seq::empty()
            }) + whole + (seq!['.'] + frac);
            &&& parse_outcome(text, scale) is Err
            &&& whole.len() + scale <= 38 ==> parse_outcome(text, scale) == Err::<int, ParseFailure>(
                ParseFailure::ExcessPrecision {
                    input: text,
                    scale,
                    excess: frac.subrange(scale as int, frac.len() as int),
                },
            )
        }),
{
    let n = scale as nat;
    let text = written(negative, whole, frac);
    assert(all_digits(whole));
    assert(all_digits(frac));
    lemma_parts_of_written(negative, whole, frac);
    lemma_digits_have_no_dot(frac);
    lemma_first_non_digit(whole);
    lemma_first_non_digit(frac);
    let excess = excess_digits(text, n);
    assert(excess =~= frac.subrange(scale as int, frac.len() as int));
    assert(excess[k - scale] == frac[k]);
    let padded = zero_padded(frac, n);
    assert(padded =~= frac.take(n as int));
    if whole.len() + scale <= 38 {
        assert forall|i: int| 0 <= i < (whole + padded).len() implies is_digit(
            #[trigger] (whole + padded)[i],
        ) by {
            if i < whole.len() {
                assert(is_digit(whole[i]));
            } else {
                assert(is_digit(frac[i - whole.len()]));
            }
        }
        lemma_digits_value_concat(whole, padded);
        lemma_digits_value_bounds(whole + padded);
        lemma_pow10_bounds((whole.len() + scale) as nat);
    }
}

/// Nothing but a decimal is accepted: after an optional minus only digits and at most
/// one point, with a digit first and a digit last.
pub proof fn law_only_decimals_are_accepted(input: Seq<char>, scale: u32)
    requires
        parse_outcome(input, scale) is Ok,
    ensures
        scale <= 18,
        input.len() > 0,
        ({
            let start = if input[0] == '-' {
                1int
            } else {
                0int
            };
            &&& start < input.len()
            &&& '0' <= input[start] <= '9'
            &&& '0' <= input[input.len() - 1] <= '9'
            &&& forall|i: int|
                start <= i < input.len() ==> '0' <= #[trigger] input[i] <= '9' || input[i] == '.'
            &&& forall|i: int, j: int|
                0 <= i < j < input.len() ==> !(#[trigger] input[i] == '.' && #[trigger] input[j]
                    == '.')
        }),
{
    let body = unsigned_text(input);
    let start = if input[0] == '-' { 1int } else { 0int };
    let at = dot_position(body);
    let whole = integer_part(input);
    let frac = fraction_part(input);
    lemma_dot_position(body);
    lemma_first_non_digit(whole);
    lemma_first_non_digit(frac);
    assert(body.len() == input.len() - start);
    assert forall|i: int| 0 <= i < body.len() implies #[trigger] body[i] == input[i + start] by {}
    assert forall|i: int| 0 <= i < body.len() && i != at implies is_digit(#[trigger] body[i]) by {
        if i < at {
            assert(is_digit(whole[i]));
        } else {
            assert(is_digit(frac[i - at - 1]));
        }
    }
    assert(whole.len() == at);
    assert(is_digit(body[0]));
    assert(input[start] == body[0]);
    assert(input[input.len() - 1] == body[body.len() - 1]);
    assert forall|i: int| start <= i < input.len() implies '0' <= #[trigger] input[i] <= '9'
        || input[i] == '.' by {
        assert(body[i - start] == input[i]);
    }
    assert forall|i: int, j: int| 0 <= i < j < input.len() implies !(#[trigger] input[i] == '.'
        && #[trigger] input[j] == '.') by {
        if i >= start {
            assert(body[i - start] == input[i]);
            assert(body[j - start] == input[j]);
        }
    }
}

/// An error says what is wrong with the text, and carries the text.
pub proof fn law_parse_errors_name_what_is_wrong(input: Seq<char>, scale: u32)
    requires
        parse_outcome(input, scale) is Err,
    ensures
        ({
            let failure = parse_outcome(input, scale)->Err_0;
            &&& failure is UnsupportedScale <==> scale > 18
            &&& failure is Empty <==> scale <= 18 && input.len() == 0
            &&& failure is MultipleDecimalPoints ==> exists|i: int, j: int|
                0 <= i < j < input.len() && #[trigger] input[i] == '.' && #[trigger] input[j] == '.'
            &&& failure matches ParseFailure::InvalidChar { input: said, ch } ==> said == input
                && input.contains(ch) && !('0' <= ch <= '9')
            &&& failure matches ParseFailure::MultipleDecimalPoints { input: said } ==> said == input
            &&& failure matches ParseFailure::MissingIntegerDigits { input: said } ==> said == input
                && (input[0] == '.' || input[0] == '-' && (input.len() == 1 || input[1] == '.'))
            &&& failure matches ParseFailure::MissingFractionDigits { input: said } ==> said == input
                && input.last() == '.'
            &&& failure matches ParseFailure::Overflow { input: said, scale: at } ==> said == input
                && at == scale
            &&& failure matches ParseFailure::ExcessPrecision { input: said, scale: at, excess }
                ==> said == input && at == scale && excess.is_suffix_of(input)
        }),
        scale <= 18 && (exists|i: int, j: int|
            0 <= i < j < input.len() && #[trigger] input[i] == '.' && #[trigger] input[j] == '.')
            ==> parse_outcome(input, scale)->Err_0 is MultipleDecimalPoints,
{
    let body = unsigned_text(input);
    let start = if input.len() > 0 && input[0] == '-' { 1int } else { 0int };
    let at = dot_position(body);
    let whole = integer_part(input);
    let frac = fraction_part(input);
    let failure = parse_outcome(input, scale)->Err_0;
    lemma_dot_position(body);
    assert forall|i: int| 0 <= i < body.len() implies #[trigger] body[i] == input[i + start] by {}
    if frac.contains('.') {
        let k = choose|k: int| 0 <= k < frac.len() && #[trigger] frac[k] == '.';
        assert(body[at] == '.' && body[at + 1 + k] == '.');
        assert(input[at + start] == '.' && input[at + 1 + k + start] == '.');
    }
    lemma_first_foreign_is_in(whole);
    lemma_first_foreign_is_in(frac);
    if failure is InvalidChar {
        if first_non_digit(whole) is Some {
            let k = choose|k: int|
                0 <= k < whole.len() && #[trigger] whole[k] == first_non_digit(whole)->0;
            assert(body[k] == whole[k]);
            assert(input[k + start] == whole[k]);
        } else {
            let k = choose|k: int|
                0 <= k < frac.len() && #[trigger] frac[k] == first_non_digit(frac)->0;
            assert(body[at + 1 + k] == frac[k]);
            assert(input[at + 1 + k + start] == frac[k]);
        }
    }
    if failure is ExcessPrecision {
        let excess = excess_digits(input, scale as nat);
        assert(excess =~= input.skip(input.len() - excess.len()));
    }
    if failure is MissingFractionDigits {
        assert(body[at] == '.');
        assert(at == body.len() - 1);
        assert(input[at + start] == '.');
    }
    if failure is MissingIntegerDigits {
        assert(at == 0);
        if body.len() > 0 {
            assert(body[0] == '.');
        }
    }
    if exists|i: int, j: int|
        0 <= i < j < input.len() && #[trigger] input[i] == '.' && #[trigger] input[j] == '.' {
        let (i, j) = choose|i: int, j: int|
            0 <= i < j < input.len() && #[trigger] input[i] == '.' && #[trigger] input[j] == '.';
        assert(i >= start);
        assert(body[i - start] == '.' && body[j - start] == '.');
        assert(at <= i - start);
        assert(frac[j - start - at - 1] == '.');
    }
}

proof fn lemma_first_foreign_is_in(s: Seq<char>)
    ensures
        first_non_digit(s) matches Some(c) ==> !is_digit(c) && exists|k: int|
            0 <= k < s.len() && #[trigger] s[k] == c,
    decreases s.len(),
{
    if s.len() > 0 {
        lemma_first_foreign_is_in(s.drop_first());
        if is_digit(s[0]) && first_non_digit(s) is Some {
            let k = choose|k: int|
                0 <= k < s.drop_first().len() && #[trigger] s.drop_first()[k] == first_non_digit(
                    s,
                )->0;
            assert(s[k + 1] == s.drop_first()[k]);
        } else if !is_digit(s[0]) {
            assert(s[0] == first_non_digit(s)->0);
        }
    }
}

/// The text of a scaled integer is a minus where it is negative, a numeral, a point and
/// as many digits as the scale has.
pub proof fn law_scaled_texts_have_one_form(value: int, scale: nat)
    requires
        1 <= scale <= 18,
    ensures
        ({
            let text = scaled_text(value, scale);
            &&& text.len() >= scale + 2
            &&& text[text.len() - scale - 1] == '.'
            &&& value < 0 <==> text[0] == '-'
            &&& forall|i: int|
                text.len() - scale <= i < text.len() ==> '0' <= #[trigger] text[i] <= '9'
        }),
{
    let power = pow10(scale);
    lemma_pow10_bounds(scale);
    let magnitude = magnitude_of(value);
    let high = (magnitude as int / power) as nat;
    let low = (magnitude as int % power) as nat;
    assert(0 <= high && low < power) by (nonlinear_arith)
        requires
            power >= 1,
            magnitude >= 0,
            high == magnitude as int / power,
            low == magnitude as int % power,
    ;
    lemma_decimal(high);
    lemma_fixed_digits(low, scale);
    let text = scaled_text(value, scale);
    let frac = fixed_digits(low, scale);
    let head = text.len() - scale;
    assert forall|i: int| head <= i < text.len() implies '0' <= #[trigger] text[i] <= '9' by {
        assert(text[i] == frac[i - head]);
        assert(is_digit(frac[i - head]));
    }
    assert(is_digit(decimal(high)[0]));
}

/// What is written at a scale is read back at that scale, and digits are added at the end
/// of what was there.
pub proof fn law_what_is_written_is_read_back(
    value: i64,
    scale: u32,
    written: String,
    text: &str,
    result: Result<i64, ParseFixedError>,
    n: u128,
)
    requires
        scale <= 18,
        call_ensures(format_scaled, (value, scale), written),
        text@ == written@,
        call_ensures(parse_scaled, (text, scale), result),
    ensures
        result == Ok::<i64, ParseFixedError>(value),
        forall|out: &mut String| #[trigger]
            call_ensures(push_decimal, (out, n), ()) ==> {
                &&& final(out)@.take(out@.len() as int) == out@
                &&& digits_value(final(out)@.skip(out@.len() as int)) == n
            },
{
    law_format_then_parse(value, scale);
    assert forall|out: &mut String| #[trigger] call_ensures(push_decimal, (out, n), ()) implies {
        &&& final(out)@.take(out@.len() as int) == out@
        &&& digits_value(final(out)@.skip(out@.len() as int)) == n
    } by {
        law_digits_are_read_as_written(Seq::empty(), '0', n as nat);
        assert(final(out)@.take(out@.len() as int) =~= out@);
        assert(final(out)@.skip(out@.len() as int) =~= decimal(n as nat));
    }
}

} // verus!
