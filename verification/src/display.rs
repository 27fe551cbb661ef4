//! What each error says to a reader.

use crate::auth::AuthError;
use crate::book::{BookError, InvariantViolation};
use crate::encode::EncodeError;
use crate::parse::{self, push_decimal, ParseFixedError};
use crate::px;
use crate::quarantine::QuarantineError;
use crate::ranges::PriceRangeError;
use crate::rest::RestError;
use crate::session::SessionError;
use crate::text::{self, debug_char_string, debug_string};
use crate::ticker::TickerError;
use crate::ws::WsError;
use vstd::prelude::*;

verus! {

pub const NEGATIVE_REASON: &'static str =
    ", which is negative. A resting level's size is never negative; a delta that would \
    drive it below zero indicates a lost message, not a short position.";

pub const ZERO_REASON: &'static str =
    " side has quantity zero. A level with no size is not a level: it must be removed \
    from the map, not retained with a zero value, or every consumer has to special-case \
    it.";

pub const NO_SID_REASON: &'static str =
    "a readable book must be tied to the sid whose sequence stream validated it; this \
    book is valid but has no sid";

pub const CROSSED_REASON: &'static str =
    ": the book is crossed. In a binary market this means a YES bid and a NO bid sum to \
    more than $1.00, which is an arbitrage the exchange does not permit and therefore \
    indicates a mis-applied delta.";

pub const UNSORTED_REASON: &'static str =
    ", but the exchange documents levels as ascending with the best bid last. Refusing to \
    ingest rather than silently building an inverted book.";

pub const CONVENTION_REASON: &'static str =
    " is not recognized; set websocket.pricing_convention to \"no_leg\" or \"yes_leg\" \
    explicitly. There is no default: the exchange's own default is scheduled to flip, \
    which would silently invert the meaning of every NO-side price.";

pub const CHARSET_REASON: &'static str =
    ": expected only ASCII digits, an optional leading '-', and at most one '.'";

impl ParseFixedError {
    /// Why a text is no fixed-point value.
    pub open spec fn message(self) -> Seq<char> {
        match self {
            ParseFixedError::Empty => Seq::empty()
                + "cannot parse an empty string as a fixed-point value"@,
            ParseFixedError::InvalidChar { input, ch } => Seq::empty()
                + "invalid character "@
                + text::debug_char(ch)
                + " in "@
                + text::debug_text(input@)
                + CHARSET_REASON@,
            ParseFixedError::MissingIntegerDigits { input } => Seq::empty()
                + "no digits before the decimal point in "@
                + text::debug_text(input@),
            ParseFixedError::MissingFractionDigits { input } => Seq::empty()
                + "no digits after the decimal point in "@
                + text::debug_text(input@),
            ParseFixedError::MultipleDecimalPoints { input } => Seq::empty()
                + "more than one decimal point in "@
                + text::debug_text(input@),
            ParseFixedError::ExcessPrecision { input, scale, excess } => Seq::empty()
                + text::debug_text(input@)
                + " carries more precision than scale 1e-"@
                + parse::decimal(scale as nat)
                + " can hold: excess digits "@
                + text::debug_text(excess@)
                + " are non-zero. Refusing to truncate."@,
            ParseFixedError::Overflow { input, scale } => Seq::empty()
                + text::debug_text(input@)
                + " at scale 1e-"@
                + parse::decimal(scale as nat)
                + " does not fit in i64"@,
            ParseFixedError::UnsupportedScale { scale } => Seq::empty()
                + "internal: scale "@
                + parse::decimal(scale as nat)
                + " exceeds the supported maximum of 18"@,
        }
    }

    pub fn to_display_string(&self) -> (out: String)
        ensures
            out@ == self.message(),
    {
        let mut out = String::new();
        assert(out@ =~= Seq::<char>::empty());
        match self {
            ParseFixedError::Empty => {
                out.append("cannot parse an empty string as a fixed-point value");
            },
            ParseFixedError::InvalidChar { input, ch } => {
                out.append("invalid character ");
                out.append(debug_char_string(*ch).as_str());
                out.append(" in ");
                out.append(debug_string(input.as_str()).as_str());
                out.append(CHARSET_REASON);
            },
            ParseFixedError::MissingIntegerDigits { input } => {
                out.append("no digits before the decimal point in ");
                out.append(debug_string(input.as_str()).as_str());
            },
            ParseFixedError::MissingFractionDigits { input } => {
                out.append("no digits after the decimal point in ");
                out.append(debug_string(input.as_str()).as_str());
            },
            ParseFixedError::MultipleDecimalPoints { input } => {
                out.append("more than one decimal point in ");
                out.append(debug_string(input.as_str()).as_str());
            },
            ParseFixedError::ExcessPrecision { input, scale, excess } => {
                out.append(debug_string(input.as_str()).as_str());
                out.append(" carries more precision than scale 1e-");
                push_decimal(&mut out, *scale as u128);
                out.append(" can hold: excess digits ");
                out.append(debug_string(excess.as_str()).as_str());
                out.append(" are non-zero. Refusing to truncate.");
            },
            ParseFixedError::Overflow { input, scale } => {
                out.append(debug_string(input.as_str()).as_str());
                out.append(" at scale 1e-");
                push_decimal(&mut out, *scale as u128);
                out.append(" does not fit in i64");
            },
            ParseFixedError::UnsupportedScale { scale } => {
                out.append("internal: scale ");
                push_decimal(&mut out, *scale as u128);
                out.append(" exceeds the supported maximum of 18");
            },
        }
        out
    }
}

impl TickerError {
    /// Why a text is no ticker.
    pub open spec fn message(self) -> Seq<char> {
        match self {
            TickerError::Empty => Seq::empty() + "empty ticker"@,
            TickerError::InvalidChar { input, ch } => Seq::empty()
                + "ticker "@
                + text::debug_text(input@)
                + " contains "@
                + text::debug_char(ch)
                + "; expected only A-Z, a-z, 0-9, '-', '.', '_'"@,
            TickerError::UnsafeAsPath { input } => Seq::empty()
                + "ticker "@
                + text::debug_text(input@)
                + " is unsafe to use as a path component"@,
            TickerError::TooLong { input } => Seq::empty()
                + "ticker "@
                + text::debug_text(input@)
                + " exceeds the 128-byte maximum"@,
            TickerError::NotUppercase { input } => Seq::empty()
                + "ticker "@
                + text::debug_text(input@)
                + " is not uppercase; use Ticker::parse to normalize it"@,
        }
    }

    pub fn to_display_string(&self) -> (out: String)
        ensures
            out@ == self.message(),
    {
        let mut out = String::new();
        assert(out@ =~= Seq::<char>::empty());
        match self {
            TickerError::Empty => {
                out.append("empty ticker");
            },
            TickerError::InvalidChar { input, ch } => {
                out.append("ticker ");
                out.append(debug_string(input.as_str()).as_str());
                out.append(" contains ");
                out.append(debug_char_string(*ch).as_str());
                out.append("; expected only A-Z, a-z, 0-9, '-', '.', '_'");
            },
            TickerError::UnsafeAsPath { input } => {
                out.append("ticker ");
                out.append(debug_string(input.as_str()).as_str());
                out.append(" is unsafe to use as a path component");
            },
            TickerError::TooLong { input } => {
                out.append("ticker ");
                out.append(debug_string(input.as_str()).as_str());
                out.append(" exceeds the 128-byte maximum");
            },
            TickerError::NotUppercase { input } => {
                out.append("ticker ");
                out.append(debug_string(input.as_str()).as_str());
                out.append(" is not uppercase; use Ticker::parse to normalize it");
            },
        }
        out
    }
}

impl PriceRangeError {
    /// Why bands are no tick grid.
    pub open spec fn message(self) -> Seq<char> {
        match self {
            PriceRangeError::NonPositiveStep { index, step } => Seq::empty()
                + "band "@
                + parse::decimal(index as nat)
                + " has step "@
                + px::price_display(step)
                + "; a step must be strictly positive"@,
            PriceRangeError::Inverted { index, start, end } => Seq::empty()
                + "band "@
                + parse::decimal(index as nat)
                + " has start "@
                + px::price_display(start)
                + " after end "@
                + px::price_display(end),
            PriceRangeError::Unsorted { index, start, previous } => Seq::empty()
                + "band "@
                + parse::decimal(index as nat)
                + " starts at "@
                + px::price_display(start)
                + ", before the previous band's start "@
                + px::price_display(previous)
                + "; bands must be sorted ascending"@,
        }
    }

    pub fn to_display_string(&self) -> (out: String)
        ensures
            out@ == self.message(),
    {
        let mut out = String::new();
        assert(out@ =~= Seq::<char>::empty());
        match self {
            PriceRangeError::NonPositiveStep { index, step } => {
                out.append("band ");
                push_decimal(&mut out, *index as u128);
                out.append(" has step ");
                out.append(step.to_display_string().as_str());
                out.append("; a step must be strictly positive");
            },
            PriceRangeError::Inverted { index, start, end } => {
                out.append("band ");
                push_decimal(&mut out, *index as u128);
                out.append(" has start ");
                out.append(start.to_display_string().as_str());
                out.append(" after end ");
                out.append(end.to_display_string().as_str());
            },
            PriceRangeError::Unsorted { index, start, previous } => {
                out.append("band ");
                push_decimal(&mut out, *index as u128);
                out.append(" starts at ");
                out.append(start.to_display_string().as_str());
                out.append(", before the previous band's start ");
                out.append(previous.to_display_string().as_str());
                out.append("; bands must be sorted ascending");
            },
        }
        out
    }
}

impl InvariantViolation {
    /// Which property of a book is broken.
    pub open spec fn message(self) -> Seq<char> {
        match self {
            InvariantViolation::NegativeQuantity { side, price, qty } => Seq::empty()
                + "level "@
                + price@
                + " on the "@
                + side@
                + " side has quantity "@
                + qty@
                + NEGATIVE_REASON@,
            InvariantViolation::ZeroQuantityLevel { side, price } => Seq::empty()
                + "level "@
                + price@
                + " on the "@
                + side@
                + ZERO_REASON@,
            InvariantViolation::ValidWithoutSid => Seq::empty()
                + NO_SID_REASON@,
            InvariantViolation::ValidWithoutSeq => Seq::empty()
                + "a valid book must have observed a sequence number; this one has none"@,
            InvariantViolation::Crossed { bid, ask } => Seq::empty()
                + "best bid "@
                + bid@
                + " is at or above best ask "@
                + ask@
                + CROSSED_REASON@,
        }
    }

    pub fn to_display_string(&self) -> (out: String)
        ensures
            out@ == self.message(),
    {
        let mut out = String::new();
        assert(out@ =~= Seq::<char>::empty());
        match self {
            InvariantViolation::NegativeQuantity { side, price, qty } => {
                out.append("level ");
                out.append(price.as_str());
                out.append(" on the ");
                out.append(side);
                out.append(" side has quantity ");
                out.append(qty.as_str());
                out.append(NEGATIVE_REASON);
            },
            InvariantViolation::ZeroQuantityLevel { side, price } => {
                out.append("level ");
                out.append(price.as_str());
                out.append(" on the ");
                out.append(side);
                out.append(ZERO_REASON);
            },
            InvariantViolation::ValidWithoutSid => {
                out.append(NO_SID_REASON);
            },
            InvariantViolation::ValidWithoutSeq => {
                out.append("a valid book must have observed a sequence number; this one has none");
            },
            InvariantViolation::Crossed { bid, ask } => {
                out.append("best bid ");
                out.append(bid.as_str());
                out.append(" is at or above best ask ");
                out.append(ask.as_str());
                out.append(CROSSED_REASON);
            },
        }
        out
    }
}

impl BookError {
    /// Why a snapshot is refused.
    pub open spec fn message(self) -> Seq<char> {
        match self {
            BookError::UnsortedSnapshot { market, side, previous, current } => Seq::empty()
                + "snapshot for "@
                + market@
                + " has "@
                + side@
                + " levels out of order: "@
                + previous@
                + " appears before "@
                + current@
                + UNSORTED_REASON@,
            BookError::DuplicateLevel { market, side, price } => Seq::empty()
                + "snapshot for "@
                + market@
                + " repeats price level "@
                + price@
                + " on the "@
                + side@
                + " side"@,
            BookError::Parse { market, field, value } => Seq::empty()
                + "could not parse "@
                + field@
                + " "@
                + text::debug_text(value@)
                + " in a message for "@
                + market@,
        }
    }

    pub fn to_display_string(&self) -> (out: String)
        ensures
            out@ == self.message(),
    {
        let mut out = String::new();
        assert(out@ =~= Seq::<char>::empty());
        match self {
            BookError::UnsortedSnapshot { market, side, previous, current } => {
                out.append("snapshot for ");
                out.append(market.as_str());
                out.append(" has ");
                out.append(side);
                out.append(" levels out of order: ");
                out.append(previous.as_str());
                out.append(" appears before ");
                out.append(current.as_str());
                out.append(UNSORTED_REASON);
            },
            BookError::DuplicateLevel { market, side, price } => {
                out.append("snapshot for ");
                out.append(market.as_str());
                out.append(" repeats price level ");
                out.append(price.as_str());
                out.append(" on the ");
                out.append(side);
                out.append(" side");
            },
            BookError::Parse { market, field, value } => {
                out.append("could not parse ");
                out.append(field);
                out.append(" ");
                out.append(debug_string(value.as_str()).as_str());
                out.append(" in a message for ");
                out.append(market.as_str());
            },
        }
        out
    }
}

impl AuthError {
    /// Why a request could not be signed. No key material is ever in it.
    pub open spec fn message(self) -> Seq<char> {
        match self {
            AuthError::DecodeKey { path } => Seq::empty()
                + "private key at "@
                + path@
                + " is not a valid PKCS#8 RSA key"@,
            AuthError::ClockBeforeEpoch => Seq::empty() + "system clock is before the Unix epoch"@,
            AuthError::UnlikePrimes => Seq::empty()
                + "the primes of the private key are too unlike in length"@,
            AuthError::Sign => Seq::empty() + "signing failed"@,
            AuthError::DecodePublicKey { origin } => Seq::empty()
                + origin@
                + " is not a valid PEM public key"@,
        }
    }

    pub fn to_display_string(&self) -> (out: String)
        ensures
            out@ == self.message(),
    {
        let mut out = String::new();
        assert(out@ =~= Seq::<char>::empty());
        match self {
            AuthError::DecodeKey { path } => {
                out.append("private key at ");
                out.append(path.as_str());
                out.append(" is not a valid PKCS#8 RSA key");
            },
            AuthError::ClockBeforeEpoch => {
                out.append("system clock is before the Unix epoch");
            },
            AuthError::UnlikePrimes => {
                out.append("the primes of the private key are too unlike in length");
            },
            AuthError::Sign => {
                out.append("signing failed");
            },
            AuthError::DecodePublicKey { origin } => {
                out.append(origin.as_str());
                out.append(" is not a valid PEM public key");
            },
        }
        out
    }
}

impl WsError {
    /// What went wrong with the socket or its settings.
    pub open spec fn message(self) -> Seq<char> {
        match self {
            WsError::Closed { reason } => Seq::empty() + "socket closed: "@ + reason@,
            WsError::UnknownPricingConvention { value } => Seq::empty()
                + "pricing convention "@
                + text::debug_text(value@)
                + CONVENTION_REASON@,
        }
    }

    pub fn to_display_string(&self) -> (out: String)
        ensures
            out@ == self.message(),
    {
        let mut out = String::new();
        assert(out@ =~= Seq::<char>::empty());
        match self {
            WsError::Closed { reason } => {
                out.append("socket closed: ");
                out.append(reason.as_str());
            },
            WsError::UnknownPricingConvention { value } => {
                out.append("pricing convention ");
                out.append(debug_string(value.as_str()).as_str());
                out.append(CONVENTION_REASON);
            },
        }
        out
    }
}

impl RestError {
    /// Why a request gave no answer.
    pub open spec fn message(self) -> Seq<char> {
        match self {
            RestError::Status { path, status, body } => Seq::empty()
                + path@
                + " returned "@
                + parse::decimal(status as nat)
                + ": "@
                + body@,
            RestError::Exhausted { path, attempts } => Seq::empty()
                + "gave up on "@
                + path@
                + " after "@
                + parse::decimal(attempts as nat)
                + " attempts"@,
        }
    }

    pub fn to_display_string(&self) -> (out: String)
        ensures
            out@ == self.message(),
    {
        let mut out = String::new();
        assert(out@ =~= Seq::<char>::empty());
        match self {
            RestError::Status { path, status, body } => {
                out.append(path.as_str());
                out.append(" returned ");
                push_decimal(&mut out, *status as u128);
                out.append(": ");
                out.append(body.as_str());
            },
            RestError::Exhausted { path, attempts } => {
                out.append("gave up on ");
                out.append(path.as_str());
                out.append(" after ");
                push_decimal(&mut out, *attempts as u128);
                out.append(" attempts");
            },
        }
        out
    }
}

impl SessionError {
    /// Which fact is missing.
    pub open spec fn message(self) -> Seq<char> {
        match self {
            SessionError::MissingField { field } => Seq::empty()
                + "session field "@
                + field@
                + " must be set explicitly; capture refuses to guess it"@,
        }
    }

    pub fn to_display_string(&self) -> (out: String)
        ensures
            out@ == self.message(),
    {
        let mut out = String::new();
        assert(out@ =~= Seq::<char>::empty());
        match self {
            SessionError::MissingField { field } => {
                out.append("session field ");
                out.append(field);
                out.append(" must be set explicitly; capture refuses to guess it");
            },
        }
        out
    }
}

impl EncodeError {
    /// What could not be encoded.
    pub open spec fn message(self) -> Seq<char> {
        match self {
            EncodeError::Batch { channel } => Seq::empty()
                + "building a record batch for "@
                + channel@,
        }
    }

    pub fn to_display_string(&self) -> (out: String)
        ensures
            out@ == self.message(),
    {
        let mut out = String::new();
        assert(out@ =~= Seq::<char>::empty());
        match self {
            EncodeError::Batch { channel } => {
                out.append("building a record batch for ");
                out.append(channel);
            },
        }
        out
    }
}

impl QuarantineError {
    /// What could not be scanned or moved.
    pub open spec fn message(self) -> Seq<char> {
        match self {
            QuarantineError::Scan { path } => Seq::empty() + "scanning "@ + path@,
            QuarantineError::Move { path } => Seq::empty() + "quarantining "@ + path@,
        }
    }

    pub fn to_display_string(&self) -> (out: String)
        ensures
            out@ == self.message(),
    {
        let mut out = String::new();
        assert(out@ =~= Seq::<char>::empty());
        match self {
            QuarantineError::Scan { path } => {
                out.append("scanning ");
                out.append(path.as_str());
            },
            QuarantineError::Move { path } => {
                out.append("quarantining ");
                out.append(path.as_str());
            },
        }
        out
    }
}

// ---------------------------------------------------------------------------
// Laws
// ---------------------------------------------------------------------------
/// Whether a text starts with another.
pub open spec fn opens_with(text: Seq<char>, start: Seq<char>) -> bool {
    start.len() <= text.len() && text.take(start.len() as int) == start
}

proof fn lemma_opens_with(start: Seq<char>, rest: Seq<char>)
    ensures
        opens_with(start + rest, start),
{
    assert((start + rest).take(start.len() as int) =~= start);
}

/// A refused snapshot names its market, its side and its prices in the order in which
/// they came.
pub proof fn law_a_refused_snapshot_is_described(error: BookError, out: String)
    requires
        call_ensures(BookError::to_display_string, (&error,), out),
    ensures
        error matches BookError::UnsortedSnapshot { market, side, previous, current } ==> opens_with(
            out@,
            "snapshot for "@ + market@ + " has "@ + side@ + " levels out of order: "@ + previous@
                + " appears before "@ + current@,
        ),
        error matches BookError::DuplicateLevel { market, side, price } ==> out@
            == "snapshot for "@ + market@ + " repeats price level "@ + price@ + " on the "@ + side@
            + " side"@,
        error matches BookError::Parse { market, field, value } ==> opens_with(
            out@,
            "could not parse "@ + field@ + " "@ + text::debug_text(value@)
                + " in a message for "@ + market@,
        ),
{
    assert(Seq::<char>::empty() + "snapshot for "@ =~= "snapshot for "@);
    assert(Seq::<char>::empty() + "could not parse "@ =~= "could not parse "@);
    if let BookError::UnsortedSnapshot { market, side, previous, current } = error {
        lemma_opens_with(
            "snapshot for "@ + market@ + " has "@ + side@ + " levels out of order: "@ + previous@
                + " appears before "@ + current@,
            UNSORTED_REASON@,
        );
    }
    lemma_opens_with(out@, Seq::empty());
    assert(out@ + Seq::<char>::empty() =~= out@);
}

/// A broken property names the level, its side and its size, or the two sides that cross,
/// the bid first.
pub proof fn law_a_broken_property_is_described(violation: InvariantViolation, out: String)
    requires
        call_ensures(InvariantViolation::to_display_string, (&violation,), out),
    ensures
        violation matches InvariantViolation::NegativeQuantity { side, price, qty } ==> opens_with(
            out@,
            "level "@ + price@ + " on the "@ + side@ + " side has quantity "@ + qty@,
        ),
        violation matches InvariantViolation::ZeroQuantityLevel { side, price } ==> opens_with(
            out@,
            "level "@ + price@ + " on the "@ + side@,
        ),
        violation matches InvariantViolation::Crossed { bid, ask } ==> opens_with(
            out@,
            "best bid "@ + bid@ + " is at or above best ask "@ + ask@,
        ),
{
    assert(Seq::<char>::empty() + "level "@ =~= "level "@);
    assert(Seq::<char>::empty() + "best bid "@ =~= "best bid "@);
    match violation {
        InvariantViolation::NegativeQuantity { side, price, qty } => {
            lemma_opens_with(
                "level "@ + price@ + " on the "@ + side@ + " side has quantity "@ + qty@,
                NEGATIVE_REASON@,
            );
        },
        InvariantViolation::ZeroQuantityLevel { side, price } => {
            lemma_opens_with("level "@ + price@ + " on the "@ + side@, ZERO_REASON@);
        },
        InvariantViolation::Crossed { bid, ask } => {
            lemma_opens_with(
                "best bid "@ + bid@ + " is at or above best ask "@ + ask@,
                CROSSED_REASON@,
            );
        },
        _ => {},
    }
}

/// A refused text is quoted in its error, with the character, the scale or the digits
/// that are wrong with it.
pub proof fn law_a_refused_number_is_described(error: ParseFixedError, out: String)
    requires
        call_ensures(ParseFixedError::to_display_string, (&error,), out),
    ensures
        error matches ParseFixedError::InvalidChar { input, ch } ==> opens_with(
            out@,
            "invalid character "@ + text::debug_char(ch) + " in "@ + text::debug_text(input@),
        ),
        error matches ParseFixedError::ExcessPrecision { input, scale, excess } ==> opens_with(
            out@,
            text::debug_text(input@) + " carries more precision than scale 1e-"@ + parse::decimal(
                scale as nat,
            ) + " can hold: excess digits "@ + text::debug_text(excess@),
        ),
        error matches ParseFixedError::Overflow { input, scale } ==> opens_with(
            out@,
            text::debug_text(input@) + " at scale 1e-"@ + parse::decimal(scale as nat),
        ),
        error matches ParseFixedError::MissingIntegerDigits { input } ==> out@
            == "no digits before the decimal point in "@ + text::debug_text(input@),
        error matches ParseFixedError::MissingFractionDigits { input } ==> out@
            == "no digits after the decimal point in "@ + text::debug_text(input@),
        error matches ParseFixedError::MultipleDecimalPoints { input } ==> out@
            == "more than one decimal point in "@ + text::debug_text(input@),
{
    match error {
        ParseFixedError::InvalidChar { input, ch } => {
            assert(Seq::<char>::empty() + "invalid character "@ =~= "invalid character "@);
            lemma_opens_with(
                "invalid character "@ + text::debug_char(ch) + " in "@ + text::debug_text(input@),
                CHARSET_REASON@,
            );
        },
        ParseFixedError::ExcessPrecision { input, scale, excess } => {
            assert(Seq::<char>::empty() + text::debug_text(input@) =~= text::debug_text(input@));
            lemma_opens_with(
                text::debug_text(input@) + " carries more precision than scale 1e-"@
                    + parse::decimal(scale as nat) + " can hold: excess digits "@
                    + text::debug_text(excess@),
                " are non-zero. Refusing to truncate."@,
            );
        },
        ParseFixedError::Overflow { input, scale } => {
            assert(Seq::<char>::empty() + text::debug_text(input@) =~= text::debug_text(input@));
            lemma_opens_with(
                text::debug_text(input@) + " at scale 1e-"@ + parse::decimal(scale as nat),
                " does not fit in i64"@,
            );
        },
        ParseFixedError::MissingIntegerDigits { input } => {
            assert(Seq::<char>::empty() + "no digits before the decimal point in "@
                =~= "no digits before the decimal point in "@);
        },
        ParseFixedError::MissingFractionDigits { input } => {
            assert(Seq::<char>::empty() + "no digits after the decimal point in "@
                =~= "no digits after the decimal point in "@);
        },
        ParseFixedError::MultipleDecimalPoints { input } => {
            assert(Seq::<char>::empty() + "more than one decimal point in "@
                =~= "more than one decimal point in "@);
        },
        _ => {},
    }
}

/// A refused grid names the place of its band and the prices in the order they stand in.
pub proof fn law_a_refused_grid_is_described(error: PriceRangeError, out: String)
    requires
        call_ensures(PriceRangeError::to_display_string, (&error,), out),
    ensures
        error matches PriceRangeError::NonPositiveStep { index, step } ==> opens_with(
            out@,
            "band "@ + parse::decimal(index as nat) + " has step "@ + px::price_display(step),
        ),
        error matches PriceRangeError::Inverted { index, start, end } ==> out@ == "band "@
            + parse::decimal(index as nat) + " has start "@ + px::price_display(start)
            + " after end "@ + px::price_display(end),
        error matches PriceRangeError::Unsorted { index, start, previous } ==> opens_with(
            out@,
            "band "@ + parse::decimal(index as nat) + " starts at "@ + px::price_display(start)
                + ", before the previous band's start "@ + px::price_display(previous),
        ),
{
    assert(Seq::<char>::empty() + "band "@ =~= "band "@);
    match error {
        PriceRangeError::NonPositiveStep { index, step } => {
            lemma_opens_with(
                "band "@ + parse::decimal(index as nat) + " has step "@ + px::price_display(step),
                "; a step must be strictly positive"@,
            );
        },
        PriceRangeError::Unsorted { index, start, previous } => {
            lemma_opens_with(
                "band "@ + parse::decimal(index as nat) + " starts at "@ + px::price_display(start)
                    + ", before the previous band's start "@ + px::price_display(previous),
                "; bands must be sorted ascending"@,
            );
        },
        _ => {},
    }
}

/// A refused ticker is quoted in its error, and so is the character that is wrong with
/// it.
pub proof fn law_a_refused_ticker_is_described(error: TickerError, out: String)
    requires
        call_ensures(TickerError::to_display_string, (&error,), out),
    ensures
        error matches TickerError::InvalidChar { input, ch } ==> opens_with(
            out@,
            "ticker "@ + text::debug_text(input@) + " contains "@ + text::debug_char(ch),
        ),
        error matches TickerError::UnsafeAsPath { input } ==> out@ == "ticker "@
            + text::debug_text(input@) + " is unsafe to use as a path component"@,
        error matches TickerError::TooLong { input } ==> out@ == "ticker "@ + text::debug_text(
            input@,
        ) + " exceeds the 128-byte maximum"@,
        error matches TickerError::NotUppercase { input } ==> opens_with(
            out@,
            "ticker "@ + text::debug_text(input@),
        ),
{
    assert(Seq::<char>::empty() + "ticker "@ =~= "ticker "@);
    match error {
        TickerError::InvalidChar { input, ch } => {
            lemma_opens_with(
                "ticker "@ + text::debug_text(input@) + " contains "@ + text::debug_char(ch),
                "; expected only A-Z, a-z, 0-9, '-', '.', '_'"@,
            );
        },
        TickerError::NotUppercase { input } => {
            lemma_opens_with(
                "ticker "@ + text::debug_text(input@),
                " is not uppercase; use Ticker::parse to normalize it"@,
            );
        },
        _ => {},
    }
}

/// A failed request, a closed socket, a missing fact, a key and a file are named by their
/// errors.
pub proof fn law_failures_name_what_failed(
    rest: RestError,
    ws: WsError,
    session: SessionError,
    auth: AuthError,
    file: QuarantineError,
    rest_text: String,
    ws_text: String,
    session_text: String,
    auth_text: String,
    file_text: String,
)
    requires
        call_ensures(RestError::to_display_string, (&rest,), rest_text),
        call_ensures(WsError::to_display_string, (&ws,), ws_text),
        call_ensures(SessionError::to_display_string, (&session,), session_text),
        call_ensures(AuthError::to_display_string, (&auth,), auth_text),
        call_ensures(QuarantineError::to_display_string, (&file,), file_text),
    ensures
        rest matches RestError::Status { path, status, body } ==> rest_text@ == path@
            + " returned "@ + parse::decimal(status as nat) + ": "@ + body@,
        rest matches RestError::Exhausted { path, attempts } ==> rest_text@ == "gave up on "@
            + path@ + " after "@ + parse::decimal(attempts as nat) + " attempts"@,
        ws matches WsError::Closed { reason } ==> ws_text@ == "socket closed: "@ + reason@,
        ws matches WsError::UnknownPricingConvention { value } ==> opens_with(
            ws_text@,
            "pricing convention "@ + text::debug_text(value@),
        ),
        session matches SessionError::MissingField { field } ==> opens_with(
            session_text@,
            "session field "@ + field@,
        ),
        auth matches AuthError::DecodeKey { path } ==> opens_with(
            auth_text@,
            "private key at "@ + path@,
        ),
        auth matches AuthError::DecodePublicKey { origin } ==> opens_with(auth_text@, origin@),
        file matches QuarantineError::Scan { path } ==> file_text@ == "scanning "@ + path@,
        file matches QuarantineError::Move { path } ==> file_text@ == "quarantining "@ + path@,
{
    assert(Seq::<char>::empty() + "gave up on "@ =~= "gave up on "@);
    assert(Seq::<char>::empty() + "socket closed: "@ =~= "socket closed: "@);
    assert(Seq::<char>::empty() + "pricing convention "@ =~= "pricing convention "@);
    assert(Seq::<char>::empty() + "session field "@ =~= "session field "@);
    assert(Seq::<char>::empty() + "private key at "@ =~= "private key at "@);
    assert(Seq::<char>::empty() + "scanning "@ =~= "scanning "@);
    assert(Seq::<char>::empty() + "quarantining "@ =~= "quarantining "@);
    if let RestError::Status { path, .. } = rest {
        assert(Seq::<char>::empty() + path@ =~= path@);
    }
    if let WsError::UnknownPricingConvention { value } = ws {
        lemma_opens_with("pricing convention "@ + text::debug_text(value@), CONVENTION_REASON@);
    }
    if let SessionError::MissingField { field } = session {
        lemma_opens_with(
            "session field "@ + field@,
            " must be set explicitly; capture refuses to guess it"@,
        );
    }
    if let AuthError::DecodeKey { path } = auth {
        lemma_opens_with("private key at "@ + path@, " is not a valid PKCS#8 RSA key"@);
    }
    if let AuthError::DecodePublicKey { origin } = auth {
        assert(Seq::<char>::empty() + origin@ =~= origin@);
        lemma_opens_with(origin@, " is not a valid PEM public key"@);
    }
}

} // verus!
