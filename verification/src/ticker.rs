//! [`Ticker`] and [`Side`].

use crate::text::chars_of;
use vstd::prelude::*;

verus! {

#[derive(Debug, Clone, PartialEq, Eq)]
pub enum TickerError {
    Empty,
    InvalidChar { input: String, ch: char },
    UnsafeAsPath { input: String },
    TooLong { input: String },
    NotUppercase { input: String },
}

/// What a [`TickerError`] says, with its texts as character sequences.
pub enum TickerFailure {
    Empty,
    InvalidChar { input: Seq<char>, ch: char },
    UnsafeAsPath { input: Seq<char> },
    TooLong { input: Seq<char> },
    NotUppercase { input: Seq<char> },
}

impl View for TickerError {
    type V = TickerFailure;

    open spec fn view(&self) -> TickerFailure {
        match self {
            TickerError::Empty => TickerFailure::Empty,
            TickerError::InvalidChar { input, ch } => TickerFailure::InvalidChar {
                input: input@,
                ch: *ch,
            },
            TickerError::UnsafeAsPath { input } => TickerFailure::UnsafeAsPath { input: input@ },
            TickerError::TooLong { input } => TickerFailure::TooLong { input: input@ },
            TickerError::NotUppercase { input } => TickerFailure::NotUppercase { input: input@ },
        }
    }
}

/// Stops an absurd value from becoming a filename.
pub const MAX_TICKER_LEN: usize = 128;

/// A Kalshi market, event, or series ticker.
///
/// Tickers become directory names and partition keys, so what is enforced is
/// what keeps a ticker from escaping the data directory: not empty, at most 128
/// bytes, only `[A-Za-z0-9._-]`, no leading `.`. [`Ticker::parse`] folds case to
/// uppercase, so that two spellings can never denote two partitions.
#[derive(Clone, PartialEq, Eq, PartialOrd, Ord, Hash, Debug)]
pub struct Ticker(pub String);

impl View for Ticker {
    type V = Seq<char>;

    open spec fn view(&self) -> Seq<char> {
        self.0@
    }
}

pub open spec fn is_ticker_char(c: char) -> bool {
    'A' <= c <= 'Z' || 'a' <= c <= 'z' || '0' <= c <= '9' || c == '-' || c == '.' || c == '_'
}

pub open spec fn is_lowercase_char(c: char) -> bool {
    'a' <= c <= 'z'
}

/// ASCII uppercase; every other character stays as it is.
pub open spec fn upper_char(c: char) -> char {
    if is_lowercase_char(c) {
        (c as int - 32) as char
    } else {
        c
    }
}

pub open spec fn uppercase(s: Seq<char>) -> Seq<char> {
    s.map_values(|c: char| upper_char(c))
}

/// Whether a text has no ASCII lowercase letter.
pub open spec fn no_lowercase(s: Seq<char>) -> bool {
    forall|i: int| 0 <= i < s.len() ==> !is_lowercase_char(#[trigger] s[i])
}

/// The first character that a ticker may not hold.
pub open spec fn first_foreign_char(s: Seq<char>) -> Option<char>
    decreases s.len(),
{
    if s.len() == 0 {
        None
    } else if !is_ticker_char(s[0]) {
        Some(s[0])
    } else {
        first_foreign_char(s.drop_first())
    }
}

/// Why a text is no ticker, if it is none. The length counts UTF-8 bytes.
pub open spec fn ticker_failure(s: Seq<char>) -> Option<TickerFailure> {
    if s.len() == 0 {
        Some(TickerFailure::Empty)
    } else if vstd::utf8::encode_utf8(s).len() > MAX_TICKER_LEN {
        Some(TickerFailure::TooLong { input: s })
    } else if first_foreign_char(s) is Some {
        Some(TickerFailure::InvalidChar { input: s, ch: first_foreign_char(s)->0 })
    } else if s[0] == '.' {
        Some(TickerFailure::UnsafeAsPath { input: s })
    } else {
        None
    }
}

proof fn lemma_first_foreign_at(s: Seq<char>, k: int)
    requires
        0 <= k < s.len(),
        !is_ticker_char(s[k]),
        forall|i: int| 0 <= i < k ==> is_ticker_char(#[trigger] s[i]),
    ensures
        first_foreign_char(s) == Some(s[k]),
    decreases s.len(),
{
    if k > 0 {
        assert(is_ticker_char(s[0]));
        assert forall|i: int| 0 <= i < k - 1 implies is_ticker_char(#[trigger] s.drop_first()[i]) by {
            assert(is_ticker_char(s[i + 1]));
        }
        lemma_first_foreign_at(s.drop_first(), k - 1);
    }
}

proof fn lemma_no_foreign(s: Seq<char>)
    ensures
        first_foreign_char(s) is None <==> forall|i: int|
            0 <= i < s.len() ==> is_ticker_char(#[trigger] s[i]),
    decreases s.len(),
{
    if s.len() > 0 {
        let rest = s.drop_first();
        lemma_no_foreign(rest);
        if is_ticker_char(s[0]) {
            if first_foreign_char(s) is None {
                assert forall|i: int| 0 <= i < s.len() implies is_ticker_char(#[trigger] s[i]) by {
                    if i > 0 {
                        assert(is_ticker_char(rest[i - 1]));
                    }
                }
            } else {
                let j = choose|j: int| 0 <= j < rest.len() && !is_ticker_char(#[trigger] rest[j]);
                assert(!is_ticker_char(s[j + 1]));
            }
        }
    }
}

impl Ticker {
    /// Validate and normalize to uppercase.
    pub fn parse(s: &str) -> (result: Result<Ticker, TickerError>)
        ensures
            match ticker_failure(s@) {
                None => result matches Ok(ticker) && ticker@ == uppercase(s@),
                Some(failure) => result matches Err(error) && error@ == failure,
            },
    {
        match Ticker::validate(s) {
            Ok(()) => {},
            Err(error) => return Err(error),
        }
        let chars = chars_of(s);
        let mut out = String::new();
        let mut i: usize = 0;
        while i < chars.len()
            invariant
                i <= chars@.len(),
                chars@ == s@,
                out@ == uppercase(s@.take(i as int)),
            decreases chars@.len() - i,
        {
            let c = chars[i];
            let up = if 'a' <= c && c <= 'z' {
                (c as u8 - 32u8) as char
            } else {
                c
            };
            out.push(up);
            assert(uppercase(s@.take(i + 1)) =~= uppercase(s@.take(i as int)).push(
                upper_char(s@[i as int]),
            ));
            i += 1;
        }
        assert(s@.take(s@.len() as int) =~= s@);
        Ok(Ticker(out))
    }

    /// Validate without normalizing: a lowercase ticker is an error.
    pub fn parse_strict(s: &str) -> (result: Result<Ticker, TickerError>)
        ensures
            match ticker_failure(s@) {
                None => if no_lowercase(s@) {
                    result matches Ok(ticker) && ticker@ == s@
                } else {
                    result matches Err(error) && error@ == (TickerFailure::NotUppercase {
                        input: s@,
                    })
                },
                Some(failure) => result matches Err(error) && error@ == failure,
            },
    {
        match Ticker::validate(s) {
            Ok(()) => {},
            Err(error) => return Err(error),
        }
        if !Ticker::is_canonical(s) {
            return Err(TickerError::NotUppercase { input: s.to_owned() });
        }
        Ok(Ticker(s.to_owned()))
    }

    /// Whether `raw` was already in canonical form.
    pub fn is_canonical(raw: &str) -> (out: bool)
        ensures
            out == no_lowercase(raw@),
    {
        let chars = chars_of(raw);
        let mut i: usize = 0;
        while i < chars.len()
            invariant
                i <= chars@.len(),
                chars@ == raw@,
                no_lowercase(raw@.take(i as int)),
            decreases chars@.len() - i,
        {
            let c = chars[i];
            if 'a' <= c && c <= 'z' {
                assert(is_lowercase_char(raw@[i as int]));
                return false;
            }
            assert(no_lowercase(raw@.take(i + 1))) by {
                assert forall|k: int| 0 <= k < i + 1 implies !is_lowercase_char(
                    #[trigger] raw@.take(i + 1)[k],
                ) by {
                    if k < i {
                        assert(!is_lowercase_char(raw@.take(i as int)[k]));
                    }
                }
            }
            i += 1;
        }
        assert(raw@.take(raw@.len() as int) =~= raw@);
        true
    }

    /// The ticker as a single filesystem path component.
    pub fn as_partition_component(&self) -> (out: &str)
        ensures
            out@ == self@,
    {
        self.0.as_str()
    }

    fn validate(s: &str) -> (result: Result<(), TickerError>)
        ensures
            match ticker_failure(s@) {
                None => result is Ok,
                Some(failure) => result matches Err(error) && error@ == failure,
            },
    {
        if s.is_empty() {
            return Err(TickerError::Empty);
        }
        if s.as_bytes().len() > MAX_TICKER_LEN {
            return Err(TickerError::TooLong { input: s.to_owned() });
        }
        let chars = chars_of(s);
        let mut i: usize = 0;
        while i < chars.len()
            invariant
                i <= chars@.len(),
                chars@ == s@,
                s@.len() > 0,
                vstd::utf8::encode_utf8(s@).len() <= MAX_TICKER_LEN,
                forall|k: int| 0 <= k < i ==> is_ticker_char(#[trigger] s@[k]),
            decreases chars@.len() - i,
        {
            let c = chars[i];
            if !('A' <= c && c <= 'Z' || 'a' <= c && c <= 'z' || '0' <= c && c <= '9' || c == '-'
                || c == '.' || c == '_') {
                proof {
                    lemma_first_foreign_at(s@, i as int);
                }
                return Err(TickerError::InvalidChar { input: s.to_owned(), ch: c });
            }
            i += 1;
        }
        proof {
            lemma_no_foreign(s@);
        }
        // A leading '.' hides the component, and '.' or '..' would alias the
        // data directory.
        if chars[0] == '.' {
            return Err(TickerError::UnsafeAsPath { input: s.to_owned() });
        }
        Ok(())
    }

    pub fn as_str(&self) -> (out: &str)
        ensures
            out@ == self@,
    {
        self.0.as_str()
    }
}

/// Whether a text can stand as one component of a path: it names no parent, no
/// separator and nothing hidden.
pub open spec fn is_safe_component(s: Seq<char>) -> bool {
    &&& s.len() > 0
    &&& s[0] != '.'
    &&& forall|i: int| 0 <= i < s.len() ==> is_ticker_char(#[trigger] s[i])
}

/// A ticker that parses is a safe path component without lowercase letters, and
/// parsing its canonical form again changes nothing.
pub proof fn law_parsed_tickers_are_canonical_components(s: Seq<char>)
    requires
        ticker_failure(s) is None,
    ensures
        is_safe_component(uppercase(s)),
        no_lowercase(uppercase(s)),
        uppercase(uppercase(s)) == uppercase(s),
        ticker_failure(uppercase(s)) is None,
        no_lowercase(s) ==> uppercase(s) == s,
{
    let up = uppercase(s);
    lemma_no_foreign(s);
    assert forall|i: int| 0 <= i < up.len() implies is_ticker_char(#[trigger] up[i])
        && !is_lowercase_char(up[i]) by {
        assert(is_ticker_char(s[i]));
    }
    lemma_no_foreign(up);
    assert(uppercase(up) =~= up);
    assert(up[0] == upper_char(s[0]));
    assert(vstd::utf8::is_ascii_chars(s)) by {
        assert forall|i: int| 0 <= i < s.len() implies (0 <= #[trigger] s[i] as nat) && (s[i] as nat)
            < 128 by {
            assert(is_ticker_char(s[i]));
        }
    }
    assert(vstd::utf8::is_ascii_chars(up)) by {
        assert forall|i: int| 0 <= i < up.len() implies (0 <= #[trigger] up[i] as nat) && (
        up[i] as nat) < 128 by {
            assert(is_ticker_char(up[i]));
        }
    }
    vstd::utf8::is_ascii_chars_encode_utf8(s);
    vstd::utf8::is_ascii_chars_encode_utf8(up);
    if no_lowercase(s) {
        assert(up =~= s);
    }
}

/// Two spellings of one ticker that differ only in case parse to one value.
pub proof fn law_case_does_not_split_tickers(a: Seq<char>, b: Seq<char>)
    requires
        a.len() == b.len(),
        forall|i: int| 0 <= i < a.len() ==> upper_char(#[trigger] a[i]) == upper_char(b[i]),
    ensures
        uppercase(a) == uppercase(b),
{
    assert(uppercase(a) =~= uppercase(b));
}

/// Which leg of a binary market a price or order refers to.
#[derive(Copy, Clone, PartialEq, Eq, Structural, PartialOrd, Ord, Hash, Debug)]
pub enum Side {
    Yes,
    No,
}

impl Side {
    pub fn opposite(self) -> (out: Side)
        ensures
            out == (match self {
                Side::Yes => Side::No,
                Side::No => Side::Yes,
            }),
    {
        match self {
            Side::Yes => Side::No,
            Side::No => Side::Yes,
        }
    }

    pub fn as_str(self) -> (out: &'static str)
        ensures
            out@ == (match self {
                Side::Yes => "yes"@,
                Side::No => "no"@,
            }),
    {
        match self {
            Side::Yes => "yes",
            Side::No => "no",
        }
    }
}

/// A text is a ticker exactly where it has one to 128 characters, all of them letters,
/// digits, `-`, `.` or `_`, and does not start with a `.`; and it parses to itself in
/// capitals.
pub proof fn law_a_ticker_is_a_short_safe_name(text: &str, result: Result<Ticker, TickerError>)
    requires
        call_ensures(Ticker::parse, (text,), result),
    ensures
        result is Ok <==> {
            &&& 0 < text@.len() <= 128
            &&& text@[0] != '.'
            &&& forall|i: int|
                0 <= i < text@.len() ==> {
                    let c = #[trigger] text@[i];
                    'A' <= c <= 'Z' || 'a' <= c <= 'z' || '0' <= c <= '9' || c == '-' || c == '.'
                        || c == '_'
                }
        },
        result matches Ok(ticker) ==> ticker@.len() == text@.len() && forall|i: int|
            0 <= i < text@.len() ==> {
                let c = text@[i];
                let up = #[trigger] ticker@[i];
                if 'a' <= c <= 'z' {
                    up as int == c as int - 32
                } else {
                    up == c
                }
            },
{
    let s = text@;
    lemma_no_foreign(s);
    if forall|i: int| 0 <= i < s.len() ==> is_ticker_char(#[trigger] s[i]) {
        assert(vstd::utf8::is_ascii_chars(s)) by {
            assert forall|i: int| 0 <= i < s.len() implies (0 <= #[trigger] s[i] as nat) && (
            s[i] as nat) < 128 by {
                assert(is_ticker_char(s[i]));
            }
        }
        vstd::utf8::is_ascii_chars_encode_utf8(s);
        assert forall|i: int| 0 <= i < s.len() implies {
            let c = #[trigger] s[i];
            'A' <= c <= 'Z' || 'a' <= c <= 'z' || '0' <= c <= '9' || c == '-' || c == '.' || c
                == '_'
        } by {
            assert(is_ticker_char(s[i]));
        }
    } else {
        let k = choose|k: int| 0 <= k < s.len() && !is_ticker_char(#[trigger] s[k]);
        let c = s[k];
        assert(!('A' <= c <= 'Z' || 'a' <= c <= 'z' || '0' <= c <= '9' || c == '-' || c == '.' || c
            == '_'));
    }
}

/// Strict parsing accepts what parsing accepts without a small letter, as it is; and a
/// name is canonical exactly where it has no small letter.
pub proof fn law_strict_tickers_are_capital(
    text: &str,
    folded: Result<Ticker, TickerError>,
    strict: Result<Ticker, TickerError>,
    canonical: bool,
)
    requires
        call_ensures(Ticker::parse, (text,), folded),
        call_ensures(Ticker::parse_strict, (text,), strict),
        call_ensures(Ticker::is_canonical, (text,), canonical),
    ensures
        canonical <==> forall|i: int| 0 <= i < text@.len() ==> !('a' <= #[trigger] text@[i] <= 'z'),
        strict is Ok <==> folded is Ok && canonical,
        strict matches Ok(ticker) ==> ticker@ == text@ && folded->Ok_0@ == text@,
        folded is Ok && !canonical ==> strict->Err_0@ == (TickerFailure::NotUppercase {
            input: text@,
        }),
        folded is Err ==> strict->Err_0@ == folded->Err_0@,
{
    if canonical {
        assert forall|i: int| 0 <= i < text@.len() implies !('a' <= #[trigger] text@[i] <= 'z') by {
            assert(!is_lowercase_char(text@[i]));
        }
        assert(uppercase(text@) =~= text@);
    } else {
        let k = choose|k: int| 0 <= k < text@.len() && is_lowercase_char(#[trigger] text@[k]);
        assert('a' <= text@[k] <= 'z');
    }
}

/// Why a text is no ticker is something that is wrong with it.
pub proof fn law_ticker_errors_name_what_is_wrong(s: Seq<char>)
    requires
        ticker_failure(s) is Some,
    ensures
        ({
            let failure = ticker_failure(s)->0;
            &&& failure is Empty <==> s.len() == 0
            &&& failure matches TickerFailure::TooLong { input } ==> input == s
                && vstd::utf8::encode_utf8(s).len() > 128
            &&& failure matches TickerFailure::UnsafeAsPath { input } ==> input == s && s[0] == '.'
            &&& failure matches TickerFailure::InvalidChar { input, ch } ==> input == s
                && s.contains(ch) && !('A' <= ch <= 'Z' || 'a' <= ch <= 'z' || '0' <= ch <= '9'
                || ch == '-' || ch == '.' || ch == '_')
            &&& failure !is NotUppercase
        }),
{
    lemma_foreign_is_in(s);
}

proof fn lemma_foreign_is_in(s: Seq<char>)
    ensures
        first_foreign_char(s) matches Some(c) ==> !is_ticker_char(c) && s.contains(c),
    decreases s.len(),
{
    if s.len() > 0 {
        lemma_foreign_is_in(s.drop_first());
        if is_ticker_char(s[0]) && first_foreign_char(s) is Some {
            let c = first_foreign_char(s)->0;
            let k = choose|k: int| 0 <= k < s.drop_first().len() && s.drop_first()[k] == c;
            assert(s[k + 1] == c);
        } else if !is_ticker_char(s[0]) {
            assert(s.contains(s[0]));
        }
    }
}

/// There are two sides, each the other's opposite.
pub proof fn law_sides_are_two(side: Side, other: Side, back: Side, label: &'static str)
    requires
        call_ensures(Side::opposite, (side,), other),
        call_ensures(Side::opposite, (other,), back),
        call_ensures(Side::as_str, (side,), label),
    ensures
        other != side,
        back == side,
        side is Yes ==> label@ == "yes"@,
        side is No ==> label@ == "no"@,
{
}

} // verus!
