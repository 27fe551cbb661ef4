//! Small string helpers on which the parsers and encoders are built.

use vstd::prelude::*;

verus! {

/// `String::push` appends one character and leaves the rest of the text alone.
pub assume_specification[ String::push ](s: &mut String, c: char)
    ensures
        final(s)@ == old(s)@.push(c),
;

/// The texts of some strings.
pub open spec fn texts_of(strings: Seq<String>) -> Seq<Seq<char>> {
    strings.map_values(|s: String| s@)
}

/// The characters of `s`, in order.
pub fn chars_of(s: &str) -> (out: Vec<char>)
    ensures
        out@ == s@,
{
    let mut out: Vec<char> = Vec::new();
    for c in it: s.chars()
        invariant
            out@ == it.seq().take(it.index()),
            it.seq() == s@,
    {
        out.push(c);
        assert(out@ =~= it.seq().take(it.index() + 1));
    }
    assert(s@.take(s@.len() as int) =~= s@);
    out
}

/// The characters `from..to` of `chars`, as a string.
pub fn string_of(chars: &Vec<char>, from: usize, to: usize) -> (out: String)
    requires
        from <= to <= chars@.len(),
    ensures
        out@ == chars@.subrange(from as int, to as int),
{
    let mut out = String::new();
    let mut i: usize = from;
    while i < to
        invariant
            from <= i <= to <= chars@.len(),
            out@ == chars@.subrange(from as int, i as int),
        decreases to - i,
    {
        out.push(chars[i]);
        assert(chars@.subrange(from as int, i + 1) =~= chars@.subrange(
            from as int,
            i as int,
        ).push(chars@[i as int]));
        i += 1;
    }
    out
}

/// `str` equality holds exactly when the two texts have the same characters.
#[verifier::external_body]
pub(crate) fn same_text(a: &str, b: &str) -> (same: bool)
    ensures
        same == (a@ == b@),
{
    a == b
}

/// `a` followed by `b`.
pub fn joined(a: &str, b: &str) -> (out: String)
    ensures
        out@ == a@ + b@,
{
    let mut out = a.to_owned();
    out.append(b);
    out
}

/// A text in quotes with its special characters escaped, by `str`'s `Debug`.
pub uninterp spec fn debug_text(s: Seq<char>) -> Seq<char>;

/// A character in quotes, escaped where it is special, by `char`'s `Debug`.
pub uninterp spec fn debug_char(c: char) -> Seq<char>;

/// Formatting a `str` with `{:?}` depends on its characters alone.
#[verifier::external_body]
pub(crate) fn debug_string(s: &str) -> (out: String)
    ensures
        out@ == debug_text(s@),
{
    format!("{:?}", s)
}

/// Formatting a `char` with `{:?}` depends on the character alone.
#[verifier::external_body]
pub(crate) fn debug_char_string(c: char) -> (out: String)
    ensures
        out@ == debug_char(c),
{
    format!("{:?}", c)
}

/// A copy of an optional text.
pub fn copy_of(text: &Option<String>) -> (out: Option<String>)
    ensures
        out == *text,
{
    match text {
        Some(text) => Some(text.clone()),
        None => None,
    }
}

/// The largest boundary between characters at or before byte `max`.
pub open spec fn boundary_before(bytes: Seq<u8>, max: nat) -> nat
    decreases max,
{
    if max == 0 || vstd::utf8::is_char_boundary(bytes, max as int) {
        max
    } else {
        boundary_before(bytes, (max - 1) as nat)
    }
}

/// `out` is `s` where that fits into `max` bytes; else it is the longest run of
/// whole characters that does, followed by three dots.
pub open spec fn is_truncation(s: Seq<char>, max: nat, out: Seq<char>) -> bool {
    let bytes = vstd::utf8::encode_utf8(s);
    if bytes.len() <= max {
        out == s
    } else {
        exists|kept: Seq<char>| #[trigger]
            vstd::utf8::encode_utf8(kept) == bytes.take(boundary_before(bytes, max) as int) && out
                == kept + "..."@
    }
}

/// At most `max` bytes of `s`, cut at a character boundary and marked as cut.
pub fn truncate(s: &str, max: usize) -> (out: String)
    ensures
        is_truncation(s@, max as nat, out@),
{
    if s.as_bytes().len() <= max {
        return s.to_owned();
    }
    let ghost bytes = vstd::utf8::encode_utf8(s@);
    let mut end: usize = max;
    while end > 0 && !s.is_char_boundary(end)
        invariant
            end <= max < bytes.len(),
            bytes == vstd::utf8::encode_utf8(s@),
            boundary_before(bytes, end as nat) == boundary_before(bytes, max as nat),
        decreases end,
    {
        end = end - 1;
    }
    proof {
        vstd::utf8::encode_utf8_valid_utf8(s@);
        vstd::utf8::is_char_boundary_start_end_of_seq(bytes);
    }
    let (kept, _) = s.split_at(end);
    let mut out = kept.to_owned();
    out.append("...");
    assert(vstd::utf8::encode_utf8(kept@) == bytes.take(end as int));
    out
}

/// A truncated text is the text itself where it fits; else it is a start of the text
/// that fits, and three dots, and one more character would not have fitted.
pub proof fn law_truncation_keeps_a_start(s: &str, max: usize, out: String)
    requires
        call_ensures(truncate, (s, max), out),
    ensures
        ({
            let bytes = vstd::utf8::encode_utf8(s@);
            &&& bytes.len() <= max ==> out@ == s@
            &&& bytes.len() > max ==> exists|kept: Seq<char>|
                {
                    &&& out@ == kept + "..."@
                    &&& (#[trigger] vstd::utf8::encode_utf8(kept)).len() <= max
                    &&& vstd::utf8::encode_utf8(kept) == bytes.take(
                        vstd::utf8::encode_utf8(kept).len() as int,
                    )
                    &&& forall|at: int|
                        vstd::utf8::encode_utf8(kept).len() < at <= max
                            ==> !#[trigger] vstd::utf8::is_char_boundary(bytes, at)
                }
        }),
{
    let bytes = vstd::utf8::encode_utf8(s@);
    if bytes.len() > max {
        lemma_boundary_before(bytes, max as nat);
        let end = boundary_before(bytes, max as nat);
        let kept = choose|kept: Seq<char>| #[trigger]
            vstd::utf8::encode_utf8(kept) == bytes.take(end as int) && out@ == kept + "..."@;
        assert(vstd::utf8::encode_utf8(kept).len() == end);
    }
}

proof fn lemma_boundary_before(bytes: Seq<u8>, max: nat)
    ensures
        boundary_before(bytes, max) <= max,
        forall|at: int|
            boundary_before(bytes, max) < at <= max ==> !#[trigger] vstd::utf8::is_char_boundary(
                bytes,
                at,
            ),
    decreases max,
{
    if max > 0 && !vstd::utf8::is_char_boundary(bytes, max as int) {
        lemma_boundary_before(bytes, (max - 1) as nat);
    }
}

/// Joining, copying and taking apart texts loses and adds nothing.
pub proof fn law_texts_are_kept_whole(
    a: &str,
    b: &str,
    both: String,
    chars: Vec<char>,
    from: usize,
    to: usize,
    part: String,
    some: Option<String>,
    copy: Option<String>,
)
    requires
        call_ensures(joined, (a, b), both),
        call_ensures(chars_of, (a,), chars),
        from <= to <= chars@.len(),
        call_ensures(string_of, (&chars, from, to), part),
        call_ensures(copy_of, (&some,), copy),
    ensures
        both@.len() == a@.len() + b@.len(),
        forall|i: int| 0 <= i < a@.len() ==> #[trigger] both@[i] == a@[i],
        forall|i: int| 0 <= i < b@.len() ==> both@[a@.len() + i] == #[trigger] b@[i],
        chars@ == a@,
        part@.len() == to - from,
        forall|i: int| 0 <= i < to - from ==> #[trigger] part@[i] == a@[from + i],
        copy == some,
{
}

} // verus!
