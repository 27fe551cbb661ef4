//! Recognizing Parquet files that a previous run left incomplete.
//!
//! A Parquet file begins and ends with the same magic; without the one at the
//! end its footer was never written and it cannot be read. Such files are moved
//! aside, never deleted.

use crate::text::{self, chars_of, same_text, string_of};
use vstd::prelude::*;

verus! {

/// The directory under the root where incomplete files are kept.
pub const QUARANTINE_DIR: &'static str = "_quarantine";

/// The shortest file that can hold both magics and a footer length.
pub const MIN_PARQUET_LEN: u64 = 12;

#[derive(Debug, Clone, PartialEq, Eq)]
pub enum QuarantineError {
    Scan { path: String },
    Move { path: String },
}

/// Why a file is incomplete.
#[derive(Copy, Clone, Debug, PartialEq, Eq, Structural)]
pub enum Defect {
    TooShort,
    MissingHeaderMagic,
    MissingFooterMagic,
}

impl Defect {
    pub fn as_str(self) -> (out: &'static str)
        ensures
            out@ == (match self {
                Defect::TooShort => "too_short"@,
                Defect::MissingHeaderMagic => "missing_header_magic"@,
                Defect::MissingFooterMagic => "missing_footer_magic"@,
            }),
    {
        match self {
            Defect::TooShort => "too_short",
            Defect::MissingHeaderMagic => "missing_header_magic",
            Defect::MissingFooterMagic => "missing_footer_magic",
        }
    }
}

/// A file that was moved aside.
#[derive(Clone, Debug)]
pub struct Quarantined {
    pub original: String,
    pub moved_to: String,
    pub defect: Defect,
    pub bytes: u64,
}

/// `PAR1`.
pub open spec fn magic() -> Seq<u8> {
    seq![0x50u8, 0x41u8, 0x52u8, 0x31u8]
}

/// What is wrong with a file of the given length, first and last four bytes.
pub open spec fn defect_of(len: u64, head: Seq<u8>, tail: Seq<u8>) -> Option<Defect> {
    if len < MIN_PARQUET_LEN {
        Some(Defect::TooShort)
    } else if head != magic() {
        Some(Defect::MissingHeaderMagic)
    } else if tail != magic() {
        Some(Defect::MissingFooterMagic)
    } else {
        None
    }
}

fn is_magic(bytes: &[u8; 4]) -> (out: bool)
    ensures
        out == (bytes@ == magic()),
{
    let out = bytes[0] == 0x50 && bytes[1] == 0x41 && bytes[2] == 0x52 && bytes[3] == 0x31;
    proof {
        if out {
            assert(bytes@ =~= magic());
        } else {
            assert(magic()[0] == 0x50 && magic()[1] == 0x41 && magic()[2] == 0x52 && magic()[3]
                == 0x31);
        }
    }
    out
}

/// Judge a file by its length and its first and last four bytes. A file too
/// short to have them is judged by its length alone.
pub fn inspect(len: u64, head: &[u8; 4], tail: &[u8; 4]) -> (out: Option<Defect>)
    ensures
        out == defect_of(len, head@, tail@),
{
    if len < MIN_PARQUET_LEN {
        return Some(Defect::TooShort);
    }
    if !is_magic(head) {
        return Some(Defect::MissingHeaderMagic);
    }
    if !is_magic(tail) {
        return Some(Defect::MissingFooterMagic);
    }
    None
}

/// Judge the whole contents of a file.
pub fn inspect_bytes(bytes: &[u8]) -> (out: Option<Defect>)
    ensures
        out == (if bytes@.len() < MIN_PARQUET_LEN {
            Some(Defect::TooShort)
        } else {
            defect_of(
                bytes@.len() as u64,
                bytes@.take(4),
                bytes@.skip(bytes@.len() - 4),
            )
        }),
{
    let n = bytes.len();
    if n < 12 {
        return Some(Defect::TooShort);
    }
    let head = [bytes[0], bytes[1], bytes[2], bytes[3]];
    let tail = [bytes[n - 4], bytes[n - 3], bytes[n - 2], bytes[n - 1]];
    assert(head@ =~= bytes@.take(4));
    assert(tail@ =~= bytes@.skip(bytes@.len() - 4));
    inspect(n as u64, &head, &tail)
}

/// Whether a file name ends in `.parquet` behind something else.
pub open spec fn is_parquet_name(name: Seq<char>) -> bool {
    name.len() > 8 && name.skip(name.len() - 8) == ".parquet"@
}

/// Whether a file, given by its directories under the root and its name, is to be
/// judged: a Parquet file that is not in quarantine already.
pub open spec fn is_candidate_file(directories: Seq<Seq<char>>, name: Seq<char>) -> bool {
    is_parquet_name(name) && !(directories.len() > 0 && directories[0] == QUARANTINE_DIR@)
}

/// Where a file goes: to the same directories under quarantine, so that it can
/// still be told where it was.
pub open spec fn moved_to(directories: Seq<Seq<char>>) -> Seq<Seq<char>> {
    seq![QUARANTINE_DIR@] + directories
}

/// Whether a file is to be judged.
pub fn is_candidate(directories: &Vec<String>, name: &str) -> (out: bool)
    ensures
        out == is_candidate_file(text::texts_of(directories@), name@),
{
    proof {
        reveal_strlit(".parquet");
    }
    let chars = chars_of(name);
    if chars.len() <= 8 {
        return false;
    }
    let ending = string_of(&chars, chars.len() - 8, chars.len());
    assert(ending@ =~= name@.skip(name@.len() - 8));
    if !same_text(ending.as_str(), ".parquet") {
        return false;
    }
    let aside = directories.len() > 0 && same_text(directories[0].as_str(), QUARANTINE_DIR);
    assert(directories@.len() > 0 ==> text::texts_of(directories@)[0] == directories@[0]@);
    !aside
}

/// The directories that a file is moved to.
pub fn destination(directories: &Vec<String>) -> (out: Vec<String>)
    ensures
        text::texts_of(out@) == moved_to(text::texts_of(directories@)),
{
    let mut out: Vec<String> = Vec::new();
    out.push(QUARANTINE_DIR.to_owned());
    let mut i: usize = 0;
    while i < directories.len()
        invariant
            i <= directories@.len(),
            out@.len() == i + 1,
            out@[0]@ == QUARANTINE_DIR@,
            forall|k: int| 0 <= k < i ==> (#[trigger] out@[k + 1])@ == directories@[k]@,
        decreases directories@.len() - i,
    {
        let ghost before = out@;
        out.push(directories[i].clone());
        assert forall|k: int| 0 <= k < i + 1 implies (#[trigger] out@[k + 1])@
            == directories@[k]@ by {
            if k < i {
                assert(out@[k + 1] == before[k + 1]);
            }
        }
        i += 1;
    }
    assert forall|j: int| 0 <= j < out@.len() implies #[trigger] text::texts_of(out@)[j] == moved_to(
        text::texts_of(directories@),
    )[j] by {
        if j > 0 {
            assert(out@[(j - 1) + 1]@ == directories@[j - 1]@);
        }
    }
    assert(text::texts_of(out@) =~= moved_to(text::texts_of(directories@)));
    out
}

/// What was moved aside is never judged again, and keeps its place below.
pub proof fn law_quarantine_is_not_rescanned(directories: Seq<Seq<char>>, name: Seq<char>)
    ensures
        !is_candidate_file(moved_to(directories), name),
        moved_to(directories).skip(1) == directories,
{
    assert(moved_to(directories).skip(1) =~= directories);
}

/// Without both magics in place no file passes, whatever its length.
pub proof fn law_only_complete_files_pass(len: u64, head: Seq<u8>, tail: Seq<u8>)
    ensures
        defect_of(len, head, tail) is None <==> len >= MIN_PARQUET_LEN && head == magic() && tail
            == magic(),
{
}

/// A file passes exactly where it is at least twelve bytes long and both starts and ends
/// with `PAR1`; what else is found is what is wrong.
pub proof fn law_a_complete_file_starts_and_ends_with_its_magic(bytes: &[u8], out: Option<Defect>)
    requires
        call_ensures(inspect_bytes, (bytes,), out),
        bytes@.len() <= u64::MAX,
    ensures
        ({
            let n = bytes@.len() as int;
            let starts = bytes@[0] == 0x50 && bytes@[1] == 0x41 && bytes@[2] == 0x52 && bytes@[3]
                == 0x31;
            let ends = bytes@[n - 4] == 0x50 && bytes@[n - 3] == 0x41 && bytes@[n - 2] == 0x52
                && bytes@[n - 1] == 0x31;
            &&& out == Some(Defect::TooShort) <==> n < 12
            &&& out is None <==> n >= 12 && starts && ends
            &&& out == Some(Defect::MissingHeaderMagic) <==> n >= 12 && !starts
            &&& out == Some(Defect::MissingFooterMagic) <==> n >= 12 && starts && !ends
        }),
{
    let n = bytes@.len() as int;
    let m = magic();
    assert(m[0] == 0x50 && m[1] == 0x41 && m[2] == 0x52 && m[3] == 0x31);
    if n >= 12 {
        let head = bytes@.take(4);
        let tail = bytes@.skip(n - 4);
        assert(head[0] == bytes@[0] && head[1] == bytes@[1] && head[2] == bytes@[2] && head[3]
            == bytes@[3]);
        assert(tail[0] == bytes@[n - 4] && tail[1] == bytes@[n - 3] && tail[2] == bytes@[n - 2]
            && tail[3] == bytes@[n - 1]);
        if bytes@[0] == 0x50 && bytes@[1] == 0x41 && bytes@[2] == 0x52 && bytes@[3] == 0x31 {
            assert(head =~= m);
        }
        if bytes@[n - 4] == 0x50 && bytes@[n - 3] == 0x41 && bytes@[n - 2] == 0x52 && bytes@[n - 1]
            == 0x31 {
            assert(tail =~= m);
        }
    }
}

/// A file is judged exactly where its name ends in `.parquet` behind something and it is
/// not below the quarantine; and it is moved below the quarantine, to the directories it
/// was in.
pub proof fn law_files_are_moved_below_the_quarantine(
    directories: Vec<String>,
    name: &str,
    judged: bool,
    moved: Vec<String>,
)
    requires
        call_ensures(is_candidate, (&directories, name), judged),
        call_ensures(destination, (&directories,), moved),
    ensures
        judged ==> exists|stem: Seq<char>| stem.len() > 0 && name@ == #[trigger] (stem
            + ".parquet"@),
        judged && directories@.len() > 0 ==> directories@[0]@ != "_quarantine"@,
        !judged ==> (directories@.len() > 0 && directories@[0]@ == "_quarantine"@) || (forall|
            stem: Seq<char>,
        |
            stem.len() > 0 ==> name@ != #[trigger] (stem + ".parquet"@)),
        moved@.len() == directories@.len() + 1,
        moved@[0]@ == "_quarantine"@,
        forall|i: int| 0 <= i < directories@.len() ==> moved@[i + 1]@ == (#[trigger] directories@[i])@,
{
    reveal_strlit(".parquet");
    let n = name@.len() as int;
    assert(directories@.len() > 0 ==> text::texts_of(directories@)[0] == directories@[0]@);
    if judged {
        let stem = name@.take(n - 8);
        assert(name@ =~= stem + ".parquet"@);
    } else if !(directories@.len() > 0 && directories@[0]@ == "_quarantine"@) {
        assert forall|stem: Seq<char>| stem.len() > 0 implies name@ != #[trigger] (stem
            + ".parquet"@) by {
            if name@ == stem + ".parquet"@ {
                assert(name@.skip(n - 8) =~= ".parquet"@);
            }
        }
    }
    let all = text::texts_of(moved@);
    assert(all.len() == moved@.len());
    assert(all[0] == moved@[0]@);
    assert forall|i: int| 0 <= i < directories@.len() implies moved@[i + 1]@ == (
    #[trigger] directories@[i])@ by {
        assert(all[i + 1] == moved@[i + 1]@);
        assert(text::texts_of(directories@)[i] == directories@[i]@);
    }
}

} // verus!
