//! Which tick-grid observations are worth a row.
//!
//! A crawl re-reads every market's grid each time. Writing each read would bury
//! the few real changes, so only a first observation or a change is written,
//! for discovery and lifecycle separately.

use crate::text::same_text;
use vstd::prelude::*;

verus! {

/// Where a grid was observed.
#[derive(Copy, Clone, Debug, PartialEq, Eq, Structural, Hash)]
pub enum GridSource {
    Discovery,
    Lifecycle,
}

impl GridSource {
    pub fn as_str(self) -> (out: &'static str)
        ensures
            out@ == (match self {
                GridSource::Discovery => "discovery"@,
                GridSource::Lifecycle => "lifecycle"@,
            }),
    {
        match self {
            GridSource::Discovery => "discovery",
            GridSource::Lifecycle => "lifecycle",
        }
    }
}

/// What an observation amounts to.
#[derive(Copy, Clone, Debug, PartialEq, Eq, Structural)]
pub enum GridVerdict {
    FirstObservation,
    Changed,
    Unchanged,
}

impl GridVerdict {
    pub fn should_write(self) -> (out: bool)
        ensures
            out == (self != GridVerdict::Unchanged),
    {
        match self {
            GridVerdict::FirstObservation => true,
            GridVerdict::Changed => true,
            GridVerdict::Unchanged => false,
        }
    }
}

// ---------------------------------------------------------------------------
// Content hash
// ---------------------------------------------------------------------------
/// The 64-bit FNV-1a hash of some bytes.
pub open spec fn fnv1a(bytes: Seq<u8>) -> u64
    decreases bytes.len(),
{
    if bytes.len() == 0 {
        0xcbf2_9ce4_8422_2325
    } else {
        (fnv1a(bytes.drop_last()) ^ (bytes.last() as u64)).wrapping_mul(0x0000_0100_0000_01b3)
    }
}

/// The character of a hexadecimal digit.
pub open spec fn hex_char(d: int) -> char {
    if d < 10 {
        (d + '0' as int) as char
    } else {
        (d - 10 + 'a' as int) as char
    }
}

/// The last `width` hexadecimal digits of `n`.
pub open spec fn hex_digits(n: nat, width: nat) -> Seq<char>
    decreases width,
{
    if width == 0 {
        Seq::empty()
    } else {
        hex_digits(n / 16, (width - 1) as nat).push(hex_char((n % 16) as int))
    }
}

/// The content hash of a grid: sixteen hexadecimal digits.
pub open spec fn grid_hash_text(json: Seq<char>) -> Seq<char> {
    hex_digits(fnv1a(vstd::utf8::encode_utf8(json)) as nat, 16)
}

fn push_hex(out: &mut String, n: u64, width: u32)
    ensures
        final(out)@ == old(out)@ + hex_digits(n as nat, width as nat),
    decreases width,
{
    if width > 0 {
        push_hex(out, n / 16, width - 1);
        let d: u8 = (n % 16) as u8;
        if d < 10 {
            out.push((d + 48u8) as char);
        } else {
            out.push((d - 10u8 + 97u8) as char);
        }
    }
    assert(final(out)@ =~= old(out)@ + hex_digits(n as nat, width as nat));
}

/// Content hash of a grid, so that a change is detectable without parsing.
pub fn grid_hash(price_ranges_json: &str) -> (out: String)
    ensures
        out@ == grid_hash_text(price_ranges_json@),
{
    let bytes = price_ranges_json.as_bytes();
    let mut hash: u64 = 0xcbf2_9ce4_8422_2325;
    let mut i: usize = 0;
    assert(bytes@.take(0) =~= Seq::<u8>::empty());
    while i < bytes.len()
        invariant
            i <= bytes@.len(),
            hash == fnv1a(bytes@.take(i as int)),
        decreases bytes@.len() - i,
    {
        assert(bytes@.take(i + 1).drop_last() =~= bytes@.take(i as int));
        hash = (hash ^ (bytes[i] as u64)).wrapping_mul(0x0000_0100_0000_01b3);
        i += 1;
    }
    assert(bytes@.take(bytes@.len() as int) =~= bytes@);
    let mut out = String::new();
    push_hex(&mut out, hash, 16);
    assert(out@ =~= grid_hash_text(price_ranges_json@));
    out
}

// ---------------------------------------------------------------------------
// History
// ---------------------------------------------------------------------------
/// The last grid seen for one market from one source.
#[derive(Debug)]
pub struct GridEntry {
    pub market: String,
    pub source: GridSource,
    pub hash: String,
}

/// What a [`GridEntry`] says.
pub struct GridFact {
    pub market: Seq<char>,
    pub source: GridSource,
    pub hash: Seq<char>,
}

impl View for GridEntry {
    type V = GridFact;

    open spec fn view(&self) -> GridFact {
        GridFact { market: self.market@, source: self.source, hash: self.hash@ }
    }
}

/// Everything a [`GridHistory`] holds.
pub struct History {
    pub facts: Seq<GridFact>,
    pub unchanged: nat,
    pub changes: nat,
}

/// The last grid of a market, per source, and how often it changed.
#[derive(Debug)]
pub struct GridHistory {
    last: Vec<GridEntry>,
    unchanged_observations: u64,
    changes_recorded: u64,
}

impl View for GridHistory {
    type V = History;

    closed spec fn view(&self) -> History {
        History {
            facts: self.last@.map_values(|entry: GridEntry| entry@),
            unchanged: self.unchanged_observations as nat,
            changes: self.changes_recorded as nat,
        }
    }
}

pub open spec fn is_about(fact: GridFact, market: Seq<char>, source: GridSource) -> bool {
    fact.market == market && fact.source == source
}

/// Where a market and source stand in the history; the length where they do not.
pub open spec fn place_of(facts: Seq<GridFact>, market: Seq<char>, source: GridSource) -> int
    decreases facts.len(),
{
    if facts.len() == 0 || is_about(facts[0], market, source) {
        0
    } else {
        1 + place_of(facts.drop_first(), market, source)
    }
}

/// The last hash seen for a market and source.
pub open spec fn last_hash(facts: Seq<GridFact>, market: Seq<char>, source: GridSource) -> Option<
    Seq<char>,
> {
    let place = place_of(facts, market, source);
    if place < facts.len() {
        Some(facts[place].hash)
    } else {
        None
    }
}

/// What an observation amounts to, given the history.
pub open spec fn verdict_on(
    facts: Seq<GridFact>,
    market: Seq<char>,
    source: GridSource,
    hash: Seq<char>,
) -> GridVerdict {
    match last_hash(facts, market, source) {
        None => GridVerdict::FirstObservation,
        Some(previous) => if previous == hash {
            GridVerdict::Unchanged
        } else {
            GridVerdict::Changed
        },
    }
}

/// The history after an observation.
pub open spec fn after_observation(
    history: History,
    market: Seq<char>,
    source: GridSource,
    hash: Seq<char>,
) -> History {
    match verdict_on(history.facts, market, source, hash) {
        GridVerdict::Unchanged => History { unchanged: history.unchanged + 1, ..history },
        GridVerdict::Changed => History {
            facts: history.facts.update(
                place_of(history.facts, market, source),
                GridFact { market, source, hash },
            ),
            changes: history.changes + 1,
            ..history
        },
        GridVerdict::FirstObservation => History {
            facts: history.facts.push(GridFact { market, source, hash }),
            changes: history.changes + 1,
            ..history
        },
    }
}

proof fn lemma_place_at(facts: Seq<GridFact>, market: Seq<char>, source: GridSource, k: int)
    requires
        0 <= k <= facts.len(),
        k < facts.len() ==> is_about(facts[k], market, source),
        forall|i: int| 0 <= i < k ==> !is_about(#[trigger] facts[i], market, source),
    ensures
        place_of(facts, market, source) == k,
    decreases facts.len(),
{
    if k > 0 {
        assert(!is_about(facts[0], market, source));
        let rest = facts.drop_first();
        assert forall|i: int| 0 <= i < k - 1 implies !is_about(#[trigger] rest[i], market, source) by {
            assert(!is_about(facts[i + 1], market, source));
        }
        lemma_place_at(rest, market, source, k - 1);
    }
}

proof fn lemma_place(facts: Seq<GridFact>, market: Seq<char>, source: GridSource)
    ensures
        0 <= place_of(facts, market, source) <= facts.len(),
        place_of(facts, market, source) < facts.len() ==> is_about(
            facts[place_of(facts, market, source)],
            market,
            source,
        ),
        forall|i: int|
            0 <= i < place_of(facts, market, source) ==> !is_about(
                #[trigger] facts[i],
                market,
                source,
            ),
    decreases facts.len(),
{
    if facts.len() > 0 && !is_about(facts[0], market, source) {
        let rest = facts.drop_first();
        lemma_place(rest, market, source);
        assert forall|i: int| 0 <= i < place_of(facts, market, source) implies !is_about(
            #[trigger] facts[i],
            market,
            source,
        ) by {
            if i > 0 {
                assert(rest[i - 1] == facts[i]);
            }
        }
    }
}

impl GridHistory {
    pub fn new() -> (out: GridHistory)
        ensures
            out@ == (History { facts: Seq::empty(), unchanged: 0, changes: 0 }),
    {
        let out = GridHistory { last: Vec::new(), unchanged_observations: 0, changes_recorded: 0 };
        assert(out@.facts =~= Seq::empty());
        out
    }

    /// Note an observation and tell whether it is news.
    pub fn observe(&mut self, market: &str, source: GridSource, price_ranges_json: &str) -> (out:
        GridVerdict)
        requires
            old(self)@.unchanged < u64::MAX,
            old(self)@.changes < u64::MAX,
        ensures
            out == verdict_on(
                old(self)@.facts,
                market@,
                source,
                grid_hash_text(price_ranges_json@),
            ),
            final(self)@ == after_observation(
                old(self)@,
                market@,
                source,
                grid_hash_text(price_ranges_json@),
            ),
    {
        let hash = grid_hash(price_ranges_json);
        let ghost facts = self@.facts;
        let mut i: usize = 0;
        while i < self.last.len() && !(self.last[i].source == source && same_text(
            self.last[i].market.as_str(),
            market,
        ))
            invariant
                i <= self.last@.len() == facts.len(),
                facts == self@.facts,
                *self == *old(self),
                forall|k: int| 0 <= k < i ==> !is_about(#[trigger] facts[k], market@, source),
            decreases self.last@.len() - i,
        {
            assert(facts[i as int] == self.last@[i as int]@);
            i += 1;
        }
        proof {
            if i < facts.len() {
                assert(facts[i as int] == self.last@[i as int]@);
            }
            lemma_place_at(facts, market@, source, i as int);
        }
        if i < self.last.len() {
            if same_text(self.last[i].hash.as_str(), hash.as_str()) {
                self.unchanged_observations = self.unchanged_observations + 1;
                assert(self@.facts =~= facts);
                return GridVerdict::Unchanged;
            }
            let entry = GridEntry { market: market.to_owned(), source, hash };
            self.last[i] = entry;
            self.changes_recorded = self.changes_recorded + 1;
            assert(self@.facts =~= facts.update(i as int, entry@));
            return GridVerdict::Changed;
        }
        let entry = GridEntry { market: market.to_owned(), source, hash };
        self.last.push(entry);
        self.changes_recorded = self.changes_recorded + 1;
        assert(self@.facts =~= facts.push(entry@));
        GridVerdict::FirstObservation
    }

    pub fn unchanged_observations(&self) -> (out: u64)
        ensures
            out == self@.unchanged,
    {
        self.unchanged_observations
    }

    pub fn changes_recorded(&self) -> (out: u64)
        ensures
            out == self@.changes,
    {
        self.changes_recorded
    }

    /// The number of market and source combinations seen so far.
    pub fn tracked_markets(&self) -> (out: usize)
        ensures
            out == self@.facts.len(),
    {
        self.last.len()
    }
}

// ---------------------------------------------------------------------------
// Laws
// ---------------------------------------------------------------------------
/// After an observation its hash is the last one seen, so observing the same
/// grid again is no news.
pub proof fn law_an_observation_is_remembered(
    history: History,
    market: Seq<char>,
    source: GridSource,
    hash: Seq<char>,
)
    ensures
        ({
            let next = after_observation(history, market, source, hash);
            &&& last_hash(next.facts, market, source) == Some(hash)
            &&& verdict_on(next.facts, market, source, hash) == GridVerdict::Unchanged
        }),
{
    let facts = history.facts;
    lemma_place(facts, market, source);
    let place = place_of(facts, market, source);
    let next = after_observation(history, market, source, hash);
    lemma_place_at(next.facts, market, source, place);
}

/// Observations of one market and source never touch another: neither another
/// market's history, nor the same market's history from the other source.
pub proof fn law_histories_do_not_interfere(
    history: History,
    market: Seq<char>,
    source: GridSource,
    hash: Seq<char>,
    other_market: Seq<char>,
    other_source: GridSource,
)
    requires
        other_market != market || other_source != source,
    ensures
        last_hash(
            after_observation(history, market, source, hash).facts,
            other_market,
            other_source,
        ) == last_hash(history.facts, other_market, other_source),
{
    let facts = history.facts;
    let next = after_observation(history, market, source, hash).facts;
    lemma_place(facts, market, source);
    lemma_place(facts, other_market, other_source);
    let place = place_of(facts, other_market, other_source);
    if place < facts.len() {
        lemma_place_at(next, other_market, other_source, place);
    } else {
        lemma_place_at(next, other_market, other_source, next.len() as int);
    }
}

/// Where a market has been observed from a source, an observation is unchanged exactly
/// where its hash is the one held, and then only counted; else it is a change, which
/// takes the place of the hash held.
pub proof fn law_a_verdict_compares_with_the_hash_held(
    history: History,
    market: Seq<char>,
    source: GridSource,
    hash: Seq<char>,
    i: int,
)
    requires
        0 <= i < history.facts.len(),
        history.facts[i].market == market,
        history.facts[i].source == source,
        forall|j: int|
            0 <= j < i ==> (#[trigger] history.facts[j]).market != market || history.facts[j].source
                != source,
    ensures
        ({
            let verdict = verdict_on(history.facts, market, source, hash);
            let next = after_observation(history, market, source, hash);
            if history.facts[i].hash == hash {
                &&& verdict is Unchanged
                &&& next.facts == history.facts
                &&& next.unchanged == history.unchanged + 1
                &&& next.changes == history.changes
            } else {
                &&& verdict is Changed
                &&& next.facts == history.facts.update(i, GridFact { market, source, hash })
                &&& next.unchanged == history.unchanged
                &&& next.changes == history.changes + 1
            }
        }),
{
    lemma_place_at(history.facts, market, source, i);
}

/// Where a market has not been observed from a source, an observation is the first, and
/// is added to what is held.
pub proof fn law_what_was_never_seen_is_a_first_observation(
    history: History,
    market: Seq<char>,
    source: GridSource,
    hash: Seq<char>,
)
    requires
        forall|j: int|
            0 <= j < history.facts.len() ==> (#[trigger] history.facts[j]).market != market
                || history.facts[j].source != source,
    ensures
        verdict_on(history.facts, market, source, hash) is FirstObservation,
        ({
            let next = after_observation(history, market, source, hash);
            &&& next.facts == history.facts.push(GridFact { market, source, hash })
            &&& next.unchanged == history.unchanged
            &&& next.changes == history.changes + 1
        }),
{
    lemma_place_at(history.facts, market, source, history.facts.len() as int);
}

/// The hash is FNV-1a: it starts at the offset basis, and each byte is mixed in and
/// multiplied by the prime.
pub proof fn law_the_hash_mixes_in_each_byte(bytes: Seq<u8>, byte: u8)
    ensures
        fnv1a(Seq::empty()) == 0xcbf2_9ce4_8422_2325,
        fnv1a(bytes.push(byte)) == (fnv1a(bytes) ^ (byte as u64)).wrapping_mul(
            0x0000_0100_0000_01b3,
        ),
{
    assert(bytes.push(byte).drop_last() =~= bytes);
}

/// A hash is written as sixteen lower-case hexadecimal digits, the last for the lowest
/// four bits, so that two hashes have one text only where they are one.
pub proof fn law_hashes_are_written_in_full(json: &str, out: String, n: u64, m: u64)
    requires
        call_ensures(grid_hash, (json,), out),
    ensures
        out@.len() == 16,
        out@ == hex_digits(fnv1a(vstd::utf8::encode_utf8(json@)) as nat, 16),
        forall|i: int|
            0 <= i < 16 ==> '0' <= #[trigger] out@[i] <= '9' || 'a' <= out@[i] <= 'f',
        hex_digits(n as nat, 16) == hex_digits(m as nat, 16) ==> n == m,
        n % 16 < 10 ==> hex_digits(n as nat, 16)[15] as int == '0' as int + n % 16,
        n % 16 >= 10 ==> hex_digits(n as nat, 16)[15] as int == 'a' as int + n % 16 - 10,
{
    lemma_hex_form(fnv1a(vstd::utf8::encode_utf8(json@)) as nat, 16);
    lemma_hex_form(n as nat, 16);
    lemma_hex_form((n / 16) as nat, 15);
    assert(16 * 16 == 256);
    if hex_digits(n as nat, 16) == hex_digits(m as nat, 16) {
        reveal_with_fuel(sixteen_to, 17);
        assert(sixteen_to(16) == 0x1_0000_0000_0000_0000);
        lemma_hex_is_one_to_one(n as nat, m as nat, 16);
    }
}

spec fn sixteen_to(width: nat) -> nat
    decreases width,
{
    if width == 0 {
        1
    } else {
        16 * sixteen_to((width - 1) as nat)
    }
}

proof fn lemma_hex_form(n: nat, width: nat)
    ensures
        hex_digits(n, width).len() == width,
        forall|i: int|
            0 <= i < width ==> '0' <= #[trigger] hex_digits(n, width)[i] <= '9' || 'a'
                <= hex_digits(n, width)[i] <= 'f',
    decreases width,
{
    if width > 0 {
        lemma_hex_form(n / 16, (width - 1) as nat);
        let front = hex_digits(n / 16, (width - 1) as nat);
        assert forall|i: int| 0 <= i < width implies '0' <= #[trigger] hex_digits(n, width)[i] <= '9'
            || 'a' <= hex_digits(n, width)[i] <= 'f' by {
            if i < width - 1 {
                assert(hex_digits(n, width)[i] == front[i]);
            }
        }
    }
}

proof fn lemma_hex_is_one_to_one(n: nat, m: nat, width: nat)
    requires
        hex_digits(n, width) == hex_digits(m, width),
        n < sixteen_to(width),
        m < sixteen_to(width),
    ensures
        n == m,
    decreases width,
{
    if width > 0 {
        let less = (width - 1) as nat;
        lemma_hex_form(n / 16, less);
        lemma_hex_form(m / 16, less);
        let a = hex_digits(n, width);
        let b = hex_digits(m, width);
        assert(a.last() == hex_char((n % 16) as int) && b.last() == hex_char((m % 16) as int));
        assert(n % 16 == m % 16);
        assert(a.drop_last() =~= hex_digits(n / 16, less));
        assert(b.drop_last() =~= hex_digits(m / 16, less));
        lemma_hex_is_one_to_one(n / 16, m / 16, less);
    }
}

/// Whatever is not unchanged is written.
pub proof fn law_news_is_written(verdict: GridVerdict, out: bool)
    requires
        call_ensures(GridVerdict::should_write, (verdict,), out),
    ensures
        out <==> verdict is FirstObservation || verdict is Changed,
{
}

/// What is read of the history is what it counted and the markets it follows.
pub proof fn law_a_history_is_read_as_it_is(
    history: GridHistory,
    unchanged: u64,
    changes: u64,
    followed: usize,
)
    requires
        call_ensures(GridHistory::unchanged_observations, (&history,), unchanged),
        call_ensures(GridHistory::changes_recorded, (&history,), changes),
        call_ensures(GridHistory::tracked_markets, (&history,), followed),
    ensures
        unchanged == history@.unchanged && changes == history@.changes,
        followed == history@.facts.len(),
{
}

/// Every observation is counted once, as a change or as unchanged, or is the first of its
/// kind; and what it says is what the history held before it.
pub proof fn law_an_observation_is_counted_by_its_verdict(
    market: &str,
    source: GridSource,
    json: &str,
)
    ensures
        forall|history: &mut GridHistory, out: GridVerdict| #[trigger]
            call_ensures(GridHistory::observe, (history, market, source, json), out) ==> {
                &&& out is Unchanged ==> final(history)@.unchanged == history@.unchanged + 1
                    && final(history)@.changes == history@.changes
                &&& out is Changed ==> final(history)@.changes == history@.changes + 1
                    && final(history)@.unchanged == history@.unchanged
                &&& out is FirstObservation ==> final(history)@.unchanged == history@.unchanged
            },
{
}

} // verus!
