//! What the capture daemon decides: which environment it may touch, how markets
//! are spread over subscriptions, and where a message goes.

use crate::book::{AnyBook, BookState};
use crate::json::{self, Json};
use crate::rest::{self, LearnedVia, MarketRegistry, Reconciliation};
use crate::schema::Channel;
use crate::session::Environment;
use crate::sink::{self, Offered, StoreRecord};
use crate::text::{self, chars_of, same_text, string_of};
use crate::ticker::{self, Ticker};
use crate::wire::ServerMessage;
use crate::ws::{
    self, Backoff, PricingConvention, ReceivedMessage, SeqOutcome, Subscription,
    SubscriptionRegistry, SubscriptionState,
};
use vstd::prelude::*;

verus! {

// ---------------------------------------------------------------------------
// Gates
// ---------------------------------------------------------------------------
#[derive(Clone, Debug, PartialEq, Eq)]
pub enum GateError {
    UnknownEnvironment { name: String },
    /// Production needs a deliberate acknowledgement.
    Unacknowledged,
    /// A dirty tree has no revision that the data could be traced back to.
    DirtyTree,
}

/// What a [`GateError`] says.
pub enum GateFailure {
    UnknownEnvironment { name: Seq<char> },
    Unacknowledged,
    DirtyTree,
}

impl View for GateError {
    type V = GateFailure;

    open spec fn view(&self) -> GateFailure {
        match self {
            GateError::UnknownEnvironment { name } => GateFailure::UnknownEnvironment {
                name: name@,
            },
            GateError::Unacknowledged => GateFailure::Unacknowledged,
            GateError::DirtyTree => GateFailure::DirtyTree,
        }
    }
}

/// The environment that a name stands for, or why it is refused.
pub open spec fn gate(
    name: Seq<char>,
    acknowledged: bool,
    dirty: bool,
    allow_dirty: bool,
) -> Result<Environment, GateFailure> {
    if name == "demo"@ {
        Ok(Environment::Demo)
    } else if name != "prod"@ {
        Err(GateFailure::UnknownEnvironment { name })
    } else if !acknowledged {
        Err(GateFailure::Unacknowledged)
    } else if dirty && !allow_dirty {
        Err(GateFailure::DirtyTree)
    } else {
        Ok(Environment::Prod)
    }
}

/// Resolve the environment to capture from. Production takes an acknowledgement,
/// and a clean tree unless a dirty one is expressly allowed.
pub fn capture_environment(
    name: &str,
    acknowledged: bool,
    dirty: bool,
    allow_dirty: bool,
) -> (result: Result<Environment, GateError>)
    ensures
        match result {
            Ok(environment) => gate(name@, acknowledged, dirty, allow_dirty) == Ok::<
                Environment,
                GateFailure,
            >(environment),
            Err(error) => gate(name@, acknowledged, dirty, allow_dirty) == Err::<
                Environment,
                GateFailure,
            >(error@),
        },
{
    if same_text(name, "demo") {
        return Ok(Environment::Demo);
    }
    if !same_text(name, "prod") {
        return Err(GateError::UnknownEnvironment { name: name.to_owned() });
    }
    if !acknowledged {
        return Err(GateError::Unacknowledged);
    }
    if dirty && !allow_dirty {
        return Err(GateError::DirtyTree);
    }
    Ok(Environment::Prod)
}

/// Resolve the environment for a subcommand, which opens real connections but
/// records nothing.
pub fn connection_environment(name: &str, acknowledged: bool) -> (result: Result<
    Environment,
    GateError,
>)
    ensures
        match result {
            Ok(environment) => gate(name@, acknowledged, false, false) == Ok::<
                Environment,
                GateFailure,
            >(environment),
            Err(error) => gate(name@, acknowledged, false, false) == Err::<
                Environment,
                GateFailure,
            >(error@),
        },
{
    capture_environment(name, acknowledged, false, false)
}

/// The Unicode property `White_Space`, by `char::is_whitespace`.
pub uninterp spec fn is_white_space(c: char) -> bool;

/// `char::is_whitespace` is the Unicode property `White_Space`; among the ASCII
/// characters these are the five from tab to carriage return, and the space.
#[verifier::external_body]
fn white_space(c: char) -> (out: bool)
    ensures
        out == is_white_space(c),
        c as u32 <= 127 ==> out == (9 <= c as u32 <= 13 || c as u32 == 32),
{
    c.is_whitespace()
}

/// Whether a text holds nothing but white space.
pub open spec fn is_blank(s: Seq<char>) -> bool {
    forall|i: int| 0 <= i < s.len() ==> is_white_space(#[trigger] s[i])
}

/// Whether a key id says nothing. The signer would take it, and every request
/// would then be refused without a hint why.
pub fn blank_key_id(key_id: &str) -> (out: bool)
    ensures
        out == is_blank(key_id@),
{
    let chars = chars_of(key_id);
    let mut i: usize = 0;
    while i < chars.len()
        invariant
            i <= chars@.len(),
            chars@ == key_id@,
            forall|k: int| 0 <= k < i ==> is_white_space(#[trigger] chars@[k]),
        decreases chars@.len() - i,
    {
        if !white_space(chars[i]) {
            return false;
        }
        i += 1;
    }
    true
}

/// What follows `~/` in a path; nothing for any other path.
pub open spec fn home_relative(path: Seq<char>) -> Option<Seq<char>> {
    if path.len() >= 2 && path[0] == '~' && path[1] == '/' {
        Some(path.subrange(2, path.len() as int))
    } else {
        None
    }
}

/// The part of a path that is relative to the home directory.
pub fn tilde_rest(path: &str) -> (out: Option<String>)
    ensures
        json::opt_string(out) == home_relative(path@),
{
    let chars = chars_of(path);
    if chars.len() >= 2 && chars[0] == '~' && chars[1] == '/' {
        Some(string_of(&chars, 2, chars.len()))
    } else {
        None
    }
}

// ---------------------------------------------------------------------------
// Subscriptions
// ---------------------------------------------------------------------------
/// A setting of the command line, or else of the configuration.
pub fn shard_size(given: Option<usize>, configured: usize) -> (out: usize)
    ensures
        out == (match given {
            Some(size) => size,
            None => configured,
        }),
{
    match given {
        Some(size) => size,
        None => configured,
    }
}

/// The series to capture: those of the command line, or else of the
/// configuration.
pub fn series_to_capture(given: Vec<String>, configured: Vec<String>) -> (out: Vec<String>)
    ensures
        out == (if given@.len() == 0 {
            configured
        } else {
            given
        }),
{
    if given.len() == 0 {
        configured
    } else {
        given
    }
}

/// The channels but for the lifecycle one, in order.
pub open spec fn without_lifecycle(channels: Seq<Seq<char>>) -> Seq<Seq<char>>
    decreases channels.len(),
{
    if channels.len() == 0 {
        Seq::empty()
    } else {
        let before = without_lifecycle(channels.drop_last());
        if channels.last() == "market_lifecycle_v2"@ {
            before
        } else {
            before.push(channels.last())
        }
    }
}

/// The channels to subscribe per market. The lifecycle channel has a
/// subscription of its own, without a market filter.
pub fn orderbook_channels(channels: &Vec<String>) -> (out: Vec<String>)
    ensures
        text::texts_of(out@) == without_lifecycle(text::texts_of(channels@)),
{
    let ghost all = text::texts_of(channels@);
    let mut out: Vec<String> = Vec::new();
    assert(all.take(0) =~= Seq::<Seq<char>>::empty());
    assert(text::texts_of(out@) =~= Seq::<Seq<char>>::empty());
    let mut i: usize = 0;
    while i < channels.len()
        invariant
            i <= channels@.len(),
            all == text::texts_of(channels@),
            text::texts_of(out@) == without_lifecycle(all.take(i as int)),
        decreases channels@.len() - i,
    {
        assert(all.take(i + 1).drop_last() =~= all.take(i as int));
        assert(all[i as int] == channels@[i as int]@);
        if !same_text(channels[i].as_str(), "market_lifecycle_v2") {
            let ghost before = text::texts_of(out@);
            out.push(channels[i].clone());
            assert(text::texts_of(out@) =~= before.push(channels@[i as int]@));
        }
        i += 1;
    }
    assert(all.take(all.len() as int) =~= all);
    out
}

/// The markets per shard, at least one.
pub open spec fn width(size: usize) -> int {
    if size == 0 {
        1
    } else {
        size as int
    }
}

/// The smaller of two numbers.
pub open spec fn smaller(a: int, b: int) -> int {
    if a <= b {
        a
    } else {
        b
    }
}

/// Shard `k`: the markets from `k` widths on, one width of them or what is left.
pub open spec fn shard_at(markets: Seq<Seq<char>>, size: usize, k: int) -> Seq<Seq<char>> {
    markets.subrange(k * width(size), smaller((k + 1) * width(size), markets.len() as int))
}

/// Whether shards are the markets in order, each of full width but the last, and
/// none empty.
pub open spec fn is_sharding(
    markets: Seq<Seq<char>>,
    size: usize,
    shards: Seq<Seq<Seq<char>>>,
) -> bool {
    &&& (shards.len() - 1) * width(size) < markets.len() <= shards.len() * width(size)
    &&& forall|k: int|
        0 <= k < shards.len() ==> #[trigger] shards[k] == shard_at(markets, size, k)
}

pub open spec fn shard_texts(shards: Seq<Vec<String>>) -> Seq<Seq<Seq<char>>> {
    shards.map_values(|shard: Vec<String>| text::texts_of(shard@))
}

fn copy_range(markets: &Vec<String>, from: usize, to: usize) -> (out: Vec<String>)
    requires
        from <= to <= markets@.len(),
    ensures
        text::texts_of(out@) == text::texts_of(markets@).subrange(from as int, to as int),
{
    let mut out: Vec<String> = Vec::new();
    let mut i: usize = from;
    while i < to
        invariant
            from <= i <= to <= markets@.len(),
            out@.len() == i - from,
            forall|k: int| 0 <= k < out@.len() ==> (#[trigger] out@[k])@ == markets@[from + k]@,
        decreases to - i,
    {
        out.push(markets[i].clone());
        i += 1;
    }
    assert(text::texts_of(out@) =~= text::texts_of(markets@).subrange(from as int, to as int));
    out
}

/// Spread the markets over subscriptions. One market per subscription bounds what
/// a gap can cost to that market.
pub fn shards(markets: &Vec<String>, size: usize) -> (out: Vec<Vec<String>>)
    ensures
        is_sharding(text::texts_of(markets@), size, shard_texts(out@)),
{
    let ghost texts = text::texts_of(markets@);
    let step: usize = if size == 0 {
        1
    } else {
        size
    };
    let mut out: Vec<Vec<String>> = Vec::new();
    let mut start: usize = 0;
    let ghost w = width(size);
    assert(-1 * w < 0) by (nonlinear_arith)
        requires
            w >= 1,
    ;
    while start < markets.len()
        invariant
            texts == text::texts_of(markets@),
            step == w == width(size),
            w >= 1,
            start == smaller(out@.len() * w, texts.len() as int),
            (out@.len() - 1) * w < texts.len() || out@.len() == 0,
            forall|k: int|
                0 <= k < out@.len() ==> text::texts_of((#[trigger] out@[k])@) == shard_at(
                    texts,
                    size,
                    k,
                ),
        decreases markets@.len() - start,
    {
        let ghost n = out@.len() as int;
        let left: usize = markets.len() - start;
        let end: usize = if left <= step {
            markets.len()
        } else {
            start + step
        };
        assert((n + 1) * w == n * w + w) by (nonlinear_arith);
        assert(end == smaller((n + 1) * w, texts.len() as int));
        let shard = copy_range(markets, start, end);
        out.push(shard);
        start = end;
    }
    assert(shard_texts(out@).len() == out@.len());
    assert forall|k: int| 0 <= k < shard_texts(out@).len() implies #[trigger] shard_texts(out@)[k]
        == shard_at(texts, size, k) by {
        assert(text::texts_of(out@[k]@) == shard_at(texts, size, k));
    }
    proof {
        if out@.len() == 0 {
            assert(0 * w == 0) by (nonlinear_arith);
            assert((0 - 1) * w < 0) by (nonlinear_arith)
                requires
                    w >= 1,
            ;
        }
    }
    out
}

/// Every market is in a shard, at the place its number says, and no shard holds
/// anything else.
pub proof fn law_sharding_keeps_every_market(
    markets: Seq<Seq<char>>,
    size: usize,
    shards: Seq<Seq<Seq<char>>>,
    j: int,
)
    requires
        is_sharding(markets, size, shards),
        0 <= j < markets.len(),
    ensures
        0 <= j / width(size) < shards.len(),
        j % width(size) < shards[j / width(size)].len(),
        shards[j / width(size)][j % width(size)] == markets[j],
        forall|k: int, p: int|
            0 <= k < shards.len() && 0 <= p < shards[k].len() ==> #[trigger] shards[k][p]
                == markets[k * width(size) + p],
{
    let w = width(size);
    let k = j / w;
    let p = j % w;
    vstd::arithmetic::div_mod::lemma_fundamental_div_mod(j, w);
    vstd::arithmetic::mul::lemma_mul_is_commutative(w, k);
    assert(0 <= p < w) by (nonlinear_arith)
        requires
            w >= 1,
            p == j % w,
    ;
    assert(k >= 0) by (nonlinear_arith)
        requires
            w >= 1,
            j >= 0,
            k == j / w,
    ;
    assert(k < shards.len()) by (nonlinear_arith)
        requires
            k * w + p == j,
            p >= 0,
            j < markets.len() <= shards.len() * w,
            w >= 1,
    ;
    assert((k + 1) * w == k * w + w) by (nonlinear_arith);
    assert(shards[k] == shard_at(markets, size, k));
    assert forall|k: int, p: int|
        0 <= k < shards.len() && 0 <= p < shards[k].len() implies #[trigger] shards[k][p]
        == markets[k * w + p] by {
        assert(shards[k] == shard_at(markets, size, k));
        assert(k * w >= 0) by (nonlinear_arith)
            requires
                k >= 0,
                w >= 1,
        ;
        assert(k * w <= (shards.len() - 1) * w) by (nonlinear_arith)
            requires
                k <= shards.len() - 1,
                w >= 1,
        ;
        assert((k + 1) * w == k * w + w) by (nonlinear_arith);
    }
}

/// The book that a market starts with: empty, in the configured convention. A
/// name that is no ticker gets a placeholder.
pub open spec fn book_name(market: Seq<char>) -> Seq<char> {
    if ticker::ticker_failure(market) is None {
        ticker::uppercase(market)
    } else {
        "INVALID"@
    }
}

pub fn book_for(market: &str, convention: PricingConvention) -> (out: AnyBook)
    ensures
        (convention == PricingConvention::YesLegPricing) == (out is YesLeg),
        out@ == (BookState {
            market: book_name(market@),
            sid: None,
            bids: Map::empty(),
            asks: Map::empty(),
            valid: false,
            last_seq: None,
            grid: None,
            off_grid: 0,
            desyncs: 0,
        }),
{
    let name = match Ticker::parse(market) {
        Ok(ticker) => ticker,
        Err(_) => Ticker("INVALID".to_owned()),
    };
    AnyBook::new(name, convention.use_yes_price())
}

/// A book after a sequence number came on a subscription. The sequence is shared by
/// every market of the subscription, so a gap in it may have cost any of their books
/// a message: none of them can be read until it is seeded again.
pub open spec fn book_after_seq(state: Subscription, seq: u64, book: BookState) -> BookState {
    if ws::seq_outcome(state.last_seq, seq) is Gap && book.sid == Some(state.sid) {
        BookState { valid: false, ..book }
    } else {
        book
    }
}

/// Apply a sequence number to a subscription and to the books that it feeds, which
/// are those last seeded by it.
pub fn observe_seq_with_books(
    state: &mut SubscriptionState,
    books: &mut Vec<AnyBook>,
    seq: u64,
    now: i128,
) -> (out: SeqOutcome)
    requires
        old(state)@.last_seq != Some(u64::MAX),
        old(state)@.gaps < u64::MAX,
    ensures
        out == ws::seq_outcome(old(state)@.last_seq, seq),
        final(state)@ == ws::after_seq(old(state)@, seq, now as int),
        final(books)@.len() == old(books)@.len(),
        forall|i: int|
            0 <= i < old(books)@.len() ==> (#[trigger] final(books)@[i])@ == book_after_seq(
                old(state)@,
                seq,
                old(books)@[i]@,
            ),
{
    let ghost before = state@;
    let ghost held = books@;
    let outcome = state.observe_seq(seq, now);
    if let SeqOutcome::Gap { .. } = outcome {
        let sid = state.sid();
        let mut i: usize = 0;
        while i < books.len()
            invariant
                i <= books@.len(),
                books@.len() == held.len(),
                sid == before.sid,
                ws::seq_outcome(before.last_seq, seq) is Gap,
                forall|k: int|
                    0 <= k < i ==> (#[trigger] books@[k])@ == book_after_seq(before, seq, held[k]@),
                forall|k: int| i <= k < held.len() ==> #[trigger] books@[k] == held[k],
            decreases books@.len() - i,
        {
            if books[i].sid() == Some(sid) {
                books[i].invalidate();
            }
            i += 1;
        }
    }
    outcome
}

/// A gap invalidates every book of its subscription, and touches no other book.
/// Nothing but a gap invalidates any.
pub proof fn law_a_gap_invalidates_every_book_of_its_subscription(
    state: Subscription,
    seq: u64,
    now: int,
    book: BookState,
)
    ensures
        ws::seq_outcome(state.last_seq, seq) is Gap && book.sid == Some(state.sid) ==> {
            &&& !ws::after_seq(state, seq, now).valid
            &&& !book_after_seq(state, seq, book).valid
        },
        book.sid != Some(state.sid) ==> book_after_seq(state, seq, book) == book,
        !(ws::seq_outcome(state.last_seq, seq) is Gap) ==> book_after_seq(state, seq, book) == book,
        book_after_seq(state, seq, book).bids == book.bids,
        book_after_seq(state, seq, book).asks == book.asks,
{
}

// ---------------------------------------------------------------------------
// Messages
// ---------------------------------------------------------------------------
/// Running counts of the daemon.
#[derive(Copy, Clone, Debug, PartialEq, Eq, Structural)]
pub struct Metrics {
    pub messages: u64,
    pub bytes: u64,
    pub reconnects: u64,
    pub lifecycle_events: u64,
    pub unparsed: u64,
    pub off_grid_prices: u64,
    pub desync_invalidations: u64,
    pub reconciliation_misses: u64,
    pub snapshot_restarts: u64,
}

impl Default for Metrics {
    fn default() -> (out: Metrics)
        ensures
            out == (Metrics {
                messages: 0,
                bytes: 0,
                reconnects: 0,
                lifecycle_events: 0,
                unparsed: 0,
                off_grid_prices: 0,
                desync_invalidations: 0,
                reconciliation_misses: 0,
                snapshot_restarts: 0,
            }),
    {
        Metrics {
            messages: 0,
            bytes: 0,
            reconnects: 0,
            lifecycle_events: 0,
            unparsed: 0,
            off_grid_prices: 0,
            desync_invalidations: 0,
            reconciliation_misses: 0,
            snapshot_restarts: 0,
        }
    }
}

impl Metrics {
    /// The counts after one more message of `len` bytes. They wrap, as counters
    /// shared between tasks do.
    pub open spec fn counting(self, len: nat, channel: Channel) -> Metrics {
        Metrics {
            messages: sink::wrapped(self.messages + 1),
            bytes: sink::wrapped((self.bytes + len) as int),
            lifecycle_events: if channel == Channel::MarketLifecycle {
                sink::wrapped(self.lifecycle_events + 1)
            } else {
                self.lifecycle_events
            },
            unparsed: if channel == Channel::Unparsed {
                sink::wrapped(self.unparsed + 1)
            } else {
                self.unparsed
            },
            ..self
        }
    }

    /// Count one message.
    pub fn count(&mut self, len: usize, channel: Channel)
        ensures
            *final(self) == old(self).counting(len as nat, channel),
    {
        self.messages = self.messages.wrapping_add(1);
        self.bytes = self.bytes.wrapping_add(len as u64);
        match channel {
            Channel::MarketLifecycle => {
                self.lifecycle_events = self.lifecycle_events.wrapping_add(1);
            },
            Channel::Unparsed => {
                self.unparsed = self.unparsed.wrapping_add(1);
            },
            _ => {},
        }
    }

    /// Count a lost connection.
    pub fn count_reconnect(&mut self)
        ensures
            *final(self) == (Metrics {
                reconnects: sink::wrapped(old(self).reconnects + 1),
                ..*old(self)
            }),
    {
        self.reconnects = self.reconnects.wrapping_add(1);
    }

    /// Count markets that the live path never reported.
    pub fn count_misses(&mut self, missed: usize)
        ensures
            *final(self) == (Metrics {
                reconciliation_misses: sink::wrapped(old(self).reconciliation_misses + missed),
                ..*old(self)
            }),
    {
        self.reconciliation_misses = self.reconciliation_misses.wrapping_add(missed as u64);
    }
}

/// The channel a message is stored under. Control frames consume sequence
/// numbers, so dropping them would look like lost data; what was not understood
/// is stored as such.
pub open spec fn channel_for(parsed: Option<ServerMessage>) -> Channel {
    match parsed {
        Some(ServerMessage::OrderbookSnapshot(_)) => Channel::OrderbookSnapshot,
        Some(ServerMessage::OrderbookDelta(_)) => Channel::OrderbookDelta,
        Some(ServerMessage::Ticker(_)) => Channel::Ticker,
        Some(ServerMessage::Trade(_)) => Channel::Trade,
        Some(ServerMessage::MarketLifecycle(_)) => Channel::MarketLifecycle,
        Some(ServerMessage::EventLifecycle(_)) => Channel::MarketLifecycle,
        Some(ServerMessage::EventFeeUpdate(_)) => Channel::EventFeeUpdate,
        Some(_) => Channel::Control,
        None => Channel::Unparsed,
    }
}

pub fn channel_of(parsed: &Option<ServerMessage>) -> (out: Channel)
    ensures
        out == channel_for(*parsed),
{
    match parsed {
        Some(ServerMessage::OrderbookSnapshot(_)) => Channel::OrderbookSnapshot,
        Some(ServerMessage::OrderbookDelta(_)) => Channel::OrderbookDelta,
        Some(ServerMessage::Ticker(_)) => Channel::Ticker,
        Some(ServerMessage::Trade(_)) => Channel::Trade,
        Some(ServerMessage::MarketLifecycle(_)) => Channel::MarketLifecycle,
        Some(ServerMessage::EventLifecycle(_)) => Channel::MarketLifecycle,
        Some(ServerMessage::EventFeeUpdate(_)) => Channel::EventFeeUpdate,
        Some(_) => Channel::Control,
        None => Channel::Unparsed,
    }
}

/// The registry after a message: an id handed out is registered, an id retired
/// is dropped together with its sequence counter.
pub open spec fn registered(
    before: ws::Registry,
    parsed: Option<ServerMessage>,
    received_at: int,
    after: ws::Registry,
) -> bool {
    match parsed {
        Some(ServerMessage::Subscribed(payload)) => {
            let sid = payload.msg.sid;
            &&& after.by_sid.contains_key(sid)
            &&& after.by_sid[sid]@ == ws::fresh_subscription(
                sid,
                payload.msg.channel@,
                Seq::empty(),
                received_at,
            )
            &&& after == before.with(sid, after.by_sid[sid])
        },
        Some(ServerMessage::Unsubscribed(payload)) => after == before.without(payload.sid),
        _ => after == before,
    }
}

/// Take in one message: note the ids it hands out or retires, count it, and make
/// the record to store.
///
/// The record holds the text as generic JSON, not as the typed message: what is
/// not modelled must still be stored field for field.
pub fn take_in(
    registry: &mut SubscriptionRegistry,
    metrics: &mut Metrics,
    received: ReceivedMessage,
) -> (out: StoreRecord)
    ensures
        registered(old(registry)@, received.parsed, received.received_at as int, final(registry)@),
        *final(metrics) == old(metrics).counting(
            vstd::utf8::encode_utf8(received.raw@).len(),
            channel_for(received.parsed),
        ),
        out.channel == channel_for(received.parsed),
        out.received_at == received.received_at,
        out.raw == received.raw,
        out@.parsed == json::json_of_text(received.raw@),
{
    let ReceivedMessage { received_at, raw, parsed } = received;
    let channel = channel_of(&parsed);
    metrics.count(raw.as_str().as_bytes().len(), channel);
    match parsed {
        Some(ServerMessage::Subscribed(payload)) => {
            let none: Vec<String> = Vec::new();
            assert(text::texts_of(none@) =~= Seq::<Seq<char>>::empty());
            registry.register(payload.msg.sid, payload.msg.channel, none, received_at);
        },
        Some(ServerMessage::Unsubscribed(payload)) => {
            registry.retire(payload.sid);
        },
        _ => {},
    }
    let document = Json::parse(raw.as_str());
    StoreRecord { channel, received_at, raw, parsed: document }
}

/// Whether capture must stop after an offer: a full queue only costs the record,
/// but without a writer there is no point in reading on.
pub fn must_stop(offered: Offered) -> (out: bool)
    ensures
        out == (offered == Offered::WriterGone),
{
    match offered {
        Offered::WriterGone => true,
        _ => false,
    }
}

/// The names that are tickers, as tickers.
pub open spec fn valid_tickers(names: Seq<Seq<char>>) -> Seq<Seq<char>>
    decreases names.len(),
{
    if names.len() == 0 {
        Seq::empty()
    } else {
        let before = valid_tickers(names.drop_last());
        if ticker::ticker_failure(names.last()) is None {
            before.push(ticker::uppercase(names.last()))
        } else {
            before
        }
    }
}

/// Read the tickers among some names; what is none is passed over.
pub fn tickers_among(names: &Vec<String>) -> (out: Vec<Ticker>)
    ensures
        rest::ticker_views(out@) == valid_tickers(text::texts_of(names@)),
{
    let ghost all = text::texts_of(names@);
    let mut out: Vec<Ticker> = Vec::new();
    assert(all.take(0) =~= Seq::<Seq<char>>::empty());
    assert(rest::ticker_views(out@) =~= Seq::<Seq<char>>::empty());
    let mut i: usize = 0;
    while i < names.len()
        invariant
            i <= names@.len(),
            all == text::texts_of(names@),
            rest::ticker_views(out@) == valid_tickers(all.take(i as int)),
        decreases names@.len() - i,
    {
        assert(all.take(i + 1).drop_last() =~= all.take(i as int));
        assert(all[i as int] == names@[i as int]@);
        if let Ok(ticker) = Ticker::parse(names[i].as_str()) {
            let ghost before = rest::ticker_views(out@);
            out.push(ticker);
            assert(rest::ticker_views(out@) =~= before.push(ticker@));
        }
        i += 1;
    }
    assert(all.take(all.len() as int) =~= all);
    out
}

/// Reconcile a crawl against the known markets and count what the live path
/// missed. Names that are no tickers are passed over.
pub fn reconcile_pass(
    registry: &mut MarketRegistry,
    metrics: &mut Metrics,
    names: &Vec<String>,
    at: i128,
) -> (out: Reconciliation)
    requires
        old(registry).wf(),
    ensures
        final(registry).wf(),
        ({
            let seen = valid_tickers(text::texts_of(names@));
            let via = LearnedVia::Reconciliation;
            let missed = rest::newly_heard(old(registry)@, seen, via, at as int);
            &&& final(registry)@ == rest::after_hearing_all(old(registry)@, seen, via, at as int)
            &&& rest::ticker_views(out.missed_by_live_path@) == missed
            &&& rest::ticker_views(out.newly_known@) == missed
            &&& *final(metrics) == (Metrics {
                reconciliation_misses: sink::wrapped(
                    (old(metrics).reconciliation_misses + missed.len()) as int,
                ),
                ..*old(metrics)
            })
        }),
{
    let out = registry.reconcile(tickers_among(names), at);
    assert(rest::ticker_views(out.missed_by_live_path@).len() == out.missed_by_live_path@.len());
    metrics.count_misses(out.missed_by_live_path.len());
    out
}

// ---------------------------------------------------------------------------
// Loops
// ---------------------------------------------------------------------------
/// How a connection came to its end.
#[derive(Copy, Clone, Debug, PartialEq, Eq, Structural)]
pub enum ConnectionEnd {
    /// Shutdown was asked for, or the writer is gone.
    Finished,
    /// The connection was lost, or could not be made.
    Lost,
}

/// What the daemon does after a connection.
#[derive(Copy, Clone, Debug, PartialEq, Eq, Structural)]
pub enum NextStep {
    Stop,
    Reconnect { delay_ms: u64 },
}

/// Decide what comes after a connection: a lost one is counted and made again
/// after a delay, spread by up to `spread` to either side of the schedule's.
pub fn after_connection(
    end: ConnectionEnd,
    metrics: &mut Metrics,
    backoff: &mut Backoff,
    spread: u64,
) -> (out: NextStep)
    ensures
        match end {
            ConnectionEnd::Finished => out == NextStep::Stop && *final(metrics) == *old(metrics)
                && *final(backoff) == *old(backoff),
            ConnectionEnd::Lost => {
                &&& *final(metrics) == (Metrics {
                    reconnects: sink::wrapped(old(metrics).reconnects + 1),
                    ..*old(metrics)
                })
                &&& *final(backoff) == (Backoff {
                    current: ws::next_base(old(backoff).current, old(backoff).max),
                    ..*old(backoff)
                })
                &&& out matches NextStep::Reconnect { delay_ms } && exists|offset: u64|
                    offset <= 2 * spread && delay_ms == #[trigger] ws::spread_delay(
                        old(backoff).current,
                        spread,
                        offset,
                    )
            },
        },
{
    match end {
        ConnectionEnd::Finished => NextStep::Stop,
        ConnectionEnd::Lost => {
            metrics.count_reconnect();
            let delay_ms = backoff.next_delay(spread);
            NextStep::Reconnect { delay_ms }
        },
    }
}

/// Where the writer stands.
#[derive(Copy, Clone, Debug, PartialEq, Eq, Structural)]
pub enum WriterState {
    /// Waiting for records.
    Running,
    /// Shutting down: what is still queued is taken and written.
    Draining,
    Stopped,
}

/// What happens to the writer.
#[derive(Copy, Clone, Debug, PartialEq, Eq, Structural)]
pub enum WriterEvent {
    /// The flush timer fired.
    Tick,
    /// Shutdown was asked for.
    Shutdown,
    /// No sender is left.
    QueueClosed,
    /// Records were taken off the queue, or none was there.
    Taken { records: usize },
}

/// What the writer does about it.
#[derive(Copy, Clone, Debug, PartialEq, Eq, Structural)]
pub enum WriterAction {
    /// Close the files that are due, whether or not new records came.
    RollDueFiles,
    /// Write the records that were taken.
    WriteBatch,
    /// Close every file, so that each gets its footer.
    CloseStore,
    Nothing,
}

/// The writer's next state and action.
pub open spec fn writer_next(state: WriterState, event: WriterEvent) -> (
    WriterState,
    WriterAction,
) {
    match (state, event) {
        (WriterState::Stopped, _) => (WriterState::Stopped, WriterAction::Nothing),
        (_, WriterEvent::Taken { records }) => if records > 0 {
            (state, WriterAction::WriteBatch)
        } else if state == WriterState::Draining {
            (WriterState::Stopped, WriterAction::CloseStore)
        } else {
            (state, WriterAction::Nothing)
        },
        (WriterState::Running, WriterEvent::Tick) => (state, WriterAction::RollDueFiles),
        (_, WriterEvent::Tick) => (state, WriterAction::Nothing),
        (_, _) => (WriterState::Draining, WriterAction::Nothing),
    }
}

/// One step of the writer.
pub fn writer_step(state: WriterState, event: WriterEvent) -> (out: (WriterState, WriterAction))
    ensures
        out == writer_next(state, event),
{
    match state {
        WriterState::Stopped => (WriterState::Stopped, WriterAction::Nothing),
        WriterState::Running => match event {
            WriterEvent::Tick => (state, WriterAction::RollDueFiles),
            WriterEvent::Shutdown => (WriterState::Draining, WriterAction::Nothing),
            WriterEvent::QueueClosed => (WriterState::Draining, WriterAction::Nothing),
            WriterEvent::Taken { records } => if records > 0 {
                (state, WriterAction::WriteBatch)
            } else {
                (state, WriterAction::Nothing)
            },
        },
        WriterState::Draining => match event {
            WriterEvent::Taken { records } => if records > 0 {
                (state, WriterAction::WriteBatch)
            } else {
                (WriterState::Stopped, WriterAction::CloseStore)
            },
            _ => (state, WriterAction::Nothing),
        },
    }
}

/// Shutting down loses no queued record: as long as the writer has not stopped,
/// every record taken is written, and it stops only by closing the store, which it
/// does only after shutdown was asked for and once nothing was left to take.
pub proof fn law_shutdown_drains_the_queue(state: WriterState, event: WriterEvent)
    ensures
        forall|records: usize|
            state != WriterState::Stopped && records > 0 ==> #[trigger] writer_next(
                state,
                WriterEvent::Taken { records },
            ) == (state, WriterAction::WriteBatch),
        writer_next(state, event).1 == WriterAction::CloseStore <==> state == WriterState::Draining
            && event == (WriterEvent::Taken { records: 0 }),
        state != WriterState::Stopped && writer_next(state, event).0 == WriterState::Stopped
            ==> writer_next(state, event).1 == WriterAction::CloseStore,
        state == WriterState::Running && writer_next(state, event).0 != WriterState::Running
            ==> event == WriterEvent::Shutdown || event == WriterEvent::QueueClosed,
{
}

/// Each kind of message has its own channel: only market and event lifecycle share one,
/// every control frame goes to another, and what was not understood to a third.
pub proof fn law_every_kind_has_its_channel(parsed: Option<ServerMessage>, out: Channel)
    requires
        call_ensures(channel_of, (&parsed,), out),
    ensures
        out is Unparsed <==> parsed is None,
        parsed matches Some(message) ==> {
            &&& out is OrderbookSnapshot <==> message is OrderbookSnapshot
            &&& out is OrderbookDelta <==> message is OrderbookDelta
            &&& out is Ticker <==> message is Ticker
            &&& out is Trade <==> message is Trade
            &&& out is MarketLifecycle <==> message is MarketLifecycle || message is EventLifecycle
            &&& out is EventFeeUpdate <==> message is EventFeeUpdate
            &&& out is Control <==> message is Subscribed || message is Unsubscribed || message
                is Acknowledged || message is Error
        },
        !(out is PriceRanges),
{
}

/// The record of a message is filed under the channel of its kind, and loses nothing of
/// it: the text, the time it came, and the text as JSON.
pub proof fn law_a_record_is_its_message(received: ReceivedMessage)
    ensures
        forall|
            registry: &mut SubscriptionRegistry,
            metrics: &mut Metrics,
            record: StoreRecord,
        | #[trigger]
            call_ensures(take_in, (registry, metrics, received), record) ==> {
                &&& record.raw@ == received.raw@
                &&& record.received_at == received.received_at
                &&& record.parsed is Some <==> json::json_of_text(received.raw@) is Some
                &&& record.parsed matches Some(document) ==> Some(document@) == json::json_of_text(
                    received.raw@,
                )
                &&& received.parsed is None ==> record.channel is Unparsed
                &&& received.parsed matches Some(ServerMessage::Trade(_)) ==> record.channel
                    is Trade
                &&& received.parsed matches Some(ServerMessage::Ticker(_)) ==> record.channel
                    is Ticker
                &&& received.parsed matches Some(ServerMessage::OrderbookDelta(_))
                    ==> record.channel is OrderbookDelta
                &&& received.parsed matches Some(ServerMessage::OrderbookSnapshot(_))
                    ==> record.channel is OrderbookSnapshot
            },
{
}

/// A message adds one to the messages and its bytes to the bytes, one to the lifecycle
/// events or the unparsed where it is one, and nothing to any other count.
pub proof fn law_a_message_is_counted_once(metrics: Metrics, len: nat, channel: Channel)
    requires
        metrics.messages < u64::MAX,
        metrics.bytes + len <= u64::MAX,
        metrics.lifecycle_events < u64::MAX,
        metrics.unparsed < u64::MAX,
    ensures
        ({
            let after = metrics.counting(len, channel);
            &&& after.messages == metrics.messages + 1
            &&& after.bytes == metrics.bytes + len
            &&& after.lifecycle_events == metrics.lifecycle_events + (if channel
                is MarketLifecycle {
                1int
            } else {
                0
            })
            &&& after.unparsed == metrics.unparsed + (if channel is Unparsed {
                1int
            } else {
                0
            })
            &&& after.reconnects == metrics.reconnects && after.off_grid_prices
                == metrics.off_grid_prices && after.desync_invalidations
                == metrics.desync_invalidations && after.reconciliation_misses
                == metrics.reconciliation_misses && after.snapshot_restarts
                == metrics.snapshot_restarts
        }),
{
}

/// An id that was handed out is registered, under its channel and not yet valid; an id
/// that was retired is gone; and no message touches any other id.
pub proof fn law_messages_touch_only_their_own_id(
    before: ws::Registry,
    parsed: Option<ServerMessage>,
    received_at: int,
    after: ws::Registry,
    other: u64,
)
    requires
        registered(before, parsed, received_at, after),
    ensures
        parsed matches Some(ServerMessage::Subscribed(payload)) ==> {
            &&& after.by_sid.contains_key(payload.msg.sid)
            &&& after.by_sid[payload.msg.sid]@.sid == payload.msg.sid
            &&& after.by_sid[payload.msg.sid]@.channel == payload.msg.channel@
            &&& !after.by_sid[payload.msg.sid]@.valid
            &&& after.by_sid[payload.msg.sid]@.last_seq is None
            &&& after.by_sid[payload.msg.sid]@.gaps == 0
            &&& after.by_sid[payload.msg.sid]@.invalid_since == Some(received_at)
            &&& other != payload.msg.sid ==> (after.by_sid.contains_key(other)
                <==> before.by_sid.contains_key(other)) && after.by_sid[other]
                == before.by_sid[other]
        },
        parsed matches Some(ServerMessage::Unsubscribed(payload)) ==> {
            &&& !after.by_sid.contains_key(payload.sid)
            &&& other != payload.sid ==> (after.by_sid.contains_key(other)
                <==> before.by_sid.contains_key(other))
            &&& other != payload.sid && before.by_sid.contains_key(other) ==> after.by_sid[other]
                == before.by_sid[other]
        },
        !(parsed matches Some(ServerMessage::Subscribed(_))) && !(parsed matches Some(
            ServerMessage::Unsubscribed(_),
        )) ==> after == before,
        after.snapshots_requested == before.snapshots_requested && after.resubscribes
            == before.resubscribes && after.reconnects == before.reconnects,
{
}

/// Production is captured from exactly where it was asked for by name, acknowledged, and
/// the tree is clean or a dirty one allowed; demo wherever it was asked for by name.
pub proof fn law_production_needs_its_gates(
    name: &str,
    acknowledged: bool,
    dirty: bool,
    allow_dirty: bool,
    capture: Result<Environment, GateError>,
    connection: Result<Environment, GateError>,
)
    requires
        call_ensures(capture_environment, (name, acknowledged, dirty, allow_dirty), capture),
        call_ensures(connection_environment, (name, acknowledged), connection),
    ensures
        capture matches Ok(Environment::Demo) <==> name@ == "demo"@,
        capture matches Ok(Environment::Prod) <==> name@ == "prod"@ && acknowledged && (!dirty
            || allow_dirty),
        connection matches Ok(Environment::Demo) <==> name@ == "demo"@,
        connection matches Ok(Environment::Prod) <==> name@ == "prod"@ && acknowledged,
        capture matches Err(error) ==> {
            &&& error is UnknownEnvironment <==> name@ != "demo"@ && name@ != "prod"@
            &&& error is Unacknowledged <==> name@ == "prod"@ && !acknowledged
            &&& error is DirtyTree <==> name@ == "prod"@ && acknowledged
            &&& error matches GateError::UnknownEnvironment { name: said } ==> said@ == name@
        },
        connection matches Err(error) ==> (error is Unacknowledged <==> name@ == "prod"@),
{
    reveal_strlit("demo");
    reveal_strlit("prod");
    assert("demo"@[0] != "prod"@[0]);
}

/// The channels per market are the configured ones in their order, but for the lifecycle
/// channel.
pub proof fn law_only_the_lifecycle_channel_is_left_out(
    channels: Seq<Seq<char>>,
    channel: Seq<char>,
)
    ensures
        without_lifecycle(Seq::empty()) == Seq::<Seq<char>>::empty(),
        channel != "market_lifecycle_v2"@ ==> without_lifecycle(channels.push(channel))
            == without_lifecycle(channels).push(channel),
        channel == "market_lifecycle_v2"@ ==> without_lifecycle(channels.push(channel))
            == without_lifecycle(channels),
{
    assert(channels.push(channel).drop_last() =~= channels);
}

/// Each shard is as wide as asked for, or one market wide where nothing was asked for;
/// only the last may be narrower, and none is empty.
pub proof fn law_shards_are_full(
    markets: Seq<Seq<char>>,
    size: usize,
    shards: Seq<Seq<Seq<char>>>,
    k: int,
)
    requires
        is_sharding(markets, size, shards),
        0 <= k < shards.len(),
    ensures
        size > 0 ==> width(size) == size,
        size == 0 ==> width(size) == 1,
        0 < shards[k].len() <= width(size),
        k < shards.len() - 1 ==> shards[k].len() == width(size),
        forall|p: int|
            0 <= p < shards[k].len() ==> #[trigger] shards[k][p] == markets[k * width(size) + p],
{
    let w = width(size);
    assert((k + 1) * w == k * w + w) by (nonlinear_arith);
    assert(0 <= k * w <= (shards.len() - 1) * w) by (nonlinear_arith)
        requires
            0 <= k <= shards.len() - 1,
            w >= 1,
    ;
    if k < shards.len() - 1 {
        assert((k + 1) * w <= (shards.len() - 1) * w) by (nonlinear_arith)
            requires
                k + 1 <= shards.len() - 1,
                w >= 1,
        ;
    }
    assert(shards[k] == shard_at(markets, size, k));
}

/// The tickers among some names are those that parse, in capitals and in order.
pub proof fn law_names_that_are_tickers_are_kept(names: Seq<Seq<char>>, name: Seq<char>)
    ensures
        valid_tickers(Seq::empty()) == Seq::<Seq<char>>::empty(),
        ticker::ticker_failure(name) is None ==> valid_tickers(names.push(name)) == valid_tickers(
            names,
        ).push(ticker::uppercase(name)),
        ticker::ticker_failure(name) is Some ==> valid_tickers(names.push(name)) == valid_tickers(
            names,
        ),
{
    assert(names.push(name).drop_last() =~= names);
}

/// What was given on the command line comes before what is configured.
pub proof fn law_given_settings_come_first(
    given: Option<usize>,
    configured: usize,
    size: usize,
    named: Vec<String>,
    listed: Vec<String>,
    series: Vec<String>,
)
    requires
        call_ensures(shard_size, (given, configured), size),
        call_ensures(series_to_capture, (named, listed), series),
    ensures
        given is Some ==> size == given->0,
        given is None ==> size == configured,
        named@.len() > 0 ==> series == named,
        named@.len() == 0 ==> series == listed,
{
}

/// A path is relative to the home directory exactly where it starts with `~/`, and then
/// by what follows; a key id is blank exactly where it has no other than white space.
pub proof fn law_paths_and_ids_are_read_as_written(
    path: &str,
    rest: Option<String>,
    key_id: &str,
    blank: bool,
)
    requires
        call_ensures(tilde_rest, (path,), rest),
        call_ensures(blank_key_id, (key_id,), blank),
    ensures
        rest matches Some(tail) ==> path@ == seq!['~', '/'] + tail@,
        rest is None ==> path@.len() < 2 || path@[0] != '~' || path@[1] != '/',
        blank <==> forall|i: int| 0 <= i < key_id@.len() ==> is_white_space(#[trigger] key_id@[i]),
{
    if let Some(tail) = rest {
        assert(path@ =~= seq!['~', '/'] + tail@);
    }
}

/// A market starts with an empty book under its name in capitals, in the convention that
/// was asked for, and not readable.
pub proof fn law_a_market_starts_with_an_empty_book(
    market: &str,
    convention: PricingConvention,
    book: AnyBook,
    parsed: Result<Ticker, ticker::TickerError>,
)
    requires
        call_ensures(book_for, (market, convention), book),
        call_ensures(Ticker::parse, (market,), parsed),
    ensures
        book is YesLeg <==> convention is YesLegPricing,
        parsed matches Ok(ticker) ==> book@.market == ticker@,
        parsed is Err ==> book@.market == "INVALID"@,
        !book@.valid && book@.sid is None && book@.last_seq is None,
        forall|k: i64| !#[trigger] book@.bids.contains_key(k),
        forall|k: i64| !#[trigger] book@.asks.contains_key(k),
{
}

/// Capture goes on after a dropped record and stops only where the writer is gone.
pub proof fn law_only_a_lost_writer_stops_capture(offered: Offered, out: bool)
    requires
        call_ensures(must_stop, (offered,), out),
    ensures
        out <==> offered is WriterGone,
{
}

/// A finished connection is not made again and changes nothing. A lost one is counted
/// once and made again, after the delay that was due moved by no more than the spread;
/// the next delay is twice that, up to the maximum.
pub proof fn law_a_lost_connection_is_made_again(end: ConnectionEnd, spread: u64)
    ensures
        forall|metrics: &mut Metrics, backoff: &mut Backoff, step: NextStep| #[trigger]
            call_ensures(after_connection, (end, metrics, backoff, spread), step)
                && metrics.reconnects < u64::MAX && spread <= backoff.current && 2
                * backoff.current <= u64::MAX ==> {
                let delay = backoff.current as int;
                &&& step is Stop <==> end is Finished
                &&& end is Finished ==> *final(metrics) == *metrics && *final(backoff) == *backoff
                &&& end is Lost ==> {
                    &&& final(metrics).reconnects == metrics.reconnects + 1
                    &&& final(metrics).messages == metrics.messages && final(metrics).bytes
                        == metrics.bytes
                    &&& step is Reconnect
                    &&& delay - spread <= step->delay_ms <= delay + spread
                    &&& 2 * delay <= backoff.max ==> final(backoff).current == 2 * delay
                    &&& 2 * delay > backoff.max ==> final(backoff).current == backoff.max
                    &&& final(backoff).initial == backoff.initial && final(backoff).max
                        == backoff.max
                }
            },
{
}

/// The writer rolls files on its timer while it runs, starts to drain where it is told
/// to stop or nobody can send any more, and does nothing once it has stopped.
pub proof fn law_the_writer_rolls_and_drains(
    state: WriterState,
    event: WriterEvent,
    out: (WriterState, WriterAction),
)
    requires
        call_ensures(writer_step, (state, event), out),
    ensures
        state is Stopped ==> out == (WriterState::Stopped, WriterAction::Nothing),
        out.1 is RollDueFiles <==> state is Running && event is Tick,
        state is Running && (event is Shutdown || event is QueueClosed) ==> out == (
            WriterState::Draining,
            WriterAction::Nothing,
        ),
        out.1 is WriteBatch <==> !(state is Stopped) && event is Taken && event->records > 0,
        out.1 is CloseStore <==> state is Draining && event is Taken && event->records == 0,
        out.0 is Stopped <==> state is Stopped || out.1 is CloseStore,
        out.0 is Running <==> state is Running && !(event is Shutdown) && !(event is QueueClosed),
{
}

/// A reconnect is counted once, and misses by their number; nothing else is counted with
/// them. Counting starts at nothing.
pub proof fn law_losses_are_counted_by_their_number(start: Metrics, len: usize, channel: Channel)
    requires
        call_ensures(<Metrics as Default>::default, (), start),
    ensures
        start.messages == 0 && start.bytes == 0 && start.reconnects == 0 && start.lifecycle_events
            == 0 && start.unparsed == 0 && start.off_grid_prices == 0
            && start.desync_invalidations == 0 && start.reconciliation_misses == 0
            && start.snapshot_restarts == 0,
        forall|metrics: &mut Metrics| #[trigger]
            call_ensures(Metrics::count_reconnect, (metrics,), ()) && metrics.reconnects < u64::MAX
                ==> final(metrics).reconnects == metrics.reconnects + 1 && *final(metrics) == (
            Metrics { reconnects: final(metrics).reconnects, ..*metrics }),
        forall|metrics: &mut Metrics| #[trigger]
            call_ensures(Metrics::count_misses, (metrics, len), ())
                && metrics.reconciliation_misses + len <= u64::MAX
                ==> final(metrics).reconciliation_misses == metrics.reconciliation_misses + len
                && *final(metrics) == (Metrics {
                reconciliation_misses: final(metrics).reconciliation_misses,
                ..*metrics
            }),
        forall|metrics: &mut Metrics| #[trigger]
            call_ensures(Metrics::count, (metrics, len, channel), ()) && metrics.messages
                < u64::MAX && metrics.bytes + len <= u64::MAX ==> final(metrics).messages
                == metrics.messages + 1 && final(metrics).bytes == metrics.bytes + len,
{
}

/// What a pass over the markets missed is what the registry did not know of the usable
/// names: it is reported, counted and known from then on.
pub proof fn law_what_a_pass_missed_is_counted(names: &Vec<String>, at: i128)
    ensures
        forall|registry: &mut MarketRegistry, metrics: &mut Metrics, out: Reconciliation|
            #[trigger]
            call_ensures(reconcile_pass, (registry, metrics, names, at), out)
                && metrics.reconciliation_misses + out.missed_by_live_path@.len() <= u64::MAX ==> {
                &&& final(metrics).reconciliation_misses == metrics.reconciliation_misses
                    + out.missed_by_live_path@.len()
                &&& final(metrics).messages == metrics.messages
                &&& final(metrics).reconnects == metrics.reconnects
                &&& out.newly_known@.len() == out.missed_by_live_path@.len()
                &&& final(registry)@ == rest::after_hearing_all(
                    registry@,
                    valid_tickers(text::texts_of(names@)),
                    LearnedVia::Reconciliation,
                    at as int,
                )
            },
{
    assert forall|registry: &mut MarketRegistry, metrics: &mut Metrics, out: Reconciliation|
        #[trigger]
        call_ensures(reconcile_pass, (registry, metrics, names, at), out)
            && metrics.reconciliation_misses + out.missed_by_live_path@.len() <= u64::MAX implies {
        &&& final(metrics).reconciliation_misses == metrics.reconciliation_misses
            + out.missed_by_live_path@.len()
        &&& out.newly_known@.len() == out.missed_by_live_path@.len()
    } by {
        assert(rest::ticker_views(out.missed_by_live_path@).len()
            == out.missed_by_live_path@.len());
        assert(rest::ticker_views(out.newly_known@).len() == out.newly_known@.len());
    }
}

/// A gap makes the books of its subscription unreadable and no others, and the next
/// number touches none.
pub proof fn law_a_gap_makes_the_books_unreadable(seq: u64, now: i128, i: int)
    ensures
        forall|state: &mut SubscriptionState, books: &mut Vec<AnyBook>, out: SeqOutcome|
            #[trigger]
            call_ensures(observe_seq_with_books, (state, books, seq, now), out) && 0 <= i
                < books@.len() ==> {
                let last = state@.last_seq;
                &&& final(books)@.len() == books@.len()
                &&& last is None || seq == last->0 + 1 ==> final(books)@[i]@ == books@[i]@
                &&& books@[i]@.sid != Some(state@.sid) ==> final(books)@[i]@ == books@[i]@
                &&& last is Some && seq > last->0 + 1 && books@[i]@.sid == Some(state@.sid)
                    ==> !final(books)@[i]@.valid
                &&& final(books)@[i]@.bids == books@[i]@.bids && final(books)@[i]@.asks
                    == books@[i]@.asks
            },
{
}

/// The channels of the order books are those given but for the lifecycle channel, the
/// shards hold the markets in order, and the tickers are those of the usable names.
pub proof fn law_markets_and_channels_are_taken_as_given(
    channels: &Vec<String>,
    markets: &Vec<String>,
    size: usize,
    books: Vec<String>,
    sharded: Vec<Vec<String>>,
    tickers: Vec<Ticker>,
)
    requires
        call_ensures(orderbook_channels, (channels,), books),
        call_ensures(shards, (markets, size), sharded),
        call_ensures(tickers_among, (markets,), tickers),
    ensures
        text::texts_of(books@) == without_lifecycle(text::texts_of(channels@)),
        is_sharding(text::texts_of(markets@), size, shard_texts(sharded@)),
        rest::ticker_views(tickers@) == valid_tickers(text::texts_of(markets@)),
        sharded@.len() == shard_texts(sharded@).len(),
        tickers@.len() <= markets@.len(),
{
    assert(rest::ticker_views(tickers@).len() == tickers@.len());
    assert(text::texts_of(markets@).len() == markets@.len());
    lemma_fewer_valid(text::texts_of(markets@));
}

proof fn lemma_fewer_valid(names: Seq<Seq<char>>)
    ensures
        valid_tickers(names).len() <= names.len(),
    decreases names.len(),
{
    if names.len() > 0 {
        lemma_fewer_valid(names.drop_last());
    }
}

/// A message that is taken in is counted with its bytes, stored under its channel as it
/// came, and touches the registry only where it hands out or retires an id.
pub proof fn law_a_message_is_taken_in_whole(received: ReceivedMessage)
    ensures
        forall|
            registry: &mut SubscriptionRegistry,
            metrics: &mut Metrics,
            out: StoreRecord,
        | #[trigger]
            call_ensures(take_in, (registry, metrics, received), out) ==> {
                let bytes = vstd::utf8::encode_utf8(received.raw@).len();
                &&& metrics.messages < u64::MAX ==> final(metrics).messages == metrics.messages + 1
                &&& metrics.bytes + bytes <= u64::MAX ==> final(metrics).bytes == metrics.bytes
                    + bytes
                &&& out.raw@ == received.raw@ && out.received_at == received.received_at
                &&& received.parsed is None ==> out.channel is Unparsed
                &&& received.parsed matches Some(ServerMessage::Trade(_)) ==> out.channel is Trade
                &&& !(received.parsed matches Some(ServerMessage::Subscribed(_))) && !(
                received.parsed matches Some(ServerMessage::Unsubscribed(_))) ==> final(registry)@
                    == registry@
                &&& received.parsed matches Some(ServerMessage::Subscribed(payload))
                    ==> final(registry)@.by_sid.contains_key(payload.msg.sid)
                &&& received.parsed matches Some(ServerMessage::Unsubscribed(payload))
                    ==> !final(registry)@.by_sid.contains_key(payload.sid)
            },
{
}

} // verus!
