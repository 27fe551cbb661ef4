//! Local order book: snapshots, sequence-gap detection and deltas.
//!
//! The exchange's book holds bids only, on both sides. A NO bid is a YES ask at
//! the complementary price, so this book stores one canonical view, YES bids and
//! YES asks. Every NO-side message is converted on the way in by
//! [`yes_ask_price_for`], and the NO view is derived on the way out.

use crate::levels::{self, drop_from, drop_up_to, highest_level, list_levels, lowest_level};
use crate::px::{self, Px, PX_SCALE};
use crate::qty::{self, Qty};
use crate::ranges::{self, PriceRange, PriceRanges};
use crate::sealed::Sealed;
use crate::ticker::{Side, Ticker};
use std::collections::BTreeMap;
use std::marker::PhantomData;
use vstd::prelude::*;

verus! {

// ---------------------------------------------------------------------------
// Pricing convention, in the type
// ---------------------------------------------------------------------------
/// The pricing convention a book was built under, as a type parameter.
///
/// Misreading one convention as the other inverts every NO-side price without
/// any error, so a book of one convention does not typecheck as the other.
pub trait Convention: Sealed {
    /// Whether NO-side prices arrive in YES-leg pricing.
    spec fn yes_priced() -> bool;

    /// The label written into session metadata.
    spec fn label_text() -> Seq<char>;

    fn label() -> (out: &'static str)
        ensures
            out@ == Self::label_text(),
    ;

    /// Value of the `use_yes_price` subscribe parameter.
    fn use_yes_price() -> (out: bool)
        ensures
            out == Self::yes_priced(),
    ;
}

/// `use_yes_price: false`. NO-side levels arrive in NO-leg pricing.
#[derive(Copy, Clone, Debug, PartialEq, Eq, Structural)]
pub struct NoLeg;

/// `use_yes_price: true`. NO-side levels arrive already in YES-leg pricing.
#[derive(Copy, Clone, Debug, PartialEq, Eq, Structural)]
pub struct YesLeg;

impl Sealed for NoLeg {

}

impl Sealed for YesLeg {

}

impl Convention for NoLeg {
    open spec fn yes_priced() -> bool {
        false
    }

    open spec fn label_text() -> Seq<char> {
        "no_leg"@
    }

    fn label() -> (out: &'static str) {
        "no_leg"
    }

    fn use_yes_price() -> (out: bool) {
        false
    }
}

impl Convention for YesLeg {
    open spec fn yes_priced() -> bool {
        true
    }

    open spec fn label_text() -> Seq<char> {
        "yes_leg"@
    }

    fn label() -> (out: &'static str) {
        "yes_leg"
    }

    fn use_yes_price() -> (out: bool) {
        true
    }
}

/// The canonical YES price of an incoming side and price.
pub open spec fn canonical_price(yes_priced: bool, side: Side, price: Px) -> Px {
    if side == Side::No && !yes_priced {
        Px(px::saturated(PX_SCALE - price.0) as i64)
    } else {
        price
    }
}

/// Convert an incoming side and price into the canonical YES-side price.
///
/// The single place where the reciprocal-pricing rule is applied, and the
/// single place where the convention matters.
pub fn yes_ask_price_for<C: Convention>(side: Side, price: Px) -> (out: Px)
    ensures
        out == canonical_price(C::yes_priced(), side, price),
{
    match side {
        Side::Yes => price,
        Side::No => if C::use_yes_price() {
            price
        } else {
            price.complement()
        },
    }
}

// ---------------------------------------------------------------------------
// Errors and invariants
// ---------------------------------------------------------------------------
/// A property that must hold after every operation on a book.
#[derive(Clone, Debug, PartialEq, Eq)]
pub enum InvariantViolation {
    NegativeQuantity { side: &'static str, price: String, qty: String },
    ZeroQuantityLevel { side: &'static str, price: String },
    ValidWithoutSid,
    ValidWithoutSeq,
    Crossed { bid: String, ask: String },
}

/// What an [`InvariantViolation`] says.
pub enum Violation {
    NegativeQuantity { side: Seq<char>, price: Seq<char>, qty: Seq<char> },
    ZeroQuantityLevel { side: Seq<char>, price: Seq<char> },
    ValidWithoutSid,
    ValidWithoutSeq,
    Crossed { bid: Seq<char>, ask: Seq<char> },
}

impl View for InvariantViolation {
    type V = Violation;

    open spec fn view(&self) -> Violation {
        match self {
            InvariantViolation::NegativeQuantity { side, price, qty } => Violation::NegativeQuantity {
                side: side@,
                price: price@,
                qty: qty@,
            },
            InvariantViolation::ZeroQuantityLevel { side, price } => Violation::ZeroQuantityLevel {
                side: side@,
                price: price@,
            },
            InvariantViolation::ValidWithoutSid => Violation::ValidWithoutSid,
            InvariantViolation::ValidWithoutSeq => Violation::ValidWithoutSeq,
            InvariantViolation::Crossed { bid, ask } => Violation::Crossed { bid: bid@, ask: ask@ },
        }
    }
}

#[derive(Clone, Debug, PartialEq, Eq)]
pub enum BookError {
    UnsortedSnapshot { market: String, side: &'static str, previous: String, current: String },
    DuplicateLevel { market: String, side: &'static str, price: String },
    Parse { market: String, field: &'static str, value: String },
}

/// What a [`BookError`] says.
pub enum BookFailure {
    UnsortedSnapshot {
        market: Seq<char>,
        side: Seq<char>,
        previous: Seq<char>,
        current: Seq<char>,
    },
    DuplicateLevel { market: Seq<char>, side: Seq<char>, price: Seq<char> },
    Parse { market: Seq<char>, field: Seq<char>, value: Seq<char> },
}

impl View for BookError {
    type V = BookFailure;

    open spec fn view(&self) -> BookFailure {
        match self {
            BookError::UnsortedSnapshot { market, side, previous, current } => {
                BookFailure::UnsortedSnapshot {
                    market: market@,
                    side: side@,
                    previous: previous@,
                    current: current@,
                }
            },
            BookError::DuplicateLevel { market, side, price } => BookFailure::DuplicateLevel {
                market: market@,
                side: side@,
                price: price@,
            },
            BookError::Parse { market, field, value } => BookFailure::Parse {
                market: market@,
                field: field@,
                value: value@,
            },
        }
    }
}

// ---------------------------------------------------------------------------
// Sequences
// ---------------------------------------------------------------------------
/// How a snapshot's sequence number relates to the stream already in progress.
///
/// Whether a requested snapshot continues or restarts the counter is not
/// documented, so it is classified from what is observed. The book re-baselines
/// either way.
#[derive(Copy, Clone, Debug, PartialEq, Eq, Structural)]
pub enum SnapshotContinuity {
    Initial,
    ContinuesStream { previous: u64, snapshot: u64 },
    RestartsStream { previous: u64, snapshot: u64 },
}

impl SnapshotContinuity {
    pub fn restarted(self) -> (out: bool)
        ensures
            out == (self is RestartsStream),
    {
        match self {
            SnapshotContinuity::RestartsStream { .. } => true,
            _ => false,
        }
    }

    pub fn as_str(self) -> (out: &'static str)
        ensures
            out@ == (match self {
                SnapshotContinuity::Initial => "initial"@,
                SnapshotContinuity::ContinuesStream { .. } => "continues"@,
                SnapshotContinuity::RestartsStream { .. } => "restarts"@,
            }),
    {
        match self {
            SnapshotContinuity::Initial => "initial",
            SnapshotContinuity::ContinuesStream { .. } => "continues",
            SnapshotContinuity::RestartsStream { .. } => "restarts",
        }
    }
}

/// What a sequence number implied when applied to a book.
#[derive(Copy, Clone, Debug, PartialEq, Eq, Structural)]
pub enum DeltaOutcome {
    /// Contiguous; the delta was applied.
    Applied,
    /// A gap: the delta was not applied and the book is now invalid.
    Gapped { expected: u64, got: u64 },
    /// The book was already invalid, so the delta was discarded.
    DiscardedInvalid,
    /// A sequence at or below the high-water mark, which is not rewound.
    Regression { last: u64, got: u64 },
}

// ---------------------------------------------------------------------------
// The model of a book
// ---------------------------------------------------------------------------
/// Everything a book holds.
pub struct BookState {
    pub market: Seq<char>,
    pub sid: Option<u64>,
    pub bids: Map<i64, Qty>,
    pub asks: Map<i64, Qty>,
    pub valid: bool,
    pub last_seq: Option<u64>,
    pub grid: Option<Seq<PriceRange>>,
    pub off_grid: nat,
    pub desyncs: nat,
}

/// Whether the grid can be asked about a price: no band that holds it has a
/// zero step.
pub open spec fn answers(grid: Option<Seq<PriceRange>>, price: Px) -> bool {
    grid matches Some(bands) ==> forall|i: int|
        0 <= i < bands.len() && (#[trigger] bands[i]).holds(price.0 as int) ==> bands[i].step.0 != 0
}

/// Whether a price counts as off the published grid. Without a grid, or with an
/// empty one, nothing does.
pub open spec fn is_off_grid(grid: Option<Seq<PriceRange>>, price: Px) -> bool {
    grid matches Some(bands) && bands.len() > 0 && !ranges::on_grid(bands, price.0 as int)
}

/// How many of the levels are off the grid.
pub open spec fn off_grid_count(grid: Option<Seq<PriceRange>>, list: Seq<(Px, Qty)>) -> nat
    decreases list.len(),
{
    if list.len() == 0 {
        0
    } else {
        off_grid_count(grid, list.drop_last()) + (if is_off_grid(grid, list.last().0) {
            1nat
        } else {
            0nat
        })
    }
}

/// The levels of one side of a snapshot at their canonical prices; levels
/// without size are left out, and of two levels at one price the later stays.
pub open spec fn snapshot_levels(yes_priced: bool, side: Side, list: Seq<(Px, Qty)>) -> Map<
    i64,
    Qty,
>
    decreases list.len(),
{
    if list.len() == 0 {
        Map::empty()
    } else {
        let before = snapshot_levels(yes_priced, side, list.drop_last());
        let (price, size) = list.last();
        if size.0 == 0 {
            before
        } else {
            before.insert(canonical_price(yes_priced, side, price).0, size)
        }
    }
}

/// The level at `i + 1` does not come after the level at `i`.
pub open spec fn disorder_at(list: Seq<(Px, Qty)>, i: int) -> bool {
    0 <= i < list.len() - 1 && list[i + 1].0.0 <= list[i].0.0
}

/// The first place at which the levels do not ascend.
pub open spec fn is_first_disorder(list: Seq<(Px, Qty)>, i: int) -> bool {
    disorder_at(list, i) && forall|j: int| 0 <= j < i ==> !#[trigger] disorder_at(list, j)
}

pub open spec fn ascends(list: Seq<(Px, Qty)>) -> bool {
    forall|i: int| !#[trigger] disorder_at(list, i)
}

pub open spec fn shown(price: Px) -> Seq<char> {
    seq!['$'] + px::price_text(price)
}

/// What is reported of the disorder at `i`.
pub open spec fn disorder_failure(
    market: Seq<char>,
    side: Seq<char>,
    list: Seq<(Px, Qty)>,
    i: int,
) -> BookFailure {
    if list[i + 1].0.0 == list[i].0.0 {
        BookFailure::DuplicateLevel { market, side, price: shown(list[i].0) }
    } else {
        BookFailure::UnsortedSnapshot {
            market,
            side,
            previous: shown(list[i].0),
            current: shown(list[i + 1].0),
        }
    }
}

pub open spec fn continuity_of(last_seq: Option<u64>, seq: u64) -> SnapshotContinuity {
    match last_seq {
        None => SnapshotContinuity::Initial,
        Some(previous) => if seq > previous {
            SnapshotContinuity::ContinuesStream { previous, snapshot: seq }
        } else {
            SnapshotContinuity::RestartsStream { previous, snapshot: seq }
        },
    }
}

/// The book after a snapshot whose levels ascend.
pub open spec fn after_snapshot(
    book: BookState,
    yes_priced: bool,
    sid: u64,
    seq: u64,
    yes: Seq<(Px, Qty)>,
    no: Seq<(Px, Qty)>,
) -> BookState {
    BookState {
        sid: Some(sid),
        bids: snapshot_levels(yes_priced, Side::Yes, yes),
        asks: snapshot_levels(yes_priced, Side::No, no),
        valid: true,
        last_seq: Some(seq),
        off_grid: book.off_grid + off_grid_count(book.grid, yes) + off_grid_count(book.grid, no),
        ..book
    }
}

/// What a sequence number means for the book.
pub open spec fn classified(book: BookState, seq: u64) -> DeltaOutcome {
    if !book.valid {
        DeltaOutcome::DiscardedInvalid
    } else {
        match book.last_seq {
            None => DeltaOutcome::Applied,
            Some(last) => if seq == last + 1 {
                DeltaOutcome::Applied
            } else if seq <= last {
                DeltaOutcome::Regression { last, got: seq }
            } else {
                DeltaOutcome::Gapped { expected: (last + 1) as u64, got: seq }
            },
        }
    }
}

/// The size resting at a price.
pub open spec fn resting(side_levels: Map<i64, Qty>, price: i64) -> int {
    if side_levels.contains_key(price) {
        side_levels[price].0 as int
    } else {
        0
    }
}

pub open spec fn above(side_levels: Map<i64, Qty>, price: i64) -> Map<i64, Qty> {
    side_levels.restrict(Set::new(|k: i64| k > price))
}

pub open spec fn below(side_levels: Map<i64, Qty>, price: i64) -> Map<i64, Qty> {
    side_levels.restrict(Set::new(|k: i64| k < price))
}

/// The book after one signed change of size at a price.
///
/// A level driven to zero leaves the book. A change that no resting size can
/// account for (below zero, or beyond what a size can hold) leaves the levels
/// alone and invalidates the book. A level that keeps size displaces whatever
/// rests on the other side at a price it crosses, since the exchange never holds
/// both.
pub open spec fn after_delta(
    book: BookState,
    yes_priced: bool,
    side: Side,
    price: Px,
    delta: Qty,
) -> BookState {
    let key = canonical_price(yes_priced, side, price).0;
    let size = resting(
        if side == Side::Yes {
            book.bids
        } else {
            book.asks
        },
        key,
    ) + delta.0;
    if size < 0 || size > i64::MAX {
        BookState { valid: false, desyncs: book.desyncs + 1, ..book }
    } else if side == Side::Yes {
        if size == 0 {
            BookState { bids: book.bids.remove(key), ..book }
        } else {
            BookState {
                bids: book.bids.insert(key, Qty(size as i64)),
                asks: above(book.asks, key),
                ..book
            }
        }
    } else {
        if size == 0 {
            BookState { asks: book.asks.remove(key), ..book }
        } else {
            BookState {
                asks: book.asks.insert(key, Qty(size as i64)),
                bids: below(book.bids, key),
                ..book
            }
        }
    }
}

/// The book after a delta with its sequence number was received.
pub open spec fn after_received(
    book: BookState,
    yes_priced: bool,
    seq: u64,
    side: Side,
    price: Px,
    delta: Qty,
) -> BookState {
    match classified(book, seq) {
        DeltaOutcome::Applied => {
            let noted = BookState {
                off_grid: book.off_grid + (if is_off_grid(book.grid, price) {
                    1nat
                } else {
                    0nat
                }),
                ..book
            };
            BookState {
                last_seq: Some(seq),
                ..after_delta(noted, yes_priced, side, price, delta)
            }
        },
        DeltaOutcome::Gapped { .. } => BookState { valid: false, last_seq: Some(seq), ..book },
        _ => book,
    }
}

/// A level without a positive size.
pub open spec fn is_bad_level(side_levels: Map<i64, Qty>, k: i64) -> bool {
    side_levels.contains_key(k) && side_levels[k].0 <= 0
}

pub open spec fn is_lowest_bad_level(side_levels: Map<i64, Qty>, k: i64) -> bool {
    is_bad_level(side_levels, k) && forall|j: i64| #[trigger]
        is_bad_level(side_levels, j) ==> k <= j
}

pub open spec fn has_bad_level(side_levels: Map<i64, Qty>) -> bool {
    exists|k: i64| is_bad_level(side_levels, k)
}

pub open spec fn bad_level_violation(side: Seq<char>, k: i64, size: Qty) -> Violation {
    if size.0 < 0 {
        Violation::NegativeQuantity {
            side,
            price: shown(Px(k)),
            qty: qty::quantity_text(size),
        }
    } else {
        Violation::ZeroQuantityLevel { side, price: shown(Px(k)) }
    }
}

/// Some bid is at or above some ask.
pub open spec fn is_crossed(book: BookState) -> bool {
    exists|b: i64, a: i64| #[trigger]
        book.bids.contains_key(b) && #[trigger] book.asks.contains_key(a) && b >= a
}

/// Every level has size and no bid meets an ask.
pub open spec fn has_sound_levels(book: BookState) -> bool {
    !has_bad_level(book.bids) && !has_bad_level(book.asks) && !is_crossed(book)
}

/// A readable book knows the subscription and sequence that validated it.
pub open spec fn is_anchored(book: BookState) -> bool {
    book.valid ==> book.sid is Some && book.last_seq is Some
}

/// What [`OrderBook::check_invariants`] reports.
pub open spec fn violation_is(book: BookState, violation: Violation) -> bool {
    if has_bad_level(book.bids) {
        exists|k: i64| #[trigger]
            is_lowest_bad_level(book.bids, k) && violation == bad_level_violation(
                "bid"@,
                k,
                book.bids[k],
            )
    } else if has_bad_level(book.asks) {
        exists|k: i64| #[trigger]
            is_lowest_bad_level(book.asks, k) && violation == bad_level_violation(
                "ask"@,
                k,
                book.asks[k],
            )
    } else if book.valid && book.sid is None {
        violation == Violation::ValidWithoutSid
    } else if book.valid && book.last_seq is None {
        violation == Violation::ValidWithoutSeq
    } else {
        is_crossed(book) && exists|b: i64, a: i64| #[trigger]
            levels::is_highest(book.bids, b) && #[trigger] levels::is_lowest(book.asks, a)
                && violation == (Violation::Crossed { bid: shown(Px(b)), ask: shown(Px(a)) })
    }
}

// ---------------------------------------------------------------------------
// The book
// ---------------------------------------------------------------------------
/// A local order book for one market, in one pricing convention.
///
/// Only YES-side prices are stored, keyed by their micro-dollars. A book is
/// readable only through [`OrderBook::levels`], which gives nothing while the
/// book is invalid.
#[derive(Debug)]
pub struct OrderBook<C: Convention> {
    market: Ticker,
    sid: Option<u64>,
    bids: BTreeMap<i64, Qty>,
    asks: BTreeMap<i64, Qty>,
    valid: bool,
    last_seq: Option<u64>,
    grid: Option<PriceRanges>,
    off_grid_observations: u64,
    desync_invalidations: u64,
    convention: PhantomData<C>,
}

impl<C: Convention> View for OrderBook<C> {
    type V = BookState;

    closed spec fn view(&self) -> BookState {
        BookState {
            market: self.market@,
            sid: self.sid,
            bids: self.bids@,
            asks: self.asks@,
            valid: self.valid,
            last_seq: self.last_seq,
            grid: match self.grid {
                None => None,
                Some(grid) => Some(grid@),
            },
            off_grid: self.off_grid_observations as nat,
            desyncs: self.desync_invalidations as nat,
        }
    }
}

impl<C: Convention> OrderBook<C> {
    pub fn new(market: Ticker) -> (out: OrderBook<C>)
        ensures
            out@ == (BookState {
                market: market@,
                sid: None,
                bids: Map::empty(),
                asks: Map::empty(),
                valid: false,
                last_seq: None,
                grid: None,
                off_grid: 0,
                desyncs: 0,
            }),
    {
        OrderBook {
            market,
            sid: None,
            bids: BTreeMap::new(),
            asks: BTreeMap::new(),
            valid: false,
            last_seq: None,
            grid: None,
            off_grid_observations: 0,
            desync_invalidations: 0,
            convention: PhantomData,
        }
    }

    pub fn market(&self) -> (out: &Ticker)
        ensures
            out@ == self@.market,
    {
        &self.market
    }

    pub fn convention_label(&self) -> (out: &'static str)
        ensures
            out@ == C::label_text(),
    {
        C::label()
    }

    pub fn sid(&self) -> (out: Option<u64>)
        ensures
            out == self@.sid,
    {
        self.sid
    }

    pub fn last_seq(&self) -> (out: Option<u64>)
        ensures
            out == self@.last_seq,
    {
        self.last_seq
    }

    pub fn is_valid(&self) -> (out: bool)
        ensures
            out == self@.valid,
    {
        self.valid
    }

    pub fn set_grid(&mut self, grid: PriceRanges)
        ensures
            final(self)@ == (BookState { grid: Some(grid@), ..old(self)@ }),
    {
        self.grid = Some(grid);
    }

    pub fn off_grid_observations(&self) -> (out: u64)
        ensures
            out == self@.off_grid,
    {
        self.off_grid_observations
    }

    /// Times this book invalidated because a delta could not be reconciled with
    /// the resting size. Not a sequence gap: the message was received.
    pub fn desync_invalidations(&self) -> (out: u64)
        ensures
            out == self@.desyncs,
    {
        self.desync_invalidations
    }

    /// Mark the book desynchronized from the exchange.
    pub fn invalidate_on_desync(&mut self, _side: Side, _price: Px, _delta: Qty, _resting: Qty)
        requires
            old(self)@.desyncs < u64::MAX,
        ensures
            final(self)@ == (BookState {
                valid: false,
                desyncs: old(self)@.desyncs + 1,
                ..old(self)@
            }),
    {
        self.desync_invalidations = self.desync_invalidations + 1;
        self.valid = false;
    }

    /// The book's contents, or nothing if it is not currently trustworthy. The
    /// only way to read the book.
    pub fn levels(&self) -> (out: Option<BookView<'_>>)
        ensures
            match out {
                Some(view) => self@.valid && view.bids_map() == self@.bids && view.asks_map()
                    == self@.asks,
                None => !self@.valid,
            },
    {
        if !self.valid {
            return None;
        }
        Some(BookView { bids: &self.bids, asks: &self.asks })
    }

    /// Mark the book unusable.
    pub fn invalidate(&mut self)
        ensures
            final(self)@ == (BookState { valid: false, ..old(self)@ }),
    {
        self.valid = false;
    }

    /// Ingest a full snapshot, replacing all state.
    ///
    /// The levels are price and size exactly as sent, in wire order. That they
    /// ascend is checked rather than trusted: a snapshot that does not is
    /// refused and changes nothing.
    pub fn apply_snapshot(
        &mut self,
        sid: u64,
        seq: u64,
        yes_levels: &[(Px, Qty)],
        no_levels: &[(Px, Qty)],
    ) -> (result: Result<SnapshotContinuity, BookError>)
        requires
            ascends(yes_levels@) && ascends(no_levels@) ==> {
                &&& forall|i: int|
                    0 <= i < yes_levels@.len() ==> answers(
                        old(self)@.grid,
                        #[trigger] yes_levels@[i].0,
                    )
                &&& forall|i: int|
                    0 <= i < no_levels@.len() ==> answers(
                        old(self)@.grid,
                        #[trigger] no_levels@[i].0,
                    )
                &&& old(self)@.off_grid + yes_levels@.len() + no_levels@.len() <= u64::MAX
            },
        ensures
            match result {
                Ok(continuity) => {
                    &&& ascends(yes_levels@)
                    &&& ascends(no_levels@)
                    &&& continuity == continuity_of(old(self)@.last_seq, seq)
                    &&& final(self)@ == after_snapshot(
                        old(self)@,
                        C::yes_priced(),
                        sid,
                        seq,
                        yes_levels@,
                        no_levels@,
                    )
                },
                Err(error) => {
                    &&& final(self)@ == old(self)@
                    &&& if ascends(yes_levels@) {
                        exists|i: int| #[trigger]
                            is_first_disorder(no_levels@, i) && error@ == disorder_failure(
                                old(self)@.market,
                                "no"@,
                                no_levels@,
                                i,
                            )
                    } else {
                        exists|i: int| #[trigger]
                            is_first_disorder(yes_levels@, i) && error@ == disorder_failure(
                                old(self)@.market,
                                "yes"@,
                                yes_levels@,
                                i,
                            )
                    }
                },
            },
    {
        match self.assert_ascending(yes_levels, "yes") {
            Ok(()) => {},
            Err(error) => return Err(error),
        }
        match self.assert_ascending(no_levels, "no") {
            Ok(()) => {},
            Err(error) => return Err(error),
        }
        let continuity = match self.last_seq {
            None => SnapshotContinuity::Initial,
            Some(previous) => if seq > previous {
                SnapshotContinuity::ContinuesStream { previous, snapshot: seq }
            } else {
                SnapshotContinuity::RestartsStream { previous, snapshot: seq }
            },
        };
        self.bids.clear();
        self.asks.clear();
        let ghost start = self@;
        let mut i: usize = 0;
        while i < yes_levels.len()
            invariant
                i <= yes_levels@.len(),
                forall|k: int|
                    0 <= k < yes_levels@.len() ==> answers(start.grid, #[trigger] yes_levels@[k].0),
                start.off_grid + yes_levels@.len() + no_levels@.len() <= u64::MAX,
                off_grid_count(start.grid, yes_levels@.take(i as int)) <= i,
                self@ == (BookState {
                    bids: snapshot_levels(C::yes_priced(), Side::Yes, yes_levels@.take(i as int)),
                    off_grid: start.off_grid + off_grid_count(
                        start.grid,
                        yes_levels@.take(i as int),
                    ),
                    ..start
                }),
            decreases yes_levels@.len() - i,
        {
            let (price, size) = yes_levels[i];
            proof {
                assert(yes_levels@.take(i + 1).drop_last() =~= yes_levels@.take(i as int));
                assert(answers(start.grid, yes_levels@[i as int].0));
            }
            self.note_grid(price);
            if !size.is_zero() {
                self.bids.insert(price.0, size);
            }
            i += 1;
        }
        assert(yes_levels@.take(yes_levels@.len() as int) =~= yes_levels@);
        let ghost middle = self@;
        let mut j: usize = 0;
        while j < no_levels.len()
            invariant
                j <= no_levels@.len(),
                forall|k: int|
                    0 <= k < no_levels@.len() ==> answers(middle.grid, #[trigger] no_levels@[k].0),
                middle.off_grid + no_levels@.len() <= u64::MAX,
                off_grid_count(middle.grid, no_levels@.take(j as int)) <= j,
                middle.asks == Map::<i64, Qty>::empty(),
                self@ == (BookState {
                    asks: snapshot_levels(C::yes_priced(), Side::No, no_levels@.take(j as int)),
                    off_grid: middle.off_grid + off_grid_count(
                        middle.grid,
                        no_levels@.take(j as int),
                    ),
                    ..middle
                }),
            decreases no_levels@.len() - j,
        {
            let (price, size) = no_levels[j];
            proof {
                assert(no_levels@.take(j + 1).drop_last() =~= no_levels@.take(j as int));
                assert(answers(middle.grid, no_levels@[j as int].0));
            }
            self.note_grid(price);
            if !size.is_zero() {
                let ask = yes_ask_price_for::<C>(Side::No, price);
                self.asks.insert(ask.0, size);
            }
            j += 1;
        }
        assert(no_levels@.take(no_levels@.len() as int) =~= no_levels@);
        self.sid = Some(sid);
        self.last_seq = Some(seq);
        self.valid = true;
        Ok(continuity)
    }

    /// Refuses levels that do not strictly ascend.
    fn assert_ascending(&self, list: &[(Px, Qty)], side: &'static str) -> (result: Result<
        (),
        BookError,
    >)
        ensures
            match result {
                Ok(()) => ascends(list@),
                Err(error) => exists|i: int| #[trigger]
                    is_first_disorder(list@, i) && error@ == disorder_failure(
                        self@.market,
                        side@,
                        list@,
                        i,
                    ),
            },
            result is Err ==> !ascends(list@),
    {
        let len = list.len();
        if len == 0 {
            return Ok(());
        }
        let mut i: usize = 0;
        while i < len - 1
            invariant
                0 < len == list@.len(),
                i <= len - 1,
                forall|k: int| 0 <= k < i ==> !#[trigger] disorder_at(list@, k),
            decreases list@.len() - i,
        {
            let (previous, _) = list[i];
            let (current, _) = list[i + 1];
            if current.0 == previous.0 {
                assert(disorder_at(list@, i as int));
                assert(is_first_disorder(list@, i as int));
                return Err(
                    BookError::DuplicateLevel {
                        market: self.market.0.clone(),
                        side,
                        price: previous.to_display_string(),
                    },
                );
            }
            if current.0 < previous.0 {
                assert(disorder_at(list@, i as int));
                assert(is_first_disorder(list@, i as int));
                return Err(
                    BookError::UnsortedSnapshot {
                        market: self.market.0.clone(),
                        side,
                        previous: previous.to_display_string(),
                        current: current.to_display_string(),
                    },
                );
            }
            i += 1;
        }
        Ok(())
    }

    /// Count a price that is not on the market's published grid. Never rejects
    /// or snaps: the exchange's message is the fact, and the grid may be stale.
    fn note_grid(&mut self, price: Px)
        requires
            answers(old(self)@.grid, price),
            old(self)@.off_grid < u64::MAX,
        ensures
            final(self)@ == (BookState {
                off_grid: old(self)@.off_grid + (if is_off_grid(old(self)@.grid, price) {
                    1nat
                } else {
                    0nat
                }),
                ..old(self)@
            }),
    {
        let off = match &self.grid {
            None => false,
            Some(grid) => !grid.is_empty() && !grid.is_valid(price),
        };
        if off {
            self.off_grid_observations = self.off_grid_observations + 1;
        }
    }

    /// Classify a delta's sequence number without mutating the book.
    pub fn classify_seq(&self, seq: u64) -> (out: DeltaOutcome)
        requires
            self@.valid ==> self@.last_seq != Some(u64::MAX),
        ensures
            out == classified(self@, seq),
    {
        if !self.valid {
            return DeltaOutcome::DiscardedInvalid;
        }
        match self.last_seq {
            None => DeltaOutcome::Applied,
            Some(last) => if seq == last + 1 {
                DeltaOutcome::Applied
            } else if seq <= last {
                DeltaOutcome::Regression { last, got: seq }
            } else {
                DeltaOutcome::Gapped { expected: last + 1, got: seq }
            },
        }
    }

    /// Receive a delta: classify its sequence, then apply it if contiguous.
    ///
    /// A gap invalidates the book and the delta is not applied. The book stays
    /// unreadable until a fresh snapshot arrives.
    pub fn receive_delta(&mut self, seq: u64, side: Side, price: Px, delta: Qty) -> (out:
        DeltaOutcome)
        requires
            old(self)@.valid ==> old(self)@.last_seq != Some(u64::MAX),
            classified(old(self)@, seq) is Applied ==> {
                &&& answers(old(self)@.grid, price)
                &&& old(self)@.off_grid < u64::MAX
                &&& old(self)@.desyncs < u64::MAX
            },
        ensures
            out == classified(old(self)@, seq),
            final(self)@ == after_received(
                old(self)@,
                C::yes_priced(),
                seq,
                side,
                price,
                delta,
            ),
    {
        let outcome = self.classify_seq(seq);
        match outcome {
            DeltaOutcome::Applied => {
                self.note_grid(price);
                self.apply_delta(side, price, delta);
                self.last_seq = Some(seq);
            },
            DeltaOutcome::Gapped { .. } => {
                self.valid = false;
                self.last_seq = Some(seq);
            },
            // Rewinding the high-water mark would let the detector erase its
            // own evidence.
            DeltaOutcome::Regression { .. } => {},
            DeltaOutcome::DiscardedInvalid => {},
        }
        outcome
    }

    /// Apply one price-level mutation to the canonical book.
    fn apply_delta(&mut self, side: Side, price: Px, delta: Qty)
        requires
            old(self)@.desyncs < u64::MAX,
        ensures
            final(self)@ == after_delta(old(self)@, C::yes_priced(), side, price, delta),
    {
        let key: i64 = yes_ask_price_for::<C>(side, price).0;
        let found = match side {
            Side::Yes => self.bids.get(&key),
            Side::No => self.asks.get(&key),
        };
        let held: i64 = match found {
            Some(size) => size.0,
            None => 0,
        };
        let size: i128 = held as i128 + delta.0 as i128;
        if size < 0 || size > i64::MAX as i128 {
            self.invalidate_on_desync(side, price, delta, Qty(held));
            return;
        }
        let size: i64 = size as i64;
        match side {
            Side::Yes => {
                if size == 0 {
                    self.bids.remove(&key);
                } else {
                    self.bids.insert(key, Qty(size));
                    drop_up_to(&mut self.asks, key);
                }
            },
            Side::No => {
                if size == 0 {
                    self.asks.remove(&key);
                } else {
                    self.asks.insert(key, Qty(size));
                    drop_from(&mut self.bids, key);
                }
            },
        }
    }

    /// Check every invariant the book must satisfy, and report the first that
    /// does not hold.
    pub fn check_invariants(&self) -> (result: Result<(), InvariantViolation>)
        ensures
            match result {
                Ok(()) => has_sound_levels(self@) && is_anchored(self@),
                Err(violation) => violation_is(self@, violation@),
            },
    {
        match check_sizes(&self.bids, "bid") {
            Ok(()) => {},
            Err(violation) => return Err(violation),
        }
        match check_sizes(&self.asks, "ask") {
            Ok(()) => {},
            Err(violation) => return Err(violation),
        }
        if self.valid {
            if self.sid.is_none() {
                return Err(InvariantViolation::ValidWithoutSid);
            }
            if self.last_seq.is_none() {
                return Err(InvariantViolation::ValidWithoutSeq);
            }
        }
        match (highest_level(&self.bids), lowest_level(&self.asks)) {
            (Some((bid, _)), Some((ask, _))) => {
                if bid >= ask {
                    assert(self@.bids.contains_key(bid) && self@.asks.contains_key(ask));
                    assert(levels::is_highest(self@.bids, bid));
                    assert(levels::is_lowest(self@.asks, ask));
                    return Err(
                        InvariantViolation::Crossed {
                            bid: Px(bid).to_display_string(),
                            ask: Px(ask).to_display_string(),
                        },
                    );
                }
            },
            _ => {},
        }
        Ok(())
    }

    /// The NO-side bids, derived from the canonical YES asks, in the order of
    /// the asks. Nothing while the book is invalid.
    pub fn no_bids(&self) -> (out: Option<Vec<(Px, Qty)>>)
        ensures
            match out {
                None => !self@.valid,
                Some(list) => self@.valid && exists|asks: Seq<(Px, Qty)>| #[trigger]
                    levels::lists_ascending(asks, self@.asks) && list@ == complemented(asks),
            },
    {
        if !self.valid {
            return None;
        }
        let asks = list_levels(&self.asks);
        let mut out: Vec<(Px, Qty)> = Vec::new();
        let mut i: usize = 0;
        while i < asks.len()
            invariant
                i <= asks@.len(),
                out@ == complemented(asks@.take(i as int)),
            decreases asks@.len() - i,
        {
            let (ask, size) = asks[i];
            out.push((ask.complement(), size));
            assert(complemented(asks@.take(i + 1)) =~= complemented(asks@.take(i as int)).push(
                (Px(px::saturated(PX_SCALE - ask.0) as i64), size),
            ));
            i += 1;
        }
        assert(asks@.take(asks@.len() as int) =~= asks@);
        assert(levels::lists_ascending(asks@, self@.asks));
        Some(out)
    }
}

/// Each level at its complementary price.
pub open spec fn complemented(list: Seq<(Px, Qty)>) -> Seq<(Px, Qty)> {
    list.map_values(|level: (Px, Qty)| (Px(px::saturated(PX_SCALE - level.0.0) as i64), level.1))
}

/// Refuses a level without a positive size; the lowest such price is named.
fn check_sizes(side_levels: &BTreeMap<i64, Qty>, side: &'static str) -> (result: Result<
    (),
    InvariantViolation,
>)
    ensures
        match result {
            Ok(()) => !has_bad_level(side_levels@),
            Err(violation) => has_bad_level(side_levels@) && exists|k: i64| #[trigger]
                is_lowest_bad_level(side_levels@, k) && violation@ == bad_level_violation(
                    side@,
                    k,
                    side_levels@[k],
                ),
        },
{
    let list = list_levels(side_levels);
    let mut i: usize = 0;
    while i < list.len()
        invariant
            i <= list@.len(),
            levels::lists_ascending(list@, side_levels@),
            forall|k: int| 0 <= k < i ==> (#[trigger] list@[k]).1.0 > 0,
        decreases list@.len() - i,
    {
        let (price, size) = list[i];
        if size.0 <= 0 {
            proof {
                assert(list@[i as int] == (price, size));
                assert(is_bad_level(side_levels@, price.0));
                assert forall|j: i64| #[trigger] is_bad_level(side_levels@, j) implies price.0
                    <= j by {
                    let m = choose|m: int| 0 <= m < list@.len() && (#[trigger] list@[m]).0.0 == j;
                    if m < i {
                        assert(list@[m].1.0 > 0);
                    } else if m > i {
                        assert(list@[i as int].0.0 < list@[m].0.0);
                    }
                }
                assert(is_lowest_bad_level(side_levels@, price.0));
            }
            return Err(
                if size.is_negative() {
                    InvariantViolation::NegativeQuantity {
                        side,
                        price: price.to_display_string(),
                        qty: size.to_fp_string(),
                    }
                } else {
                    InvariantViolation::ZeroQuantityLevel { side, price: price.to_display_string() }
                },
            );
        }
        i += 1;
    }
    proof {
        if has_bad_level(side_levels@) {
            let k = choose|k: i64| is_bad_level(side_levels@, k);
            assert(side_levels@.contains_key(k));
            let m = choose|m: int| 0 <= m < list@.len() && (#[trigger] list@[m]).0.0 == k;
            assert(list@[m].1.0 > 0);
        }
    }
    Ok(())
}

/// A read-only view of a valid book.
#[derive(Debug)]
pub struct BookView<'a> {
    bids: &'a BTreeMap<i64, Qty>,
    asks: &'a BTreeMap<i64, Qty>,
}

/// `entry` is the level that `pick` singles out, or nothing where there are no
/// levels.
pub open spec fn is_best_bid(side_levels: Map<i64, Qty>, entry: Option<(Px, Qty)>) -> bool {
    match entry {
        None => side_levels =~= Map::empty(),
        Some((price, size)) => levels::is_highest(side_levels, price.0) && side_levels[price.0]
            == size,
    }
}

pub open spec fn is_best_ask(side_levels: Map<i64, Qty>, entry: Option<(Px, Qty)>) -> bool {
    match entry {
        None => side_levels =~= Map::empty(),
        Some((price, size)) => levels::is_lowest(side_levels, price.0) && side_levels[price.0]
            == size,
    }
}

impl BookView<'_> {
    pub closed spec fn bids_map(&self) -> Map<i64, Qty> {
        self.bids@
    }

    pub closed spec fn asks_map(&self) -> Map<i64, Qty> {
        self.asks@
    }

    /// Highest YES bid.
    pub fn best_bid(&self) -> (out: Option<(Px, Qty)>)
        ensures
            is_best_bid(self.bids_map(), out),
    {
        match highest_level(self.bids) {
            Some((price, size)) => Some((Px(price), size)),
            None => None,
        }
    }

    /// Lowest YES ask, derived from the best NO bid.
    pub fn best_ask(&self) -> (out: Option<(Px, Qty)>)
        ensures
            is_best_ask(self.asks_map(), out),
    {
        match lowest_level(self.asks) {
            Some((price, size)) => Some((Px(price), size)),
            None => None,
        }
    }

    /// Best ask minus best bid, exact; nothing where a side is empty or the
    /// difference does not fit.
    pub fn spread(&self) -> (out: Option<Px>)
        ensures
            match out {
                Some(spread) => exists|b: i64, a: i64| #[trigger]
                    levels::is_highest(self.bids_map(), b) && #[trigger] levels::is_lowest(
                        self.asks_map(),
                        a,
                    ) && spread.0 == a - b,
                None => self.bids_map() =~= Map::empty() || self.asks_map() =~= Map::empty() || (
                exists|b: i64, a: i64| #[trigger]
                    levels::is_highest(self.bids_map(), b) && #[trigger] levels::is_lowest(
                        self.asks_map(),
                        a,
                    ) && !px::fits(a - b)),
            },
    {
        match (self.best_bid(), self.best_ask()) {
            (Some((bid, _)), Some((ask, _))) => ask.checked_sub(bid),
            _ => None,
        }
    }

    /// Midpoint, rounded toward negative infinity.
    pub fn mid(&self) -> (out: Option<Px>)
        ensures
            match out {
                Some(mid) => exists|b: i64, a: i64| #[trigger]
                    levels::is_highest(self.bids_map(), b) && #[trigger] levels::is_lowest(
                        self.asks_map(),
                        a,
                    ) && 2 * mid.0 <= b + a < 2 * mid.0 + 2,
                None => self.bids_map() =~= Map::empty() || self.asks_map() =~= Map::empty(),
            },
    {
        match (self.best_bid(), self.best_ask()) {
            (Some((bid, _)), Some((ask, _))) => Some(bid.midpoint(ask)),
            _ => None,
        }
    }

    pub fn bid_levels(&self) -> (out: Vec<(Px, Qty)>)
        ensures
            levels::lists_ascending(out@, self.bids_map()),
    {
        list_levels(self.bids)
    }

    pub fn ask_levels(&self) -> (out: Vec<(Px, Qty)>)
        ensures
            levels::lists_ascending(out@, self.asks_map()),
    {
        list_levels(self.asks)
    }

    pub fn bid_depth(&self) -> (out: usize)
        ensures
            out == self.bids_map().len(),
    {
        self.bids.len()
    }

    pub fn ask_depth(&self) -> (out: usize)
        ensures
            out == self.asks_map().len(),
    {
        self.asks.len()
    }
}

// ---------------------------------------------------------------------------
// Runtime-known convention
// ---------------------------------------------------------------------------
/// A book whose convention was chosen at runtime from configuration.
///
/// Narrowing to one convention is checked: the other variant gives nothing.
#[derive(Debug)]
pub enum AnyBook {
    NoLeg(OrderBook<NoLeg>),
    YesLeg(OrderBook<YesLeg>),
}

impl View for AnyBook {
    type V = BookState;

    open spec fn view(&self) -> BookState {
        match self {
            AnyBook::NoLeg(book) => book@,
            AnyBook::YesLeg(book) => book@,
        }
    }
}

impl AnyBook {
    /// Build a book in the convention named by configuration.
    pub fn new(market: Ticker, use_yes_price: bool) -> (out: AnyBook)
        ensures
            use_yes_price == (out is YesLeg),
            out@ == (BookState {
                market: market@,
                sid: None,
                bids: Map::empty(),
                asks: Map::empty(),
                valid: false,
                last_seq: None,
                grid: None,
                off_grid: 0,
                desyncs: 0,
            }),
    {
        if use_yes_price {
            AnyBook::YesLeg(OrderBook::new(market))
        } else {
            AnyBook::NoLeg(OrderBook::new(market))
        }
    }

    pub fn convention_label(&self) -> (out: &'static str)
        ensures
            out@ == (match self {
                AnyBook::NoLeg(_) => "no_leg"@,
                AnyBook::YesLeg(_) => "yes_leg"@,
            }),
    {
        match self {
            AnyBook::NoLeg(_) => NoLeg::label(),
            AnyBook::YesLeg(_) => YesLeg::label(),
        }
    }

    /// Narrow to a `NoLeg` book, or nothing if it is not one.
    pub fn as_no_leg(&self) -> (out: Option<&OrderBook<NoLeg>>)
        ensures
            match (self, out) {
                (AnyBook::NoLeg(book), Some(narrowed)) => *narrowed == *book,
                (AnyBook::YesLeg(_), None) => true,
                _ => false,
            },
    {
        match self {
            AnyBook::NoLeg(book) => Some(book),
            AnyBook::YesLeg(_) => None,
        }
    }

    /// Narrow to a `YesLeg` book, or nothing if it is not one.
    pub fn as_yes_leg(&self) -> (out: Option<&OrderBook<YesLeg>>)
        ensures
            match (self, out) {
                (AnyBook::YesLeg(book), Some(narrowed)) => *narrowed == *book,
                (AnyBook::NoLeg(_), None) => true,
                _ => false,
            },
    {
        match self {
            AnyBook::YesLeg(book) => Some(book),
            AnyBook::NoLeg(_) => None,
        }
    }

    /// The subscription that the last snapshot came from.
    pub fn sid(&self) -> (out: Option<u64>)
        ensures
            out == self@.sid,
    {
        match self {
            AnyBook::NoLeg(book) => book.sid(),
            AnyBook::YesLeg(book) => book.sid(),
        }
    }

    /// Mark the book unusable.
    pub fn invalidate(&mut self)
        ensures
            final(self)@ == (BookState { valid: false, ..old(self)@ }),
    {
        match self {
            AnyBook::NoLeg(book) => book.invalidate(),
            AnyBook::YesLeg(book) => book.invalidate(),
        }
    }

    pub fn is_valid(&self) -> (out: bool)
        ensures
            out == self@.valid,
    {
        match self {
            AnyBook::NoLeg(book) => book.is_valid(),
            AnyBook::YesLeg(book) => book.is_valid(),
        }
    }

    pub fn levels(&self) -> (out: Option<BookView<'_>>)
        ensures
            match out {
                Some(view) => self@.valid && view.bids_map() == self@.bids && view.asks_map()
                    == self@.asks,
                None => !self@.valid,
            },
    {
        match self {
            AnyBook::NoLeg(book) => book.levels(),
            AnyBook::YesLeg(book) => book.levels(),
        }
    }
}

// ---------------------------------------------------------------------------
// Laws
// ---------------------------------------------------------------------------
/// A delta never breaks a sound book: every level that is left has a positive
/// size, and no bid meets an ask.
pub proof fn law_deltas_keep_levels_sound(
    book: BookState,
    yes_priced: bool,
    seq: u64,
    side: Side,
    price: Px,
    delta: Qty,
)
    requires
        has_sound_levels(book),
        is_anchored(book),
    ensures
        has_sound_levels(after_received(book, yes_priced, seq, side, price, delta)),
        is_anchored(after_received(book, yes_priced, seq, side, price, delta)),
{
    let next = after_received(book, yes_priced, seq, side, price, delta);
    assert forall|k: i64| !is_bad_level(next.bids, k) by {
        assert(!is_bad_level(book.bids, k));
    }
    assert forall|k: i64| !is_bad_level(next.asks, k) by {
        assert(!is_bad_level(book.asks, k));
    }
    if is_crossed(next) {
        let (b, a) = choose|b: i64, a: i64| #[trigger]
            next.bids.contains_key(b) && #[trigger] next.asks.contains_key(a) && b >= a;
        if book.bids.contains_key(b) && book.asks.contains_key(a) {
            assert(is_crossed(book));
        }
    }
}

/// Only a snapshot makes a book readable: no delta ever turns an invalid book
/// valid, and an invalid book ignores deltas altogether.
pub proof fn law_only_snapshots_validate(
    book: BookState,
    yes_priced: bool,
    seq: u64,
    side: Side,
    price: Px,
    delta: Qty,
)
    requires
        !book.valid,
    ensures
        after_received(book, yes_priced, seq, side, price, delta) == book,
{
}

/// The high-water mark never goes back: a received delta leaves it or raises it.
pub proof fn law_deltas_never_rewind_the_sequence(
    book: BookState,
    yes_priced: bool,
    seq: u64,
    side: Side,
    price: Px,
    delta: Qty,
)
    requires
        book.last_seq is Some,
    ensures
        after_received(book, yes_priced, seq, side, price, delta).last_seq matches Some(after)
            && after >= book.last_seq->0,
{
}

/// A gap is never papered over: the levels stay as they were, the book is
/// unreadable, and no desynchronization is counted.
pub proof fn law_gaps_invalidate_without_applying(
    book: BookState,
    yes_priced: bool,
    seq: u64,
    side: Side,
    price: Px,
    delta: Qty,
)
    requires
        classified(book, seq) is Gapped,
    ensures
        ({
            let next = after_received(book, yes_priced, seq, side, price, delta);
            &&& !next.valid
            &&& next.bids == book.bids
            &&& next.asks == book.asks
            &&& next.desyncs == book.desyncs
        }),
{
}

/// A removal that exceeds the resting size is never clamped: the levels stay,
/// the book becomes unreadable, and the event is counted.
pub proof fn law_oversized_removals_invalidate(
    book: BookState,
    yes_priced: bool,
    side: Side,
    price: Px,
    delta: Qty,
)
    requires
        resting(
            if side == Side::Yes {
                book.bids
            } else {
                book.asks
            },
            canonical_price(yes_priced, side, price).0,
        ) + delta.0 < 0,
    ensures
        ({
            let next = after_delta(book, yes_priced, side, price, delta);
            &&& !next.valid
            &&& next.bids == book.bids
            &&& next.asks == book.asks
            &&& next.desyncs == book.desyncs + 1
        }),
{
}

/// Deltas accumulate: adding a size and then removing it again restores the
/// book, where the added level displaces nothing on the other side.
pub proof fn law_a_delta_and_its_reverse_cancel(
    book: BookState,
    yes_priced: bool,
    side: Side,
    price: Px,
    delta: Qty,
)
    requires
        has_sound_levels(book),
        delta.0 > 0,
        ({
            let key = canonical_price(yes_priced, side, price).0;
            if side == Side::Yes {
                &&& resting(book.bids, key) + delta.0 <= i64::MAX
                &&& forall|a: i64| #[trigger] book.asks.contains_key(a) ==> a > key
            } else {
                &&& resting(book.asks, key) + delta.0 <= i64::MAX
                &&& forall|b: i64| #[trigger] book.bids.contains_key(b) ==> b < key
            }
        }),
    ensures
        after_delta(
            after_delta(book, yes_priced, side, price, delta),
            yes_priced,
            side,
            price,
            Qty((-delta.0) as i64),
        ) == book,
{
    let key = canonical_price(yes_priced, side, price).0;
    let once = after_delta(book, yes_priced, side, price, delta);
    let twice = after_delta(once, yes_priced, side, price, Qty((-delta.0) as i64));
    assert(!is_bad_level(book.bids, key) && !is_bad_level(book.asks, key));
    assert(twice.bids =~= book.bids);
    assert(twice.asks =~= book.asks);
}

/// What goes in as a NO bid under NO-leg pricing comes back out of the derived
/// NO view at the same price.
pub proof fn law_no_bids_round_trip(price: Px)
    requires
        px::fits(PX_SCALE - price.0),
    ensures
        px::saturated(PX_SCALE - canonical_price(false, Side::No, price).0) == price.0,
{
}

/// A snapshot replaces everything: nothing that rested before is left, and the
/// book is readable under the snapshot's own subscription and sequence.
pub proof fn law_snapshots_replace_all_levels(
    first: BookState,
    second: BookState,
    yes_priced: bool,
    sid: u64,
    seq: u64,
    yes: Seq<(Px, Qty)>,
    no: Seq<(Px, Qty)>,
)
    ensures
        ({
            let a = after_snapshot(first, yes_priced, sid, seq, yes, no);
            let b = after_snapshot(second, yes_priced, sid, seq, yes, no);
            &&& a.bids == b.bids
            &&& a.asks == b.asks
            &&& a.valid && is_anchored(a)
            &&& a.sid == Some(sid) && a.last_seq == Some(seq)
        }),
{
}

/// Of a readable book, exactly the next message of its stream is applied. A later one
/// shows that something was lost: it is reported with the number that was due, the
/// levels stay, and the book becomes unreadable. An earlier one changes nothing.
pub proof fn law_only_the_next_message_is_applied(
    book: BookState,
    last: u64,
    yes_priced: bool,
    seq: u64,
    side: Side,
    price: Px,
    delta: Qty,
)
    requires
        book.valid,
        book.last_seq == Some(last),
        last < u64::MAX,
    ensures
        classified(book, seq) is Applied <==> seq == last + 1,
        seq > last + 1 <==> classified(book, seq) == (DeltaOutcome::Gapped {
            expected: (last + 1) as u64,
            got: seq,
        }),
        seq <= last <==> classified(book, seq) == (DeltaOutcome::Regression { last, got: seq }),
        ({
            let next = after_received(book, yes_priced, seq, side, price, delta);
            &&& seq == last + 1 ==> next.last_seq == Some(seq)
            &&& seq > last + 1 ==> next == (BookState { valid: false, last_seq: Some(seq), ..book })
            &&& seq <= last ==> next == book
        }),
{
}

/// What [`OrderBook::classify_seq`] answers is what the stream shows: nothing of an
/// unreadable book, and of a readable one the message itself, its loss or its repeat.
pub proof fn law_a_sequence_is_classified<C: Convention>(
    book: OrderBook<C>,
    seq: u64,
    out: DeltaOutcome,
)
    requires
        call_ensures(OrderBook::<C>::classify_seq, (&book, seq), out),
    ensures
        out is DiscardedInvalid <==> !book@.valid,
        book@.valid && book@.last_seq is None ==> out is Applied,
        book@.valid && book@.last_seq is Some ==> {
            &&& out is Applied <==> seq == book@.last_seq->0 + 1
            &&& out is Gapped <==> seq > book@.last_seq->0 + 1
            &&& out is Regression <==> seq <= book@.last_seq->0
        },
{
}

proof fn lemma_side_of_snapshot(yes_priced: bool, side: Side, list: Seq<(Px, Qty)>)
    requires
        forall|i: int, j: int|
            0 <= i < j < list.len() ==> (#[trigger] list[i]).0.0 < (#[trigger] list[j]).0.0,
        side == Side::No && !yes_priced ==> forall|i: int|
            0 <= i < list.len() ==> 1_000_000 - (#[trigger] list[i]).0.0 <= i64::MAX,
    ensures
        ({
            let kept = snapshot_levels(yes_priced, side, list);
            &&& forall|i: int|
                0 <= i < list.len() && (#[trigger] list[i]).1.0 != 0 ==> kept.contains_key(
                    canonical_price(yes_priced, side, list[i].0).0,
                ) && kept[canonical_price(yes_priced, side, list[i].0).0] == list[i].1
            &&& forall|k: i64| #[trigger]
                kept.contains_key(k) ==> exists|i: int|
                    0 <= i < list.len() && (#[trigger] list[i]).1.0 != 0 && canonical_price(
                        yes_priced,
                        side,
                        list[i].0,
                    ).0 == k
        }),
    decreases list.len(),
{
    if list.len() > 0 {
        let shorter = list.drop_last();
        assert forall|i: int, j: int| 0 <= i < j < shorter.len() implies (#[trigger] shorter[i]).0.0
            < (#[trigger] shorter[j]).0.0 by {
            assert(list[i].0.0 < list[j].0.0);
        }
        assert forall|i: int|
            side == Side::No && !yes_priced && 0 <= i < shorter.len() implies 1_000_000 - (
        #[trigger] shorter[i]).0.0 <= i64::MAX by {
            assert(1_000_000 - list[i].0.0 <= i64::MAX);
        }
        lemma_side_of_snapshot(yes_priced, side, shorter);
        let kept = snapshot_levels(yes_priced, side, list);
        let before = snapshot_levels(yes_priced, side, shorter);
        let n = list.len() - 1;
        assert forall|i: int| 0 <= i < list.len() && (#[trigger] list[i]).1.0 != 0 implies
            kept.contains_key(canonical_price(yes_priced, side, list[i].0).0) && kept[
            canonical_price(yes_priced, side, list[i].0).0] == list[i].1 by {
            if i < n {
                assert(shorter[i] == list[i]);
                assert(list[i].0.0 < list[n].0.0);
                if side == Side::No && !yes_priced {
                    assert(1_000_000 - list[i].0.0 <= i64::MAX);
                    assert(1_000_000 - list[n].0.0 <= i64::MAX);
                }
            }
        }
        assert forall|k: i64| #[trigger] kept.contains_key(k) implies exists|i: int|
            0 <= i < list.len() && (#[trigger] list[i]).1.0 != 0 && canonical_price(
                yes_priced,
                side,
                list[i].0,
            ).0 == k by {
            if before.contains_key(k) {
                let i = choose|i: int|
                    0 <= i < shorter.len() && (#[trigger] shorter[i]).1.0 != 0 && canonical_price(
                        yes_priced,
                        side,
                        shorter[i].0,
                    ).0 == k;
                assert(list[i] == shorter[i]);
            } else {
                assert(list[n].1.0 != 0);
            }
        }
    }
}

/// After an accepted snapshot the book is the snapshot: every level with a size rests
/// at its price, a NO price under NO-leg pricing at its complement to one dollar, and
/// nothing else does. NO prices whose complement cannot be held are left out.
pub proof fn law_a_snapshot_is_the_book(
    book: BookState,
    yes_priced: bool,
    sid: u64,
    seq: u64,
    yes: Seq<(Px, Qty)>,
    no: Seq<(Px, Qty)>,
)
    requires
        forall|i: int, j: int|
            0 <= i < j < yes.len() ==> (#[trigger] yes[i]).0.0 < (#[trigger] yes[j]).0.0,
        forall|i: int, j: int|
            0 <= i < j < no.len() ==> (#[trigger] no[i]).0.0 < (#[trigger] no[j]).0.0,
        !yes_priced ==> forall|i: int|
            0 <= i < no.len() ==> 1_000_000 - (#[trigger] no[i]).0.0 <= i64::MAX,
    ensures
        ({
            let next = after_snapshot(book, yes_priced, sid, seq, yes, no);
            &&& forall|i: int|
                0 <= i < yes.len() && (#[trigger] yes[i]).1.0 != 0 ==> next.bids.contains_key(
                    yes[i].0.0,
                ) && next.bids[yes[i].0.0] == yes[i].1
            &&& forall|k: i64| #[trigger]
                next.bids.contains_key(k) ==> exists|i: int|
                    0 <= i < yes.len() && (#[trigger] yes[i]).1.0 != 0 && yes[i].0.0 == k
            &&& yes_priced ==> forall|i: int|
                0 <= i < no.len() && (#[trigger] no[i]).1.0 != 0 ==> next.asks.contains_key(
                    no[i].0.0,
                ) && next.asks[no[i].0.0] == no[i].1
            &&& !yes_priced ==> forall|i: int|
                0 <= i < no.len() && (#[trigger] no[i]).1.0 != 0 ==> next.asks.contains_key(
                    (1_000_000 - no[i].0.0) as i64,
                ) && next.asks[(1_000_000 - no[i].0.0) as i64] == no[i].1
            &&& forall|k: i64| #[trigger]
                next.asks.contains_key(k) ==> exists|i: int|
                    0 <= i < no.len() && (#[trigger] no[i]).1.0 != 0 && k == (if yes_priced {
                        no[i].0.0 as int
                    } else {
                        1_000_000 - no[i].0.0
                    })
            &&& next.valid && next.sid == Some(sid) && next.last_seq == Some(seq)
            &&& next.market == book.market && next.grid == book.grid && next.desyncs == book.desyncs
        }),
{
    lemma_side_of_snapshot(yes_priced, Side::Yes, yes);
    lemma_side_of_snapshot(yes_priced, Side::No, no);
    let next = after_snapshot(book, yes_priced, sid, seq, yes, no);
    assert forall|k: i64| #[trigger] next.bids.contains_key(k) implies exists|i: int|
        0 <= i < yes.len() && (#[trigger] yes[i]).1.0 != 0 && yes[i].0.0 == k by {
        let i = choose|i: int|
            0 <= i < yes.len() && (#[trigger] yes[i]).1.0 != 0 && canonical_price(
                yes_priced,
                Side::Yes,
                yes[i].0,
            ).0 == k;
        assert(yes[i].0.0 == k);
    }
    assert forall|k: i64| #[trigger] next.asks.contains_key(k) implies exists|i: int|
        0 <= i < no.len() && (#[trigger] no[i]).1.0 != 0 && k == (if yes_priced {
            no[i].0.0 as int
        } else {
            1_000_000 - no[i].0.0
        }) by {
        let i = choose|i: int|
            0 <= i < no.len() && (#[trigger] no[i]).1.0 != 0 && canonical_price(
                yes_priced,
                Side::No,
                no[i].0,
            ).0 == k;
        assert(k == (if yes_priced {
            no[i].0.0 as int
        } else {
            1_000_000 - no[i].0.0
        }));
    }
}

/// A snapshot is accepted exactly where both lists ascend strictly from end to end;
/// else the first pair out of order is the one that is named.
pub proof fn law_only_ascending_levels_are_accepted(list: Seq<(Px, Qty)>)
    ensures
        ascends(list) <==> forall|i: int, j: int|
            0 <= i < j < list.len() ==> (#[trigger] list[i]).0.0 < (#[trigger] list[j]).0.0,
        forall|i: int| #[trigger]
            is_first_disorder(list, i) ==> 0 <= i < list.len() - 1 && list[i + 1].0.0
                <= list[i].0.0 && forall|j: int, k: int|
                0 <= j < k <= i ==> (#[trigger] list[j]).0.0 < (#[trigger] list[k]).0.0,
{
    if ascends(list) {
        lemma_prefix_ascends(list, list.len() - 1);
    } else {
        let i = choose|i: int| #[trigger] disorder_at(list, i);
        assert(!(list[i].0.0 < list[i + 1].0.0));
    }
    assert forall|i: int| #[trigger] is_first_disorder(list, i) implies 0 <= i < list.len() - 1
        && list[i + 1].0.0 <= list[i].0.0 && forall|j: int, k: int|
        0 <= j < k <= i ==> (#[trigger] list[j]).0.0 < (#[trigger] list[k]).0.0 by {
        lemma_prefix_ascends(list, i);
    }
}

proof fn lemma_prefix_ascends(list: Seq<(Px, Qty)>, last: int)
    requires
        last < list.len(),
        forall|i: int| 0 <= i < last ==> !#[trigger] disorder_at(list, i),
    ensures
        forall|j: int, k: int|
            0 <= j < k <= last ==> (#[trigger] list[j]).0.0 < (#[trigger] list[k]).0.0,
    decreases last,
{
    if last > 0 {
        lemma_prefix_ascends(list, last - 1);
        assert(!disorder_at(list, last - 1));
        assert(list[last - 1].0.0 < list[last].0.0);
    }
}

/// What is said of a pair out of order: the price that occurs twice, or the two prices
/// the wrong way round, under the market and the side they came for.
pub proof fn law_disorder_is_named(
    market: Seq<char>,
    side: Seq<char>,
    list: Seq<(Px, Qty)>,
    i: int,
)
    requires
        0 <= i < list.len() - 1,
    ensures
        list[i].0.0 == list[i + 1].0.0 ==> disorder_failure(market, side, list, i) == (
        BookFailure::DuplicateLevel { market, side, price: seq!['$'] + px::price_text(list[i].0) }),
        list[i].0.0 > list[i + 1].0.0 ==> disorder_failure(market, side, list, i) == (
        BookFailure::UnsortedSnapshot {
            market,
            side,
            previous: seq!['$'] + px::price_text(list[i].0),
            current: seq!['$'] + px::price_text(list[i + 1].0),
        }),
{
}

/// A snapshot continues the stream exactly where its number is beyond the last one.
pub proof fn law_continuity_is_by_the_numbers(last_seq: Option<u64>, seq: u64)
    ensures
        last_seq is None <==> continuity_of(last_seq, seq) is Initial,
        last_seq matches Some(last) ==> {
            &&& seq > last ==> continuity_of(last_seq, seq) == (
            SnapshotContinuity::ContinuesStream { previous: last, snapshot: seq })
            &&& seq <= last ==> continuity_of(last_seq, seq) == (
            SnapshotContinuity::RestartsStream { previous: last, snapshot: seq })
        },
{
}

/// A YES delta changes the size at its own price by exactly itself, and no other bid.
/// A level left without size is gone. Where size is left, the asks at or below its
/// price go; no other ask is touched. A size below zero or too large to hold changes
/// no level, and the book becomes unreadable.
pub proof fn law_a_yes_delta_changes_its_own_level(
    book: BookState,
    last: u64,
    yes_priced: bool,
    price: Px,
    delta: Qty,
)
    requires
        book.valid,
        book.last_seq == Some(last),
        last < u64::MAX,
    ensures
        ({
            let seq = (last + 1) as u64;
            let next = after_received(book, yes_priced, seq, Side::Yes, price, delta);
            let size = (if book.bids.contains_key(price.0) {
                book.bids[price.0].0 as int
            } else {
                0
            }) + delta.0;
            &&& 0 <= size <= i64::MAX <==> next.valid
            &&& !next.valid ==> next.bids == book.bids && next.asks == book.asks && next.desyncs
                == book.desyncs + 1
            &&& next.valid ==> {
                &&& next.desyncs == book.desyncs
                &&& next.bids.contains_key(price.0) <==> size > 0
                &&& size > 0 ==> next.bids[price.0].0 == size
                &&& forall|k: i64|
                    k != price.0 ==> (#[trigger] next.bids.contains_key(k)
                        <==> book.bids.contains_key(k))
                &&& forall|k: i64|
                    k != price.0 && #[trigger] next.bids.contains_key(k) ==> next.bids[k]
                        == book.bids[k]
                &&& forall|k: i64| #[trigger]
                    next.asks.contains_key(k) <==> book.asks.contains_key(k) && (size == 0 || k
                        > price.0)
                &&& forall|k: i64| #[trigger]
                    next.asks.contains_key(k) ==> next.asks[k] == book.asks[k]
            }
            &&& next.last_seq == Some(seq) && next.sid == book.sid && next.market == book.market
                && next.grid == book.grid
        }),
{
}

/// A NO delta changes the ask at its own price, which under NO-leg pricing is the
/// complement to one dollar, by exactly itself, and no other ask. Where size is left,
/// the bids at or above that price go; no other bid is touched. Prices whose complement
/// cannot be held are left out.
pub proof fn law_a_no_delta_changes_its_own_level(
    book: BookState,
    last: u64,
    yes_priced: bool,
    price: Px,
    delta: Qty,
)
    requires
        book.valid,
        book.last_seq == Some(last),
        last < u64::MAX,
        yes_priced || 1_000_000 - price.0 <= i64::MAX,
    ensures
        ({
            let seq = (last + 1) as u64;
            let next = after_received(book, yes_priced, seq, Side::No, price, delta);
            let at = (if yes_priced {
                price.0 as int
            } else {
                1_000_000 - price.0
            }) as i64;
            let size = (if book.asks.contains_key(at) {
                book.asks[at].0 as int
            } else {
                0
            }) + delta.0;
            &&& 0 <= size <= i64::MAX <==> next.valid
            &&& !next.valid ==> next.bids == book.bids && next.asks == book.asks && next.desyncs
                == book.desyncs + 1
            &&& next.valid ==> {
                &&& next.desyncs == book.desyncs
                &&& next.asks.contains_key(at) <==> size > 0
                &&& size > 0 ==> next.asks[at].0 == size
                &&& forall|k: i64|
                    k != at ==> (#[trigger] next.asks.contains_key(k)
                        <==> book.asks.contains_key(k))
                &&& forall|k: i64|
                    k != at && #[trigger] next.asks.contains_key(k) ==> next.asks[k]
                        == book.asks[k]
                &&& forall|k: i64| #[trigger]
                    next.bids.contains_key(k) <==> book.bids.contains_key(k) && (size == 0 || k
                        < at)
                &&& forall|k: i64| #[trigger]
                    next.bids.contains_key(k) ==> next.bids[k] == book.bids[k]
            }
            &&& next.last_seq == Some(seq) && next.sid == book.sid && next.market == book.market
                && next.grid == book.grid
        }),
{
}

/// A price is off the grid exactly where there are bands and it is a whole number of
/// steps above the start of none that reaches it; each such price is counted, and only
/// such prices are.
pub proof fn law_off_grid_prices_are_counted(
    grid: Option<Seq<PriceRange>>,
    list: Seq<(Px, Qty)>,
    level: (Px, Qty),
)
    ensures
        is_off_grid(grid, level.0) <==> grid is Some && grid->0.len() > 0 && forall|i: int|
            0 <= i < grid->0.len() ==> {
                let band = #[trigger] grid->0[i];
                level.0.0 < band.start.0 || level.0.0 > band.end.0 || (level.0.0 - band.start.0) % (
                band.step.0 as int) != 0
            },
        off_grid_count(grid, list.push(level)) == off_grid_count(grid, list) + (if is_off_grid(
            grid,
            level.0,
        ) {
            1int
        } else {
            0
        }),
        off_grid_count(grid, Seq::empty()) == 0,
{
    assert(list.push(level).drop_last() =~= list);
    if let Some(bands) = grid {
        if !is_off_grid(grid, level.0) && bands.len() > 0 {
            let i = choose|i: int|
                0 <= i < bands.len() && (#[trigger] bands[i]).has_tick(level.0.0 as int);
            let band = grid->0[i];
            assert(band.has_tick(level.0.0 as int));
        }
        if is_off_grid(grid, level.0) {
            assert forall|i: int| 0 <= i < bands.len() implies {
                let band = #[trigger] bands[i];
                level.0.0 < band.start.0 || level.0.0 > band.end.0 || (level.0.0 - band.start.0) % (
                band.step.0 as int) != 0
            } by {
                assert(!bands[i].has_tick(level.0.0 as int));
            }
        }
    }
}

/// A snapshot and a delta add what they saw off the grid, at the prices as sent.
pub proof fn law_what_is_off_the_grid_is_added(
    book: BookState,
    last: u64,
    yes_priced: bool,
    sid: u64,
    seq: u64,
    yes: Seq<(Px, Qty)>,
    no: Seq<(Px, Qty)>,
    side: Side,
    price: Px,
    delta: Qty,
)
    requires
        book.valid,
        book.last_seq == Some(last),
        last < u64::MAX,
    ensures
        after_snapshot(book, yes_priced, sid, seq, yes, no).off_grid == book.off_grid
            + off_grid_count(book.grid, yes) + off_grid_count(book.grid, no),
        after_received(book, yes_priced, (last + 1) as u64, side, price, delta).off_grid
            == book.off_grid + (if is_off_grid(book.grid, price) {
            1int
        } else {
            0
        }),
{
}

/// The best bid is a level that no bid exceeds, the best ask one that no ask undercuts,
/// each with the size that rests there; nothing is best only where nothing rests.
pub proof fn law_the_best_levels_are_best(
    side_levels: Map<i64, Qty>,
    bid: Option<(Px, Qty)>,
    ask: Option<(Px, Qty)>,
)
    requires
        is_best_bid(side_levels, bid),
        is_best_ask(side_levels, ask),
    ensures
        bid matches Some((price, size)) ==> side_levels.contains_key(price.0)
            && side_levels[price.0] == size && forall|k: i64| #[trigger]
            side_levels.contains_key(k) ==> k <= price.0,
        ask matches Some((price, size)) ==> side_levels.contains_key(price.0)
            && side_levels[price.0] == size && forall|k: i64| #[trigger]
            side_levels.contains_key(k) ==> k >= price.0,
        bid is None <==> ask is None,
        bid is None ==> forall|k: i64| !#[trigger] side_levels.contains_key(k),
{
}

/// The book's readings agree: the best levels are the ends of the listed levels, the
/// spread is the best ask less the best bid, and the midpoint is half their sum rounded
/// down.
pub proof fn law_readings_of_a_book_agree(
    view: BookView<'_>,
    bids: Vec<(Px, Qty)>,
    asks: Vec<(Px, Qty)>,
    best_bid: Option<(Px, Qty)>,
    best_ask: Option<(Px, Qty)>,
    spread: Option<Px>,
    mid: Option<Px>,
)
    requires
        call_ensures(BookView::bid_levels, (&view,), bids),
        call_ensures(BookView::ask_levels, (&view,), asks),
        call_ensures(BookView::best_bid, (&view,), best_bid),
        call_ensures(BookView::best_ask, (&view,), best_ask),
        call_ensures(BookView::spread, (&view,), spread),
        call_ensures(BookView::mid, (&view,), mid),
    ensures
        bids@.len() == 0 <==> best_bid is None,
        asks@.len() == 0 <==> best_ask is None,
        bids@.len() > 0 ==> best_bid == Some(bids@.last()),
        asks@.len() > 0 ==> best_ask == Some(asks@[0]),
        forall|i: int, j: int|
            0 <= i < j < bids@.len() ==> (#[trigger] bids@[i]).0.0 < (#[trigger] bids@[j]).0.0,
        forall|i: int, j: int|
            0 <= i < j < asks@.len() ==> (#[trigger] asks@[i]).0.0 < (#[trigger] asks@[j]).0.0,
        best_bid is Some && best_ask is Some ==> {
            let b = (best_bid->0).0.0;
            let a = (best_ask->0).0.0;
            &&& spread is Some <==> i64::MIN <= a - b <= i64::MAX
            &&& spread matches Some(gap) ==> gap.0 == a - b
            &&& mid matches Some(middle) && 2 * middle.0 <= a + b < 2 * middle.0 + 2
        },
        best_bid is None || best_ask is None ==> spread is None && mid is None,
{
    let bid_map = view.bids_map();
    let ask_map = view.asks_map();
    if bids@.len() > 0 {
        let n = bids@.len() - 1;
        assert(bid_map.contains_key(bids@[n].0.0));
        let best = best_bid->0;
        assert(bid_map.contains_key(best.0.0));
        let m = choose|m: int| 0 <= m < bids@.len() && (#[trigger] bids@[m]).0.0 == best.0.0;
        if m < n {
            assert(bids@[m].0.0 < bids@[n].0.0);
        }
    } else if best_bid is Some {
        assert(bid_map.contains_key((best_bid->0).0.0));
    }
    if asks@.len() > 0 {
        assert(ask_map.contains_key(asks@[0].0.0));
        let best = best_ask->0;
        assert(ask_map.contains_key(best.0.0));
        let m = choose|m: int| 0 <= m < asks@.len() && (#[trigger] asks@[m]).0.0 == best.0.0;
        if m > 0 {
            assert(asks@[0].0.0 < asks@[m].0.0);
        }
    } else if best_ask is Some {
        assert(ask_map.contains_key((best_ask->0).0.0));
    }
    if best_bid is Some && best_ask is Some {
        let b = (best_bid->0).0.0;
        let a = (best_ask->0).0.0;
        assert(bid_map.contains_key(b) && ask_map.contains_key(a));
        assert(levels::is_highest(bid_map, b) && levels::is_lowest(ask_map, a));
    }
}

/// The NO bids are the asks, in their order and with their sizes, each at what is left
/// of one dollar.
pub proof fn law_no_bids_are_the_asks_complemented(asks: Seq<(Px, Qty)>, i: int)
    requires
        0 <= i < asks.len(),
        i64::MIN <= 1_000_000 - asks[i].0.0 <= i64::MAX,
    ensures
        complemented(asks).len() == asks.len(),
        complemented(asks)[i].0.0 + asks[i].0.0 == 1_000_000,
        complemented(asks)[i].1 == asks[i].1,
{
}

/// A book passes exactly where every level has a positive size, every bid is below
/// every ask, and a readable book knows its subscription and its sequence number; and
/// what is reported of one that does not pass is something that is wrong with it.
pub proof fn law_checks_report_what_is_wrong(book: BookState, violation: Violation)
    ensures
        has_sound_levels(book) && is_anchored(book) <==> {
            &&& forall|k: i64| #[trigger] book.bids.contains_key(k) ==> book.bids[k].0 > 0
            &&& forall|k: i64| #[trigger] book.asks.contains_key(k) ==> book.asks[k].0 > 0
            &&& forall|b: i64, a: i64| #[trigger]
                book.bids.contains_key(b) && #[trigger] book.asks.contains_key(a) ==> b < a
            &&& book.valid ==> book.sid is Some && book.last_seq is Some
        },
        violation_is(book, violation) ==> !(has_sound_levels(book) && is_anchored(book)),
        violation_is(book, violation) && violation is ValidWithoutSid ==> book.valid
            && book.sid is None,
        violation_is(book, violation) && violation is ValidWithoutSeq ==> book.valid
            && book.last_seq is None,
        violation_is(book, violation) && violation is Crossed ==> exists|b: i64, a: i64| #[trigger]
            book.bids.contains_key(b) && #[trigger] book.asks.contains_key(a) && b >= a
                && violation == (Violation::Crossed {
                bid: seq!['$'] + px::price_text(Px(b)),
                ask: seq!['$'] + px::price_text(Px(a)),
            }),
        violation_is(book, violation) && violation is NegativeQuantity ==> exists|k: i64|
            {
                ||| #[trigger] book.bids.contains_key(k) && book.bids[k].0 < 0 && violation == (
                Violation::NegativeQuantity {
                    side: "bid"@,
                    price: seq!['$'] + px::price_text(Px(k)),
                    qty: qty::quantity_text(book.bids[k]),
                })
                ||| book.asks.contains_key(k) && book.asks[k].0 < 0 && violation == (
                Violation::NegativeQuantity {
                    side: "ask"@,
                    price: seq!['$'] + px::price_text(Px(k)),
                    qty: qty::quantity_text(book.asks[k]),
                })
            },
        violation_is(book, violation) && violation is ZeroQuantityLevel ==> exists|k: i64|
            {
                ||| #[trigger] book.bids.contains_key(k) && book.bids[k].0 == 0 && violation == (
                Violation::ZeroQuantityLevel {
                    side: "bid"@,
                    price: seq!['$'] + px::price_text(Px(k)),
                })
                ||| book.asks.contains_key(k) && book.asks[k].0 == 0 && violation == (
                Violation::ZeroQuantityLevel {
                    side: "ask"@,
                    price: seq!['$'] + px::price_text(Px(k)),
                })
            },
{
    if has_sound_levels(book) {
        assert forall|k: i64| #[trigger] book.bids.contains_key(k) implies book.bids[k].0 > 0 by {
            assert(!is_bad_level(book.bids, k));
        }
        assert forall|k: i64| #[trigger] book.asks.contains_key(k) implies book.asks[k].0 > 0 by {
            assert(!is_bad_level(book.asks, k));
        }
    }
    if violation_is(book, violation) {
        if has_bad_level(book.bids) {
            let k = choose|k: i64| #[trigger]
                is_lowest_bad_level(book.bids, k) && violation == bad_level_violation(
                    "bid"@,
                    k,
                    book.bids[k],
                );
            assert(book.bids.contains_key(k));
        } else if has_bad_level(book.asks) {
            let k = choose|k: i64| #[trigger]
                is_lowest_bad_level(book.asks, k) && violation == bad_level_violation(
                    "ask"@,
                    k,
                    book.asks[k],
                );
            assert(book.asks.contains_key(k));
            let either = book.bids.contains_key(k);
        } else if violation is Crossed {
            let (b, a) = choose|b: i64, a: i64| #[trigger]
                levels::is_highest(book.bids, b) && #[trigger] levels::is_lowest(book.asks, a)
                    && violation == (Violation::Crossed { bid: shown(Px(b)), ask: shown(Px(a)) });
            let (c, d) = choose|c: i64, d: i64| #[trigger]
                book.bids.contains_key(c) && #[trigger] book.asks.contains_key(d) && c >= d;
            assert(book.bids.contains_key(b) && book.asks.contains_key(a));
        }
    }
}

/// A book of one convention takes NO prices as they come or at their complement, and
/// says so: what its label is, and what it asks the server for, go together.
pub proof fn law_a_convention_is_one_thing(price: Px)
    requires
        i64::MIN <= 1_000_000 - price.0 <= i64::MAX,
    ensures
        YesLeg::yes_priced() && !NoLeg::yes_priced(),
        YesLeg::label_text() == "yes_leg"@ && NoLeg::label_text() == "no_leg"@,
        canonical_price(true, Side::No, price) == price,
        canonical_price(false, Side::No, price).0 == 1_000_000 - price.0,
        canonical_price(true, Side::Yes, price) == price,
        canonical_price(false, Side::Yes, price) == price,
{
}

/// Each operation on a book does its own thing and nothing else: a grid is kept with the
/// book, an invalidated book keeps its levels but is not readable, and a desync is
/// counted once.
pub proof fn law_operations_on_a_book_do_one_thing<C: Convention>(
    grid: PriceRanges,
    side: Side,
    price: Px,
    delta: Qty,
    resting: Qty,
)
    ensures
        forall|book: &mut OrderBook<C>| #[trigger]
            call_ensures(OrderBook::<C>::set_grid, (book, grid), ()) ==> {
                &&& final(book)@.grid == Some(grid@)
                &&& final(book)@ == (BookState { grid: final(book)@.grid, ..book@ })
            },
        forall|book: &mut OrderBook<C>| #[trigger]
            call_ensures(OrderBook::<C>::invalidate, (book,), ()) ==> {
                &&& !final(book)@.valid
                &&& final(book)@ == (BookState { valid: false, ..book@ })
            },
        forall|book: &mut OrderBook<C>| #[trigger]
            call_ensures(
                OrderBook::<C>::invalidate_on_desync,
                (book, side, price, delta, resting),
                (),
            ) ==> {
                &&& !final(book)@.valid
                &&& final(book)@.desyncs - book@.desyncs == 1
                &&& final(book)@.bids == book@.bids && final(book)@.asks == book@.asks
                &&& final(book)@.last_seq == book@.last_seq && final(book)@.sid == book@.sid
                &&& final(book)@.off_grid == book@.off_grid
            },
        forall|book: &mut AnyBook| #[trigger]
            call_ensures(AnyBook::invalidate, (book,), ()) ==> {
                &&& !final(book)@.valid
                &&& final(book)@ == (BookState { valid: false, ..book@ })
            },
{
}

/// A message is classified against the book as it was, and the book then moves on by the
/// message under its own convention. A refused snapshot leaves the book as it was; an
/// accepted one makes it readable at its number.
pub proof fn law_messages_move_a_book_on<C: Convention>(
    sid: u64,
    seq: u64,
    yes_levels: &[(Px, Qty)],
    no_levels: &[(Px, Qty)],
    side: Side,
    price: Px,
    delta: Qty,
)
    ensures
        forall|book: &mut OrderBook<C>, out: DeltaOutcome| #[trigger]
            call_ensures(OrderBook::<C>::receive_delta, (book, seq, side, price, delta), out) ==> {
                &&& out is DiscardedInvalid <==> !book@.valid
                &&& book@.valid && book@.last_seq is Some ==> (out is Applied <==> seq
                    == book@.last_seq->0 + 1)
                &&& !(out is Applied) ==> final(book)@.bids == book@.bids && final(book)@.asks
                    == book@.asks && final(book)@.off_grid == book@.off_grid
                &&& out is Applied ==> final(book)@.last_seq == Some(seq)
                &&& out is Gapped ==> !final(book)@.valid
                &&& final(book)@ == after_received(
                    book@,
                    C::yes_priced(),
                    seq,
                    side,
                    price,
                    delta,
                )
            },
        forall|book: &mut OrderBook<C>, out: Result<SnapshotContinuity, BookError>| #[trigger]
            call_ensures(
                OrderBook::<C>::apply_snapshot,
                (book, sid, seq, yes_levels, no_levels),
                out,
            ) ==> {
                &&& out is Ok <==> ascends(yes_levels@) && ascends(no_levels@)
                &&& out is Err ==> final(book)@ == book@
                &&& out is Ok ==> {
                    &&& final(book)@.valid && final(book)@.sid == Some(sid)
                        && final(book)@.last_seq == Some(seq)
                    &&& final(book)@.market == book@.market && final(book)@.grid == book@.grid
                        && final(book)@.desyncs == book@.desyncs
                    &&& final(book)@ == after_snapshot(
                        book@,
                        C::yes_priced(),
                        sid,
                        seq,
                        yes_levels@,
                        no_levels@,
                    )
                }
            },
{
    assert forall|book: &mut OrderBook<C>, out: Result<SnapshotContinuity, BookError>| #[trigger]
        call_ensures(
            OrderBook::<C>::apply_snapshot,
            (book, sid, seq, yes_levels, no_levels),
            out,
        ) implies (out is Ok <==> ascends(yes_levels@) && ascends(no_levels@)) by {
        if let Err(error) = out {
            if ascends(yes_levels@) {
                let i = choose|i: int| #[trigger]
                    is_first_disorder(no_levels@, i) && error@ == disorder_failure(
                        book@.market,
                        "no"@,
                        no_levels@,
                        i,
                    );
                law_only_ascending_levels_are_accepted(no_levels@);
                assert(is_first_disorder(no_levels@, i));
            }
        }
    }
}

/// What is read of a book is what it holds; its levels are shown only while it is
/// readable; and a book is narrowed to its own convention alone.
pub proof fn law_a_book_is_read_as_it_is<C: Convention>(
    book: OrderBook<C>,
    any: AnyBook,
    market: &Ticker,
    last_seq: Option<u64>,
    off_grid: u64,
    desyncs: u64,
    levels: Option<BookView<'_>>,
    no_leg: Option<&OrderBook<NoLeg>>,
    yes_leg: Option<&OrderBook<YesLeg>>,
    label: &'static str,
    continuity: SnapshotContinuity,
    restarted: bool,
)
    requires
        call_ensures(OrderBook::<C>::market, (&book,), market),
        call_ensures(OrderBook::<C>::last_seq, (&book,), last_seq),
        call_ensures(OrderBook::<C>::off_grid_observations, (&book,), off_grid),
        call_ensures(OrderBook::<C>::desync_invalidations, (&book,), desyncs),
        call_ensures(OrderBook::<C>::levels, (&book,), levels),
        call_ensures(AnyBook::as_no_leg, (&any,), no_leg),
        call_ensures(AnyBook::as_yes_leg, (&any,), yes_leg),
        call_ensures(AnyBook::convention_label, (&any,), label),
        call_ensures(SnapshotContinuity::restarted, (continuity,), restarted),
    ensures
        market@ == book@.market && last_seq == book@.last_seq,
        off_grid == book@.off_grid && desyncs == book@.desyncs,
        levels is Some <==> book@.valid,
        levels matches Some(view) ==> view.bids_map() == book@.bids && view.asks_map()
            == book@.asks,
        no_leg is Some <==> any is NoLeg,
        yes_leg is Some <==> any is YesLeg,
        label@ == "no_leg"@ <==> no_leg is Some,
        label@ == "yes_leg"@ <==> yes_leg is Some,
        restarted <==> continuity is RestartsStream,
{
    reveal_strlit("no_leg");
    reveal_strlit("yes_leg");
    assert("no_leg"@.len() != "yes_leg"@.len());
}

/// The depth of a side is the number of levels listed on it.
pub proof fn law_depth_is_the_number_of_levels(
    view: BookView<'_>,
    bids: Vec<(Px, Qty)>,
    asks: Vec<(Px, Qty)>,
    bid_depth: usize,
    ask_depth: usize,
)
    requires
        call_ensures(BookView::bid_levels, (&view,), bids),
        call_ensures(BookView::ask_levels, (&view,), asks),
        call_ensures(BookView::bid_depth, (&view,), bid_depth),
        call_ensures(BookView::ask_depth, (&view,), ask_depth),
    ensures
        bid_depth == view.bids_map().len(),
        ask_depth == view.asks_map().len(),
{
}

/// The checks and the NO side of a book are those of what it holds: no NO bids are given
/// while it is not readable, and a sound book passes.
pub proof fn law_a_book_is_checked_as_it_is<C: Convention>(
    book: OrderBook<C>,
    checked: Result<(), InvariantViolation>,
    no_bids: Option<Vec<(Px, Qty)>>,
    side: Side,
    price: Px,
    at: Px,
)
    requires
        call_ensures(OrderBook::<C>::check_invariants, (&book,), checked),
        call_ensures(OrderBook::<C>::no_bids, (&book,), no_bids),
        call_ensures(yes_ask_price_for::<C>, (side, price), at),
    ensures
        checked is Ok <==> has_sound_levels(book@) && is_anchored(book@),
        no_bids is Some <==> book@.valid,
        side is Yes || C::yes_priced() ==> at == price,
        side is No && !C::yes_priced() && 1_000_000 - price.0 <= i64::MAX ==> at.0 + price.0
            == 1_000_000,
{
    if let Err(violation) = checked {
        law_checks_report_what_is_wrong(book@, violation@);
    }
}

/// Of several levels that should not be there, the lowest is reported, and bids before
/// asks.
pub proof fn law_the_lowest_bad_level_is_reported(book: BookState, violation: Violation, k: i64)
    requires
        violation_is(book, violation),
    ensures
        book.bids.contains_key(k) && book.bids[k].0 <= 0 ==> exists|first: i64|
            {
                &&& #[trigger] book.bids.contains_key(first)
                &&& first <= k && book.bids[first].0 <= 0
                &&& book.bids[first].0 < 0 ==> violation == (Violation::NegativeQuantity {
                    side: "bid"@,
                    price: seq!['$'] + px::price_text(Px(first)),
                    qty: qty::quantity_text(book.bids[first]),
                })
                &&& book.bids[first].0 == 0 ==> violation == (Violation::ZeroQuantityLevel {
                    side: "bid"@,
                    price: seq!['$'] + px::price_text(Px(first)),
                })
            },
        (forall|b: i64| #[trigger] book.bids.contains_key(b) ==> book.bids[b].0 > 0)
            && book.asks.contains_key(k) && book.asks[k].0 <= 0 ==> exists|first: i64|
            {
                &&& #[trigger] book.asks.contains_key(first)
                &&& first <= k && book.asks[first].0 <= 0
                &&& book.asks[first].0 < 0 ==> violation == (Violation::NegativeQuantity {
                    side: "ask"@,
                    price: seq!['$'] + px::price_text(Px(first)),
                    qty: qty::quantity_text(book.asks[first]),
                })
                &&& book.asks[first].0 == 0 ==> violation == (Violation::ZeroQuantityLevel {
                    side: "ask"@,
                    price: seq!['$'] + px::price_text(Px(first)),
                })
            },
{
    if book.bids.contains_key(k) && book.bids[k].0 <= 0 {
        assert(is_bad_level(book.bids, k));
        let first = choose|first: i64| #[trigger]
            is_lowest_bad_level(book.bids, first) && violation == bad_level_violation(
                "bid"@,
                first,
                book.bids[first],
            );
        assert(is_lowest_bad_level(book.bids, first));
        assert(book.bids.contains_key(first));
    } else if (forall|b: i64| #[trigger] book.bids.contains_key(b) ==> book.bids[b].0 > 0)
        && book.asks.contains_key(k) && book.asks[k].0 <= 0 {
        assert(!has_bad_level(book.bids));
        assert(is_bad_level(book.asks, k));
        let first = choose|first: i64| #[trigger]
            is_lowest_bad_level(book.asks, first) && violation == bad_level_violation(
                "ask"@,
                first,
                book.asks[first],
            );
        assert(is_lowest_bad_level(book.asks, first));
        assert(book.asks.contains_key(first));
    }
}

} // verus!
