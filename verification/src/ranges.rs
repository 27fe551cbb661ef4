//! [`PriceRanges`]: the per-market tick grid.

use crate::px::{self, Px};
use vstd::prelude::*;

verus! {

#[derive(Debug, Clone, PartialEq, Eq, Structural)]
pub enum PriceRangeError {
    NonPositiveStep { index: usize, step: Px },
    Inverted { index: usize, start: Px, end: Px },
    Unsorted { index: usize, start: Px, previous: Px },
}

/// One `{start, end, step}` band of the tick grid. `end` is inclusive.
#[derive(Copy, Clone, PartialEq, Eq, Structural, Debug)]
pub struct PriceRange {
    pub start: Px,
    pub end: Px,
    pub step: Px,
}

/// The distance between two prices.
pub open spec fn distance(a: int, b: int) -> int {
    if a <= b {
        b - a
    } else {
        a - b
    }
}

impl PriceRange {
    /// Whether a price lies between the band's ends.
    pub open spec fn holds(self, price: int) -> bool {
        self.start.0 <= price <= self.end.0
    }

    /// Whether a price is one of the band's ticks.
    pub open spec fn has_tick(self, price: int) -> bool {
        self.holds(price) && (price - self.start.0) % (self.step.0 as int) == 0
    }

    /// Whether the band has ticks at all: a positive step, ends in order.
    pub open spec fn is_proper(self) -> bool {
        self.step.0 > 0 && self.start.0 <= self.end.0
    }

    /// A price moved to the nearer end of the band, if it lies outside.
    pub open spec fn clamped(self, price: int) -> int {
        if price < self.start.0 {
            self.start.0 as int
        } else if price > self.end.0 {
            self.end.0 as int
        } else {
            price
        }
    }

    /// `tick` is the nearest tick to the price clamped into the band; of two
    /// equally near ticks it is the higher.
    pub open spec fn is_nearest(self, price: int, tick: int) -> bool {
        &&& self.has_tick(tick)
        &&& forall|other: int| #[trigger]
            self.has_tick(other) ==> {
                let here = distance(tick, self.clamped(price));
                let there = distance(other, self.clamped(price));
                here < there || (here == there && other <= tick)
            }
    }

    pub fn contains(&self, price: Px) -> (out: bool)
        ensures
            out == self.holds(price.0 as int),
    {
        price.0 >= self.start.0 && price.0 <= self.end.0
    }

    /// Whether `price` sits exactly on this band's grid.
    pub fn is_on_grid(&self, price: Px) -> (out: bool)
        requires
            self.holds(price.0 as int) ==> self.step.0 != 0,
        ensures
            out == self.has_tick(price.0 as int),
    {
        if !self.contains(price) {
            return false;
        }
        let offset: i128 = price.0 as i128 - self.start.0 as i128;
        let step: i128 = self.step.0 as i128;
        let size: i128 = if step < 0 {
            -step
        } else {
            step
        };
        proof {
            assert(offset % size == 0 <==> offset % step == 0) by (nonlinear_arith)
                requires
                    step != 0,
                    offset >= 0,
                    size == (if step < 0 {
                        -step
                    } else {
                        step as int
                    }),
            ;
        }
        offset % size == 0
    }

    /// Nearest on-grid price within this band. Ties resolve upward.
    fn snap(&self, price: Px) -> (out: Option<Px>)
        ensures
            match out {
                Some(tick) => self.is_proper() && self.is_nearest(price.0 as int, tick.0 as int),
                None => !self.is_proper(),
            },
    {
        if self.step.0 <= 0 || self.start.0 > self.end.0 {
            return None;
        }
        let start: i128 = self.start.0 as i128;
        let end: i128 = self.end.0 as i128;
        let step: i128 = self.step.0 as i128;
        let mut target: i128 = price.0 as i128;
        if target < start {
            target = start;
        }
        if target > end {
            target = end;
        }
        let past: i128 = (target - start) % step;
        let lower: i128 = target - past;
        let upper: i128 = lower + step;
        let mut best: i128 = lower;
        if upper <= end {
            // Ties resolve upward.
            if upper - target <= target - lower {
                best = upper;
            }
        }
        proof {
            let q = (target - start) / (step as int);
            assert(target - start == step * q + past && 0 <= past < step && q >= 0) by (nonlinear_arith)
                requires
                    step > 0,
                    target >= start,
                    q == (target - start) / (step as int),
                    past == (target - start) % (step as int),
            ;
            lemma_multiple_is_tick(step as int, q);
            lemma_multiple_is_tick(step as int, q + 1);
            assert(step * (q + 1) == step * q + step) by (nonlinear_arith);
            assert(self.has_tick(lower as int));
            assert(upper <= end ==> self.has_tick(upper as int));
            assert forall|other: int| #[trigger] self.has_tick(other) implies {
                let here = distance(best as int, target as int);
                let there = distance(other, target as int);
                here < there || (here == there && other <= best)
            } by {
                lemma_ticks_are_apart(self.start.0 as int, step as int, q, other);
            }
        }
        Some(Px(best as i64))
    }
}

proof fn lemma_multiple_is_tick(step: int, q: int)
    requires
        step > 0,
    ensures
        (step * q) % step == 0,
{
    assert((step * q) % step == 0) by (nonlinear_arith)
        requires
            step > 0,
    ;
}

/// Between two neighbouring ticks there is none.
proof fn lemma_ticks_are_apart(start: int, step: int, q: int, other: int)
    requires
        step > 0,
        (other - start) % step == 0,
    ensures
        other <= start + step * q || other >= start + step * q + step,
{
    let k = (other - start) / step;
    assert(other - start == step * k) by (nonlinear_arith)
        requires
            step > 0,
            (other - start) % step == 0,
            k == (other - start) / step,
    ;
    assert(k <= q ==> step * k <= step * q) by (nonlinear_arith)
        requires
            step > 0,
    ;
    assert(k >= q + 1 ==> step * k >= step * q + step) by (nonlinear_arith)
        requires
            step > 0,
    ;
}

/// The outcome of snapping a price onto a market's tick grid.
#[derive(Copy, Clone, PartialEq, Eq, Structural, Debug)]
pub enum GridSnap {
    /// The price was already exactly on the grid.
    Exact(Px),
    /// The price fell inside a band but between two ticks.
    Snapped(Px),
    /// The price fell outside every band. A signal, not a routine correction.
    Clamped(Px),
}

impl GridSnap {
    pub open spec fn tick(self) -> Px {
        match self {
            GridSnap::Exact(p) => p,
            GridSnap::Snapped(p) => p,
            GridSnap::Clamped(p) => p,
        }
    }

    /// The resulting price, whatever the provenance.
    pub fn price(self) -> (out: Px)
        ensures
            out == self.tick(),
    {
        match self {
            GridSnap::Exact(p) => p,
            GridSnap::Snapped(p) => p,
            GridSnap::Clamped(p) => p,
        }
    }

    /// True when the price came from outside the published grid.
    pub fn is_clamped(self) -> (out: bool)
        ensures
            out == (self is Clamped),
    {
        match self {
            GridSnap::Clamped(_) => true,
            _ => false,
        }
    }

    /// True when the returned price differs from the input.
    pub fn was_modified(self) -> (out: bool)
        ensures
            out == !(self is Exact),
    {
        match self {
            GridSnap::Exact(_) => false,
            _ => true,
        }
    }
}

/// A market's complete tick grid: the authoritative set of valid prices.
///
/// An empty grid is represented faithfully: every price is then invalid, and
/// nothing is snapped. No grid is ever invented.
#[derive(Clone, PartialEq, Eq, Debug)]
pub struct PriceRanges {
    pub bands: Vec<PriceRange>,
}

impl View for PriceRanges {
    type V = Seq<PriceRange>;

    open spec fn view(&self) -> Seq<PriceRange> {
        self.bands@
    }
}

impl Default for PriceRanges {
    fn default() -> (out: PriceRanges)
        ensures
            out@ == Seq::<PriceRange>::empty(),
    {
        PriceRanges { bands: Vec::new() }
    }
}

/// What is wrong with the band at `i`, judged by itself and its predecessor.
pub open spec fn band_failure(bands: Seq<PriceRange>, i: int) -> Option<PriceRangeError> {
    let band = bands[i];
    if band.step.0 <= 0 {
        Some(PriceRangeError::NonPositiveStep { index: i as usize, step: band.step })
    } else if band.start.0 > band.end.0 {
        Some(PriceRangeError::Inverted { index: i as usize, start: band.start, end: band.end })
    } else if i > 0 && band.start.0 < bands[i - 1].start.0 {
        Some(
            PriceRangeError::Unsorted {
                index: i as usize,
                start: band.start,
                previous: bands[i - 1].start,
            },
        )
    } else {
        None
    }
}

/// Whether every band is sound: the grids that [`PriceRanges::new`] accepts.
pub open spec fn is_sound_grid(bands: Seq<PriceRange>) -> bool {
    forall|i: int| 0 <= i < bands.len() ==> #[trigger] band_failure(bands, i) is None
}

/// Whether a price is a tick of some band.
pub open spec fn on_grid(bands: Seq<PriceRange>, price: int) -> bool {
    exists|i: int| 0 <= i < bands.len() && (#[trigger] bands[i]).has_tick(price)
}

/// Whether a price lies between the ends of some band.
pub open spec fn within_a_band(bands: Seq<PriceRange>, price: int) -> bool {
    exists|i: int| 0 <= i < bands.len() && (#[trigger] bands[i]).holds(price)
}

/// Whether a price is the nearest tick of some band that has ticks.
pub open spec fn is_candidate(bands: Seq<PriceRange>, price: int, tick: int) -> bool {
    exists|i: int|
        0 <= i < bands.len() && (#[trigger] bands[i]).is_proper() && bands[i].is_nearest(
            price,
            tick,
        )
}

/// Whether no band of a grid has ticks.
pub open spec fn has_no_ticks(bands: Seq<PriceRange>) -> bool {
    forall|i: int| 0 <= i < bands.len() ==> !(#[trigger] bands[i]).is_proper()
}

/// `a` is no worse an answer than `b`: nearer, or as near and not lower.
pub open spec fn at_least_as_good(price: int, a: int, b: int) -> bool {
    distance(a, price) < distance(b, price) || (distance(a, price) == distance(b, price) && a >= b)
}

impl PriceRanges {
    /// Build a grid, validating that every step is positive, every band is
    /// non-inverted, and the bands are sorted ascending by `start`.
    ///
    /// Overlapping bands are permitted: a price valid under either is valid.
    pub fn new(bands: Vec<PriceRange>) -> (result: Result<PriceRanges, PriceRangeError>)
        ensures
            match result {
                Ok(grid) => is_sound_grid(bands@) && grid@ == bands@,
                Err(error) => exists|i: int|
                    0 <= i < bands@.len() && #[trigger] band_failure(bands@, i) == Some(error) && (
                    forall|j: int| 0 <= j < i ==> #[trigger] band_failure(bands@, j) is None),
            },
    {
        let mut index: usize = 0;
        while index < bands.len()
            invariant
                index <= bands@.len(),
                forall|j: int| 0 <= j < index ==> #[trigger] band_failure(bands@, j) is None,
            decreases bands@.len() - index,
        {
            let band = bands[index];
            let ghost here = band_failure(bands@, index as int);
            if band.step.0 <= 0 {
                assert(here is Some);
                return Err(PriceRangeError::NonPositiveStep { index, step: band.step });
            }
            if band.start.0 > band.end.0 {
                assert(here is Some);
                return Err(
                    PriceRangeError::Inverted { index, start: band.start, end: band.end },
                );
            }
            if index > 0 {
                let previous = bands[index - 1].start;
                if band.start.0 < previous.0 {
                    assert(here is Some);
                    return Err(
                        PriceRangeError::Unsorted { index, start: band.start, previous },
                    );
                }
            }
            index += 1;
        }
        Ok(PriceRanges { bands })
    }

    pub fn bands(&self) -> (out: &[PriceRange])
        ensures
            out@ == self@,
    {
        self.bands.as_slice()
    }

    pub fn is_empty(&self) -> (out: bool)
        ensures
            out == (self@.len() == 0),
    {
        self.bands.len() == 0
    }

    /// Whether `price` is an on-grid, in-range price.
    pub fn is_valid(&self, price: Px) -> (out: bool)
        requires
            forall|i: int|
                0 <= i < self@.len() && (#[trigger] self@[i]).holds(price.0 as int)
                    ==> self@[i].step.0 != 0,
        ensures
            out == on_grid(self@, price.0 as int),
    {
        let mut i: usize = 0;
        while i < self.bands.len()
            invariant
                i <= self.bands@.len(),
                forall|k: int|
                    0 <= k < self@.len() && (#[trigger] self@[k]).holds(price.0 as int)
                        ==> self@[k].step.0 != 0,
                forall|k: int| 0 <= k < i ==> !(#[trigger] self@[k]).has_tick(price.0 as int),
            decreases self.bands@.len() - i,
        {
            assert(self@[i as int] == self.bands@[i as int]);
            if self.bands[i].is_on_grid(price) {
                return true;
            }
            i += 1;
        }
        false
    }

    /// Whether `price` lies between the ends of some band.
    fn contains(&self, price: Px) -> (out: bool)
        ensures
            out == within_a_band(self@, price.0 as int),
    {
        let mut i: usize = 0;
        while i < self.bands.len()
            invariant
                i <= self.bands@.len(),
                forall|k: int| 0 <= k < i ==> !(#[trigger] self@[k]).holds(price.0 as int),
            decreases self.bands@.len() - i,
        {
            assert(self@[i as int] == self.bands@[i as int]);
            if self.bands[i].contains(price) {
                return true;
            }
            i += 1;
        }
        false
    }

    /// The nearest valid price to `price`, or `None` if the grid has no tick.
    ///
    /// Across bands the candidate closest to `price` wins; equidistant
    /// candidates resolve to the higher price.
    pub fn snap_to_grid(&self, price: Px) -> (out: Option<GridSnap>)
        ensures
            out is None <==> has_no_ticks(self@),
            match out {
                None => forall|i: int|
                    0 <= i < self@.len() ==> !(#[trigger] self@[i]).is_proper(),
                Some(snap) => {
                    let tick = snap.tick().0 as int;
                    &&& is_candidate(self@, price.0 as int, tick)
                    &&& forall|other: int| #[trigger]
                        is_candidate(self@, price.0 as int, other) ==> at_least_as_good(
                            price.0 as int,
                            tick,
                            other,
                        )
                    &&& (snap is Exact <==> tick == price.0)
                    &&& (snap is Snapped <==> tick != price.0 && within_a_band(
                        self@,
                        price.0 as int,
                    ))
                },
            },
    {
        let within = self.contains(price);
        let ghost p = price.0 as int;
        let mut best: Option<Px> = None;
        let mut i: usize = 0;
        while i < self.bands.len()
            invariant
                i <= self.bands@.len(),
                p == price.0,
                match best {
                    None => forall|k: int| 0 <= k < i ==> !(#[trigger] self@[k]).is_proper(),
                    Some(current) => {
                        &&& is_candidate(self@.take(i as int), p, current.0 as int)
                        &&& forall|other: int| #[trigger]
                            is_candidate(self@.take(i as int), p, other) ==> at_least_as_good(
                                p,
                                current.0 as int,
                                other,
                            )
                    },
                },
            decreases self.bands@.len() - i,
        {
            let ghost before = self@.take(i as int);
            let ghost after = self@.take(i + 1);
            let ghost band = self@[i as int];
            assert(band == self.bands@[i as int]);
            assert(after[i as int] == band);
            assert(before =~= after.drop_last());
            match self.bands[i].snap(price) {
                None => {
                    proof {
                        lemma_candidates_grow(before, after, p);
                    }
                },
                Some(candidate) => {
                    proof {
                        lemma_candidates_grow(before, after, p);
                        lemma_nearest_is_unique(band, p, candidate.0 as int);
                        assert(after[i as int].is_nearest(p, candidate.0 as int));
                        assert(is_candidate(after, p, candidate.0 as int));
                    }
                    best = Some(
                        match best {
                            None => candidate,
                            Some(current) => {
                                let d_candidate: i128 = gap(candidate, price);
                                let d_current: i128 = gap(current, price);
                                if d_candidate < d_current || (d_candidate == d_current
                                    && candidate.0 > current.0) {
                                    candidate
                                } else {
                                    current
                                }
                            },
                        },
                    );
                    proof {
                        assert forall|other: int| #[trigger]
                            is_candidate(after, p, other) implies at_least_as_good(
                            p,
                            (best->0).0 as int,
                            other,
                        ) by {
                            if !is_candidate(before, p, other) {
                                assert(other == candidate.0);
                            }
                        }
                    }
                },
            }
            i += 1;
        }
        assert(self@.take(self@.len() as int) =~= self@);
        match best {
            None => None,
            Some(snapped) => if snapped.0 == price.0 {
                Some(GridSnap::Exact(snapped))
            } else if within {
                Some(GridSnap::Snapped(snapped))
            } else {
                Some(GridSnap::Clamped(snapped))
            },
        }
    }

    /// A copy of the grid.
    pub fn duplicate(&self) -> (out: PriceRanges)
        ensures
            out@ == self@,
    {
        let mut bands: Vec<PriceRange> = Vec::new();
        let mut i: usize = 0;
        while i < self.bands.len()
            invariant
                i <= self.bands@.len(),
                bands@ == self.bands@.take(i as int),
            decreases self.bands@.len() - i,
        {
            bands.push(self.bands[i]);
            assert(bands@ =~= self.bands@.take(i + 1));
            i += 1;
        }
        assert(self.bands@.take(self.bands@.len() as int) =~= self.bands@);
        PriceRanges { bands }
    }

    /// The grid as shown to people.
    pub fn to_display_string(&self) -> (out: String)
        ensures
            out@ == grid_text(self@),
    {
        let mut out = String::new();
        out.push('[');
        let mut i: usize = 0;
        while i < self.bands.len()
            invariant
                i <= self.bands@.len(),
                out@ == seq!['['] + bands_text(self@.take(i as int)),
            decreases self.bands@.len() - i,
        {
            let band = self.bands[i];
            let ghost start = out@;
            if i > 0 {
                out.append(", ");
            }
            out.append(band.start.to_display_string().as_str());
            out.append("..=");
            out.append(band.end.to_display_string().as_str());
            out.append(" step ");
            out.append(band.step.to_display_string().as_str());
            proof {
                let before = self@.take(i as int);
                let after = self@.take(i + 1);
                assert(after.drop_last() =~= before);
                assert(after.last() == band);
                assert(out@ =~= seq!['['] + bands_text(after));
            }
            i += 1;
        }
        out.push(']');
        assert(self@.take(self@.len() as int) =~= self@);
        assert(out@ =~= grid_text(self@));
        out
    }
}

/// The text of one band: `$a..=$b step $c`.
pub open spec fn band_text(band: PriceRange) -> Seq<char> {
    seq!['$'] + px::price_text(band.start) + "..="@ + (seq!['$'] + px::price_text(band.end))
        + " step "@ + (seq!['$'] + px::price_text(band.step))
}

/// The texts of the bands, separated by `, `.
pub open spec fn bands_text(bands: Seq<PriceRange>) -> Seq<char>
    decreases bands.len(),
{
    if bands.len() == 0 {
        Seq::empty()
    } else if bands.len() == 1 {
        band_text(bands.last())
    } else {
        bands_text(bands.drop_last()) + ", "@ + band_text(bands.last())
    }
}

pub open spec fn grid_text(bands: Seq<PriceRange>) -> Seq<char> {
    seq!['['] + bands_text(bands) + seq![']']
}

/// The distance between two prices.
fn gap(a: Px, b: Px) -> (out: i128)
    ensures
        out == distance(a.0 as int, b.0 as int),
{
    let d: i128 = a.0 as i128 - b.0 as i128;
    if d < 0 {
        -d
    } else {
        d
    }
}

/// A band has one nearest tick.
proof fn lemma_nearest_is_unique(band: PriceRange, price: int, tick: int)
    requires
        band.is_nearest(price, tick),
    ensures
        forall|other: int| #[trigger] band.is_nearest(price, other) ==> other == tick,
{
    assert forall|other: int| #[trigger] band.is_nearest(price, other) implies other == tick by {
        assert(band.has_tick(other));
        assert(band.has_tick(tick));
    }
}

/// One more band adds at most that band's own nearest tick.
proof fn lemma_candidates_grow(before: Seq<PriceRange>, after: Seq<PriceRange>, price: int)
    requires
        after.len() == before.len() + 1,
        before == after.drop_last(),
    ensures
        forall|tick: int| #[trigger]
            is_candidate(before, price, tick) ==> is_candidate(after, price, tick),
        forall|tick: int| #[trigger]
            is_candidate(after, price, tick) && !is_candidate(before, price, tick)
                ==> after.last().is_proper() && after.last().is_nearest(price, tick),
{
    assert forall|tick: int| #[trigger] is_candidate(before, price, tick) implies is_candidate(
        after,
        price,
        tick,
    ) by {
        let i = choose|i: int|
            0 <= i < before.len() && (#[trigger] before[i]).is_proper() && before[i].is_nearest(
                price,
                tick,
            );
        assert(after[i] == before[i]);
    }
    assert forall|tick: int| #[trigger]
        is_candidate(after, price, tick) && !is_candidate(before, price, tick) implies
        after.last().is_proper() && after.last().is_nearest(price, tick) by {
        let i = choose|i: int|
            0 <= i < after.len() && (#[trigger] after[i]).is_proper() && after[i].is_nearest(
                price,
                tick,
            );
        if i < before.len() {
            assert(before[i] == after[i]);
        }
    }
}

// ---------------------------------------------------------------------------
// Laws
// ---------------------------------------------------------------------------
/// On a sound grid a price that is valid snaps to itself, as exact; and
/// whatever a price snaps to is valid.
pub proof fn law_snapping_lands_on_the_grid(bands: Seq<PriceRange>, price: int, tick: int)
    requires
        is_sound_grid(bands),
        is_candidate(bands, price, tick),
        forall|other: int| #[trigger]
            is_candidate(bands, price, other) ==> at_least_as_good(price, tick, other),
    ensures
        on_grid(bands, tick),
        on_grid(bands, price) ==> tick == price,
{
    let i = choose|i: int|
        0 <= i < bands.len() && (#[trigger] bands[i]).is_proper() && bands[i].is_nearest(
            price,
            tick,
        );
    assert(bands[i].has_tick(tick));
    if on_grid(bands, price) {
        let j = choose|j: int| 0 <= j < bands.len() && (#[trigger] bands[j]).has_tick(price);
        assert(band_failure(bands, j) is None);
        assert(bands[j].is_nearest(price, price));
        assert(is_candidate(bands, price, price));
    }
}

/// No grid, no valid price, and nothing to snap to.
pub proof fn law_an_empty_grid_has_no_prices(price: int)
    ensures
        !on_grid(Seq::empty(), price),
        !within_a_band(Seq::empty(), price),
        forall|tick: int| !#[trigger] is_candidate(Seq::empty(), price, tick),
{
}

/// A price is valid exactly where it lies in some band, a whole number of steps above
/// its start.
pub proof fn law_valid_prices_are_ticks(grid: PriceRanges, price: Px, out: bool)
    requires
        call_ensures(PriceRanges::is_valid, (&grid, price), out),
    ensures
        out <==> exists|i: int|
            0 <= i < grid@.len() && (#[trigger] grid@[i]).start.0 <= price.0 <= grid@[i].end.0
                && (price.0 - grid@[i].start.0) % (grid@[i].step.0 as int) == 0,
{
    if out {
        let i = choose|i: int|
            0 <= i < grid@.len() && (#[trigger] grid@[i]).has_tick(price.0 as int);
        assert(grid@[i].has_tick(price.0 as int));
    } else {
        assert forall|i: int| 0 <= i < grid@.len() implies !((#[trigger] grid@[i]).start.0
            <= price.0 <= grid@[i].end.0 && (price.0 - grid@[i].start.0) % (grid@[i].step.0 as int)
            == 0) by {
            assert(!grid@[i].has_tick(price.0 as int));
        }
    }
}

/// A price snaps to the nearest valid price of a grid, the higher of two equally near.
/// It is exact where it was valid, clamped where it lay outside every band, and snapped
/// where it lay between two ticks of one. Nothing comes of a grid without ticks.
pub proof fn law_snapping_finds_the_nearest_price(
    grid: PriceRanges,
    price: Px,
    out: Option<GridSnap>,
    i: int,
    tick: int,
)
    requires
        call_ensures(PriceRanges::snap_to_grid, (&grid, price), out),
        0 <= i < grid@.len(),
        grid@[i].step.0 > 0,
        grid@[i].start.0 <= tick <= grid@[i].end.0,
        (tick - grid@[i].start.0) % (grid@[i].step.0 as int) == 0,
    ensures
        out is Some,
        ({
            let found = out->0.tick().0 as int;
            let here = if found <= price.0 {
                price.0 - found
            } else {
                found - price.0
            };
            let there = if tick <= price.0 {
                price.0 - tick
            } else {
                tick - price.0
            };
            &&& here <= there
            &&& here == there ==> found >= tick
            &&& exists|j: int|
                0 <= j < grid@.len() && (#[trigger] grid@[j]).step.0 > 0 && grid@[j].start.0
                    <= found <= grid@[j].end.0 && (found - grid@[j].start.0) % (
                grid@[j].step.0 as int) == 0
            &&& out->0 is Exact <==> found == price.0
            &&& out->0 is Snapped <==> found != price.0 && exists|j: int|
                0 <= j < grid@.len() && (#[trigger] grid@[j]).start.0 <= price.0 <= grid@[j].end.0
            &&& tick == price.0 ==> out->0 == GridSnap::Exact(price)
        }),
{
    let bands = grid@;
    let p = price.0 as int;
    assert(bands[i].is_proper());
    assert(bands[i].has_tick(tick));
    if out is None {
        assert(has_no_ticks(bands));
    }
    let found = out->0.tick().0 as int;
    assert(is_candidate(bands, p, found));
    let j = choose|j: int|
        0 <= j < bands.len() && (#[trigger] bands[j]).is_proper() && bands[j].is_nearest(p, found);
    assert(bands[j].has_tick(found));
    lemma_a_band_has_a_nearest(bands[i], p, tick);
    let own = choose|own: int| #[trigger] bands[i].is_nearest(p, own);
    assert(bands[i].has_tick(own));
    assert(is_candidate(bands, p, own));
    assert(at_least_as_good(p, found, own));
    if exists|m: int| 0 <= m < bands.len() && (#[trigger] bands[m]).start.0 <= p <= bands[m].end.0 {
        let m = choose|m: int|
            0 <= m < bands.len() && (#[trigger] bands[m]).start.0 <= p <= bands[m].end.0;
        assert(bands[m].holds(p));
        assert(within_a_band(bands, p));
    }
    if within_a_band(bands, p) {
        let m = choose|m: int| 0 <= m < bands.len() && (#[trigger] bands[m]).holds(p);
        assert(bands[m].start.0 <= p <= bands[m].end.0);
    }
}

proof fn lemma_a_band_has_a_nearest(band: PriceRange, price: int, tick: int)
    requires
        band.is_proper(),
        band.has_tick(tick),
    ensures
        exists|own: int| #[trigger] band.is_nearest(price, own),
{
    let start = band.start.0 as int;
    let end = band.end.0 as int;
    let step = band.step.0 as int;
    let target = band.clamped(price);
    let q = (target - start) / step;
    let past = (target - start) % step;
    assert(target - start == step * q + past && 0 <= past < step && q >= 0) by (nonlinear_arith)
        requires
            step > 0,
            target >= start,
            q == (target - start) / step,
            past == (target - start) % step,
    ;
    let lower = target - past;
    let upper = lower + step;
    lemma_multiple_is_tick(step, q);
    lemma_multiple_is_tick(step, q + 1);
    assert(step * (q + 1) == step * q + step) by (nonlinear_arith);
    let best = if upper <= end && upper - target <= target - lower { upper } else { lower };
    assert(band.has_tick(lower));
    assert(upper <= end ==> band.has_tick(upper));
    assert forall|other: int| #[trigger] band.has_tick(other) implies {
        let here = distance(best, target);
        let there = distance(other, target);
        here < there || (here == there && other <= best)
    } by {
        lemma_ticks_are_apart(start, step, q, other);
    }
    assert(band.is_nearest(price, best));
}

/// A grid is accepted exactly where every band has a positive step and its ends in
/// order, and the bands start in order; and then it is kept as it was given. Else the
/// first bad band is the one that is named.
pub proof fn law_sound_grids_are_accepted(
    bands: Vec<PriceRange>,
    result: Result<PriceRanges, PriceRangeError>,
)
    requires
        call_ensures(PriceRanges::new, (bands,), result),
    ensures
        result is Ok <==> {
            &&& forall|i: int|
                0 <= i < bands@.len() ==> (#[trigger] bands@[i]).step.0 > 0 && bands@[i].start.0
                    <= bands@[i].end.0
            &&& forall|i: int, j: int|
                0 <= i < j < bands@.len() ==> (#[trigger] bands@[i]).start.0 <= (
                #[trigger] bands@[j]).start.0
        },
        result matches Ok(grid) ==> grid@ == bands@,
        result matches Err(PriceRangeError::NonPositiveStep { index, step }) ==> index < bands@.len()
            && step == bands@[index as int].step && step.0 <= 0,
        result matches Err(PriceRangeError::Inverted { index, start, end }) ==> index < bands@.len()
            && start == bands@[index as int].start && end == bands@[index as int].end && start.0
            > end.0,
        result matches Err(PriceRangeError::Unsorted { index, start, previous }) ==> 0 < index
            < bands@.len() && start == bands@[index as int].start && previous == bands@[index
            - 1].start && start.0 < previous.0,
{
    if is_sound_grid(bands@) {
        assert forall|i: int| 0 <= i < bands@.len() implies (#[trigger] bands@[i]).step.0 > 0
            && bands@[i].start.0 <= bands@[i].end.0 by {
            assert(band_failure(bands@, i) is None);
        }
        lemma_starts_ascend(bands@, bands@.len() - 1);
    }
    if result is Err {
        lemma_first_bad_band(bands@, result->Err_0, bands.len() as int);
    }
}

proof fn lemma_first_bad_band(bands: Seq<PriceRange>, error: PriceRangeError, len: int)
    requires
        len == bands.len() <= usize::MAX,
        exists|i: int| 0 <= i < bands.len() && #[trigger] band_failure(bands, i) == Some(error),
    ensures
        error matches PriceRangeError::NonPositiveStep { index, step } ==> index < bands.len()
            && step == bands[index as int].step && step.0 <= 0,
        error matches PriceRangeError::Inverted { index, start, end } ==> index < bands.len()
            && start == bands[index as int].start && end == bands[index as int].end && start.0
            > end.0,
        error matches PriceRangeError::Unsorted { index, start, previous } ==> 0 < index
            < bands.len() && start == bands[index as int].start && previous == bands[index
            - 1].start && start.0 < previous.0,
{
    let i = choose|i: int|
        0 <= i < bands.len() && #[trigger] band_failure(bands, i) == Some(error);
    assert(i as usize == i);
}

proof fn lemma_starts_ascend(bands: Seq<PriceRange>, last: int)
    requires
        is_sound_grid(bands),
        last < bands.len(),
    ensures
        forall|i: int, j: int|
            0 <= i < j <= last ==> (#[trigger] bands[i]).start.0 <= (#[trigger] bands[j]).start.0,
    decreases last,
{
    if last > 0 {
        lemma_starts_ascend(bands, last - 1);
        assert(band_failure(bands, last) is None);
        assert(bands[last - 1].start.0 <= bands[last].start.0);
    }
}

/// What a snap is: its price, and whether it came from outside the grid or was changed.
pub proof fn law_a_snap_tells_its_provenance(
    snap: GridSnap,
    price: Px,
    clamped: bool,
    modified: bool,
)
    requires
        call_ensures(GridSnap::price, (snap,), price),
        call_ensures(GridSnap::is_clamped, (snap,), clamped),
        call_ensures(GridSnap::was_modified, (snap,), modified),
    ensures
        snap == GridSnap::Exact(price) || snap == GridSnap::Snapped(price) || snap
            == GridSnap::Clamped(price),
        clamped <==> snap == GridSnap::Clamped(price),
        modified <==> snap != GridSnap::Exact(price),
{
}

/// A band holds the prices from its start to its end, and its ticks are those whole steps
/// from its start.
pub proof fn law_a_band_is_its_steps(band: PriceRange, price: Px, within: bool, tick: bool, n: int)
    requires
        call_ensures(PriceRange::contains, (&band, price), within),
        call_ensures(PriceRange::is_on_grid, (&band, price), tick),
        band.step.0 > 0,
    ensures
        within <==> band.start.0 <= price.0 && price.0 <= band.end.0,
        tick ==> within,
        within && price.0 == band.start.0 + n * band.step.0 ==> tick,
        tick ==> exists|k: int| price.0 == band.start.0 + #[trigger] (k * band.step.0),
{
    let step = band.step.0 as int;
    let offset = price.0 - band.start.0;
    if price.0 == band.start.0 + n * band.step.0 {
        vstd::arithmetic::div_mod::lemma_mod_multiples_basic(n, step);
        assert(offset % step == 0);
    }
    if tick {
        let k = offset / step;
        vstd::arithmetic::div_mod::lemma_fundamental_div_mod(offset, step);
        vstd::arithmetic::mul::lemma_mul_is_commutative(step, k);
        assert(price.0 == band.start.0 + k * band.step.0);
    }
}

/// A grid is read as its bands, an empty one has none, and a copy has the same.
pub proof fn law_a_grid_is_its_bands(
    grid: PriceRanges,
    bands: &[PriceRange],
    empty: bool,
    copy: PriceRanges,
    text: String,
)
    requires
        call_ensures(PriceRanges::bands, (&grid,), bands),
        call_ensures(PriceRanges::is_empty, (&grid,), empty),
        call_ensures(PriceRanges::duplicate, (&grid,), copy),
        call_ensures(PriceRanges::to_display_string, (&grid,), text),
    ensures
        bands@ == grid@ && copy@ == grid@,
        empty <==> grid@.len() == 0,
        empty ==> text@ == seq!['[', ']'],
        grid@.len() == 1 ==> text@ == seq!['[', '$'] + px::price_text(grid@[0].start) + "..="@
            + seq!['$'] + px::price_text(grid@[0].end) + " step "@ + seq!['$'] + px::price_text(
            grid@[0].step,
        ) + seq![']'],
{
    if grid@.len() == 0 {
        assert(text@ =~= seq!['[', ']']);
    }
    if grid@.len() == 1 {
        assert(text@ =~= seq!['[', '$'] + px::price_text(grid@[0].start) + "..="@ + seq!['$']
            + px::price_text(grid@[0].end) + " step "@ + seq!['$'] + px::price_text(grid@[0].step)
            + seq![']']);
    }
}

/// A text of several bands is that of all but the last, and the last after a comma.
pub proof fn law_bands_are_listed_in_order(bands: Seq<PriceRange>, band: PriceRange)
    requires
        bands.len() > 0,
    ensures
        bands_text(bands.push(band)) == bands_text(bands) + ", "@ + bands_text(seq![band]),
{
    assert(bands.push(band).drop_last() =~= bands);
}

} // verus!
