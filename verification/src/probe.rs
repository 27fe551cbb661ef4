//! Empirical checks that settle what the documentation leaves open: which leg
//! prices arrive in, and how many subscriptions a connection takes.

use crate::text::{self, same_text};
use crate::wire::{OrderbookSnapshotBody, OrderbookSnapshotPayload, RawLevel, ServerMessage};
use vstd::prelude::*;

verus! {

// ---------------------------------------------------------------------------
// Pricing conventions
// ---------------------------------------------------------------------------
/// Where the first snapshot stands among some messages; their number where there
/// is none.
pub open spec fn first_snapshot(messages: Seq<ServerMessage>) -> int
    decreases messages.len(),
{
    if messages.len() == 0 || messages[0] is OrderbookSnapshot {
        0
    } else {
        1 + first_snapshot(messages.drop_first())
    }
}

proof fn lemma_first_snapshot(messages: Seq<ServerMessage>, k: int)
    requires
        0 <= k <= messages.len(),
        k < messages.len() ==> messages[k] is OrderbookSnapshot,
        forall|i: int| 0 <= i < k ==> !(#[trigger] messages[i] is OrderbookSnapshot),
    ensures
        first_snapshot(messages) == k,
    decreases messages.len(),
{
    if k > 0 {
        assert(!(messages[0] is OrderbookSnapshot));
        let rest = messages.drop_first();
        assert forall|i: int| 0 <= i < k - 1 implies !(#[trigger] rest[i] is OrderbookSnapshot) by {
            assert(!(messages[i + 1] is OrderbookSnapshot));
        }
        lemma_first_snapshot(rest, k - 1);
    }
}

/// The first snapshot among some messages.
pub fn find_snapshot(messages: &Vec<ServerMessage>) -> (out: Option<&OrderbookSnapshotPayload>)
    ensures
        ({
            let k = first_snapshot(messages@);
            match out {
                Some(payload) => k < messages@.len() && messages@[k]
                    == ServerMessage::OrderbookSnapshot(*payload),
                None => k == messages@.len(),
            }
        }),
{
    let mut i: usize = 0;
    while i < messages.len()
        invariant
            i <= messages@.len(),
            forall|k: int| 0 <= k < i ==> !(#[trigger] messages@[k] is OrderbookSnapshot),
        decreases messages@.len() - i,
    {
        if let ServerMessage::OrderbookSnapshot(payload) = &messages[i] {
            proof {
                lemma_first_snapshot(messages@, i as int);
            }
            return Some(payload);
        }
        i += 1;
    }
    proof {
        lemma_first_snapshot(messages@, messages@.len() as int);
    }
    None
}

/// One level of a book as it arrived: side, price and size.
#[derive(Clone, Debug)]
pub struct BookRow {
    pub side: &'static str,
    pub price: String,
    pub size: String,
}

/// What a [`BookRow`] says: side, price and size.
pub open spec fn row_text(row: BookRow) -> (Seq<char>, Seq<char>, Seq<char>) {
    (row.side@, row.price@, row.size@)
}

pub open spec fn row_texts(rows: Seq<BookRow>) -> Seq<(Seq<char>, Seq<char>, Seq<char>)> {
    rows.map_values(|row: BookRow| row_text(row))
}

/// The levels of one side.
pub open spec fn side_texts(side: Seq<char>, levels: Seq<RawLevel>) -> Seq<
    (Seq<char>, Seq<char>, Seq<char>),
> {
    levels.map_values(|level: RawLevel| (side, level.0@, level.1@))
}

fn push_rows(rows: &mut Vec<BookRow>, side: &'static str, levels: &Vec<RawLevel>)
    ensures
        row_texts(final(rows)@) == row_texts(old(rows)@) + side_texts(side@, levels@),
{
    let ghost before = row_texts(rows@);
    let ghost wanted = side_texts(side@, levels@);
    assert(before + wanted.take(0) =~= before);
    let mut i: usize = 0;
    while i < levels.len()
        invariant
            i <= levels@.len(),
            wanted == side_texts(side@, levels@),
            row_texts(rows@) == before + wanted.take(i as int),
        decreases levels@.len() - i,
    {
        let ghost so_far = rows@;
        let row = BookRow {
            side,
            price: levels[i].price_raw().to_owned(),
            size: levels[i].size_raw().to_owned(),
        };
        rows.push(row);
        assert(row_text(row) == wanted[i as int]);
        assert(row_texts(rows@) =~= row_texts(so_far).push(row_text(row)));
        assert(before + wanted.take(i + 1) =~= (before + wanted.take(i as int)).push(
            wanted[i as int],
        ));
        i += 1;
    }
    assert(wanted.take(wanted.len() as int) =~= wanted);
}

/// The levels of a snapshot as they arrived, the YES side first.
pub fn book_rows(snapshot: &OrderbookSnapshotBody) -> (out: Vec<BookRow>)
    ensures
        row_texts(out@) == side_texts("yes"@, snapshot.yes_dollars_fp@) + side_texts(
            "no"@,
            snapshot.no_dollars_fp@,
        ),
{
    let mut rows: Vec<BookRow> = Vec::new();
    push_rows(&mut rows, "yes", &snapshot.yes_dollars_fp);
    push_rows(&mut rows, "no", &snapshot.no_dollars_fp);
    assert(row_texts(rows@) =~= side_texts("yes"@, snapshot.yes_dollars_fp@) + side_texts(
        "no"@,
        snapshot.no_dollars_fp@,
    ));
    rows
}

/// The prices of the NO side, in order.
pub open spec fn no_prices(rows: Seq<(Seq<char>, Seq<char>, Seq<char>)>) -> Seq<Seq<char>>
    decreases rows.len(),
{
    if rows.len() == 0 {
        Seq::empty()
    } else {
        let before = no_prices(rows.drop_last());
        if rows.last().0 == "no"@ {
            before.push(rows.last().1)
        } else {
            before
        }
    }
}

pub fn no_side_prices(rows: &Vec<BookRow>) -> (out: Vec<String>)
    ensures
        text::texts_of(out@) == no_prices(row_texts(rows@)),
{
    let ghost all = row_texts(rows@);
    let mut out: Vec<String> = Vec::new();
    assert(all.take(0) =~= Seq::empty());
    assert(text::texts_of(out@) =~= Seq::<Seq<char>>::empty());
    let mut i: usize = 0;
    while i < rows.len()
        invariant
            i <= rows@.len(),
            all == row_texts(rows@),
            text::texts_of(out@) == no_prices(all.take(i as int)),
        decreases rows@.len() - i,
    {
        assert(all.take(i + 1).drop_last() =~= all.take(i as int));
        assert(all[i as int] == row_text(rows@[i as int]));
        if same_text(rows[i].side, "no") {
            let ghost before = text::texts_of(out@);
            out.push(rows[i].price.clone());
            assert(text::texts_of(out@) =~= before.push(rows@[i as int].price@));
        }
        i += 1;
    }
    assert(all.take(all.len() as int) =~= all);
    out
}

/// What comparing a book under both conventions shows.
#[derive(Copy, Clone, Debug, PartialEq, Eq, Structural)]
pub enum PricingVerdict {
    /// The NO-side prices are the same: the flag is ignored, or that side is
    /// empty. Nothing follows from it.
    Identical,
    /// The NO-side prices differ, as they should.
    Differ,
    /// A snapshot is missing under one convention.
    Unsettled,
}

fn same_texts(a: &Vec<String>, b: &Vec<String>) -> (out: bool)
    ensures
        out == (text::texts_of(a@) == text::texts_of(b@)),
{
    if a.len() != b.len() {
        assert(text::texts_of(a@).len() != text::texts_of(b@).len());
        return false;
    }
    let mut i: usize = 0;
    while i < a.len()
        invariant
            i <= a@.len() == b@.len(),
            forall|k: int| 0 <= k < i ==> (#[trigger] a@[k])@ == b@[k]@,
        decreases a@.len() - i,
    {
        if !same_text(a[i].as_str(), b[i].as_str()) {
            assert(text::texts_of(a@)[i as int] != text::texts_of(b@)[i as int]);
            return false;
        }
        i += 1;
    }
    assert(text::texts_of(a@) =~= text::texts_of(b@));
    true
}

/// Whether the same liquidity has the same NO-side prices under both conventions.
pub fn compare_conventions(no_leg: Option<&Vec<BookRow>>, yes_leg: Option<&Vec<BookRow>>) -> (out:
    PricingVerdict)
    ensures
        out == (match (no_leg, yes_leg) {
            (Some(a), Some(b)) => if no_prices(row_texts(a@)) == no_prices(row_texts(b@)) {
                PricingVerdict::Identical
            } else {
                PricingVerdict::Differ
            },
            _ => PricingVerdict::Unsettled,
        }),
{
    match (no_leg, yes_leg) {
        (Some(a), Some(b)) => {
            let a = no_side_prices(a);
            let b = no_side_prices(b);
            if same_texts(&a, &b) {
                PricingVerdict::Identical
            } else {
                PricingVerdict::Differ
            }
        },
        _ => PricingVerdict::Unsettled,
    }
}

// ---------------------------------------------------------------------------
// Subscription limits
// ---------------------------------------------------------------------------
/// The market for an attempt: the list is cycled through, since subscribing the
/// same market again would only be refused.
pub fn probe_target(markets: &Vec<String>, attempt: usize) -> (out: &str)
    requires
        markets@.len() > 0,
    ensures
        out@ == markets@[attempt as int % markets@.len() as int]@,
{
    markets[attempt % markets.len()].as_str()
}

/// What a probe has seen so far.
#[derive(Debug)]
pub struct Probe {
    /// Subscriptions the server confirmed.
    pub established: usize,
    /// The first error that is a limit, with its code.
    pub first_error: Option<(u32, String)>,
}

/// The code of the error for a market that is already subscribed, which is
/// expected once the list of markets wraps.
pub const ALREADY_SUBSCRIBED: u32 = 6;

impl Probe {
    pub fn new() -> (out: Probe)
        ensures
            out == (Probe { established: 0, first_error: None }),
    {
        Probe { established: 0, first_error: None }
    }

    /// Take in what the server said.
    pub fn on_message(&mut self, message: &Option<ServerMessage>)
        requires
            old(self).established < usize::MAX,
        ensures
            match message {
                Some(ServerMessage::Subscribed(_)) => final(self).established == old(
                    self,
                ).established + 1 && final(self).first_error == old(self).first_error,
                Some(ServerMessage::Error(payload)) => final(self).established == old(
                    self,
                ).established && final(self).first_error == (if payload.msg.code
                    != ALREADY_SUBSCRIBED && old(self).first_error is None {
                    Some((payload.msg.code, payload.msg.msg))
                } else {
                    old(self).first_error
                }),
                _ => *final(self) == *old(self),
            },
    {
        match message {
            Some(ServerMessage::Subscribed(_)) => {
                self.established = self.established + 1;
            },
            Some(ServerMessage::Error(payload)) => {
                if payload.msg.code != ALREADY_SUBSCRIBED && self.first_error.is_none() {
                    self.first_error = Some((payload.msg.code, payload.msg.msg.clone()));
                }
            },
            _ => {},
        }
    }

    /// The socket failed. Only the first error is kept.
    pub fn on_socket_error(&mut self, reason: String)
        ensures
            final(self).established == old(self).established,
            final(self).first_error == (match old(self).first_error {
                Some(error) => Some(error),
                None => Some((0u32, reason)),
            }),
    {
        if self.first_error.is_none() {
            self.first_error = Some((0, reason));
        }
    }

    /// Whether the probe is over.
    pub fn is_over(&self) -> (out: bool)
        ensures
            out == (self.first_error is Some),
    {
        self.first_error.is_some()
    }
}

/// The snapshot that is found is the first one; nothing is found only where there is none.
pub proof fn law_the_first_snapshot_is_found(messages: Seq<ServerMessage>)
    ensures
        0 <= first_snapshot(messages) <= messages.len(),
        first_snapshot(messages) < messages.len() ==> messages[first_snapshot(
            messages,
        )] is OrderbookSnapshot,
        forall|i: int|
            0 <= i < first_snapshot(messages) ==> !(#[trigger] messages[i] is OrderbookSnapshot),
    decreases messages.len(),
{
    if messages.len() > 0 && !(messages[0] is OrderbookSnapshot) {
        let rest = messages.drop_first();
        law_the_first_snapshot_is_found(rest);
        let k = first_snapshot(rest);
        if k < rest.len() {
            assert(messages[k + 1] == rest[k]);
        }
        assert forall|i: int| 0 <= i < first_snapshot(messages) implies !(#[trigger] messages[i]
            is OrderbookSnapshot) by {
            if i > 0 {
                assert(rest[i - 1] == messages[i]);
            }
        }
    }
}

/// The rows of a book are its levels as they arrived, the YES side before the NO side.
pub proof fn law_book_rows_are_the_levels(snapshot: OrderbookSnapshotBody, rows: Vec<BookRow>)
    requires
        call_ensures(book_rows, (&snapshot,), rows),
    ensures
        rows@.len() == snapshot.yes_dollars_fp@.len() + snapshot.no_dollars_fp@.len(),
        forall|i: int|
            0 <= i < snapshot.yes_dollars_fp@.len() ==> {
                let row = #[trigger] rows@[i];
                row.side@ == "yes"@ && row.price@ == snapshot.yes_dollars_fp@[i].0@ && row.size@
                    == snapshot.yes_dollars_fp@[i].1@
            },
        forall|i: int|
            snapshot.yes_dollars_fp@.len() <= i < rows@.len() ==> {
                let row = #[trigger] rows@[i];
                let level = snapshot.no_dollars_fp@[i - snapshot.yes_dollars_fp@.len()];
                row.side@ == "no"@ && row.price@ == level.0@ && row.size@ == level.1@
            },
{
    let texts = row_texts(rows@);
    assert(texts.len() == rows@.len());
    assert forall|i: int| 0 <= i < rows@.len() implies #[trigger] texts[i] == row_text(rows@[i]) by {}
    assert forall|i: int| 0 <= i < snapshot.yes_dollars_fp@.len() implies {
        let row = #[trigger] rows@[i];
        row.side@ == "yes"@ && row.price@ == snapshot.yes_dollars_fp@[i].0@ && row.size@
            == snapshot.yes_dollars_fp@[i].1@
    } by {
        assert(texts[i] == row_text(rows@[i]));
    }
    assert forall|i: int| snapshot.yes_dollars_fp@.len() <= i < rows@.len() implies {
        let row = #[trigger] rows@[i];
        let level = snapshot.no_dollars_fp@[i - snapshot.yes_dollars_fp@.len()];
        row.side@ == "no"@ && row.price@ == level.0@ && row.size@ == level.1@
    } by {
        assert(texts[i] == row_text(rows@[i]));
    }
}

/// The NO prices are the prices of the NO rows, in their order.
pub proof fn law_no_prices_are_those_of_the_no_rows(
    rows: Seq<(Seq<char>, Seq<char>, Seq<char>)>,
    row: (Seq<char>, Seq<char>, Seq<char>),
)
    ensures
        no_prices(Seq::empty()) == Seq::<Seq<char>>::empty(),
        row.0 == "no"@ ==> no_prices(rows.push(row)) == no_prices(rows).push(row.1),
        row.0 != "no"@ ==> no_prices(rows.push(row)) == no_prices(rows),
{
    assert(rows.push(row).drop_last() =~= rows);
}

/// Two books are told apart by their NO prices alone, and nothing is said without both.
pub proof fn law_conventions_are_told_by_no_prices(
    a: Vec<BookRow>,
    b: Vec<BookRow>,
    a_prices: Vec<String>,
    b_prices: Vec<String>,
    both: PricingVerdict,
    one: PricingVerdict,
    other: PricingVerdict,
)
    requires
        call_ensures(no_side_prices, (&a,), a_prices),
        call_ensures(no_side_prices, (&b,), b_prices),
        call_ensures(compare_conventions, (Some(&a), Some(&b)), both),
        call_ensures(compare_conventions, (Some(&a), None), one),
        call_ensures(compare_conventions, (None, Some(&b)), other),
    ensures
        one is Unsettled && other is Unsettled,
        both is Identical <==> a_prices@.len() == b_prices@.len() && forall|i: int|
            0 <= i < a_prices@.len() ==> (#[trigger] a_prices@[i])@ == b_prices@[i]@,
        both is Differ <==> !(both is Identical),
{
    let left = text::texts_of(a_prices@);
    let right = text::texts_of(b_prices@);
    assert(left.len() == a_prices@.len() && right.len() == b_prices@.len());
    assert(left == no_prices(row_texts(a@)) && right == no_prices(row_texts(b@)));
    if both is Identical {
        assert(left == right);
        assert forall|i: int| 0 <= i < a_prices@.len() implies (#[trigger] a_prices@[i])@
            == b_prices@[i]@ by {
            assert(left[i] == right[i]);
        }
    } else if a_prices@.len() == b_prices@.len() && forall|i: int|
        0 <= i < a_prices@.len() ==> (#[trigger] a_prices@[i])@ == b_prices@[i]@ {
        assert(left =~= right);
    }
}

/// Markets are tried in their order, again from the first after the last.
pub proof fn law_targets_go_round(markets: Vec<String>, attempt: usize, out: &str)
    requires
        markets@.len() > 0,
        call_ensures(probe_target, (&markets, attempt), out),
    ensures
        attempt < markets@.len() ==> out@ == markets@[attempt as int]@,
        exists|round: int, place: int|
            0 <= place < markets@.len() && attempt == #[trigger] (round * markets@.len()) + place
                && out@ == (#[trigger] markets@[place])@,
{
    let n = markets@.len() as int;
    let round = attempt as int / n;
    let place = attempt as int % n;
    vstd::arithmetic::div_mod::lemma_fundamental_div_mod(attempt as int, n);
    vstd::arithmetic::mul::lemma_mul_is_commutative(n, round);
    assert(0 <= place < n) by (nonlinear_arith)
        requires
            n > 0,
            place == attempt as int % n,
    ;
    assert(attempt == round * n + place && out@ == markets@[place]@);
    if attempt < n {
        vstd::arithmetic::div_mod::lemma_small_mod(attempt as nat, n as nat);
    }
}

/// A probe counts confirmations, and keeps the first error that is not the expected one
/// for a market already subscribed; with that it is over.
pub proof fn law_the_first_real_error_ends_a_probe(
    message: &Option<ServerMessage>,
    probe: Probe,
    over: bool,
)
    requires
        call_ensures(Probe::is_over, (&probe,), over),
    ensures
        over <==> probe.first_error is Some,
        forall|probe: &mut Probe| #[trigger]
            call_ensures(Probe::on_message, (probe, message), ()) ==> {
                let next = *final(probe);
                &&& next.established == probe.established + (if *message matches Some(
                    ServerMessage::Subscribed(_),
                ) {
                    1int
                } else {
                    0
                })
                &&& probe.first_error is Some ==> next.first_error == probe.first_error
                &&& probe.first_error is None ==> (*message matches Some(
                    ServerMessage::Error(payload),
                ) && payload.msg.code != 6 <==> next.first_error is Some)
                &&& probe.first_error is None ==> (*message matches Some(
                    ServerMessage::Error(payload),
                ) ==> (next.first_error is Some ==> next.first_error == Some(
                    (payload.msg.code, payload.msg.msg),
                )))
            },
{
}

/// The first error of a probe is kept, and a socket error stands for the first where
/// there was none, with no code of its own.
pub proof fn law_a_socket_error_is_kept_where_it_is_first(reason: String)
    ensures
        forall|probe: &mut Probe| #[trigger]
            call_ensures(Probe::on_socket_error, (probe, reason), ()) ==> {
                &&& final(probe).established == probe.established
                &&& probe.first_error is Some ==> final(probe).first_error == probe.first_error
                &&& probe.first_error is None ==> final(probe).first_error == Some((0u32, reason))
            },
{
}

} // verus!
