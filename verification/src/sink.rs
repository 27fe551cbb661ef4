//! The queue between the read loop and the writer.
//!
//! The read path must never block: a slow consumer has its subscription ended by
//! the server. So a record is offered, not awaited, and a full queue drops it
//! and counts the loss.

use crate::json::{Json, Node};
use crate::schema::Channel;
use vstd::prelude::*;

verus! {

/// One message on its way to disk.
#[derive(Clone, Debug)]
pub struct StoreRecord {
    pub channel: Channel,
    /// Local receive time, nanoseconds since the Unix epoch.
    pub received_at: i128,
    /// The exact text off the wire.
    pub raw: String,
    /// The text as JSON, where it was understood.
    pub parsed: Option<Json>,
}

/// What a [`StoreRecord`] says.
pub struct Record {
    pub channel: Channel,
    pub received_at: int,
    pub raw: Seq<char>,
    pub parsed: Option<Node>,
}

impl View for StoreRecord {
    type V = Record;

    open spec fn view(&self) -> Record {
        Record {
            channel: self.channel,
            received_at: self.received_at as int,
            raw: self.raw@,
            parsed: match self.parsed {
                Some(json) => Some(json@),
                None => None,
            },
        }
    }
}

/// What became of an offered record.
#[derive(Copy, Clone, Debug, PartialEq, Eq, Structural)]
pub enum Offered {
    Queued,
    /// The queue was full; the record is lost and counted.
    Dropped,
    /// The writer is gone: not the same as a full queue.
    WriterGone,
}

/// Running counts of what was offered and what became of it.
#[derive(Debug, Clone, PartialEq, Eq)]
pub struct SinkMetrics {
    pub offered: u64,
    pub queued: u64,
    pub dropped: u64,
    pub writer_gone: u64,
}

#[derive(Copy, Clone, Debug, PartialEq, Eq, Structural)]
pub struct SinkCounterSnapshot {
    pub offered: u64,
    pub queued: u64,
    pub dropped: u64,
    pub writer_gone: u64,
}

impl Default for SinkMetrics {
    fn default() -> (out: SinkMetrics)
        ensures
            out == (SinkMetrics { offered: 0, queued: 0, dropped: 0, writer_gone: 0 }),
    {
        SinkMetrics { offered: 0, queued: 0, dropped: 0, writer_gone: 0 }
    }
}

impl SinkMetrics {
    /// The counts after one more offer. They wrap, as counters shared between
    /// tasks do.
    pub open spec fn counting(self, outcome: Offered) -> SinkMetrics {
        SinkMetrics {
            offered: wrapped(self.offered + 1),
            queued: if outcome == Offered::Queued {
                wrapped(self.queued + 1)
            } else {
                self.queued
            },
            dropped: if outcome == Offered::Dropped {
                wrapped(self.dropped + 1)
            } else {
                self.dropped
            },
            writer_gone: if outcome == Offered::WriterGone {
                wrapped(self.writer_gone + 1)
            } else {
                self.writer_gone
            },
        }
    }

    /// Every offer is accounted for exactly once.
    pub open spec fn balanced(self) -> bool {
        self.offered == wrapped(self.queued + self.dropped + self.writer_gone)
    }

    /// Count one offer.
    pub fn count(&mut self, outcome: Offered)
        ensures
            *final(self) == old(self).counting(outcome),
            old(self).balanced() ==> final(self).balanced(),
    {
        proof {
            lemma_counting_keeps_balance(*self, outcome);
        }
        self.offered = self.offered.wrapping_add(1);
        match outcome {
            Offered::Queued => {
                self.queued = self.queued.wrapping_add(1);
            },
            Offered::Dropped => {
                self.dropped = self.dropped.wrapping_add(1);
            },
            Offered::WriterGone => {
                self.writer_gone = self.writer_gone.wrapping_add(1);
            },
        }
    }

    pub fn snapshot(&self) -> (out: SinkCounterSnapshot)
        ensures
            out == (SinkCounterSnapshot {
                offered: self.offered,
                queued: self.queued,
                dropped: self.dropped,
                writer_gone: self.writer_gone,
            }),
    {
        SinkCounterSnapshot {
            offered: self.offered,
            queued: self.queued,
            dropped: self.dropped,
            writer_gone: self.writer_gone,
        }
    }
}

/// A count modulo two to the sixty-fourth.
pub open spec fn wrapped(n: int) -> u64 {
    (n % 0x1_0000_0000_0000_0000) as u64
}

/// Adding one may be done before or after wrapping.
proof fn lemma_wrapped_successor(n: int)
    requires
        0 <= n,
    ensures
        wrapped(wrapped(n) + 1) == wrapped(n + 1),
        wrapped(n + 1 - 0x1_0000_0000_0000_0000) == wrapped(n + 1),
{
    vstd::arithmetic::div_mod::lemma_add_mod_noop(n, 1, 0x1_0000_0000_0000_0000);
    vstd::arithmetic::div_mod::lemma_mod_sub_multiples_vanish(n + 1, 0x1_0000_0000_0000_0000);
}

proof fn lemma_counting_keeps_balance(metrics: SinkMetrics, outcome: Offered)
    ensures
        metrics.balanced() ==> metrics.counting(outcome).balanced(),
{
    lemma_wrapped_successor(metrics.queued + metrics.dropped + metrics.writer_gone);
}

/// One, or twice another such number.
pub open spec fn is_power_of_two(n: nat) -> bool
    decreases n,
{
    n == 1 || (n > 1 && n % 2 == 0 && is_power_of_two(n / 2))
}

/// Whether a loss is worth a log line: at the first, second, fourth, eighth and
/// so on, since a line per loss would itself slow the read loop.
pub fn logs_loss(dropped: u64) -> (out: bool)
    ensures
        out == is_power_of_two(dropped as nat),
    decreases dropped,
{
    if dropped <= 1 {
        dropped == 1
    } else {
        dropped % 2 == 0 && logs_loss(dropped / 2)
    }
}

// ---------------------------------------------------------------------------
// The queue
// ---------------------------------------------------------------------------
#[verifier::external_type_specification]
#[verifier::external_body]
#[verifier::reject_recursive_types(T)]
pub struct ExSender<T>(tokio::sync::mpsc::Sender<T>);

#[verifier::external_type_specification]
#[verifier::external_body]
#[verifier::reject_recursive_types(T)]
pub struct ExReceiver<T>(tokio::sync::mpsc::Receiver<T>);

/// The number of records a queue was made to hold.
pub uninterp spec fn queue_limit(tx: tokio::sync::mpsc::Sender<StoreRecord>) -> nat;

/// One call of `Sender::try_send`: the record, the state of the queue at the moment
/// the call took effect, and what came of it.
pub struct Sent {
    pub record: StoreRecord,
    /// Whether the receiving end was dropped or closed.
    pub receiver_gone: bool,
    /// How many places of the queue were taken before, and after: those that are not
    /// in `Sender::capacity`.
    pub taken: nat,
    pub taken_after: nat,
    pub outcome: Offered,
}

impl Sent {
    /// What the state of the queue makes of an offer: without a receiver there is no
    /// writer, a full queue costs the record, and else the record takes one place.
    pub open spec fn follows_the_queue(self, limit: nat) -> bool {
        &&& self.taken <= limit
        &&& self.outcome == (if self.receiver_gone {
            Offered::WriterGone
        } else if self.taken == limit {
            Offered::Dropped
        } else {
            Offered::Queued
        })
        &&& self.taken_after == (if self.outcome == Offered::Queued {
            self.taken + 1
        } else {
            self.taken
        })
    }
}

/// The calls of `Sender::try_send` on a sender since it was made, in order. Only a
/// call on the sender itself adds to it.
pub uninterp spec fn sends(tx: tokio::sync::mpsc::Sender<StoreRecord>) -> Seq<Sent>;

/// Whether `after` is a sender's history `before` with one more call, which handed
/// over `record` and came to `outcome`, on a queue that holds `limit`.
pub open spec fn sent_once(
    before: Seq<Sent>,
    record: StoreRecord,
    outcome: Offered,
    limit: nat,
    after: Seq<Sent>,
) -> bool {
    &&& after == before.push(after.last())
    &&& after.last().record == record
    &&& after.last().outcome == outcome
    &&& after.last().follows_the_queue(limit)
}

/// What `Receiver::try_recv` has answered on a receiver since it was made, in
/// order: a record, or nothing where none was waiting. Only a call on the receiver
/// itself adds to it; what the senders do meanwhile does not.
pub uninterp spec fn replies(rx: tokio::sync::mpsc::Receiver<StoreRecord>) -> Seq<
    Option<StoreRecord>,
>;

/// `tokio::sync::mpsc::channel` makes a queue of the given capacity, which must
/// not be zero nor beyond what its semaphore can count. Nothing has been sent or
/// asked for yet.
#[verifier::external_body]
fn make_queue(capacity: usize) -> (out: (
    tokio::sync::mpsc::Sender<StoreRecord>,
    tokio::sync::mpsc::Receiver<StoreRecord>,
))
    requires
        0 < capacity <= usize::MAX / 8,
    ensures
        queue_limit(out.0) == capacity,
        sends(out.0) == Seq::<Sent>::empty(),
        replies(out.1) == Seq::<Option<StoreRecord>>::empty(),
{
    tokio::sync::mpsc::channel(capacity)
}

/// `Sender::try_send` never blocks, and is one more send of the sender. It fails with
/// `Closed` exactly where the receiving end is gone, else with `Full` exactly where
/// every place is taken, and else takes one. Which of these it meets depends on the
/// other tasks and is left open. The capacity stays what it was made with.
#[verifier::external_body]
fn try_send(tx: &mut tokio::sync::mpsc::Sender<StoreRecord>, record: StoreRecord) -> (out: Offered)
    ensures
        sent_once(sends(*old(tx)), record, out, queue_limit(*old(tx)), sends(*final(tx))),
        queue_limit(*final(tx)) == queue_limit(*old(tx)),
{
    match tx.try_send(record) {
        Ok(()) => Offered::Queued,
        Err(tokio::sync::mpsc::error::TrySendError::Full(_)) => Offered::Dropped,
        Err(tokio::sync::mpsc::error::TrySendError::Closed(_)) => Offered::WriterGone,
    }
}

/// `Receiver::try_recv` gives the next record if one is waiting, and is one more
/// answer of the receiver. Which it is depends on the senders and is left open.
#[verifier::external_body]
fn try_recv(rx: &mut tokio::sync::mpsc::Receiver<StoreRecord>) -> (out: Option<StoreRecord>)
    ensures
        replies(*final(rx)) == replies(*old(rx)).push(out),
{
    rx.try_recv().ok()
}

/// `Sender::max_capacity` is the capacity the queue was made with.
#[verifier::external_body]
fn max_capacity(tx: &tokio::sync::mpsc::Sender<StoreRecord>) -> (out: usize)
    ensures
        out == queue_limit(*tx),
{
    tx.max_capacity()
}

/// `Sender::capacity` is the room left at the moment, never more than the queue
/// was made with.
#[verifier::external_body]
fn room_left(tx: &tokio::sync::mpsc::Sender<StoreRecord>) -> (out: usize)
    ensures
        out <= queue_limit(*tx),
{
    tx.capacity()
}

/// How many places of a queue are taken, for a reading of the room left.
pub fn occupied(limit: usize, room: usize) -> (out: usize)
    requires
        room <= limit,
    ensures
        out == limit - room,
{
    limit - room
}

/// The sending end, with its counts.
#[derive(Debug)]
pub struct StoreHandle {
    pub tx: tokio::sync::mpsc::Sender<StoreRecord>,
    pub metrics: SinkMetrics,
}

impl StoreHandle {
    /// Offer a record without ever waiting. It is handed to the queue once; whatever
    /// comes of that is reported and counted.
    pub fn offer(&mut self, record: StoreRecord) -> (out: Offered)
        ensures
            sent_once(
                sends(old(self).tx),
                record,
                out,
                queue_limit(old(self).tx),
                sends(final(self).tx),
            ),
            queue_limit(final(self).tx) == queue_limit(old(self).tx),
            final(self).metrics == old(self).metrics.counting(out),
            old(self).metrics.balanced() ==> final(self).metrics.balanced(),
    {
        let outcome = try_send(&mut self.tx, record);
        self.metrics.count(outcome);
        outcome
    }

    pub fn metrics(&self) -> (out: &SinkMetrics)
        ensures
            *out == self.metrics,
    {
        &self.metrics
    }

    /// How many records are waiting at the moment: [`occupied`] of a reading of the
    /// room left, which changes with what the other tasks do.
    pub fn queue_depth(&self) -> (out: usize)
        ensures
            out <= queue_limit(self.tx),
    {
        occupied(max_capacity(&self.tx), room_left(&self.tx))
    }

    pub fn capacity(&self) -> (out: usize)
        ensures
            out == queue_limit(self.tx),
    {
        max_capacity(&self.tx)
    }
}

/// The receiving end.
#[derive(Debug)]
pub struct StoreReceiver {
    pub rx: tokio::sync::mpsc::Receiver<StoreRecord>,
}

/// The answers of a receiver to a drain of at most `max` that took `records`: each
/// record in its order, and nothing at the end exactly where it took fewer.
pub open spec fn drain_replies(records: Seq<StoreRecord>, max: nat) -> Seq<Option<StoreRecord>> {
    records.map_values(|record: StoreRecord| Some(record)) + (if records.len() < max {
        seq![None]
    } else {
        Seq::empty()
    })
}

/// Take in one answer of a receiver; tells whether it was a record.
pub fn take_reply(taken: &mut Vec<StoreRecord>, reply: Option<StoreRecord>) -> (out: bool)
    ensures
        out == (reply is Some),
        final(taken)@ == (match reply {
            Some(record) => old(taken)@.push(record),
            None => old(taken)@,
        }),
{
    match reply {
        Some(record) => {
            taken.push(record);
            true
        },
        None => false,
    }
}

impl StoreReceiver {
    /// Take what is waiting, up to `max` records, without waiting for more. Every
    /// record the receiver hands out is kept, in order, and it is asked again until
    /// there are `max` or it has none.
    pub fn drain(&mut self, max: usize) -> (out: Vec<StoreRecord>)
        ensures
            out@.len() <= max,
            replies(final(self).rx) == replies(old(self).rx) + drain_replies(out@, max as nat),
    {
        let ghost start = replies(self.rx);
        let mut out: Vec<StoreRecord> = Vec::new();
        let mut open = true;
        assert(start =~= start + drain_replies(out@, 0));
        while open && out.len() < max
            invariant
                out@.len() <= max,
                open ==> replies(self.rx) == start + drain_replies(out@, out@.len()),
                !open ==> out@.len() < max && replies(self.rx) == start + drain_replies(
                    out@,
                    max as nat,
                ),
            decreases max - out@.len(), (if open {
                1int
            } else {
                0int
            }),
        {
            let ghost before = out@;
            let reply = try_recv(&mut self.rx);
            open = take_reply(&mut out, reply);
            proof {
                let kept = drain_replies(before, before.len());
                if open {
                    assert(drain_replies(out@, out@.len()) =~= kept.push(reply));
                } else {
                    assert(drain_replies(out@, max as nat) =~= kept.push(reply));
                }
                assert((start + kept).push(reply) =~= start + kept.push(reply));
            }
        }
        out
    }
}

/// An offer goes by the queue alone. The writer is gone exactly where the receiving
/// end is; else the record is dropped exactly where the depth is the capacity; else
/// it is queued and the depth is one more. So it is where `depth` is what was read
/// just before the offer and nothing else happened to the queue in between.
pub proof fn law_an_offer_goes_by_the_queue(
    before: Seq<Sent>,
    record: StoreRecord,
    outcome: Offered,
    capacity: nat,
    after: Seq<Sent>,
    depth: nat,
)
    requires
        sent_once(before, record, outcome, capacity, after),
        after.last().taken == depth,
    ensures
        outcome == Offered::WriterGone <==> after.last().receiver_gone,
        outcome == Offered::Dropped <==> !after.last().receiver_gone && depth == capacity,
        outcome == Offered::Queued <==> !after.last().receiver_gone && depth < capacity,
        outcome == Offered::Queued ==> after.last().taken_after == depth + 1,
        outcome != Offered::Queued ==> after.last().taken_after == depth,
        after.drop_last() == before,
{
    assert(after.drop_last() =~= before);
}

/// A queue of the given capacity.
pub fn channel(capacity: usize) -> (out: (StoreHandle, StoreReceiver))
    requires
        0 < capacity <= usize::MAX / 8,
    ensures
        queue_limit(out.0.tx) == capacity,
        out.0.metrics == (SinkMetrics { offered: 0, queued: 0, dropped: 0, writer_gone: 0 }),
        out.0.metrics.balanced(),
        sends(out.0.tx) == Seq::<Sent>::empty(),
        replies(out.1.rx) == Seq::<Option<StoreRecord>>::empty(),
{
    let (tx, rx) = make_queue(capacity);
    (StoreHandle { tx, metrics: SinkMetrics::default() }, StoreReceiver { rx })
}

/// An offer is counted once among the offers and once under what came of it.
pub proof fn law_an_offer_is_counted_under_its_outcome(metrics: SinkMetrics, outcome: Offered)
    requires
        metrics.offered < u64::MAX,
        metrics.queued < u64::MAX,
        metrics.dropped < u64::MAX,
        metrics.writer_gone < u64::MAX,
    ensures
        ({
            let after = metrics.counting(outcome);
            &&& after.offered == metrics.offered + 1
            &&& after.queued == metrics.queued + (if outcome is Queued {
                1int
            } else {
                0
            })
            &&& after.dropped == metrics.dropped + (if outcome is Dropped {
                1int
            } else {
                0
            })
            &&& after.writer_gone == metrics.writer_gone + (if outcome is WriterGone {
                1int
            } else {
                0
            })
        }),
        metrics.queued + metrics.dropped + metrics.writer_gone <= u64::MAX ==> (metrics.balanced()
            <==> metrics.offered == metrics.queued + metrics.dropped + metrics.writer_gone),
{
}

/// Losses are logged at the powers of two and at no other number.
pub proof fn law_losses_are_logged_at_powers_of_two(dropped: u64, out: bool)
    requires
        call_ensures(logs_loss, (dropped,), out),
    ensures
        out <==> exists|k: nat| #[trigger] vstd::arithmetic::power2::pow2(k) == dropped,
{
    lemma_powers_of_two(dropped as nat);
}

proof fn lemma_powers_of_two(n: nat)
    ensures
        is_power_of_two(n) <==> exists|k: nat| #[trigger] vstd::arithmetic::power2::pow2(k) == n,
    decreases n,
{
    vstd::arithmetic::power2::lemma2_to64();
    if n > 1 {
        lemma_powers_of_two(n / 2);
        if is_power_of_two(n) {
            let k = choose|k: nat| #[trigger] vstd::arithmetic::power2::pow2(k) == n / 2;
            vstd::arithmetic::power2::lemma_pow2_unfold(k + 1);
            assert(vstd::arithmetic::power2::pow2(k + 1) == n);
        }
        if exists|k: nat| #[trigger] vstd::arithmetic::power2::pow2(k) == n {
            let k = choose|k: nat| #[trigger] vstd::arithmetic::power2::pow2(k) == n;
            assert(k > 0);
            vstd::arithmetic::power2::lemma_pow2_unfold(k);
            assert(vstd::arithmetic::power2::pow2((k - 1) as nat) == n / 2);
        }
    } else if n == 1 {
        assert(vstd::arithmetic::power2::pow2(0) == n);
    } else {
        if exists|k: nat| #[trigger] vstd::arithmetic::power2::pow2(k) == n {
            let k = choose|k: nat| #[trigger] vstd::arithmetic::power2::pow2(k) == n;
            vstd::arithmetic::power2::lemma_pow2_pos(k);
        }
    }
}

/// A drain asks once per record it takes, and once more exactly where it stops for want
/// of records; every record that was handed out is among those taken, in order.
pub proof fn law_a_drain_takes_what_was_handed_out(records: Seq<StoreRecord>, max: nat)
    requires
        records.len() <= max,
    ensures
        ({
            let replies = drain_replies(records, max);
            &&& forall|i: int|
                0 <= i < records.len() ==> #[trigger] replies[i] == Some(records[i])
            &&& records.len() == max ==> replies.len() == max
            &&& records.len() < max ==> replies.len() == records.len() + 1 && replies.last() is None
        }),
{
}

/// The depth is the capacity less the room left, and a snapshot of the counts is the
/// counts.
pub proof fn law_the_depth_is_what_is_not_free(
    limit: usize,
    room: usize,
    depth: usize,
    metrics: SinkMetrics,
    counts: SinkCounterSnapshot,
)
    requires
        room <= limit,
        call_ensures(occupied, (limit, room), depth),
        call_ensures(SinkMetrics::snapshot, (&metrics,), counts),
    ensures
        depth + room == limit,
        counts.offered == metrics.offered && counts.queued == metrics.queued && counts.dropped
            == metrics.dropped && counts.writer_gone == metrics.writer_gone,
{
}

/// A reply that holds a record adds it at the end of what was taken; an empty one adds
/// nothing, and only the former asks for more.
pub proof fn law_a_reply_is_taken_as_it_came(reply: Option<StoreRecord>)
    ensures
        forall|taken: &mut Vec<StoreRecord>, out: bool| #[trigger]
            call_ensures(take_reply, (taken, reply), out) ==> {
                &&& out <==> reply is Some
                &&& reply matches Some(record) ==> final(taken)@.len() == taken@.len() + 1
                    && final(taken)@.last() == record && final(taken)@.drop_last() == taken@
                &&& reply is None ==> final(taken)@ == taken@
            },
{
    assert forall|taken: &mut Vec<StoreRecord>, out: bool| #[trigger]
        call_ensures(take_reply, (taken, reply), out) && reply is Some implies final(taken)@.drop_last()
        == taken@ by {
        assert(final(taken)@.drop_last() =~= taken@);
    }
}

/// An offer is counted once and under its outcome, and the queue keeps its size.
pub proof fn law_every_offer_is_counted(record: StoreRecord, outcome: Offered)
    ensures
        forall|handle: &mut StoreHandle, out: Offered| #[trigger]
            call_ensures(StoreHandle::offer, (handle, record), out) && handle.metrics.offered
                < u64::MAX ==> {
                &&& final(handle).metrics.offered == handle.metrics.offered + 1
                &&& queue_limit(final(handle).tx) == queue_limit(handle.tx)
            },
        forall|metrics: &mut SinkMetrics| #[trigger]
            call_ensures(SinkMetrics::count, (metrics, outcome), ()) && metrics.offered < u64::MAX
                ==> final(metrics).offered == metrics.offered + 1,
{
}

/// A queue has the size that was asked for, and starts empty with nothing counted.
pub proof fn law_a_queue_starts_empty(
    capacity: usize,
    out: (StoreHandle, StoreReceiver),
    metrics: &SinkMetrics,
    limit: usize,
    depth: usize,
)
    requires
        call_ensures(channel, (capacity,), out),
        call_ensures(StoreHandle::metrics, (&out.0,), metrics),
        call_ensures(StoreHandle::capacity, (&out.0,), limit),
        call_ensures(StoreHandle::queue_depth, (&out.0,), depth),
    ensures
        metrics.offered == 0 && metrics.queued == 0 && metrics.dropped == 0 && metrics.writer_gone
            == 0,
        limit == capacity,
        depth <= capacity,
{
}

} // verus!
