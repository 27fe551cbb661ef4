//! WebSocket subscriptions: sequence tracking, recovery, commands, backoff.
//!
//! Instants are nanoseconds since the Unix epoch, UTC; durations are
//! nanoseconds too, except for the reconnect schedule, which is in milliseconds.

use crate::json::{
    self, json_object, json_texts, json_uint, json_uints, push_entry, Json, Node,
};
use crate::parse;
use crate::text::{self, same_text};
use crate::wire::{ErrorBody, ServerMessage};
use std::collections::HashMap;
use vstd::prelude::*;

verus! {

// ---------------------------------------------------------------------------
// Pricing convention
// ---------------------------------------------------------------------------
/// Which pricing convention the orderbook channel reports the NO side in.
///
/// There is no default: the exchange's own default is scheduled to flip, which
/// would invert the meaning of every NO-side price without any error.
#[derive(Copy, Clone, Debug, PartialEq, Eq, Structural)]
pub enum PricingConvention {
    /// `use_yes_price: false`.
    NoLegPricing,
    /// `use_yes_price: true`.
    YesLegPricing,
}

#[derive(Debug, Clone, PartialEq, Eq)]
pub enum WsError {
    Closed { reason: String },
    UnknownPricingConvention { value: String },
}

impl PricingConvention {
    pub open spec fn label(self) -> Seq<char> {
        match self {
            PricingConvention::NoLegPricing => "no_leg"@,
            PricingConvention::YesLegPricing => "yes_leg"@,
        }
    }

    pub fn use_yes_price(self) -> (out: bool)
        ensures
            out == (self == PricingConvention::YesLegPricing),
    {
        match self {
            PricingConvention::NoLegPricing => false,
            PricingConvention::YesLegPricing => true,
        }
    }

    /// Stable label written into session metadata.
    pub fn as_str(self) -> (out: &'static str)
        ensures
            out@ == self.label(),
    {
        match self {
            PricingConvention::NoLegPricing => "no_leg",
            PricingConvention::YesLegPricing => "yes_leg",
        }
    }

    /// Parse from configuration.
    pub fn parse(s: &str) -> (result: Result<PricingConvention, WsError>)
        ensures
            match result {
                Ok(convention) => s@ == convention.label(),
                Err(WsError::UnknownPricingConvention { value }) => value@ == s@ && s@
                    != "no_leg"@ && s@ != "yes_leg"@,
                Err(_) => false,
            },
    {
        if same_text(s, "no_leg") {
            Ok(PricingConvention::NoLegPricing)
        } else if same_text(s, "yes_leg") {
            Ok(PricingConvention::YesLegPricing)
        } else {
            Err(WsError::UnknownPricingConvention { value: s.to_owned() })
        }
    }
}

// ---------------------------------------------------------------------------
// Subscription bookkeeping
// ---------------------------------------------------------------------------
/// Tracks the sequence stream of one live subscription.
///
/// A subscription id is never reused, so there is no way to reset a counter: a
/// retired subscription takes its counter with it.
#[derive(Debug)]
pub struct SubscriptionState {
    sid: u64,
    channel: String,
    markets: Vec<String>,
    last_seq: Option<u64>,
    valid: bool,
    gaps: u64,
    invalid_since: Option<i128>,
    invalid_total: i128,
}

/// Everything a [`SubscriptionState`] holds.
pub struct Subscription {
    pub sid: u64,
    pub channel: Seq<char>,
    pub markets: Seq<Seq<char>>,
    pub last_seq: Option<u64>,
    pub valid: bool,
    pub gaps: nat,
    pub invalid_since: Option<int>,
    pub invalid_total: int,
}

impl View for SubscriptionState {
    type V = Subscription;

    closed spec fn view(&self) -> Subscription {
        Subscription {
            sid: self.sid,
            channel: self.channel@,
            markets: text::texts_of(self.markets@),
            last_seq: self.last_seq,
            valid: self.valid,
            gaps: self.gaps as nat,
            invalid_since: match self.invalid_since {
                Some(since) => Some(since as int),
                None => None,
            },
            invalid_total: self.invalid_total as int,
        }
    }
}

/// What happened when a sequenced message was applied.
#[derive(Copy, Clone, Debug, PartialEq, Eq, Structural)]
pub enum SeqOutcome {
    /// Contiguous with the previous message.
    InOrder,
    /// First sequenced message on this subscription.
    First,
    /// One or more messages were skipped: the subscription is now invalid.
    Gap { expected: u64, got: u64, skipped: u64 },
    /// A sequence number at or below the last one seen.
    Regression { last: u64, got: u64 },
}

/// What a sequence number means after the last one seen.
pub open spec fn seq_outcome(last_seq: Option<u64>, seq: u64) -> SeqOutcome {
    match last_seq {
        None => SeqOutcome::First,
        Some(last) => if seq == last + 1 {
            SeqOutcome::InOrder
        } else if seq <= last {
            SeqOutcome::Regression { last, got: seq }
        } else {
            SeqOutcome::Gap {
                expected: (last + 1) as u64,
                got: seq,
                skipped: (seq - last - 1) as u64,
            }
        },
    }
}

/// The subscription after a sequence number was observed.
pub open spec fn after_seq(state: Subscription, seq: u64, now: int) -> Subscription {
    match seq_outcome(state.last_seq, seq) {
        SeqOutcome::Gap { .. } => Subscription {
            gaps: state.gaps + 1,
            last_seq: Some(seq),
            valid: false,
            invalid_since: if state.valid {
                Some(now)
            } else {
                state.invalid_since
            },
            ..state
        },
        SeqOutcome::Regression { .. } => state,
        _ => Subscription { last_seq: Some(seq), ..state },
    }
}

/// Time spent invalid up to `now`.
pub open spec fn invalid_time(state: Subscription, now: int) -> int {
    match state.invalid_since {
        Some(since) => state.invalid_total + (now - since),
        None => state.invalid_total,
    }
}

/// The subscription after a fresh snapshot.
pub open spec fn after_seed(state: Subscription, seq: u64, now: int) -> Subscription {
    if state.valid {
        Subscription { last_seq: Some(seq), ..state }
    } else {
        Subscription {
            last_seq: Some(seq),
            valid: true,
            invalid_since: None,
            invalid_total: invalid_time(state, now),
            ..state
        }
    }
}

/// A subscription that was just registered.
pub open spec fn fresh_subscription(
    sid: u64,
    channel: Seq<char>,
    markets: Seq<Seq<char>>,
    now: int,
) -> Subscription {
    Subscription {
        sid,
        channel,
        markets,
        last_seq: None,
        valid: false,
        gaps: 0,
        invalid_since: Some(now),
        invalid_total: 0,
    }
}

/// Whether the time spent invalid up to `now` can be held.
pub open spec fn time_fits(state: Subscription, now: int) -> bool {
    &&& i128::MIN <= invalid_time(state, now) <= i128::MAX
    &&& (state.invalid_since matches Some(since) ==> i128::MIN <= now - since <= i128::MAX)
}

impl SubscriptionState {
    pub fn sid(&self) -> (out: u64)
        ensures
            out == self@.sid,
    {
        self.sid
    }

    pub fn channel(&self) -> (out: &str)
        ensures
            out@ == self@.channel,
    {
        self.channel.as_str()
    }

    pub fn markets(&self) -> (out: &[String])
        ensures
            text::texts_of(out@) == self@.markets,
    {
        self.markets.as_slice()
    }

    pub fn is_valid(&self) -> (out: bool)
        ensures
            out == self@.valid,
    {
        self.valid
    }

    pub fn gap_count(&self) -> (out: u64)
        ensures
            out == self@.gaps,
    {
        self.gaps
    }

    /// Total time this subscription has spent invalid.
    pub fn invalid_duration(&self, now: i128) -> (out: i128)
        requires
            time_fits(self@, now as int),
        ensures
            out == invalid_time(self@, now as int),
    {
        match self.invalid_since {
            Some(since) => self.invalid_total + (now - since),
            None => self.invalid_total,
        }
    }

    /// Apply a sequence number, returning what it implied.
    ///
    /// A regression does not rewind the high-water mark: accepting a lower
    /// sequence as the new baseline would make the next message look contiguous.
    pub fn observe_seq(&mut self, seq: u64, now: i128) -> (out: SeqOutcome)
        requires
            old(self)@.last_seq != Some(u64::MAX),
            old(self)@.gaps < u64::MAX,
        ensures
            out == seq_outcome(old(self)@.last_seq, seq),
            final(self)@ == after_seq(old(self)@, seq, now as int),
    {
        let outcome = match self.last_seq {
            None => SeqOutcome::First,
            Some(last) => if seq == last + 1 {
                SeqOutcome::InOrder
            } else if seq <= last {
                SeqOutcome::Regression { last, got: seq }
            } else {
                SeqOutcome::Gap { expected: last + 1, got: seq, skipped: seq - last - 1 }
            },
        };
        match outcome {
            SeqOutcome::Gap { .. } => {
                self.gaps = self.gaps + 1;
                self.invalidate(now);
                self.last_seq = Some(seq);
            },
            SeqOutcome::Regression { .. } => {},
            SeqOutcome::First => {
                self.last_seq = Some(seq);
            },
            SeqOutcome::InOrder => {
                self.last_seq = Some(seq);
            },
        }
        outcome
    }

    /// Seed from a fresh snapshot: the book is authoritative again.
    pub fn accept_snapshot(&mut self, seq: u64, now: i128)
        requires
            time_fits(old(self)@, now as int),
        ensures
            final(self)@ == after_seed(old(self)@, seq, now as int),
    {
        self.last_seq = Some(seq);
        if !self.valid {
            if let Some(since) = self.invalid_since {
                self.invalid_since = None;
                self.invalid_total = self.invalid_total + (now - since);
            }
            self.valid = true;
        }
    }

    fn invalidate(&mut self, now: i128)
        ensures
            final(self)@ == (Subscription {
                valid: false,
                invalid_since: if old(self)@.valid {
                    Some(now as int)
                } else {
                    old(self)@.invalid_since
                },
                ..old(self)@
            }),
    {
        if self.valid {
            self.valid = false;
            self.invalid_since = Some(now);
        }
    }
}

/// How a subscription was brought back to a valid state, cheapest first.
#[derive(Copy, Clone, Debug, PartialEq, Eq, Structural, Hash)]
pub enum RecoveryMethod {
    /// A fresh snapshot without modifying the subscription.
    GetSnapshot,
    /// Unsubscribe and resubscribe: a new subscription id.
    Resubscribe,
    /// Tear down the whole connection.
    Reconnect,
}

impl RecoveryMethod {
    /// The ladder, cheapest first.
    pub fn ladder() -> (out: [RecoveryMethod; 3])
        ensures
            out@ == seq![
                RecoveryMethod::GetSnapshot,
                RecoveryMethod::Resubscribe,
                RecoveryMethod::Reconnect,
            ],
    {
        let out = [
            RecoveryMethod::GetSnapshot,
            RecoveryMethod::Resubscribe,
            RecoveryMethod::Reconnect,
        ];
        assert(out@ =~= seq![
            RecoveryMethod::GetSnapshot,
            RecoveryMethod::Resubscribe,
            RecoveryMethod::Reconnect,
        ]);
        out
    }

    pub open spec fn label(self) -> Seq<char> {
        match self {
            RecoveryMethod::GetSnapshot => "get_snapshot"@,
            RecoveryMethod::Resubscribe => "resubscribe"@,
            RecoveryMethod::Reconnect => "reconnect"@,
        }
    }

    pub open spec fn next_rung(self) -> Option<RecoveryMethod> {
        match self {
            RecoveryMethod::GetSnapshot => Some(RecoveryMethod::Resubscribe),
            RecoveryMethod::Resubscribe => Some(RecoveryMethod::Reconnect),
            RecoveryMethod::Reconnect => None,
        }
    }

    pub fn as_str(self) -> (out: &'static str)
        ensures
            out@ == self.label(),
    {
        match self {
            RecoveryMethod::GetSnapshot => "get_snapshot",
            RecoveryMethod::Resubscribe => "resubscribe",
            RecoveryMethod::Reconnect => "reconnect",
        }
    }

    /// The next rung when this one fails to restore validity.
    pub fn escalate(self) -> (out: Option<RecoveryMethod>)
        ensures
            out == self.next_rung(),
    {
        match self {
            RecoveryMethod::GetSnapshot => Some(RecoveryMethod::Resubscribe),
            RecoveryMethod::Resubscribe => Some(RecoveryMethod::Reconnect),
            RecoveryMethod::Reconnect => None,
        }
    }
}

// ---------------------------------------------------------------------------
// The registry
// ---------------------------------------------------------------------------
/// Live subscriptions, keyed by their server-issued id.
#[derive(Debug)]
pub struct SubscriptionRegistry {
    by_sid: HashMap<u64, SubscriptionState>,
    snapshots_requested: u64,
    resubscribes: u64,
    reconnects: u64,
}

/// Everything a [`SubscriptionRegistry`] holds.
pub struct Registry {
    pub by_sid: Map<u64, SubscriptionState>,
    pub snapshots_requested: nat,
    pub resubscribes: nat,
    pub reconnects: nat,
}

impl Registry {
    pub open spec fn recoveries(self, method: RecoveryMethod) -> nat {
        match method {
            RecoveryMethod::GetSnapshot => self.snapshots_requested,
            RecoveryMethod::Resubscribe => self.resubscribes,
            RecoveryMethod::Reconnect => self.reconnects,
        }
    }

    /// The registry with `state` under `sid`.
    pub open spec fn with(self, sid: u64, state: SubscriptionState) -> Registry {
        Registry { by_sid: self.by_sid.insert(sid, state), ..self }
    }

    /// The registry without `sid`.
    pub open spec fn without(self, sid: u64) -> Registry {
        Registry { by_sid: self.by_sid.remove(sid), ..self }
    }
}

impl View for SubscriptionRegistry {
    type V = Registry;

    closed spec fn view(&self) -> Registry {
        Registry {
            by_sid: self.by_sid@,
            snapshots_requested: self.snapshots_requested as nat,
            resubscribes: self.resubscribes as nat,
            reconnects: self.reconnects as nat,
        }
    }
}

/// The gaps counted over all subscriptions.
pub open spec fn gaps_of(by_sid: Map<u64, SubscriptionState>) -> nat
    decreases by_sid.dom().len(),
    when by_sid.dom().finite()
{
    if by_sid.dom().len() == 0 {
        0
    } else {
        let sid = by_sid.dom().choose();
        by_sid[sid]@.gaps + gaps_of(by_sid.remove(sid))
    }
}

/// Which subscription is taken first does not matter for the sum.
proof fn lemma_gaps_of_remove(by_sid: Map<u64, SubscriptionState>, sid: u64)
    requires
        by_sid.dom().finite(),
        by_sid.contains_key(sid),
    ensures
        gaps_of(by_sid) == by_sid[sid]@.gaps + gaps_of(by_sid.remove(sid)),
    decreases by_sid.dom().len(),
{
    assert(by_sid.dom().contains(sid));
    let first = by_sid.dom().choose();
    assert(by_sid.dom().contains(first)) by {
        vstd::set::axiom_set_choose_len(by_sid.dom());
    }
    if first != sid {
        let rest = by_sid.remove(first);
        lemma_gaps_of_remove(rest, sid);
        lemma_gaps_of_remove(by_sid.remove(sid), first);
        assert(rest.remove(sid) =~= by_sid.remove(sid).remove(first));
    }
}

/// `HashMap::get_mut` lends the value at a key, so that what is written through
/// it stands in the map afterwards; it gives nothing exactly when the key is
/// absent, and then changes nothing.
#[verifier::external_body]
fn state_mut(by_sid: &mut HashMap<u64, SubscriptionState>, sid: u64) -> (out: Option<
    &mut SubscriptionState,
>)
    ensures
        match out {
            Some(state) => old(by_sid)@.contains_key(sid) && *state == old(by_sid)@[sid]
                && final(by_sid)@ == old(by_sid)@.insert(sid, *final(state)),
            None => !old(by_sid)@.contains_key(sid) && final(by_sid)@ == old(by_sid)@,
        },
{
    by_sid.get_mut(&sid)
}

impl SubscriptionRegistry {
    pub fn new() -> (out: SubscriptionRegistry)
        ensures
            out@ == (Registry {
                by_sid: Map::empty(),
                snapshots_requested: 0,
                resubscribes: 0,
                reconnects: 0,
            }),
    {
        SubscriptionRegistry {
            by_sid: HashMap::new(),
            snapshots_requested: 0,
            resubscribes: 0,
            reconnects: 0,
        }
    }

    /// Register an id the server just handed out. It is not valid until a
    /// snapshot arrives.
    pub fn register(&mut self, sid: u64, channel: String, markets: Vec<String>, now: i128)
        ensures
            final(self)@.by_sid.contains_key(sid),
            final(self)@.by_sid[sid]@ == fresh_subscription(
                sid,
                channel@,
                text::texts_of(markets@),
                now as int,
            ),
            final(self)@ == old(self)@.with(sid, final(self)@.by_sid[sid]),
    {
        let state = SubscriptionState {
            sid,
            channel,
            markets,
            last_seq: None,
            valid: false,
            gaps: 0,
            invalid_since: Some(now),
            invalid_total: 0,
        };
        self.by_sid.insert(sid, state);
    }

    /// Drop an id for good, its sequence counter included.
    pub fn retire(&mut self, sid: u64) -> (out: Option<SubscriptionState>)
        ensures
            match out {
                Some(state) => old(self)@.by_sid.contains_key(sid) && state
                    == old(self)@.by_sid[sid],
                None => !old(self)@.by_sid.contains_key(sid),
            },
            final(self)@ == old(self)@.without(sid),
    {
        let out = self.by_sid.remove(&sid);
        assert(self.by_sid@ =~= old(self).by_sid@.remove(sid));
        out
    }

    /// Drop every id. Used when the connection itself goes away.
    pub fn retire_all(&mut self)
        ensures
            final(self)@ == (Registry { by_sid: Map::empty(), ..old(self)@ }),
    {
        self.by_sid.clear();
    }

    pub fn get(&self, sid: u64) -> (out: Option<&SubscriptionState>)
        ensures
            match out {
                Some(state) => self@.by_sid.contains_key(sid) && *state == self@.by_sid[sid],
                None => !self@.by_sid.contains_key(sid),
            },
    {
        self.by_sid.get(&sid)
    }

    pub fn get_mut(&mut self, sid: u64) -> (out: Option<&mut SubscriptionState>)
        ensures
            match out {
                Some(state) => old(self)@.by_sid.contains_key(sid) && *state
                    == old(self)@.by_sid[sid] && final(self)@ == old(self)@.with(
                    sid,
                    *final(state),
                ),
                None => !old(self)@.by_sid.contains_key(sid) && final(self)@ == old(self)@,
            },
    {
        state_mut(&mut self.by_sid, sid)
    }

    pub fn len(&self) -> (out: usize)
        ensures
            out == self@.by_sid.len(),
    {
        self.by_sid.len()
    }

    pub fn is_empty(&self) -> (out: bool)
        ensures
            out == (self@.by_sid.len() == 0),
    {
        self.by_sid.len() == 0
    }

    /// The live ids, each once, in no particular order.
    pub fn sids(&self) -> (out: Vec<u64>)
        ensures
            out@.no_duplicates(),
            out@.to_set() == self@.by_sid.dom(),
    {
        let mut out: Vec<u64> = Vec::new();
        let keys = self.by_sid.keys();
        let ghost all = vstd::std_specs::iter::IteratorSpec::remaining(&keys);
        for sid in it: keys
            invariant
                it.seq() == all,
                out@.len() == it.index(),
                forall|i: int| 0 <= i < out@.len() ==> #[trigger] out@[i] == *all[i],
        {
            out.push(*sid);
        }
        assert(out@ =~= all.unref());
        out
    }

    /// Subscriptions currently unusable, each once, in no particular order.
    pub fn invalid_sids(&self) -> (out: Vec<u64>)
        ensures
            out@.no_duplicates(),
            forall|sid: u64|
                out@.contains(sid) <==> self@.by_sid.contains_key(sid)
                    && !self@.by_sid[sid]@.valid,
    {
        let sids = self.sids();
        let mut out: Vec<u64> = Vec::new();
        let mut i: usize = 0;
        while i < sids.len()
            invariant
                i <= sids@.len(),
                sids@.no_duplicates(),
                sids@.to_set() == self@.by_sid.dom(),
                out@.no_duplicates(),
                forall|sid: u64|
                    out@.contains(sid) <==> sids@.take(i as int).contains(sid)
                        && !self@.by_sid[sid]@.valid,
            decreases sids@.len() - i,
        {
            let sid = sids[i];
            assert(sids@.to_set().contains(sid));
            assert(self.by_sid@.contains_key(sid));
            let ghost before = sids@.take(i as int);
            let ghost after = sids@.take(i + 1);
            assert(after =~= before.push(sid));
            assert(!before.contains(sid)) by {
                if before.contains(sid) {
                    let j = choose|j: int| 0 <= j < before.len() && before[j] == sid;
                    assert(sids@[j] == sids@[i as int]);
                }
            }
            let ghost collected = out@;
            let usable = match self.by_sid.get(&sid) {
                Some(state) => state.valid,
                None => true,
            };
            if !usable {
                assert(!collected.contains(sid));
                out.push(sid);
            }
            proof {
                assert forall|a: int, b: int| 0 <= a < b < out@.len() implies out@[a] != out@[b] by {
                    assert(collected.contains(out@[a]));
                }
                assert forall|s: u64| out@.contains(s) <==> after.contains(s)
                    && !self@.by_sid[s]@.valid by {
                    lemma_push_contains(before, sid, s);
                    lemma_push_contains(collected, sid, s);
                }
            }
            i += 1;
        }
        assert(sids@.take(sids@.len() as int) =~= sids@);
        assert forall|sid: u64| out@.contains(sid) <==> self@.by_sid.contains_key(sid)
            && !self@.by_sid[sid]@.valid by {
            assert(sids@.to_set().contains(sid) <==> sids@.contains(sid));
        }
        out
    }

    /// The gaps counted over all live subscriptions.
    pub fn total_gaps(&self) -> (out: u64)
        requires
            gaps_of(self@.by_sid) <= u64::MAX,
        ensures
            out == gaps_of(self@.by_sid),
    {
        let sids = self.sids();
        let ghost mut rest = self.by_sid@;
        assert(sids@.skip(0) =~= sids@);
        assert forall|sid: u64| #[trigger] rest.contains_key(sid) <==> sids@.skip(0).contains(
            sid,
        ) by {
            assert(sids@.to_set().contains(sid) <==> sids@.contains(sid));
        }
        let mut out: u64 = 0;
        let mut i: usize = 0;
        while i < sids.len()
            invariant
                i <= sids@.len(),
                sids@.no_duplicates(),
                sids@.to_set() == self.by_sid@.dom(),
                rest.dom().finite(),
                forall|sid: u64| #[trigger]
                    rest.contains_key(sid) <==> sids@.skip(i as int).contains(sid),
                forall|sid: u64| #[trigger]
                    rest.contains_key(sid) ==> self.by_sid@.contains_key(sid) && rest[sid]
                        == self.by_sid@[sid],
                out + gaps_of(rest) == gaps_of(self.by_sid@),
                gaps_of(self.by_sid@) <= u64::MAX,
            decreases sids@.len() - i,
        {
            let sid = sids[i];
            let ghost tail = sids@.skip(i as int);
            assert(tail[0] == sid);
            assert(rest.contains_key(sid));
            proof {
                lemma_gaps_of_remove(rest, sid);
            }
            let gaps: u64 = match self.by_sid.get(&sid) {
                Some(state) => state.gaps,
                None => 0,
            };
            out = out + gaps;
            proof {
                let next = sids@.skip(i + 1);
                assert forall|s: u64| #[trigger] rest.remove(sid).contains_key(s) <==> next.contains(
                    s,
                ) by {
                    if next.contains(s) {
                        let j = choose|j: int| 0 <= j < next.len() && next[j] == s;
                        assert(tail[j + 1] == s);
                        assert(sids@[i + 1 + j] == s);
                        assert(s != sid);
                    }
                    if rest.contains_key(s) && s != sid {
                        let j = choose|j: int| 0 <= j < tail.len() && tail[j] == s;
                        assert(next[j - 1] == s);
                    }
                }
                rest = rest.remove(sid);
            }
            i += 1;
        }
        proof {
            assert(rest.dom() =~= Set::<u64>::empty()) by {
                assert forall|s: u64| !rest.contains_key(s) by {
                    assert(!sids@.skip(i as int).contains(s));
                }
            }
        }
        out
    }

    pub fn record_recovery(&mut self, method: RecoveryMethod)
        requires
            old(self)@.recoveries(method) < u64::MAX,
        ensures
            final(self)@.by_sid == old(self)@.by_sid,
            forall|other: RecoveryMethod| #[trigger]
                final(self)@.recoveries(other) == old(self)@.recoveries(other) + (if other
                    == method {
                    1nat
                } else {
                    0nat
                }),
    {
        match method {
            RecoveryMethod::GetSnapshot => {
                self.snapshots_requested = self.snapshots_requested + 1;
            },
            RecoveryMethod::Resubscribe => {
                self.resubscribes = self.resubscribes + 1;
            },
            RecoveryMethod::Reconnect => {
                self.reconnects = self.reconnects + 1;
            },
        }
    }

    /// The recoveries recorded so far, by the name of the method.
    pub fn recovery_counts(&self) -> (out: Vec<(RecoveryMethod, u64)>)
        ensures
            counts_text(out@) == recovery_listing(self@),
    {
        let mut out: Vec<(RecoveryMethod, u64)> = Vec::new();
        if self.snapshots_requested > 0 {
            out.push((RecoveryMethod::GetSnapshot, self.snapshots_requested));
        }
        if self.reconnects > 0 {
            out.push((RecoveryMethod::Reconnect, self.reconnects));
        }
        if self.resubscribes > 0 {
            out.push((RecoveryMethod::Resubscribe, self.resubscribes));
        }
        assert(counts_text(out@) =~= recovery_listing(self@));
        out
    }
}

pub open spec fn counts_text(list: Seq<(RecoveryMethod, u64)>) -> Seq<(RecoveryMethod, nat)> {
    list.map_values(|entry: (RecoveryMethod, u64)| (entry.0, entry.1 as nat))
}

pub open spec fn listed(registry: Registry, method: RecoveryMethod) -> Seq<(RecoveryMethod, nat)> {
    if registry.recoveries(method) > 0 {
        seq![(method, registry.recoveries(method))]
    } else {
        Seq::empty()
    }
}

/// The methods that were used at all, in the order of their labels.
pub open spec fn recovery_listing(registry: Registry) -> Seq<(RecoveryMethod, nat)> {
    listed(registry, RecoveryMethod::GetSnapshot) + listed(registry, RecoveryMethod::Reconnect)
        + listed(registry, RecoveryMethod::Resubscribe)
}

proof fn lemma_push_contains(s: Seq<u64>, x: u64, y: u64)
    ensures
        s.push(x).contains(y) <==> s.contains(y) || y == x,
{
    if s.contains(y) {
        let j = choose|j: int| 0 <= j < s.len() && s[j] == y;
        assert(s.push(x)[j] == y);
    }
    assert(s.push(x)[s.len() as int] == x);
    if s.push(x).contains(y) && y != x {
        let j = choose|j: int| 0 <= j < s.push(x).len() && s.push(x)[j] == y;
        assert(s[j] == y);
    }
}

// ---------------------------------------------------------------------------
// Commands
// ---------------------------------------------------------------------------
/// Client-to-server commands. Market data only: no order surface exists here.
#[derive(Debug)]
pub enum Command {
    Subscribe {
        id: u64,
        channels: Vec<String>,
        market_tickers: Vec<String>,
        /// Sent explicitly on orderbook subscriptions.
        use_yes_price: Option<bool>,
    },
    Unsubscribe { id: u64, sids: Vec<u64> },
    /// Request a fresh snapshot without modifying the subscription.
    GetSnapshot { id: u64, sid: u64, market_tickers: Vec<String> },
}

/// The subscribe parameters: channels always, markets where there are any, the
/// pricing flag where it is set.
pub open spec fn subscribe_params(
    channels: Seq<String>,
    market_tickers: Seq<String>,
    use_yes_price: Option<bool>,
) -> Seq<(Seq<char>, Node)> {
    seq![("channels"@, Node::Array(json::text_nodes(channels)))] + (if market_tickers.len() > 0 {
        seq![("market_tickers"@, Node::Array(json::text_nodes(market_tickers)))]
    } else {
        Seq::empty()
    }) + (match use_yes_price {
        Some(flag) => seq![("use_yes_price"@, Node::Bool(flag))],
        None => Seq::empty(),
    })
}

impl Command {
    /// The JSON document of a command.
    pub open spec fn document(self) -> Node {
        match self {
            Command::Subscribe { id, channels, market_tickers, use_yes_price } => command_node(
                id,
                "subscribe"@,
                subscribe_params(channels@, market_tickers@, use_yes_price),
            ),
            Command::Unsubscribe { id, sids } => command_node(
                id,
                "unsubscribe"@,
                seq![("sids"@, Node::Array(json::uint_nodes(sids@)))],
            ),
            Command::GetSnapshot { id, sid, market_tickers } => command_node(
                id,
                "update_subscription"@,
                seq![
                    ("sids"@, Node::Array(seq![json::uint_node(sid)])),
                    ("action"@, Node::Text("get_snapshot"@)),
                    ("market_tickers"@, Node::Array(json::text_nodes(market_tickers@))),
                ],
            ),
        }
    }

    /// The command as plain JSON data.
    pub fn to_value(&self) -> (out: Json)
        ensures
            out@ == self.document(),
    {
        let mut params: Vec<(String, Json)> = Vec::new();
        assert(json::entries_node(params@) =~= Seq::empty());
        match self {
            Command::Subscribe { id, channels, market_tickers, use_yes_price } => {
                push_entry(&mut params, "channels", json_texts(channels));
                if market_tickers.len() > 0 {
                    push_entry(&mut params, "market_tickers", json_texts(market_tickers));
                }
                if let Some(flag) = use_yes_price {
                    push_entry(&mut params, "use_yes_price", Json::Bool(*flag));
                }
                assert(json::entries_node(params@) =~= subscribe_params(
                    channels@,
                    market_tickers@,
                    *use_yes_price,
                ));
                command_json(*id, "subscribe", params)
            },
            Command::Unsubscribe { id, sids } => {
                push_entry(&mut params, "sids", json_uints(sids));
                assert(json::entries_node(params@) =~= seq![
                    ("sids"@, Node::Array(json::uint_nodes(sids@))),
                ]);
                command_json(*id, "unsubscribe", params)
            },
            Command::GetSnapshot { id, sid, market_tickers } => {
                let one: Vec<u64> = vec![*sid];
                push_entry(&mut params, "sids", json_uints(&one));
                push_entry(&mut params, "action", Json::Text("get_snapshot".to_owned()));
                push_entry(&mut params, "market_tickers", json_texts(market_tickers));
                assert(json::uint_nodes(one@) =~= seq![json::uint_node(*sid)]);
                assert(json::entries_node(params@) =~= seq![
                    ("sids"@, Node::Array(seq![json::uint_node(*sid)])),
                    ("action"@, Node::Text("get_snapshot"@)),
                    ("market_tickers"@, Node::Array(json::text_nodes(market_tickers@))),
                ]);
                command_json(*id, "update_subscription", params)
            },
        }
    }

    /// The command as it goes over the wire.
    pub fn to_json(&self) -> (out: String)
        ensures
            out@ == json::json_text(self.document()),
    {
        self.to_value().to_text()
    }
}

pub open spec fn command_node(id: u64, cmd: Seq<char>, params: Seq<(Seq<char>, Node)>) -> Node {
    Node::Object(
        seq![
            ("id"@, json::uint_node(id)),
            ("cmd"@, Node::Text(cmd)),
            ("params"@, Node::Object(params)),
        ],
    )
}

fn command_json(id: u64, cmd: &str, params: Vec<(String, Json)>) -> (out: Json)
    ensures
        out@ == command_node(id, cmd@, json::entries_node(params@)),
{
    let mut entries: Vec<(String, Json)> = Vec::new();
    assert(json::entries_node(entries@) =~= Seq::empty());
    push_entry(&mut entries, "id", json_uint(id));
    push_entry(&mut entries, "cmd", Json::Text(cmd.to_owned()));
    push_entry(&mut entries, "params", json_object(params));
    let out = json_object(entries);
    assert(out@->Object_0 =~= command_node(id, cmd@, json::entries_node(params@))->Object_0);
    out
}

/// Issues the commands of one connection, each under its own id.
#[derive(Debug)]
pub struct CommandDesk {
    pub next_command_id: u64,
}

pub open spec fn has_text(texts: Seq<String>, text: Seq<char>) -> bool {
    exists|i: int| 0 <= i < texts.len() && (#[trigger] texts[i])@ == text
}

/// Whether one of the texts is `text`.
pub fn contains_text(texts: &Vec<String>, text: &str) -> (out: bool)
    ensures
        out == has_text(texts@, text@),
{
    let mut i: usize = 0;
    while i < texts.len()
        invariant
            i <= texts@.len(),
            forall|k: int| 0 <= k < i ==> (#[trigger] texts@[k])@ != text@,
        decreases texts@.len() - i,
    {
        if same_text(texts[i].as_str(), text) {
            return true;
        }
        i += 1;
    }
    false
}

/// The pricing flag of a subscription: set where the orderbook channel is among its
/// channels.
pub open spec fn pricing_flag(channels: Seq<String>, convention: PricingConvention) -> Option<
    bool,
> {
    if has_text(channels, "orderbook_delta"@) {
        Some(convention == PricingConvention::YesLegPricing)
    } else {
        None
    }
}

impl CommandDesk {
    /// A new connection counts its commands from one.
    pub fn new() -> (out: CommandDesk)
        ensures
            out.next_command_id == 1,
    {
        CommandDesk { next_command_id: 1 }
    }

    fn take_command_id(&mut self) -> (out: u64)
        requires
            old(self).next_command_id < u64::MAX,
        ensures
            out == old(self).next_command_id,
            final(self).next_command_id == out + 1,
    {
        let id = self.next_command_id;
        self.next_command_id = id + 1;
        id
    }

    /// Subscribe to `channels` for `market_tickers`. The pricing flag is sent
    /// explicitly whenever the orderbook channel is among them, and only then.
    pub fn subscribe(
        &mut self,
        channels: Vec<String>,
        market_tickers: Vec<String>,
        convention: PricingConvention,
    ) -> (out: Command)
        requires
            old(self).next_command_id < u64::MAX,
        ensures
            final(self).next_command_id == old(self).next_command_id + 1,
            out == (Command::Subscribe {
                id: old(self).next_command_id,
                channels,
                market_tickers,
                use_yes_price: pricing_flag(channels@, convention),
            }),
    {
        let id = self.take_command_id();
        let use_yes_price = if contains_text(&channels, "orderbook_delta") {
            Some(convention.use_yes_price())
        } else {
            None
        };
        Command::Subscribe { id, channels, market_tickers, use_yes_price }
    }

    /// Request a fresh snapshot without touching the subscription.
    pub fn request_snapshot(&mut self, sid: u64, market_tickers: Vec<String>) -> (out: Command)
        requires
            old(self).next_command_id < u64::MAX,
        ensures
            final(self).next_command_id == old(self).next_command_id + 1,
            out == (Command::GetSnapshot { id: old(self).next_command_id, sid, market_tickers }),
    {
        let id = self.take_command_id();
        Command::GetSnapshot { id, sid, market_tickers }
    }

    pub fn unsubscribe(&mut self, sids: Vec<u64>) -> (out: Command)
        requires
            old(self).next_command_id < u64::MAX,
        ensures
            final(self).next_command_id == old(self).next_command_id + 1,
            out == (Command::Unsubscribe { id: old(self).next_command_id, sids }),
    {
        let id = self.take_command_id();
        Command::Unsubscribe { id, sids }
    }
}

// ---------------------------------------------------------------------------
// Reconnect backoff
// ---------------------------------------------------------------------------
/// Exponential backoff, in milliseconds. How far a delay is spread about its
/// base is the caller's choice, since it depends on a fraction.
#[derive(Clone, Debug)]
pub struct Backoff {
    pub initial: u64,
    pub max: u64,
    pub current: u64,
}

/// Twice the delay, up to the maximum.
pub open spec fn next_base(current: u64, max: u64) -> u64 {
    if 2 * current > max {
        max
    } else {
        (2 * current) as u64
    }
}

/// `base - spread + offset`, neither below zero nor beyond what fits.
pub open spec fn spread_delay(base: u64, spread: u64, offset: u64) -> int {
    let low = if base >= spread {
        base - spread
    } else {
        0
    };
    if low + offset > u64::MAX {
        u64::MAX as int
    } else {
        low + offset
    }
}

/// The delay for one choice of the random offset.
pub fn jittered(base: u64, spread: u64, offset: u64) -> (out: u64)
    ensures
        out == spread_delay(base, spread, offset),
{
    base.saturating_sub(spread).saturating_add(offset)
}

/// `rand::random_range` over `0..=bound` gives some number of that range.
#[verifier::external_body]
fn random_up_to(bound: u64) -> (out: u64)
    ensures
        out <= bound,
{
    rand::random_range(0..=bound)
}

impl Backoff {
    pub fn new(initial: u64, max: u64) -> (out: Backoff)
        ensures
            out == (Backoff { initial, max, current: initial }),
    {
        Backoff { initial, max, current: initial }
    }

    /// Next delay, spread by up to `spread` to either side. Advances the
    /// schedule.
    pub fn next_delay(&mut self, spread: u64) -> (out: u64)
        ensures
            *final(self) == (Backoff {
                current: next_base(old(self).current, old(self).max),
                ..*old(self)
            }),
            spread == 0 ==> out == old(self).current,
            exists|offset: u64|
                offset <= 2 * spread && out == #[trigger] spread_delay(
                    old(self).current,
                    spread,
                    offset,
                ),
    {
        let base = self.current;
        self.current = if base > self.max || base > self.max - base {
            self.max
        } else {
            base + base
        };
        if spread == 0 {
            assert(spread_delay(base, 0, 0) == base);
            return base;
        }
        let bound: u64 = if spread > u64::MAX / 2 {
            u64::MAX
        } else {
            spread * 2
        };
        let offset = random_up_to(bound);
        jittered(base, spread, offset)
    }

    /// Reset after a successful connection.
    pub fn reset(&mut self)
        ensures
            *final(self) == (Backoff { current: old(self).initial, ..*old(self) }),
    {
        self.current = self.initial;
    }

    pub fn peek(&self) -> (out: u64)
        ensures
            out == self.current,
    {
        self.current
    }
}

// ---------------------------------------------------------------------------
// Receiving
// ---------------------------------------------------------------------------
/// One message as received, with the raw text preserved.
#[derive(Clone, Debug)]
pub struct ReceivedMessage {
    /// Local receive time, taken immediately on read.
    pub received_at: i128,
    /// The exact text off the wire.
    pub raw: String,
    /// Nothing when the payload could not be understood; `raw` is still kept.
    pub parsed: Option<ServerMessage>,
}

/// A frame of the socket.
#[derive(Debug)]
pub enum Frame {
    Text(String),
    /// Ping, pong, binary, or a raw frame: nothing to deliver.
    Other,
    /// A close frame with its code and reason, if the peer sent them.
    Close(Option<(u16, String)>),
    /// The stream ended without a close frame.
    Ended,
}

/// What becomes of a frame: the text to deliver, nothing, or the reason why the
/// socket is closed.
pub open spec fn frame_text(frame: Frame) -> Option<Seq<char>> {
    match frame {
        Frame::Text(text) => Some(text@),
        _ => None,
    }
}

pub open spec fn close_reason(frame: Frame) -> Option<Seq<char>> {
    match frame {
        Frame::Close(Some((code, reason))) => Some(
            parse::decimal(code as nat) + seq![' '] + reason@,
        ),
        Frame::Close(None) => Some("no close frame"@),
        Frame::Ended => Some("stream ended"@),
        _ => None,
    }
}

/// Read one frame: text is delivered, control frames carry nothing, and a
/// closed socket is an error with its reason.
pub fn read_frame(frame: Frame) -> (result: Result<Option<String>, WsError>)
    ensures
        match result {
            Ok(text) => close_reason(frame) is None && json::opt_string(text) == frame_text(frame),
            Err(WsError::Closed { reason }) => close_reason(frame) == Some(reason@),
            Err(_) => false,
        },
{
    match frame {
        Frame::Text(text) => Ok(Some(text)),
        Frame::Other => Ok(None),
        Frame::Close(Some((code, reason))) => {
            let mut text = String::new();
            parse::push_decimal(&mut text, code as u128);
            text.push(' ');
            text.append(reason.as_str());
            assert(text@ =~= parse::decimal(code as nat) + seq![' '] + reason@);
            Err(WsError::Closed { reason: text })
        },
        Frame::Close(None) => Err(WsError::Closed { reason: "no close frame".to_owned() }),
        Frame::Ended => Err(WsError::Closed { reason: "stream ended".to_owned() }),
    }
}

/// Decide how to react to a server error message: a terminal error means the
/// subscription itself is gone, so only a resubscribe can help.
pub fn recovery_for_error(error: &ErrorBody) -> (out: Option<RecoveryMethod>)
    ensures
        out == (if error.kills_subscription() {
            Some(RecoveryMethod::Resubscribe)
        } else {
            None
        }),
{
    if error.is_buffer_overflow() {
        return Some(RecoveryMethod::Resubscribe);
    }
    if error.is_terminal() {
        return Some(RecoveryMethod::Resubscribe);
    }
    None
}

// ---------------------------------------------------------------------------
// Laws
// ---------------------------------------------------------------------------
/// The high-water mark never goes back, and a regression changes nothing at all.
pub proof fn law_sequences_never_rewind(state: Subscription, seq: u64, now: int)
    requires
        state.last_seq is Some,
    ensures
        after_seq(state, seq, now).last_seq matches Some(after) && after >= state.last_seq->0,
        seq <= state.last_seq->0 ==> after_seq(state, seq, now) == state,
{
}

/// Only a snapshot makes a subscription valid, and a gap always makes it
/// invalid and is always counted.
pub proof fn law_gaps_invalidate_and_are_counted(state: Subscription, seq: u64, now: int)
    ensures
        after_seq(state, seq, now).valid ==> state.valid,
        seq_outcome(state.last_seq, seq) is Gap ==> !after_seq(state, seq, now).valid && after_seq(
            state,
            seq,
            now,
        ).gaps == state.gaps + 1,
        !(seq_outcome(state.last_seq, seq) is Gap) ==> after_seq(state, seq, now).valid
            == state.valid && after_seq(state, seq, now).gaps == state.gaps,
{
}

/// The pricing convention goes over the wire with every orderbook subscription,
/// whatever the server's default, and it is the one that was asked for.
pub proof fn law_the_convention_is_sent(
    channels: Seq<String>,
    market_tickers: Seq<String>,
    convention: PricingConvention,
)
    requires
        has_text(channels, "orderbook_delta"@),
    ensures
        subscribe_params(channels, market_tickers, pricing_flag(channels, convention)).last() == (
            "use_yes_price"@,
            Node::Bool(convention == PricingConvention::YesLegPricing),
        ),
{
}

/// Separate outages add up: an outage that starts with a gap and ends with a
/// snapshot adds exactly its own length.
pub proof fn law_outages_accumulate(
    state: Subscription,
    gap_seq: u64,
    lost_at: int,
    snapshot_seq: u64,
    restored_at: int,
)
    requires
        state.valid,
        state.invalid_since is None,
        seq_outcome(state.last_seq, gap_seq) is Gap,
    ensures
        ({
            let lost = after_seq(state, gap_seq, lost_at);
            let restored = after_seed(lost, snapshot_seq, restored_at);
            &&& restored.valid
            &&& restored.invalid_since is None
            &&& restored.invalid_total == state.invalid_total + (restored_at - lost_at)
        }),
{
}

/// Subscriptions do not interfere: whatever is registered, retired or changed
/// under one id, every other subscription stays as it was, and so do the recovery
/// counts.
pub proof fn law_subscriptions_do_not_interfere(
    registry: Registry,
    sid: u64,
    state: SubscriptionState,
    other: u64,
    method: RecoveryMethod,
)
    requires
        other != sid,
    ensures
        registry.with(sid, state).by_sid.contains_key(other) == registry.by_sid.contains_key(other),
        registry.with(sid, state).by_sid[other] == registry.by_sid[other],
        registry.without(sid).by_sid.contains_key(other) == registry.by_sid.contains_key(other),
        registry.by_sid.contains_key(other) ==> registry.without(sid).by_sid[other]
            == registry.by_sid[other],
        registry.with(sid, state).recoveries(method) == registry.recoveries(method),
        registry.without(sid).recoveries(method) == registry.recoveries(method),
{
}

/// A retired id takes its sequence counter with it: nothing is left under it, and
/// should it come again, it starts invalid, without gaps, and its first sequence
/// number is the first whatever was seen before.
pub proof fn law_a_retired_id_leaves_no_counter(
    registry: Registry,
    sid: u64,
    state: SubscriptionState,
    channel: Seq<char>,
    markets: Seq<Seq<char>>,
    now: int,
    seq: u64,
)
    requires
        state@ == fresh_subscription(sid, channel, markets, now),
    ensures
        !registry.without(sid).by_sid.contains_key(sid),
        ({
            let again = registry.without(sid).with(sid, state).by_sid[sid]@;
            &&& !again.valid
            &&& again.gaps == 0
            &&& seq_outcome(again.last_seq, seq) == SeqOutcome::First
        }),
{
}

/// The recovery ladder runs from the cheapest rung to the last and then ends.
pub proof fn law_the_ladder_ends()
    ensures
        RecoveryMethod::GetSnapshot.next_rung() == Some(RecoveryMethod::Resubscribe),
        RecoveryMethod::Resubscribe.next_rung() == Some(RecoveryMethod::Reconnect),
        RecoveryMethod::Reconnect.next_rung() is None,
{
}

/// A delay never leaves the envelope of its spread.
pub proof fn law_jitter_stays_in_its_envelope(base: u64, spread: u64, offset: u64)
    requires
        offset <= 2 * spread,
    ensures
        spread <= base ==> base - spread <= spread_delay(base, spread, offset) <= base + spread,
        spread_delay(base, spread, spread) == (if spread <= base {
            base as int
        } else {
            spread as int
        }),
{
}

/// The schedule grows until it reaches the maximum and stays there.
pub proof fn law_backoff_grows_to_its_maximum(current: u64, max: u64)
    requires
        current <= max,
    ensures
        current <= next_base(current, max) <= max,
        current > 0 && next_base(current, max) == current ==> current == max,
        next_base(max, max) == max,
{
}

/// A sequence number is in order exactly where it is the next one; a later one is a gap
/// that says how many messages are missing, and one not beyond the last is a regression.
pub proof fn law_a_gap_is_anything_beyond_the_next(state: Subscription, seq: u64, now: int)
    ensures
        state.last_seq is None <==> seq_outcome(state.last_seq, seq) is First,
        state.last_seq matches Some(last) ==> {
            &&& seq_outcome(state.last_seq, seq) is InOrder <==> seq == last + 1
            &&& seq_outcome(state.last_seq, seq) is Gap <==> seq > last + 1
            &&& seq_outcome(state.last_seq, seq) is Regression <==> seq <= last
            &&& seq_outcome(state.last_seq, seq) matches SeqOutcome::Gap { expected, got, skipped }
                ==> expected == last + 1 && got == seq && expected + skipped == got
            &&& seq_outcome(state.last_seq, seq) matches SeqOutcome::Regression { last: held, got }
                ==> held == last && got == seq
        },
        ({
            let next = after_seq(state, seq, now);
            &&& next.sid == state.sid && next.channel == state.channel && next.markets
                == state.markets && next.invalid_total == state.invalid_total
            &&& state.last_seq is None ==> next == (Subscription { last_seq: Some(seq), ..state })
            &&& state.last_seq matches Some(last) ==> {
                &&& seq == last + 1 ==> next == (Subscription { last_seq: Some(seq), ..state })
                &&& seq <= last ==> next == state
                &&& seq > last + 1 ==> !next.valid && next.gaps == state.gaps + 1 && next.last_seq
                    == Some(seq)
                &&& seq > last + 1 && state.valid ==> next.invalid_since == Some(now)
                &&& seq > last + 1 && !state.valid ==> next.invalid_since == state.invalid_since
            }
        }),
{
}

/// A snapshot makes a subscription valid from its own number on, and closes the outage
/// it ends at its length; where there was none it adds nothing.
pub proof fn law_a_snapshot_ends_the_outage(state: Subscription, seq: u64, now: int)
    ensures
        ({
            let next = after_seed(state, seq, now);
            &&& next.valid && next.last_seq == Some(seq)
            &&& next.sid == state.sid && next.channel == state.channel && next.markets
                == state.markets && next.gaps == state.gaps
            &&& state.valid ==> next.invalid_total == state.invalid_total && next.invalid_since
                == state.invalid_since
            &&& !state.valid ==> next.invalid_since is None
            &&& !state.valid ==> (state.invalid_since matches Some(since) ==> next.invalid_total
                == state.invalid_total + (now - since))
            &&& !state.valid && state.invalid_since is None ==> next.invalid_total
                == state.invalid_total
        }),
        state.invalid_since matches Some(since) ==> invalid_time(state, now) - state.invalid_total
            == now - since,
        state.invalid_since is None ==> invalid_time(state, now) == state.invalid_total,
{
}

/// A new subscription holds what it was registered with, and is not valid.
pub proof fn law_a_new_subscription_waits_for_its_snapshot(
    sid: u64,
    channel: Seq<char>,
    markets: Seq<Seq<char>>,
    now: int,
)
    ensures
        ({
            let state = fresh_subscription(sid, channel, markets, now);
            &&& state.sid == sid && state.channel == channel && state.markets == markets
            &&& !state.valid && state.last_seq is None && state.gaps == 0
            &&& state.invalid_since == Some(now) && state.invalid_total == 0
        }),
{
}

/// What is put under an id is found under it, what is taken out is not, and the total of
/// the gaps is theirs all told.
pub proof fn law_the_registry_holds_what_was_put_in(
    registry: Registry,
    sid: u64,
    state: SubscriptionState,
)
    requires
        registry.by_sid.dom().finite(),
    ensures
        registry.with(sid, state).by_sid.contains_key(sid),
        registry.with(sid, state).by_sid[sid] == state,
        !registry.without(sid).by_sid.contains_key(sid),
        gaps_of(Map::empty()) == 0,
        !registry.by_sid.contains_key(sid) ==> gaps_of(registry.with(sid, state).by_sid) == gaps_of(
            registry.by_sid,
        ) + state@.gaps,
        registry.by_sid.contains_key(sid) ==> gaps_of(registry.by_sid) == gaps_of(
            registry.without(sid).by_sid,
        ) + registry.by_sid[sid]@.gaps,
{
    if registry.by_sid.contains_key(sid) {
        lemma_gaps_of_remove(registry.by_sid, sid);
    } else {
        let more = registry.by_sid.insert(sid, state);
        lemma_gaps_of_remove(more, sid);
        assert(more.remove(sid) =~= registry.by_sid);
    }
}

/// The recoveries that are listed are those that were recorded, each method at most once
/// and with its own count.
pub proof fn law_recoveries_are_listed_with_their_counts(registry: Registry, i: int)
    requires
        0 <= i < recovery_listing(registry).len(),
    ensures
        ({
            let (method, count) = recovery_listing(registry)[i];
            &&& count > 0
            &&& method is GetSnapshot ==> count == registry.snapshots_requested
            &&& method is Resubscribe ==> count == registry.resubscribes
            &&& method is Reconnect ==> count == registry.reconnects
        }),
        recovery_listing(registry).len() == (if registry.snapshots_requested > 0 {
            1int
        } else {
            0
        }) + (if registry.resubscribes > 0 {
            1int
        } else {
            0
        }) + (if registry.reconnects > 0 {
            1int
        } else {
            0
        }),
        forall|j: int|
            0 <= j < recovery_listing(registry).len() && j != i ==> (#[trigger] recovery_listing(
                registry,
            )[j]).0 != recovery_listing(registry)[i].0,
{
}

proof fn lemma_command_members(id: u64, cmd: Seq<char>, params: Seq<(Seq<char>, Node)>)
    ensures
        command_node(id, cmd, params).get("id"@) == Some(json::uint_node(id)),
        command_node(id, cmd, params).get("cmd"@) == Some(Node::Text(cmd)),
        command_node(id, cmd, params).get("params"@) == Some(Node::Object(params)),
{
    reveal_strlit("id");
    reveal_strlit("cmd");
    reveal_strlit("params");
    let entries = command_node(id, cmd, params)->Object_0;
    assert("id"@.len() != "cmd"@.len() && "id"@.len() != "params"@.len() && "cmd"@.len()
        != "params"@.len());
    reveal_with_fuel(json::lookup, 4);
    assert(entries.drop_first()[0] == entries[1]);
    assert(entries.drop_first().drop_first()[0] == entries[2]);
}

/// In a subscribe command, `channels` lists exactly the given channels in their order,
/// `market_tickers` exactly the given tickers in theirs, and is left out where there are
/// none, and `use_yes_price` is the flag, where one is set.
pub proof fn law_a_subscription_asks_for_what_was_given(
    id: u64,
    channels: Vec<String>,
    market_tickers: Vec<String>,
    use_yes_price: Option<bool>,
    document: Json,
)
    requires
        call_ensures(
            Command::to_value,
            (&Command::Subscribe { id, channels, market_tickers, use_yes_price },),
            document,
        ),
    ensures
        document@.get("cmd"@) == Some(Node::Text("subscribe"@)),
        document@.uint_at("id"@) == Some(id),
        document@.get("params"@) is Some,
        ({
            let params = document@.get("params"@)->0;
            &&& params.items_at("channels"@) is Some
            &&& params.items_at("channels"@)->0.len() == channels@.len()
            &&& forall|i: int|
                0 <= i < channels@.len() ==> #[trigger] params.items_at("channels"@)->0[i]
                    == Node::Text(channels@[i]@)
            &&& market_tickers@.len() == 0 <==> params.get("market_tickers"@) is None
            &&& market_tickers@.len() > 0 ==> params.items_at("market_tickers"@) is Some
                && params.items_at("market_tickers"@)->0.len() == market_tickers@.len()
                && forall|i: int|
                0 <= i < market_tickers@.len() ==> #[trigger] params.items_at(
                    "market_tickers"@,
                )->0[i] == Node::Text(market_tickers@[i]@)
            &&& params.boolean_at("use_yes_price"@) == use_yes_price
        }),
{
    let params = subscribe_params(channels@, market_tickers@, use_yes_price);
    lemma_command_members(id, "subscribe"@, params);
    reveal_strlit("channels");
    reveal_strlit("market_tickers");
    reveal_strlit("use_yes_price");
    assert("channels"@.len() == 8 && "market_tickers"@.len() == 14 && "use_yes_price"@.len() == 13);
    reveal_with_fuel(json::lookup, 4);
    if params.len() > 1 {
        assert(params.drop_first()[0] == params[1]);
        if params.len() > 2 {
            assert(params.drop_first().drop_first()[0] == params[2]);
        }
    }
}

/// An unsubscribe command names exactly the given ids in their order.
pub proof fn law_an_unsubscription_names_its_ids(id: u64, sids: Vec<u64>, document: Json)
    requires
        call_ensures(Command::to_value, (&Command::Unsubscribe { id, sids },), document),
    ensures
        document@.get("cmd"@) == Some(Node::Text("unsubscribe"@)),
        document@.uint_at("id"@) == Some(id),
        document@.get("params"@) is Some,
        ({
            let params = document@.get("params"@)->0;
            &&& params.items_at("sids"@) is Some
            &&& params.items_at("sids"@)->0.len() == sids@.len()
            &&& forall|i: int|
                0 <= i < sids@.len() ==> (#[trigger] params.items_at("sids"@)->0[i]).unsigned()
                    == Some(sids@[i])
        }),
{
    let params = seq![("sids"@, Node::Array(json::uint_nodes(sids@)))];
    lemma_command_members(id, "unsubscribe"@, params);
    reveal_with_fuel(json::lookup, 2);
}

/// A request for a snapshot names one subscription, the action, and exactly the given
/// markets in their order.
pub proof fn law_a_snapshot_request_names_its_markets(
    id: u64,
    sid: u64,
    market_tickers: Vec<String>,
    document: Json,
)
    requires
        call_ensures(
            Command::to_value,
            (&Command::GetSnapshot { id, sid, market_tickers },),
            document,
        ),
    ensures
        document@.get("cmd"@) == Some(Node::Text("update_subscription"@)),
        document@.uint_at("id"@) == Some(id),
        document@.get("params"@) is Some,
        ({
            let params = document@.get("params"@)->0;
            &&& params.items_at("sids"@) is Some
            &&& params.items_at("sids"@)->0.len() == 1
            &&& params.items_at("sids"@)->0[0].unsigned() == Some(sid)
            &&& params.text_at("action"@) == Some("get_snapshot"@)
            &&& params.items_at("market_tickers"@) is Some
            &&& params.items_at("market_tickers"@)->0.len() == market_tickers@.len()
            &&& forall|i: int|
                0 <= i < market_tickers@.len() ==> #[trigger] params.items_at(
                    "market_tickers"@,
                )->0[i] == Node::Text(market_tickers@[i]@)
        }),
{
    let params = seq![
        ("sids"@, Node::Array(seq![json::uint_node(sid)])),
        ("action"@, Node::Text("get_snapshot"@)),
        ("market_tickers"@, Node::Array(json::text_nodes(market_tickers@))),
    ];
    lemma_command_members(id, "update_subscription"@, params);
    reveal_strlit("sids");
    reveal_strlit("action");
    reveal_strlit("market_tickers");
    assert("sids"@.len() == 4 && "action"@.len() == 6 && "market_tickers"@.len() == 14);
    reveal_with_fuel(json::lookup, 4);
    assert(params.drop_first()[0] == params[1]);
    assert(params.drop_first().drop_first()[0] == params[2]);
}

/// The pricing flag is set exactly where the orderbook channel is asked for, and is true
/// exactly for YES-leg pricing.
pub proof fn law_the_flag_is_the_convention(channels: Seq<String>, convention: PricingConvention)
    ensures
        pricing_flag(channels, convention) is Some <==> exists|i: int|
            0 <= i < channels.len() && (#[trigger] channels[i])@ == "orderbook_delta"@,
        pricing_flag(channels, convention) matches Some(flag) ==> (flag <==> convention
            is YesLegPricing),
{
}

/// A convention has one name, by which it is read back, and nothing else is read as one.
pub proof fn law_conventions_are_read_by_their_names(
    text: &str,
    result: Result<PricingConvention, WsError>,
    label: &'static str,
    flag: bool,
)
    requires
        call_ensures(PricingConvention::parse, (text,), result),
        result is Ok ==> call_ensures(PricingConvention::as_str, (result->Ok_0,), label),
        result is Ok ==> call_ensures(PricingConvention::use_yes_price, (result->Ok_0,), flag),
    ensures
        result is Ok <==> text@ == "no_leg"@ || text@ == "yes_leg"@,
        result is Ok ==> label@ == text@,
        result is Ok ==> (flag <==> text@ == "yes_leg"@),
        result matches Err(error) ==> error matches WsError::UnknownPricingConvention { value }
            && value@ == text@,
{
    reveal_strlit("no_leg");
    reveal_strlit("yes_leg");
    assert("no_leg"@.len() != "yes_leg"@.len());
}

/// Each delay is the one before, doubled, until the maximum is reached; and a random
/// offset moves it by no more than the spread to either side.
pub proof fn law_delays_double(current: u64, max: u64, base: u64, spread: u64, offset: u64)
    ensures
        2 * current <= max ==> next_base(current, max) == 2 * current,
        2 * current > max ==> next_base(current, max) == max,
        spread <= base && base - spread + offset <= u64::MAX ==> spread_delay(base, spread, offset)
            == base - spread + offset,
        spread > base && offset <= u64::MAX ==> spread_delay(base, spread, offset) == offset,
{
}

/// A text frame is delivered as it is, a closed socket is an error with its reason, and
/// any other frame delivers nothing.
pub proof fn law_frames_are_delivered(frame: Frame, result: Result<Option<String>, WsError>)
    requires
        call_ensures(read_frame, (frame,), result),
    ensures
        frame matches Frame::Text(text) ==> result matches Ok(Some(given)) && given@ == text@,
        frame is Other ==> result == Ok::<Option<String>, WsError>(None),
        frame is Close || frame is Ended ==> result is Err && result->Err_0 is Closed,
        frame matches Frame::Close(Some((code, reason))) ==> result matches Err(
            WsError::Closed { reason: said },
        ) && said@ == parse::decimal(code as nat) + seq![' '] + reason@,
        frame == Frame::Close(None) ==> (result matches Err(WsError::Closed { reason }) && reason@
            == "no close frame"@),
        frame is Ended ==> (result matches Err(WsError::Closed { reason }) && reason@
            == "stream ended"@),
{
}

/// The errors that end a subscription are 10, 17 and 25; they and no others ask for a new
/// subscription.
pub proof fn law_terminal_errors_ask_for_a_new_subscription(
    error: ErrorBody,
    out: Option<RecoveryMethod>,
    terminal: bool,
    overflow: bool,
)
    requires
        call_ensures(recovery_for_error, (&error,), out),
        call_ensures(ErrorBody::is_terminal, (&error,), terminal),
        call_ensures(ErrorBody::is_buffer_overflow, (&error,), overflow),
    ensures
        terminal <==> error.code == 10 || error.code == 17 || error.code == 25,
        overflow <==> error.code == 25,
        out == Some(RecoveryMethod::Resubscribe) <==> terminal,
        out is None <==> !terminal,
{
}

/// The ladder is climbed from the cheapest rung, one rung after the other.
pub proof fn law_the_ladder_is_climbed_in_order(
    rungs: [RecoveryMethod; 3],
    method: RecoveryMethod,
    next: Option<RecoveryMethod>,
    label: &'static str,
    i: int,
)
    requires
        call_ensures(RecoveryMethod::ladder, (), rungs),
        call_ensures(RecoveryMethod::escalate, (method,), next),
        call_ensures(RecoveryMethod::as_str, (method,), label),
        0 <= i < 3,
        rungs@[i] == method,
    ensures
        rungs@[0] is GetSnapshot && rungs@[2] is Reconnect,
        i < 2 ==> next == Some(rungs@[i + 1]),
        i == 2 ==> next is None,
        method is GetSnapshot ==> label@ == "get_snapshot"@,
        method is Resubscribe ==> label@ == "resubscribe"@,
        method is Reconnect ==> label@ == "reconnect"@,
{
}

/// Every command has the next number, one after the other from one, and asks for what it
/// was given.
pub proof fn law_commands_are_numbered_in_order(
    desk: CommandDesk,
    channels: Vec<String>,
    market_tickers: Vec<String>,
    convention: PricingConvention,
    sid: u64,
    sids: Vec<u64>,
)
    requires
        call_ensures(CommandDesk::new, (), desk),
    ensures
        desk.next_command_id == 1,
        forall|desk: &mut CommandDesk, out: Command| #[trigger]
            call_ensures(CommandDesk::subscribe, (desk, channels, market_tickers, convention), out)
                ==> {
                &&& final(desk).next_command_id - desk.next_command_id == 1
                &&& out matches Command::Subscribe {
                    id,
                    channels: c,
                    market_tickers: m,
                    use_yes_price,
                } && id == desk.next_command_id && c == channels && m == market_tickers && (
                use_yes_price is Some <==> exists|i: int|
                    0 <= i < channels@.len() && (#[trigger] channels@[i])@ == "orderbook_delta"@)
                    && (use_yes_price == Some(true) ==> convention is YesLegPricing) && (
                use_yes_price == Some(false) ==> convention is NoLegPricing)
            },
        forall|desk: &mut CommandDesk, out: Command| #[trigger]
            call_ensures(CommandDesk::request_snapshot, (desk, sid, market_tickers), out) ==> {
                &&& final(desk).next_command_id - desk.next_command_id == 1
                &&& out matches Command::GetSnapshot { id, sid: s, market_tickers: m } && id
                    == desk.next_command_id && s == sid && m == market_tickers
            },
        forall|desk: &mut CommandDesk, out: Command| #[trigger]
            call_ensures(CommandDesk::unsubscribe, (desk, sids), out) ==> {
                &&& final(desk).next_command_id - desk.next_command_id == 1
                &&& out matches Command::Unsubscribe { id, sids: s } && id == desk.next_command_id
                    && s == sids
            },
{
    law_the_flag_is_the_convention(channels@, convention);
}

/// A delay is the current one, moved by no more than the spread; the schedule then
/// doubles up to its maximum, and a reset takes it back to its start.
pub proof fn law_a_delay_stays_near_its_schedule(
    initial: u64,
    max: u64,
    spread: u64,
    offset: u64,
    start: Backoff,
    peeked: u64,
    moved: u64,
)
    requires
        call_ensures(Backoff::new, (initial, max), start),
        call_ensures(Backoff::peek, (&start,), peeked),
        call_ensures(jittered, (initial, spread, offset), moved),
    ensures
        peeked == initial && start.initial == initial && start.max == max,
        initial >= spread && initial - spread + offset <= u64::MAX ==> moved + spread == initial
            + offset,
        initial >= spread && initial - spread + offset > u64::MAX ==> moved == u64::MAX,
        initial < spread ==> moved == offset,
        forall|backoff: &mut Backoff, out: u64| #[trigger]
            call_ensures(Backoff::next_delay, (backoff, spread), out) ==> {
                &&& backoff.current - spread <= out <= backoff.current + spread || backoff.current
                    < spread && out <= 2 * spread
                &&& 2 * backoff.current <= backoff.max ==> final(backoff).current == 2
                    * backoff.current
                &&& 2 * backoff.current > backoff.max ==> final(backoff).current == backoff.max
                &&& final(backoff).initial == backoff.initial && final(backoff).max == backoff.max
            },
        forall|backoff: &mut Backoff| #[trigger]
            call_ensures(Backoff::reset, (backoff,), ()) ==> {
                &&& final(backoff).current == backoff.initial
                &&& final(backoff).initial == backoff.initial && final(backoff).max == backoff.max
            },
{
}

/// A registered subscription is there under its id with what it was registered for, and
/// no other is touched; a retired one is handed back and gone; and where all are retired
/// none is left, but the recoveries stay counted.
pub proof fn law_the_registry_keeps_each_under_its_id(
    sid: u64,
    other: u64,
    channel: String,
    markets: Vec<String>,
    now: i128,
    method: RecoveryMethod,
)
    ensures
        forall|registry: &mut SubscriptionRegistry| #[trigger]
            call_ensures(SubscriptionRegistry::register, (registry, sid, channel, markets, now), ())
                ==> {
                let state = final(registry)@.by_sid[sid]@;
                &&& final(registry)@.by_sid.contains_key(sid)
                &&& state.sid == sid && state.channel == channel@ && state.markets
                    == text::texts_of(markets@)
                &&& !state.valid && state.last_seq is None && state.gaps == 0
                &&& state.invalid_since == Some(now as int)
                &&& other != sid ==> (final(registry)@.by_sid.contains_key(other)
                    <==> registry@.by_sid.contains_key(other)) && final(registry)@.by_sid[other]
                    == registry@.by_sid[other]
            },
        forall|registry: &mut SubscriptionRegistry, out: Option<SubscriptionState>| #[trigger]
            call_ensures(SubscriptionRegistry::retire, (registry, sid), out) ==> {
                &&& !final(registry)@.by_sid.contains_key(sid)
                &&& out is Some <==> registry@.by_sid.contains_key(sid)
                &&& out matches Some(state) ==> state == registry@.by_sid[sid]
                &&& other != sid ==> (final(registry)@.by_sid.contains_key(other)
                    <==> registry@.by_sid.contains_key(other)) && final(registry)@.by_sid[other]
                    == registry@.by_sid[other]
            },
        forall|registry: &mut SubscriptionRegistry| #[trigger]
            call_ensures(SubscriptionRegistry::retire_all, (registry,), ()) ==> {
                &&& !final(registry)@.by_sid.contains_key(other)
                &&& final(registry)@.snapshots_requested == registry@.snapshots_requested
                &&& final(registry)@.resubscribes == registry@.resubscribes
                &&& final(registry)@.reconnects == registry@.reconnects
            },
        forall|registry: &mut SubscriptionRegistry| #[trigger]
            call_ensures(SubscriptionRegistry::record_recovery, (registry, method), ()) ==> {
                &&& final(registry)@.by_sid == registry@.by_sid
                &&& final(registry)@.snapshots_requested - registry@.snapshots_requested == (
                if method is GetSnapshot {
                    1int
                } else {
                    0
                })
                &&& final(registry)@.resubscribes - registry@.resubscribes == (
                if method is Resubscribe {
                    1int
                } else {
                    0
                })
                &&& final(registry)@.reconnects - registry@.reconnects == (
                if method is Reconnect {
                    1int
                } else {
                    0
                })
            },
{
    assert forall|registry: &mut SubscriptionRegistry| #[trigger]
        call_ensures(SubscriptionRegistry::record_recovery, (registry, method), ()) implies {
        &&& final(registry)@.snapshots_requested - registry@.snapshots_requested == (
        if method is GetSnapshot {
            1int
        } else {
            0
        })
        &&& final(registry)@.resubscribes - registry@.resubscribes == (if method is Resubscribe {
            1int
        } else {
            0
        })
        &&& final(registry)@.reconnects - registry@.reconnects == (if method is Reconnect {
            1int
        } else {
            0
        })
    } by {
        let after = final(registry)@;
        assert(after.recoveries(RecoveryMethod::GetSnapshot) == after.snapshots_requested);
        assert(after.recoveries(RecoveryMethod::Resubscribe) == after.resubscribes);
        assert(after.recoveries(RecoveryMethod::Reconnect) == after.reconnects);
    }
}

/// What is read of the registry is what it holds: a subscription under its id, how many
/// there are, and the ids of all and of those that are not usable.
pub proof fn law_the_registry_is_read_as_it_is(
    registry: SubscriptionRegistry,
    sid: u64,
    got: Option<&SubscriptionState>,
    len: usize,
    empty: bool,
    sids: Vec<u64>,
    invalid: Vec<u64>,
    gaps: u64,
)
    requires
        call_ensures(SubscriptionRegistry::get, (&registry, sid), got),
        call_ensures(SubscriptionRegistry::len, (&registry,), len),
        call_ensures(SubscriptionRegistry::is_empty, (&registry,), empty),
        call_ensures(SubscriptionRegistry::sids, (&registry,), sids),
        call_ensures(SubscriptionRegistry::invalid_sids, (&registry,), invalid),
        call_ensures(SubscriptionRegistry::total_gaps, (&registry,), gaps),
    ensures
        got is Some <==> registry@.by_sid.contains_key(sid),
        got matches Some(state) ==> *state == registry@.by_sid[sid],
        sids@.contains(sid) <==> registry@.by_sid.contains_key(sid),
        invalid@.contains(sid) <==> registry@.by_sid.contains_key(sid)
            && !registry@.by_sid[sid]@.valid,
        invalid@.contains(sid) ==> sids@.contains(sid),
        len == registry@.by_sid.len(),
        empty <==> len == 0,
        gaps == gaps_of(registry@.by_sid),
{
    assert(sids@.to_set().contains(sid) <==> sids@.contains(sid));
}

/// What is read of a subscription is what it holds; the time it was not usable is what
/// had added up, and what has passed since it last became so.
pub proof fn law_a_subscription_is_read_as_it_is(
    state: SubscriptionState,
    now: i128,
    channel: &str,
    markets: &[String],
    gaps: u64,
    invalid: i128,
)
    requires
        call_ensures(SubscriptionState::channel, (&state,), channel),
        call_ensures(SubscriptionState::markets, (&state,), markets),
        call_ensures(SubscriptionState::gap_count, (&state,), gaps),
        call_ensures(SubscriptionState::invalid_duration, (&state, now), invalid),
    ensures
        channel@ == state@.channel,
        text::texts_of(markets@) == state@.markets,
        gaps == state@.gaps,
        state@.invalid_since is None ==> invalid == state@.invalid_total,
        state@.invalid_since matches Some(since) ==> invalid - state@.invalid_total == now - since,
{
}

/// A number is judged against the last one, and a gap is counted and makes the
/// subscription unusable; a snapshot makes it usable from its own number on.
pub proof fn law_numbers_move_a_subscription_on(seq: u64, now: i128)
    ensures
        forall|state: &mut SubscriptionState, out: SeqOutcome| #[trigger]
            call_ensures(SubscriptionState::observe_seq, (state, seq, now), out) ==> {
                let last = state@.last_seq;
                &&& out is First <==> last is None
                &&& last is Some ==> (out is InOrder <==> seq == last->0 + 1)
                &&& last is Some ==> (out is Gap <==> seq > last->0 + 1)
                &&& out is Gap ==> !final(state)@.valid && final(state)@.gaps == state@.gaps + 1
                &&& !(out is Gap) ==> final(state)@.valid == state@.valid && final(state)@.gaps
                    == state@.gaps
                &&& !(out is Regression) ==> final(state)@.last_seq == Some(seq)
                &&& out is Regression ==> final(state)@ == state@
                &&& final(state)@.sid == state@.sid && final(state)@.channel == state@.channel
            },
        forall|state: &mut SubscriptionState| #[trigger]
            call_ensures(SubscriptionState::accept_snapshot, (state, seq, now), ()) ==> {
                &&& final(state)@.last_seq == Some(seq)
                &&& final(state)@.valid
                &&& final(state)@.gaps == state@.gaps
                &&& final(state)@.sid == state@.sid && final(state)@.channel == state@.channel
            },
{
}

/// A text is among others exactly where one of them is it.
pub proof fn law_a_text_is_among_others_as_written(texts: Vec<String>, text: &str, out: bool)
    requires
        call_ensures(contains_text, (&texts, text), out),
    ensures
        out <==> exists|i: int| 0 <= i < texts@.len() && (#[trigger] texts@[i])@ == text@,
{
}

} // verus!
