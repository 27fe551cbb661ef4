//! The read path must never block: a full queue drops and counts.

use kalshi_alpha::schema::Channel;
use kalshi_alpha::sink::{
    channel, logs_loss, occupied, take_reply, Offered, SinkMetrics, StoreRecord,
};
use std::time::{Duration, Instant};

fn record(n: usize) -> StoreRecord {
    StoreRecord {
        channel: Channel::OrderbookDelta,
        received_at: 1_760_000_000_000_000_000,
        raw: format!(r#"{{"seq":{n}}}"#),
        parsed: None,
    }
}

#[test]
fn offer_never_blocks_when_the_writer_is_stalled() {
    let (mut handle, _receiver_held_but_never_drained) = channel(8);
    for n in 0..8 {
        assert_eq!(handle.offer(record(n)), Offered::Queued);
    }
    let started = Instant::now();
    let mut dropped = 0;
    for n in 8..10_000 {
        match handle.offer(record(n)) {
            Offered::Dropped => dropped += 1,
            Offered::Queued => panic!("queue reported space it does not have"),
            Offered::WriterGone => panic!("receiver is still alive"),
        }
    }
    let elapsed = started.elapsed();

    assert_eq!(dropped, 9_992, "every offer past capacity must be dropped");
    assert!(
        elapsed < Duration::from_millis(500),
        "9,992 offers against a stalled writer took {elapsed:?}; the read path \
         is blocking. offer() must never await."
    );

    let metrics = handle.metrics().snapshot();
    assert_eq!(metrics.dropped, 9_992, "drops must be counted, not silent");
    assert_eq!(metrics.queued, 8);
    assert_eq!(metrics.offered, 10_000);
}

#[test]
fn the_read_loop_keeps_draining_while_the_writer_is_stuck() {
    let (mut handle, receiver) = channel(4);
    let stuck_writer = receiver;

    let mut pongs_sent = 0u32;
    let mut records_offered = 0u32;
    let mut records_dropped = 0u32;
    let started = Instant::now();
    for n in 0..5_000 {
        match handle.offer(record(n)) {
            Offered::Dropped => records_dropped += 1,
            Offered::Queued => {}
            Offered::WriterGone => panic!("writer task ended early"),
        }
        records_offered += 1;
        pongs_sent += 1;
    }

    let elapsed = started.elapsed();
    assert_eq!(records_offered, 5_000);
    assert_eq!(
        pongs_sent, 5_000,
        "the loop must reach the heartbeat on every iteration; if it blocked \
         on storage, Pongs would stop and the server would close us"
    );
    assert!(
        records_dropped >= 4_990,
        "the stalled queue should be dropping"
    );
    assert!(
        elapsed < Duration::from_millis(500),
        "loop took {elapsed:?} with a stuck writer; it is blocking on storage"
    );

    drop(stuck_writer);
}

#[test]
fn offer_is_callable_outside_an_async_context() {
    let (mut handle, _receiver) = channel(2);
    assert_eq!(handle.offer(record(1)), Offered::Queued);
    assert_eq!(handle.offer(record(2)), Offered::Queued);
    assert_eq!(handle.offer(record(3)), Offered::Dropped);
}

#[test]
fn compile_fail_if_offer_becomes_async() {
    let (mut handle, _receiver) = channel(1);
    let outcome: Offered = handle.offer(record(0));
    assert_eq!(outcome, Offered::Queued);
}

#[test]
fn a_recovered_writer_starts_accepting_again() {
    let (mut handle, mut receiver) = channel(4);
    for n in 0..4 {
        assert_eq!(handle.offer(record(n)), Offered::Queued);
    }
    assert_eq!(handle.offer(record(99)), Offered::Dropped);
    let drained = receiver.drain(4);
    assert_eq!(drained.len(), 4);

    assert_eq!(
        handle.offer(record(100)),
        Offered::Queued,
        "the sink must recover once the writer drains"
    );
}

#[test]
fn a_departed_writer_is_reported_distinctly_from_a_full_queue() {
    let (mut handle, receiver) = channel(4);
    drop(receiver);
    assert_eq!(handle.offer(record(1)), Offered::WriterGone);
    assert_eq!(handle.metrics().snapshot().writer_gone, 1);
    assert_eq!(handle.metrics().snapshot().dropped, 0);
}

#[test]
fn queue_depth_is_observable_for_the_metrics_line() {
    let (mut handle, mut receiver) = channel(10);
    assert_eq!(handle.queue_depth(), 0);
    for n in 0..6 {
        let _ = handle.offer(record(n));
    }
    assert_eq!(handle.queue_depth(), 6);
    assert_eq!(handle.capacity(), 10);
    receiver.drain(6);
    assert_eq!(handle.queue_depth(), 0);
}

#[test]
fn records_come_out_in_the_order_they_went_in() {
    let (mut handle, mut receiver) = channel(4);
    for n in 0..3 {
        assert_eq!(handle.offer(record(n)), Offered::Queued);
    }
    let drained = receiver.drain(2);
    let texts: Vec<&str> = drained.iter().map(|record| record.raw.as_str()).collect();
    assert_eq!(texts, vec![r#"{"seq":0}"#, r#"{"seq":1}"#]);
    assert_eq!(receiver.drain(10).len(), 1);
    assert!(receiver.drain(10).is_empty());
}

#[test]
fn every_offer_is_accounted_for() {
    let mut metrics = SinkMetrics::default();
    metrics.count(Offered::Queued);
    metrics.count(Offered::Dropped);
    metrics.count(Offered::WriterGone);
    metrics.count(Offered::Dropped);
    let counts = metrics.snapshot();
    assert_eq!((counts.offered, counts.queued, counts.dropped, counts.writer_gone), (4, 1, 2, 1));
    metrics.offered = u64::MAX;
    metrics.count(Offered::Queued);
    assert_eq!(metrics.snapshot().offered, 0, "counters wrap");
}

#[test]
fn losses_are_logged_at_powers_of_two() {
    let logged: Vec<u64> = (0..20).filter(|n| logs_loss(*n)).collect();
    assert_eq!(logged, vec![1, 2, 4, 8, 16]);
}

#[test]
fn an_answer_without_a_record_ends_a_drain() {
    let mut taken = Vec::new();
    assert!(take_reply(&mut taken, Some(record(1))));
    assert!(take_reply(&mut taken, Some(record(2))));
    assert!(!take_reply(&mut taken, None));
    let texts: Vec<String> = taken.iter().map(|r| r.raw.clone()).collect();
    assert_eq!(texts, vec![record(1).raw, record(2).raw]);
}

#[test]
fn the_depth_is_what_the_room_left_leaves() {
    assert_eq!(occupied(8, 8), 0);
    assert_eq!(occupied(8, 3), 5);
    assert_eq!(occupied(8, 0), 8);
}

#[test]
fn an_offer_goes_by_the_depth_and_a_dropped_record_is_never_received() {
    let (mut handle, mut receiver) = channel(2);
    let mut kept = Vec::new();
    for n in 0..20 {
        let depth = handle.queue_depth();
        let expected = if depth == handle.capacity() { Offered::Dropped } else { Offered::Queued };
        assert_eq!(handle.offer(record(n)), expected);
        if expected == Offered::Queued {
            kept.push(record(n).raw);
            assert_eq!(handle.queue_depth(), depth + 1);
        } else {
            assert_eq!(handle.queue_depth(), depth);
        }
        if n % 5 == 4 {
            let raws: Vec<String> = receiver.drain(9).into_iter().map(|r| r.raw).collect();
            assert_eq!(raws, std::mem::take(&mut kept));
        }
    }
    drop(receiver);
    assert_eq!(handle.offer(record(20)), Offered::WriterGone);
}
