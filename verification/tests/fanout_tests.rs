use cpal_recorder::fanout::{
    broadcast_queue, broadcast_queue_for, Consumer, Mark, Polled, Producer,
};
use cpal_recorder::link::{channel, channel_for, Inlet, Outlet};
use cpal_recorder::mixer::Mixer;
use cpal_recorder::router::{CaptureStart, OutputJob, RecordJob, RenderStart};
use cpal_recorder::utils::{contains_id, get_flushed_broadcast_queue};

#[test]
fn single_consumer_reads_in_the_order_pushed() {
    let (mut tx, mut rx) = broadcast_queue::<i16>(256);
    for i in 0..200i16 {
        assert!(tx.push(((i % 2) as u8 + 1, i * 3)));
    }
    for i in 0..200i16 {
        assert_eq!(rx.poll(), Polled::Item(((i % 2) as u8 + 1, i * 3)));
    }
    assert_eq!(rx.poll(), Polled::Empty);
}

#[test]
fn empty_and_closed_are_told_apart() {
    let (mut tx, mut rx) = broadcast_queue::<i16>(8);
    assert_eq!(rx.poll(), Polled::Empty);
    assert!(tx.push((1, 1)));
    drop(tx);
    assert_eq!(rx.poll(), Polled::Item((1, 1)));
    assert_eq!(rx.poll(), Polled::Closed);
}

#[test]
fn push_on_a_full_queue_is_dropped() {
    let (mut tx, mut rx) = broadcast_queue::<i16>(2);
    assert!(tx.push((1, 1)));
    assert!(tx.push((1, 2)));
    assert!(!tx.push((1, 3)));
    assert_eq!(rx.poll(), Polled::Item((1, 1)));
    assert!(tx.push((1, 4)));
    assert_eq!(rx.poll(), Polled::Item((1, 2)));
    assert_eq!(rx.poll(), Polled::Item((1, 4)));
    assert_eq!(rx.poll(), Polled::Empty);
}

#[test]
fn streams_read_independently() {
    let (mut tx, mut first) = broadcast_queue::<i16>(16);
    let mut second = first.add_stream();
    for i in 0..5 {
        assert!(tx.push((1, i)));
    }
    for i in 0..5 {
        assert_eq!(first.poll(), Polled::Item((1, i)));
    }
    for i in 0..5 {
        assert_eq!(second.poll(), Polled::Item((1, i)));
    }
    assert_eq!(first.poll(), Polled::Empty);
    assert_eq!(second.poll(), Polled::Empty);
}

#[test]
fn readers_of_one_stream_share_its_items() {
    let (mut tx, mut first) = broadcast_queue::<i16>(16);
    let mut second = first.share();
    for i in 0..4 {
        assert!(tx.push((1, i)));
    }
    assert_eq!(first.poll(), Polled::Item((1, 0)));
    assert_eq!(second.poll(), Polled::Item((1, 1)));
    assert_eq!(first.poll(), Polled::Item((1, 2)));
    assert_eq!(second.poll(), Polled::Item((1, 3)));
    assert_eq!(first.poll(), Polled::Empty);
    assert_eq!(second.poll(), Polled::Empty);
}

#[test]
fn consumer_keeps_the_depth_of_its_queue() {
    let (_tx, rx) = broadcast_queue::<i16>(100);
    assert_eq!(rx.get_depth(), 100);
    assert_eq!(rx.add_stream().get_depth(), 100);
    assert_eq!(rx.share().get_depth(), 100);
}

#[test]
fn flush_of_an_empty_consumer_leaves_it_empty() {
    let (mut tx, rx) = broadcast_queue::<i16>(16);
    let rx = get_flushed_broadcast_queue(rx);
    let mut rx = get_flushed_broadcast_queue(rx);
    assert_eq!(rx.poll(), Polled::Empty);
    assert!(tx.push((2, 9)));
    assert_eq!(rx.poll(), Polled::Item((2, 9)));
}

#[test]
fn flush_throws_the_backlog_away_and_spares_the_sibling() {
    let (mut tx, rx) = broadcast_queue::<i16>(16);
    let mut sibling = rx.add_stream();
    for i in 0..10 {
        assert!(tx.push((1, i)));
    }
    let mut rx = get_flushed_broadcast_queue(rx);
    assert_eq!(rx.poll(), Polled::Empty);
    for i in 0..10 {
        assert_eq!(sibling.poll(), Polled::Item((1, i)));
    }
    assert_eq!(sibling.poll(), Polled::Empty);
    assert!(tx.push((1, 77)));
    assert_eq!(rx.poll(), Polled::Item((1, 77)));
    assert_eq!(sibling.poll(), Polled::Item((1, 77)));
}

#[test]
fn flush_of_a_full_queue_of_depth_zero_ends() {
    let (mut tx, rx) = broadcast_queue::<i16>(0);
    assert!(tx.push((1, 5)));
    assert!(!tx.push((1, 6)));
    let mut rx = get_flushed_broadcast_queue(rx);
    assert_eq!(rx.poll(), Polled::Empty);
}

#[test]
fn link_delivers_in_order_and_reports_its_end() {
    let (mut tx, mut rx) = channel::<u32>();
    assert_eq!(rx.poll(), Polled::Empty);
    assert!(tx.send(1));
    assert!(tx.send(2));
    let mut other = tx.share();
    assert!(other.send(3));
    assert_eq!(rx.poll(), Polled::Item(1));
    assert_eq!(rx.wait(), Polled::Item(2));
    assert_eq!(rx.wait(), Polled::Item(3));
    drop(tx);
    assert_eq!(rx.poll(), Polled::Empty);
    drop(other);
    assert_eq!(rx.poll(), Polled::Closed);
    assert_eq!(rx.wait(), Polled::Closed);
}

#[test]
fn send_to_a_link_without_receiver_fails() {
    let (mut tx, rx) = channel::<u32>();
    drop(rx);
    assert!(!tx.send(1));
}

#[test]
fn contains_id_finds_what_is_there() {
    assert!(contains_id(&vec![1, 2, 3], 3));
    assert!(contains_id(&vec![1, 2, 3], 1));
    assert!(!contains_id(&vec![1, 2, 3], 4));
    assert!(!contains_id(&vec![], 0));
}

fn can_cross_threads<H: Send + 'static>() -> bool {
    true
}

#[test]
fn handles_can_be_given_to_another_thread() {
    assert!(can_cross_threads::<Producer<f32>>());
    assert!(can_cross_threads::<Consumer<f32>>());
    assert!(can_cross_threads::<Outlet<(u8, i16)>>());
    assert!(can_cross_threads::<Inlet<()>>());
    assert!(can_cross_threads::<Mixer<f32>>());
    assert!(can_cross_threads::<CaptureStart<f32>>());
    assert!(can_cross_threads::<RenderStart<f32>>());
    assert!(can_cross_threads::<RecordJob<i16>>());
    assert!(can_cross_threads::<OutputJob<f32>>());
}

#[test]
fn an_unread_stream_stalls_the_queue() {
    let (mut tx, rx) = broadcast_queue::<i16>(4);
    let mut stream = rx.add_stream();
    for i in 0..4 {
        assert!(tx.push((1, i)));
        assert_eq!(stream.poll(), Polled::Item((1, i)));
    }
    // the stream has read everything, but the first consumer has not
    assert!(!tx.push((1, 4)));
    assert_eq!(stream.poll(), Polled::Empty);
}

#[test]
fn a_pilot_keeps_the_queue_going() {
    let (mut tx, rx) = broadcast_queue::<i16>(4);
    tx.keep_drained(rx.share());
    let mut stream = rx.add_stream();
    for i in 0..100 {
        assert!(tx.push((1, i)));
        assert_eq!(stream.poll(), Polled::Item((1, i)));
    }
    // a stream that goes away does not hold the queue back
    let mut other = rx.add_stream();
    drop(stream);
    for i in 0..100 {
        assert!(tx.push((2, i)));
        assert_eq!(other.poll(), Polled::Item((2, i)));
    }
    // with no stream at all, items go nowhere and the queue goes on
    drop(other);
    for i in 0..100 {
        assert!(tx.push((3, i)));
    }
    let mut late = rx.add_stream();
    assert_eq!(late.poll(), Polled::Empty);
    assert!(tx.push((4, 1)));
    assert_eq!(late.poll(), Polled::Item((4, 1)));
}

#[test]
fn a_slow_stream_makes_the_queue_drop() {
    let (mut tx, rx) = broadcast_queue::<i16>(4);
    tx.keep_drained(rx.share());
    let mut slow = rx.add_stream();
    let mut fast = rx.add_stream();
    let mut taken = 0;
    for i in 0..10 {
        if tx.push((1, i)) {
            taken += 1;
        }
        fast.poll();
    }
    assert_eq!(taken, 4);
    for i in 0..4 {
        assert_eq!(slow.poll(), Polled::Item((1, i)));
    }
    assert_eq!(slow.poll(), Polled::Empty);
    assert_eq!(fast.poll(), Polled::Empty);
    assert!(tx.push((1, 10)));
    assert_eq!(slow.poll(), Polled::Item((1, 10)));
    assert_eq!(fast.poll(), Polled::Item((1, 10)));
}

#[test]
fn every_end_of_a_queue_carries_its_mark() {
    let mark = Mark { bus: 7, monitor: true };
    let (mut tx, rx) = broadcast_queue_for::<i16>(8, mark);
    assert_eq!(tx.get_mark(), mark);
    assert_eq!(rx.get_mark(), mark);
    assert_eq!(rx.add_stream().get_mark(), mark);
    assert_eq!(rx.share().get_mark(), mark);
    tx.keep_drained(rx.share());
    tx.push((1, 1));
    assert_eq!(tx.get_mark(), mark);
    assert_eq!(get_flushed_broadcast_queue(rx).get_mark(), mark);
    let (tx, rx) = broadcast_queue::<i16>(8);
    assert_eq!(tx.get_mark(), Mark { bus: 0, monitor: false });
    assert_eq!(rx.get_mark(), Mark { bus: 0, monitor: false });
}

#[test]
fn every_end_of_a_link_carries_its_mark() {
    let (mut tx, mut rx) = channel_for::<u32>(9);
    assert_eq!(tx.get_mark(), 9);
    assert_eq!(rx.get_mark(), 9);
    assert_eq!(tx.share().get_mark(), 9);
    tx.send(1);
    rx.poll();
    assert_eq!(tx.get_mark(), 9);
    assert_eq!(rx.get_mark(), 9);
    let (tx, rx) = channel::<u32>();
    assert_eq!(tx.get_mark(), 0);
    assert_eq!(rx.get_mark(), 0);
}
