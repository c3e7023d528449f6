//! The fan-out channel: one producer on the capture side, any number of
//! consumers that each read the same stream of tagged samples at their own pace.
//!
//! The queue itself is `multiqueue`'s broadcast queue. What another thread does
//! to it cannot be known here, so nothing is claimed of what a push or a poll
//! returns. Instead each handle keeps a ghost history of what it handed to the
//! queue or got from it, and the contracts of this crate speak of those
//! histories.

use vstd::prelude::*;

verus! {

/// `multiqueue::BroadcastSender`, of which nothing is known here but its name.
#[verifier::external_type_specification]
#[verifier::external_body]
#[verifier::reject_recursive_types(T)]
pub struct ExBroadcastSender<T: Clone>(multiqueue::BroadcastSender<T>);

/// `multiqueue::BroadcastReceiver`, of which nothing is known here but its
/// name.
#[verifier::external_type_specification]
#[verifier::external_body]
#[verifier::reject_recursive_types(T)]
pub struct ExBroadcastReceiver<T: Clone>(multiqueue::BroadcastReceiver<T>);

/// The largest depth a queue may be asked for.
pub const MAX_DEPTH: u32 = 16_777_216;

/// The mark of a queue: the input bus it belongs to, and whether it is the
/// bus's queue for monitor workers or the one for record workers. Both ends
/// of a queue carry its mark, and so does every consumer made from one of
/// the queue's consumers.
#[derive(Debug, Clone, Copy, PartialEq, Eq, Structural)]
pub struct Mark {
    /// The id of the input bus.
    pub bus: u8,
    /// Whether the queue is the one that monitor workers read.
    pub monitor: bool,
}

/// What one poll of a receiving end found.
#[derive(Debug, PartialEq, Eq)]
pub enum Polled<T> {
    /// The next item in line.
    Item(T),
    /// Nothing yet; the producer is still there.
    Empty,
    /// Nothing, and every producer is gone.
    Closed,
}

/// Calls `multiqueue::broadcast_queue`, which allocates the shared buffer and
/// returns its two ends. Nothing is claimed of them. The depth is kept small
/// enough that the buffer's size in bytes cannot overflow.
#[verifier::external_body]
fn queue_new<T: Copy>(depth: u32) -> (ends: (
    multiqueue::BroadcastSender<(u8, T)>,
    multiqueue::BroadcastReceiver<(u8, T)>,
))
    requires
        depth <= MAX_DEPTH,
{
    multiqueue::broadcast_queue(depth.into())
}

/// Calls `BroadcastSender::try_send` and tells whether the queue took the item.
/// Whether it does depends on how far the consumers have read, so nothing is
/// claimed of the answer.
#[verifier::external_body]
fn queue_try_send<T: Copy>(tx: &multiqueue::BroadcastSender<(u8, T)>, item: (u8, T)) -> (accepted:
    bool) {
    tx.try_send(item).is_ok()
}

/// Calls `BroadcastReceiver::try_recv` and hands its three outcomes on. Which
/// one comes depends on the producer, so nothing is claimed of it.
#[verifier::external_body]
fn queue_try_recv<T: Copy>(rx: &multiqueue::BroadcastReceiver<(u8, T)>) -> (polled: Polled<
    (u8, T),
>) {
    match rx.try_recv() {
        Ok(item) => Polled::Item(item),
        Err(std::sync::mpsc::TryRecvError::Empty) => Polled::Empty,
        Err(std::sync::mpsc::TryRecvError::Disconnected) => Polled::Closed,
    }
}

/// Calls `BroadcastReceiver::add_stream`: a new stream of the same queue, read
/// independently of the one it was made from.
#[verifier::external_body]
fn queue_add_stream<T: Copy>(rx: &multiqueue::BroadcastReceiver<(u8, T)>) -> (stream:
    multiqueue::BroadcastReceiver<(u8, T)>) {
    rx.add_stream()
}

/// Calls `BroadcastReceiver::clone`: one more reader of the same stream.
#[verifier::external_body]
fn queue_share<T: Copy>(rx: &multiqueue::BroadcastReceiver<(u8, T)>) -> (reader:
    multiqueue::BroadcastReceiver<(u8, T)>) {
    rx.clone()
}

/// The sending end of a fan-out channel.
///
/// The queue takes no item while one of its streams has no room, and a
/// stream that nobody reads runs out of room. A producer can therefore be
/// given a pilot: a consumer whose stream it empties itself, one item for
/// each item it offers. New streams are then made from a reader of the
/// pilot's stream, which is always at the head of the queue, and each of them
/// goes away with its reader.
#[verifier::reject_recursive_types(T)]
pub struct Producer<T: Copy> {
    tx: multiqueue::BroadcastSender<(u8, T)>,
    pilot: Option<Consumer<T>>,
    mark: Mark,
    offered: Ghost<Seq<(u8, T)>>,
}

/// A receiving end of a fan-out channel.
#[verifier::reject_recursive_types(T)]
pub struct Consumer<T: Copy> {
    rx: multiqueue::BroadcastReceiver<(u8, T)>,
    depth: u32,
    mark: Mark,
    polled: Ghost<Seq<Polled<(u8, T)>>>,
    independent: Ghost<bool>,
}

/// Makes a fan-out channel that holds at least `depth` items, under the mark
/// of the record queue of input bus 0.
pub fn broadcast_queue<T: Copy>(depth: u32) -> (ends: (Producer<T>, Consumer<T>))
    requires
        depth <= MAX_DEPTH,
    ensures
        ends.0.offered() == Seq::<(u8, T)>::empty(),
        !ends.0.piloted(),
        ends.0.mark() == (Mark { bus: 0, monitor: false }),
        ends.1.polled() == Seq::<Polled<(u8, T)>>::empty(),
        ends.1.depth() == depth,
        ends.1.independent(),
        ends.1.mark() == (Mark { bus: 0, monitor: false }),
{
    broadcast_queue_for(depth, Mark { bus: 0, monitor: false })
}

/// Makes a fan-out channel that holds at least `depth` items, under the
/// given mark.
pub fn broadcast_queue_for<T: Copy>(depth: u32, mark: Mark) -> (ends: (Producer<T>, Consumer<T>))
    requires
        depth <= MAX_DEPTH,
    ensures
        ends.0.offered() == Seq::<(u8, T)>::empty(),
        !ends.0.piloted(),
        ends.0.mark() == mark,
        ends.1.polled() == Seq::<Polled<(u8, T)>>::empty(),
        ends.1.depth() == depth,
        ends.1.independent(),
        ends.1.mark() == mark,
{
    let (tx, rx) = queue_new(depth);
    (
        Producer { tx, pilot: None, mark, offered: Ghost(Seq::empty()) },
        Consumer { rx, depth, mark, polled: Ghost(Seq::empty()), independent: Ghost(true) },
    )
}

impl<T: Copy> Producer<T> {
    /// Every item this end has handed to the queue, taken or not, oldest first.
    pub closed spec fn offered(&self) -> Seq<(u8, T)> {
        self.offered@
    }

    /// Whether the producer has a pilot.
    pub closed spec fn piloted(&self) -> bool {
        self.pilot is Some
    }

    /// The mark of the producer's queue.
    pub closed spec fn mark(&self) -> Mark {
        self.mark
    }

    /// The mark of the producer's queue.
    pub fn get_mark(&self) -> (mark: Mark)
        ensures
            mark == self.mark(),
    {
        self.mark
    }

    /// How many items the producer has tried to take off its pilot's stream.
    pub closed spec fn drained(&self) -> nat {
        match self.pilot {
            Some(pilot) => pilot.polled().len(),
            None => 0,
        }
    }

    /// Gives the producer a pilot, in place of the one it had, if any.
    pub fn keep_drained(&mut self, pilot: Consumer<T>)
        ensures
            final(self).piloted(),
            final(self).offered() == old(self).offered(),
            final(self).mark() == old(self).mark(),
            final(self).drained() == pilot.polled().len(),
    {
        self.pilot = Some(pilot);
    }

    /// Offers one item without waiting. A full queue drops it; the answer says
    /// whether the queue took it. A producer with a pilot then takes one item
    /// off the pilot's stream.
    pub fn push(&mut self, item: (u8, T)) -> (accepted: bool)
        ensures
            final(self).offered() == old(self).offered().push(item),
            final(self).piloted() == old(self).piloted(),
            final(self).mark() == old(self).mark(),
            final(self).drained() == if old(self).piloted() {
                old(self).drained() + 1
            } else {
                old(self).drained()
            },
    {
        let accepted = queue_try_send(&self.tx, item);
        proof {
            self.offered@ = self.offered@.push(item);
        }
        match &mut self.pilot {
            Some(pilot) => {
                pilot.poll();
            },
            None => {},
        }
        accepted
    }
}

impl<T: Copy> Consumer<T> {
    /// Every answer this end has had from the queue, oldest first.
    pub closed spec fn polled(&self) -> Seq<Polled<(u8, T)>> {
        self.polled@
    }

    /// The depth the queue was made with.
    pub closed spec fn depth(&self) -> u32 {
        self.depth
    }

    /// Whether this consumer was made as a stream of its own, and not as
    /// one more reader of the stream of the consumer it was made from.
    pub closed spec fn independent(&self) -> bool {
        self.independent@
    }

    /// The mark of the consumer's queue.
    pub closed spec fn mark(&self) -> Mark {
        self.mark
    }

    /// The mark of the consumer's queue.
    pub fn get_mark(&self) -> (mark: Mark)
        ensures
            mark == self.mark(),
    {
        self.mark
    }

    /// The depth the queue was made with.
    pub fn get_depth(&self) -> (depth: u32)
        ensures
            depth == self.depth(),
    {
        self.depth
    }

    /// Takes the next item if there is one, without waiting.
    pub fn poll(&mut self) -> (polled: Polled<(u8, T)>)
        ensures
            final(self).polled() == old(self).polled().push(polled),
            final(self).depth() == old(self).depth(),
            final(self).independent() == old(self).independent(),
            final(self).mark() == old(self).mark(),
    {
        let polled = queue_try_recv(&self.rx);
        proof {
            self.polled@ = self.polled@.push(polled);
        }
        polled
    }

    /// A consumer of its own: it starts where this one stands and from then on
    /// reads every item, whatever this one does.
    pub fn add_stream(&self) -> (stream: Consumer<T>)
        ensures
            stream.polled() == Seq::<Polled<(u8, T)>>::empty(),
            stream.depth() == self.depth(),
            stream.independent(),
            stream.mark() == self.mark(),
    {
        Consumer {
            rx: queue_add_stream(&self.rx),
            depth: self.depth,
            mark: self.mark,
            polled: Ghost(Seq::empty()),
            independent: Ghost(true),
        }
    }

    /// One more reader of this consumer's stream: an item goes to one of the
    /// two, not to both.
    pub fn share(&self) -> (reader: Consumer<T>)
        ensures
            reader.polled() == Seq::<Polled<(u8, T)>>::empty(),
            reader.depth() == self.depth(),
            !reader.independent(),
            reader.mark() == self.mark(),
    {
        Consumer {
            rx: queue_share(&self.rx),
            depth: self.depth,
            mark: self.mark,
            polled: Ghost(Seq::empty()),
            independent: Ghost(false),
        }
    }
}

} // verus!
