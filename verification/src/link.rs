//! One-to-one links between the threads of the engine: from a track's worker
//! to a mixer, from a mixer to an output bus, and the one-shot signal that
//! cancels a worker.
//!
//! A link is a channel of `std::sync::mpsc`. As with the fan-out channel, each
//! end keeps a ghost history of what passed through it.

use vstd::prelude::*;
use crate::fanout::Polled;

verus! {

/// `std::sync::mpsc::Sender`, of which nothing is known here but its name.
#[verifier::external_type_specification]
#[verifier::external_body]
#[verifier::reject_recursive_types(T)]
pub struct ExSender<T>(std::sync::mpsc::Sender<T>);

/// `std::sync::mpsc::Receiver`, of which nothing is known here but its name.
#[verifier::external_type_specification]
#[verifier::external_body]
#[verifier::reject_recursive_types(T)]
pub struct ExReceiver<T>(std::sync::mpsc::Receiver<T>);

/// Calls `std::sync::mpsc::channel`, which returns the two ends of a new
/// unbounded channel.
#[verifier::external_body]
fn channel_new<M>() -> (ends: (std::sync::mpsc::Sender<M>, std::sync::mpsc::Receiver<M>)) {
    std::sync::mpsc::channel()
}

/// Calls `Sender::send`, which never blocks, and tells whether the receiving
/// end was still there to take the message.
#[verifier::external_body]
fn channel_send<M>(tx: &std::sync::mpsc::Sender<M>, message: M) -> (delivered: bool) {
    tx.send(message).is_ok()
}

/// Calls `Receiver::try_recv`, which never blocks, and hands its three
/// outcomes on.
#[verifier::external_body]
fn channel_try_recv<M>(rx: &std::sync::mpsc::Receiver<M>) -> (polled: Polled<M>) {
    match rx.try_recv() {
        Ok(message) => Polled::Item(message),
        Err(std::sync::mpsc::TryRecvError::Empty) => Polled::Empty,
        Err(std::sync::mpsc::TryRecvError::Disconnected) => Polled::Closed,
    }
}

/// Calls `Receiver::recv`, which waits until a message is there or every
/// sender is gone. It never answers that the channel is empty.
#[verifier::external_body]
fn channel_recv<M>(rx: &std::sync::mpsc::Receiver<M>) -> (polled: Polled<M>)
    ensures
        !(polled is Empty),
{
    match rx.recv() {
        Ok(message) => Polled::Item(message),
        Err(_) => Polled::Closed,
    }
}

/// Calls `Sender::clone`: one more sending end of the same channel.
#[verifier::external_body]
fn channel_share<M>(tx: &std::sync::mpsc::Sender<M>) -> (sender: std::sync::mpsc::Sender<M>) {
    tx.clone()
}

/// The sending end of a link.
#[verifier::reject_recursive_types(M)]
pub struct Outlet<M> {
    tx: std::sync::mpsc::Sender<M>,
    mark: u8,
    sent: Ghost<Seq<M>>,
}

/// The receiving end of a link.
#[verifier::reject_recursive_types(M)]
pub struct Inlet<M> {
    rx: std::sync::mpsc::Receiver<M>,
    mark: u8,
    polled: Ghost<Seq<Polled<M>>>,
}

/// Makes a link under the mark 0 and returns its two ends.
pub fn channel<M>() -> (ends: (Outlet<M>, Inlet<M>))
    ensures
        ends.0.sent() == Seq::<M>::empty(),
        ends.1.polled() == Seq::<Polled<M>>::empty(),
        ends.0.mark() == 0,
        ends.1.mark() == 0,
{
    channel_for(0)
}

/// Makes a link under the given mark and returns its two ends. The mark is
/// the id of the bus or of the track that the link serves; both ends carry
/// it, and so does every further sending end.
pub fn channel_for<M>(mark: u8) -> (ends: (Outlet<M>, Inlet<M>))
    ensures
        ends.0.sent() == Seq::<M>::empty(),
        ends.1.polled() == Seq::<Polled<M>>::empty(),
        ends.0.mark() == mark,
        ends.1.mark() == mark,
{
    let (tx, rx) = channel_new();
    (
        Outlet { tx, mark, sent: Ghost(Seq::empty()) },
        Inlet { rx, mark, polled: Ghost(Seq::empty()) },
    )
}

impl<M> Outlet<M> {
    /// Every message this end has sent, oldest first.
    pub closed spec fn sent(&self) -> Seq<M> {
        self.sent@
    }

    /// The mark of the link.
    pub closed spec fn mark(&self) -> u8 {
        self.mark
    }

    /// The mark of the link.
    pub fn get_mark(&self) -> (mark: u8)
        ensures
            mark == self.mark(),
    {
        self.mark
    }

    /// Sends one message without waiting. The answer says whether the other
    /// end was still there.
    pub fn send(&mut self, message: M) -> (delivered: bool)
        ensures
            final(self).sent() == old(self).sent().push(message),
            final(self).mark() == old(self).mark(),
    {
        let ghost sent = self.sent@.push(message);
        let delivered = channel_send(&self.tx, message);
        proof {
            self.sent@ = sent;
        }
        delivered
    }

    /// One more sending end of the same link, with a history of its own.
    pub fn share(&self) -> (outlet: Outlet<M>)
        ensures
            outlet.sent() == Seq::<M>::empty(),
            outlet.mark() == self.mark(),
    {
        Outlet { tx: channel_share(&self.tx), mark: self.mark, sent: Ghost(Seq::empty()) }
    }
}

impl<M> Inlet<M> {
    /// Every answer this end has had, oldest first.
    pub closed spec fn polled(&self) -> Seq<Polled<M>> {
        self.polled@
    }

    /// The mark of the link.
    pub closed spec fn mark(&self) -> u8 {
        self.mark
    }

    /// The mark of the link.
    pub fn get_mark(&self) -> (mark: u8)
        ensures
            mark == self.mark(),
    {
        self.mark
    }

    /// Takes the next message if there is one, without waiting.
    pub fn poll(&mut self) -> (polled: Polled<M>)
        ensures
            final(self).polled() == old(self).polled().push(polled),
            final(self).mark() == old(self).mark(),
    {
        let polled = channel_try_recv(&self.rx);
        proof {
            self.polled@ = self.polled@.push(polled);
        }
        polled
    }

    /// Waits for the next message, or for the last sender to go.
    pub fn wait(&mut self) -> (polled: Polled<M>)
        ensures
            !(polled is Empty),
            final(self).polled() == old(self).polled().push(polled),
            final(self).mark() == old(self).mark(),
    {
        let polled = channel_recv(&self.rx);
        proof {
            self.polled@ = self.polled@.push(polled);
        }
        polled
    }
}

} // verus!
