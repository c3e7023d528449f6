//! The mixer of one output bus: it gathers one sample from each track that
//! feeds the bus, channel after channel, and sends one mixed sample per
//! channel on to the bus.
//!
//! Samples are opaque here. The arithmetic on them (which samples are numbers,
//! and their mean) belongs to the thread that runs the mixer; this module
//! keeps the sources, the channel whose turn it is, and the links.

use vstd::prelude::*;
use crate::fanout::Polled;
use crate::link::{Inlet, Outlet};
use crate::tracks::turn;

verus! {

/// The sample that an answer contributes to the mix of the channel `ch`:
/// the sample it brings, if it brings one tagged for that channel.
pub open spec fn contribution<T>(polled: Polled<(u8, T)>, ch: u8) -> Option<T> {
    match polled {
        Polled::Item((tag, sample)) => if tag == ch {
            Some(sample)
        } else {
            None
        },
        _ => None,
    }
}

/// The samples that the answers of the sources contribute to the mix of the
/// channel `ch`, in the order of the sources. An answer tagged for another
/// channel contributes nothing.
pub open spec fn samples_for<T>(polls: Seq<Polled<(u8, T)>>, ch: u8) -> Seq<T>
    decreases polls.len(),
{
    if polls.len() == 0 {
        Seq::empty()
    } else {
        match contribution(polls.last(), ch) {
            Some(sample) => samples_for(polls.drop_last(), ch).push(sample),
            None => samples_for(polls.drop_last(), ch),
        }
    }
}

/// The sources that stay after each has given one answer: those whose
/// answer was not that the stream has ended, in their old order.
pub open spec fn still_open<A, M>(sources: Seq<A>, polls: Seq<Polled<M>>) -> Seq<A>
    recommends
        sources.len() == polls.len(),
    decreases sources.len(),
{
    if sources.len() == 0 {
        Seq::empty()
    } else {
        let rest = still_open(sources.drop_last(), polls.drop_last());
        if polls.last() is Closed {
            rest
        } else {
            rest.push(sources.last())
        }
    }
}

/// Each of the sources has waited for one answer, and `polls` are those
/// answers in the order of the sources.
pub open spec fn answered<M>(
    before: Seq<Inlet<M>>,
    after: Seq<Inlet<M>>,
    polls: Seq<Polled<M>>,
) -> bool {
    &&& after.len() == before.len()
    &&& polls.len() == before.len()
    &&& forall|i: int|
        0 <= i < before.len() ==> (#[trigger] after[i]).polled() == before[i].polled().push(
            polls[i],
        )
    &&& forall|i: int| 0 <= i < polls.len() ==> !(#[trigger] polls[i] is Empty)
}

/// What a mixer sends for one channel: the mixed sample under the channel's
/// tag, or nothing where there was nothing to mix.
pub open spec fn emitted<T>(ch: u8, mixed: Option<T>) -> Seq<(u8, T)> {
    match mixed {
        Some(sample) => seq![(ch, sample)],
        None => Seq::empty(),
    }
}

/// What ties an output bus to tracks that begin to feed it: the bus, a
/// sending end of the link to the bus, and the links from the tracks.
#[verifier::reject_recursive_types(T)]
pub struct MonitorLink<T> {
    /// The id of the output bus.
    pub out_bus_id: u8,
    /// A sending end of the link to the bus.
    pub tx_to_bus: Outlet<(u8, T)>,
    /// The receiving ends of the links from the tracks.
    pub rxs_from_monitors: Vec<Inlet<(u8, T)>>,
}

impl<T> MonitorLink<T> {
    /// Takes the link apart: the bus, the sending end, the links from the tracks.
    pub fn as_tup(self) -> (parts: (u8, Outlet<(u8, T)>, Vec<Inlet<(u8, T)>>))
        ensures
            parts == (self.out_bus_id, self.tx_to_bus, self.rxs_from_monitors),
    {
        (self.out_bus_id, self.tx_to_bus, self.rxs_from_monitors)
    }
}

/// The sources that one answer of the side link brings.
pub open spec fn brought<T>(polled: Polled<MonitorLink<T>>) -> Seq<Inlet<(u8, T)>> {
    match polled {
        Polled::Item(link) => link.rxs_from_monitors@,
        _ => Seq::empty(),
    }
}

/// The mixer of one output bus.
#[verifier::reject_recursive_types(T)]
pub struct Mixer<T> {
    out_channels: Vec<u8>,
    place: usize,
    sources: Vec<Inlet<(u8, T)>>,
    intake: Inlet<MonitorLink<T>>,
    out: Outlet<(u8, T)>,
    cancel: Inlet<()>,
}

impl<T> Mixer<T> {
    /// The channels of the output bus, in the order they are mixed.
    pub closed spec fn out_channels(&self) -> Seq<u8> {
        self.out_channels@
    }

    /// The place in `out_channels` of the channel that is mixed next.
    pub closed spec fn place(&self) -> int {
        self.place as int
    }

    /// The sources that feed the bus at present.
    pub closed spec fn sources(&self) -> Seq<Inlet<(u8, T)>> {
        self.sources@
    }

    /// The side link on which new sources arrive.
    pub closed spec fn intake(&self) -> Inlet<MonitorLink<T>> {
        self.intake
    }

    /// The link to the output bus.
    pub closed spec fn out(&self) -> Outlet<(u8, T)> {
        self.out
    }

    /// The link on which the signal to stop arrives.
    pub closed spec fn cancel(&self) -> Inlet<()> {
        self.cancel
    }

    /// Whether the mixer has a channel to mix and stands on one.
    pub open spec fn wf(&self) -> bool {
        0 <= self.place() < self.out_channels().len()
    }

    /// Makes a mixer without sources that stands on the first of its channels.
    pub fn new(
        out_channels: Vec<u8>,
        intake: Inlet<MonitorLink<T>>,
        out: Outlet<(u8, T)>,
        cancel: Inlet<()>,
    ) -> (mixer: Mixer<T>)
        requires
            out_channels@.len() > 0,
        ensures
            mixer.wf(),
            mixer.out_channels() == out_channels@,
            mixer.place() == 0,
            mixer.sources() == Seq::<Inlet<(u8, T)>>::empty(),
            mixer.intake() == intake,
            mixer.out() == out,
            mixer.cancel() == cancel,
    {
        Mixer { out_channels, place: 0, sources: Vec::new(), intake, out, cancel }
    }

    /// How many sources feed the bus at present.
    pub fn nof_sources(&self) -> (count: usize)
        ensures
            count == self.sources().len(),
    {
        self.sources.len()
    }

    /// The channel that is mixed next.
    pub fn channel(&self) -> (ch: u8)
        requires
            self.wf(),
        ensures
            ch == self.out_channels()[self.place()],
    {
        self.out_channels[self.place]
    }

    /// Between two passes over the channels, looks once, without waiting,
    /// for new sources on the side link and puts them behind the sources that
    /// are there. In the middle of a pass nothing is looked for, so that a
    /// new source and the mixer begin with the same channel. The result is
    /// how many sources came.
    pub fn adopt(&mut self) -> (count: usize)
        ensures
            old(self).place() != 0 ==> count == 0 && final(self).intake() == old(self).intake()
                && final(self).sources() == old(self).sources(),
            old(self).place() == 0 ==> {
                &&& final(self).intake().polled().len() == old(self).intake().polled().len() + 1
                &&& final(self).intake().polled().drop_last() == old(self).intake().polled()
                &&& final(self).intake().mark() == old(self).intake().mark()
                &&& final(self).sources() == old(self).sources() + brought(
                    final(self).intake().polled().last(),
                )
                &&& count == brought(final(self).intake().polled().last()).len()
            },
            final(self).out_channels() == old(self).out_channels(),
            final(self).place() == old(self).place(),
            final(self).out() == old(self).out(),
            final(self).cancel() == old(self).cancel(),
    {
        if self.place != 0 {
            return 0;
        }
        let polled = self.intake.poll();
        proof {
            assert(self.intake.polled().drop_last() == old(self).intake.polled());
        }
        match polled {
            Polled::Item(link) => {
                let (_, _, mut list) = link.as_tup();
                let count = list.len();
                self.sources.append(&mut list);
                count
            },
            _ => {
                assert(self.sources@ =~= old(self).sources@ + Seq::<Inlet<(u8, T)>>::empty());
                0
            },
        }
    }

    /// Waits for one answer from each source, in their order, for the mix of
    /// the channel whose turn it is. An answer that brings a sample tagged
    /// for that channel contributes the sample. An answer that brings a
    /// sample tagged for another channel is dropped: it contributes nothing,
    /// and its source stays. A source whose stream has ended leaves the
    /// mixer. The result holds the contributions in the order of the sources.
    pub fn collect(&mut self) -> (got: Vec<T>)
        requires
            old(self).wf(),
        ensures
            final(self).wf(),
            exists|after: Seq<Inlet<(u8, T)>>, polls: Seq<Polled<(u8, T)>>|
                {
                    &&& #[trigger] answered(old(self).sources(), after, polls)
                    &&& final(self).sources() == still_open(after, polls)
                    &&& got@ == samples_for(polls, old(self).out_channels()[old(self).place()])
                },
            got@.len() <= final(self).sources().len(),
            final(self).out_channels() == old(self).out_channels(),
            final(self).place() == old(self).place(),
            final(self).intake() == old(self).intake(),
            final(self).out() == old(self).out(),
            final(self).cancel() == old(self).cancel(),
    {
        let ch = self.out_channels[self.place];
        let mut pending: Vec<Inlet<(u8, T)>> = Vec::new();
        std::mem::swap(&mut pending, &mut self.sources);
        let mut kept: Vec<Inlet<(u8, T)>> = Vec::new();
        let mut got: Vec<T> = Vec::new();
        let ghost before = old(self).sources@;
        let ghost mut after: Seq<Inlet<(u8, T)>> = Seq::empty();
        let ghost mut polls: Seq<Polled<(u8, T)>> = Seq::empty();
        while pending.len() > 0
            invariant
                before == old(self).sources@,
                after.len() == polls.len(),
                after.len() + pending@.len() == before.len(),
                pending@ == before.skip(after.len() as int),
                answered(before.take(after.len() as int), after, polls),
                kept@ == still_open(after, polls),
                got@ == samples_for(polls, ch),
                got@.len() <= kept@.len(),
            decreases pending@.len(),
        {
            let ghost done = after.len() as int;
            let mut source = pending.remove(0);
            let polled = source.wait();
            proof {
                let old_after = after;
                let old_polls = polls;
                after = after.push(source);
                polls = polls.push(polled);
                assert(after.drop_last() == old_after);
                assert(polls.drop_last() == old_polls);
                assert(pending@ == before.skip(done + 1));
                assert(before.take(done + 1) == before.take(done).push(before[done]));
                assert forall|i: int| 0 <= i < done + 1 implies (#[trigger] after[i]).polled()
                    == before.take(done + 1)[i].polled().push(polls[i]) by {
                    if i < done {
                        assert(after[i] == old_after[i]);
                    }
                }
                assert forall|i: int| 0 <= i < polls.len() implies !(#[trigger] polls[i] is Empty) by {
                    if i < done {
                        assert(polls[i] == old_polls[i]);
                    }
                }
            }
            match polled {
                Polled::Item((tag, sample)) => {
                    if tag == ch {
                        got.push(sample);
                    }
                    kept.push(source);
                },
                Polled::Closed => {},
                Polled::Empty => {
                    assert(false);
                },
            }
        }
        self.sources = kept;
        proof {
            assert(before.take(after.len() as int) == before);
            assert(answered(old(self).sources(), after, polls));
        }
        got
    }

    /// Ends the mixing of the channel whose turn it is: sends the mixed
    /// sample, if there is one, to the output bus under that channel's tag,
    /// and moves on to the next channel. The result says whether that was the
    /// last channel of the set, so that the next turn begins a new pass.
    pub fn emit(&mut self, mixed: Option<T>) -> (pass_done: bool)
        requires
            old(self).wf(),
        ensures
            final(self).wf(),
            final(self).out().sent() == old(self).out().sent() + emitted(
                old(self).out_channels()[old(self).place()],
                mixed,
            ),
            final(self).place() == turn(old(self).place(), old(self).out_channels().len() as int),
            pass_done == (final(self).place() == 0),
            final(self).out_channels() == old(self).out_channels(),
            final(self).sources() == old(self).sources(),
            final(self).intake() == old(self).intake(),
            final(self).cancel() == old(self).cancel(),
    {
        let ch = self.out_channels[self.place];
        let len = self.out_channels.len();
        let next = if self.place + 1 >= len {
            0
        } else {
            self.place + 1
        };
        match mixed {
            Some(sample) => {
                self.out.send((ch, sample));
            },
            None => {},
        }
        proof {
            assert(self.out.sent() =~= old(self).out.sent() + emitted(ch, mixed));
        }
        self.place = next;
        next == 0
    }

    /// Looks once, without waiting, for the signal to stop.
    pub fn cancelled(&mut self) -> (stop: bool)
        ensures
            final(self).cancel().polled().len() == old(self).cancel().polled().len() + 1,
            final(self).cancel().polled().drop_last() == old(self).cancel().polled(),
            stop == (final(self).cancel().polled().last() is Item),
            final(self).out_channels() == old(self).out_channels(),
            final(self).place() == old(self).place(),
            final(self).sources() == old(self).sources(),
            final(self).intake() == old(self).intake(),
            final(self).out() == old(self).out(),
    {
        let signal = self.cancel.poll();
        proof {
            assert(self.cancel.polled().drop_last() == old(self).cancel.polled());
        }
        match signal {
            Polled::Item(_) => true,
            _ => false,
        }
    }
}

} // verus!
