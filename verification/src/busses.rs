//! Buses: the channels of one hardware stream that are treated as a unit, and
//! the two callbacks that move samples between an interleaved hardware buffer
//! and channel-tagged queues.

use vstd::prelude::*;
use vstd::arithmetic::div_mod::{lemma_small_mod, lemma_mod_self_0, lemma_add_mod_noop, lemma_mod_bound};
use crate::fanout::{Polled, Producer};
use crate::link::Inlet;
use crate::config::StreamConfig;
use crate::text::{list_text, push_list};
use crate::utils::contains_id;
use vstd::string::StringExecFns;

verus! {

/// How a bus lays its samples out.
#[derive(Debug, Clone, Copy, PartialEq, Eq, Structural)]
pub enum BusConfig {
    /// One selected channel; each of its samples goes to both sides of a pair.
    Mono,
    /// Two selected channels; each sample keeps its own channel.
    Stereo,
}

impl BusConfig {
    /// The layout that a number of selected channels stands for.
    pub open spec fn of_count(nof_channels: int) -> BusConfig {
        if nof_channels == 1 {
            BusConfig::Mono
        } else {
            BusConfig::Stereo
        }
    }

    /// How many tagged samples one captured sample becomes.
    pub open spec fn fan(self) -> nat {
        match self {
            BusConfig::Mono => 2,
            BusConfig::Stereo => 1,
        }
    }

    /// Maps a channel count to its layout. Only one or two channels make a bus.
    pub fn get_bus_config(nof_channels: &u8) -> (config: BusConfig)
        requires
            *nof_channels == 1 || *nof_channels == 2,
        ensures
            config == Self::of_count(*nof_channels as int),
    {
        if *nof_channels == 1 {
            BusConfig::Mono
        } else {
            BusConfig::Stereo
        }
    }
}

/// The channel that follows `cur` in a stream of `nof_channels` channels.
pub open spec fn next_cursor(cur: int, nof_channels: int) -> int {
    cur % nof_channels + 1
}

/// The channel reached from `start` by taking one step for each of `k` samples.
pub open spec fn cursor_walk(start: int, k: nat, nof_channels: int) -> int
    decreases k,
{
    if k == 0 {
        start
    } else {
        next_cursor(cursor_walk(start, (k - 1) as nat, nof_channels), nof_channels)
    }
}

/// The channel of the sample that comes `k` samples after one on channel `start`.
pub open spec fn cursor_after(start: int, k: int, nof_channels: int) -> int {
    (start - 1 + k) % nof_channels + 1
}

/// One step from a channel in range is the closed form for one sample.
pub proof fn lemma_cursor_step(start: int, k: int, nof_channels: int)
    requires
        1 <= start <= nof_channels,
        0 <= k,
    ensures
        1 <= cursor_after(start, k, nof_channels) <= nof_channels,
        next_cursor(cursor_after(start, k, nof_channels), nof_channels) == cursor_after(
            start,
            k + 1,
            nof_channels,
        ),
{
    let n = nof_channels;
    let a = start - 1 + k;
    lemma_mod_bound(a, n);
    let r = a % n;
    // (r + 1) % n == (a + 1) % n
    lemma_add_mod_noop(a, 1, n);
    if n == 1 {
        lemma_mod_self_0(1);
        lemma_mod_bound(a + 1, n);
        lemma_mod_bound(r + 1, n);
    } else {
        lemma_small_mod(1, n as nat);
    }
}

/// Stepping the cursor once per sample lands where the closed form says,
/// whatever was done with the samples on the way.
pub proof fn lemma_cursor_walk(start: int, k: nat, nof_channels: int)
    requires
        1 <= start <= nof_channels,
    ensures
        cursor_walk(start, k, nof_channels) == cursor_after(start, k as int, nof_channels),
        1 <= cursor_walk(start, k, nof_channels) <= nof_channels,
    decreases k,
{
    if k == 0 {
        lemma_small_mod((start - 1) as nat, nof_channels as nat);
    } else {
        lemma_cursor_walk(start, (k - 1) as nat, nof_channels);
        lemma_cursor_step(start, k - 1, nof_channels);
    }
}

/// Moves the channel cursor on by one sample, wrapping to channel 1.
pub fn next_channel(cur: u8, nof_chs: u8) -> (next: u8)
    requires
        1 <= cur <= nof_chs,
    ensures
        next == next_cursor(cur as int, nof_chs as int),
        1 <= next <= nof_chs,
{
    proof {
        if cur == nof_chs {
            lemma_mod_self_0(nof_chs as int);
        } else {
            lemma_small_mod(cur as nat, nof_chs as nat);
        }
    }
    if cur >= nof_chs {
        1
    } else {
        cur + 1
    }
}

/// The tagged samples that one captured sample on channel `ch` becomes: none
/// if the bus did not select the channel, both sides of the pair on a mono
/// bus, the sample under its own channel on a stereo bus.
pub open spec fn tags_of<T>(ch: u8, sample: T, in_chs: Seq<u8>, config: BusConfig) -> Seq<(u8, T)> {
    if !in_chs.contains(ch) {
        Seq::empty()
    } else {
        match config {
            BusConfig::Mono => seq![(1u8, sample), (2u8, sample)],
            BusConfig::Stereo => seq![(ch, sample)],
        }
    }
}

/// The tagged samples that an interleaved buffer becomes, when its first
/// sample is on channel `start`.
pub open spec fn demux_spec<T>(
    data: Seq<T>,
    start: int,
    nof_channels: int,
    in_chs: Seq<u8>,
    config: BusConfig,
) -> Seq<(u8, T)>
    decreases data.len(),
{
    if data.len() == 0 {
        Seq::empty()
    } else {
        demux_spec(data.drop_last(), start, nof_channels, in_chs, config) + tags_of(
            cursor_after(start, data.len() - 1, nof_channels) as u8,
            data.last(),
            in_chs,
            config,
        )
    }
}

/// How many of the first `k` samples fall on a selected channel.
pub open spec fn selected_count(k: nat, start: int, nof_channels: int, in_chs: Seq<u8>) -> nat
    decreases k,
{
    if k == 0 {
        0
    } else {
        let before = selected_count((k - 1) as nat, start, nof_channels, in_chs);
        if in_chs.contains(cursor_after(start, k - 1, nof_channels) as u8) {
            before + 1
        } else {
            before
        }
    }
}

/// A mono bus dispatches two tagged samples for each captured sample on a
/// selected channel, a stereo bus one, and neither dispatches anything for
/// the other channels.
pub proof fn lemma_dispatch_count<T>(
    data: Seq<T>,
    start: int,
    nof_channels: int,
    in_chs: Seq<u8>,
    config: BusConfig,
)
    ensures
        demux_spec(data, start, nof_channels, in_chs, config).len() == config.fan()
            * selected_count(data.len(), start, nof_channels, in_chs),
        forall|ch: u8, sample: T|
            in_chs.contains(ch) ==> (#[trigger] tags_of(ch, sample, in_chs, config)).len()
                == config.fan(),
        forall|ch: u8, sample: T|
            !in_chs.contains(ch) ==> (#[trigger] tags_of(ch, sample, in_chs, config)).len() == 0,
    decreases data.len(),
{
    if data.len() > 0 {
        lemma_dispatch_count(data.drop_last(), start, nof_channels, in_chs, config);
        let before = selected_count((data.len() - 1) as nat, start, nof_channels, in_chs);
        assert(config.fan() * (before + 1) == config.fan() * before + config.fan())
            by (nonlinear_arith);
    }
}

/// Splits an interleaved buffer into tagged samples and tells the channel of
/// the sample that will follow the buffer.
pub fn demux<T: Copy>(
    data: &[T],
    in_chs: &Vec<u8>,
    nof_chs: u8,
    bus_config: BusConfig,
    cursor: u8,
) -> (out: (Vec<(u8, T)>, u8))
    requires
        1 <= cursor <= nof_chs,
    ensures
        out.0@ == demux_spec(data@, cursor as int, nof_chs as int, in_chs@, bus_config),
        out.1 == cursor_after(cursor as int, data@.len() as int, nof_chs as int),
{
    let mut tagged: Vec<(u8, T)> = Vec::new();
    let mut cur: u8 = cursor;
    let mut i: usize = 0;
    proof {
        lemma_small_mod((cursor - 1) as nat, nof_chs as nat);
    }
    while i < data.len()
        invariant
            i <= data@.len(),
            1 <= cursor <= nof_chs,
            cur == cursor_after(cursor as int, i as int, nof_chs as int),
            tagged@ == demux_spec(
                data@.take(i as int),
                cursor as int,
                nof_chs as int,
                in_chs@,
                bus_config,
            ),
        decreases data@.len() - i,
    {
        let sample = data[i];
        proof {
            lemma_cursor_step(cursor as int, i as int, nof_chs as int);
            assert(data@.take(i + 1).drop_last() == data@.take(i as int));
        }
        if contains_id(in_chs, cur) {
            match bus_config {
                BusConfig::Mono => {
                    tagged.push((1, sample));
                    tagged.push((2, sample));
                },
                BusConfig::Stereo => {
                    tagged.push((cur, sample));
                },
            }
        }
        cur = next_channel(cur, nof_chs);
        i = i + 1;
    }
    proof {
        assert(data@.take(i as int) == data@);
    }
    (tagged, cur)
}

/// Offers one tagged sample to every sink of a bus.
fn offer_all<T: Copy>(txs: &mut Vec<Producer<T>>, item: (u8, T))
    ensures
        final(txs).len() == old(txs).len(),
        forall|j: int|
            0 <= j < old(txs).len() ==> (#[trigger] final(txs)[j]).offered() == old(
                txs,
            )[j].offered().push(item) && final(txs)[j].piloted() == old(txs)[j].piloted(),
{
    let mut j: usize = 0;
    while j < txs.len()
        invariant
            j <= txs.len(),
            txs.len() == old(txs).len(),
            forall|k: int|
                0 <= k < j ==> (#[trigger] txs[k]).offered() == old(txs)[k].offered().push(item),
            forall|k: int| j <= k < txs.len() ==> (#[trigger] txs[k]).offered() == old(txs)[k].offered(),
            forall|k: int| 0 <= k < txs.len() ==> (#[trigger] txs[k]).piloted() == old(txs)[k].piloted(),
        decreases txs.len() - j,
    {
        txs[j].push(item);
        j = j + 1;
    }
}

/// The capture callback: takes one interleaved buffer from the device and
/// offers the samples of the selected channels, tagged, to every sink of the
/// bus. Nothing here waits: a sink that is full misses the sample. The result
/// is the channel of the sample that will follow the buffer, to be passed to
/// the next call.
pub fn broadcast_clb<T: Copy>(
    data: &[T],
    txs: &mut Vec<Producer<T>>,
    in_chs: &Vec<u8>,
    nof_chs: &u8,
    bus_config: &BusConfig,
    cursor: u8,
) -> (next: u8)
    requires
        1 <= cursor <= *nof_chs,
    ensures
        next == cursor_after(cursor as int, data@.len() as int, *nof_chs as int),
        final(txs).len() == old(txs).len(),
        forall|j: int|
            0 <= j < old(txs).len() ==> (#[trigger] final(txs)[j]).offered() == old(
                txs,
            )[j].offered() + demux_spec(
                data@,
                cursor as int,
                *nof_chs as int,
                in_chs@,
                *bus_config,
            ) && final(txs)[j].piloted() == old(txs)[j].piloted(),
{
    let mut cur: u8 = cursor;
    let mut i: usize = 0;
    proof {
        lemma_small_mod((cursor - 1) as nat, *nof_chs as nat);
    }
    while i < data.len()
        invariant
            i <= data@.len(),
            1 <= cursor <= *nof_chs,
            cur == cursor_after(cursor as int, i as int, *nof_chs as int),
            txs.len() == old(txs).len(),
            forall|j: int| 0 <= j < txs.len() ==> (#[trigger] txs[j]).piloted() == old(txs)[j].piloted(),
            forall|j: int|
                0 <= j < txs.len() ==> (#[trigger] txs[j]).offered() == old(txs)[j].offered()
                    + demux_spec(
                    data@.take(i as int),
                    cursor as int,
                    *nof_chs as int,
                    in_chs@,
                    *bus_config,
                ),
        decreases data@.len() - i,
    {
        let sample = data[i];
        let ghost before = demux_spec(
            data@.take(i as int),
            cursor as int,
            *nof_chs as int,
            in_chs@,
            *bus_config,
        );
        let ghost added = tags_of(cur, sample, in_chs@, *bus_config);
        proof {
            lemma_cursor_step(cursor as int, i as int, *nof_chs as int);
            assert(data@.take(i + 1).drop_last() == data@.take(i as int));
        }
        if contains_id(in_chs, cur) {
            match bus_config {
                BusConfig::Mono => {
                    offer_all(txs, (1, sample));
                    offer_all(txs, (2, sample));
                },
                BusConfig::Stereo => {
                    offer_all(txs, (cur, sample));
                },
            }
        }
        proof {
            assert forall|j: int| 0 <= j < txs.len() implies (#[trigger] txs[j]).offered() == old(
                txs,
            )[j].offered() + (before + added) by {
                assert(txs[j].offered() == (old(txs)[j].offered() + before) + added);
            }
        }
        cur = next_channel(cur, *nof_chs);
        i = i + 1;
    }
    proof {
        assert(data@.take(i as int) == data@);
    }
    cur
}

/// What one output slot holds and where the output cursor stands after one
/// poll of the bus's link: a sample tagged for the channel under the cursor
/// fills the slot, any other sample leaves the slot as the device gave it,
/// and either moves the cursor on; without a sample nothing changes.
pub open spec fn mux_slot<T>(slot: T, polled: Polled<(u8, T)>, out_chs: Seq<u8>, idx: int) -> (
    T,
    int,
) {
    match polled {
        Polled::Item((ch, sample)) => (
            if ch == out_chs[idx] {
                sample
            } else {
                slot
            },
            if idx + 1 >= out_chs.len() {
                0
            } else {
                idx + 1
            },
        ),
        _ => (slot, idx),
    }
}

/// An output buffer after one poll for each of its slots, front to back, and
/// the place of the output cursor after the last.
pub open spec fn mux_spec<T>(
    data: Seq<T>,
    polls: Seq<Polled<(u8, T)>>,
    out_chs: Seq<u8>,
    idx: int,
) -> (Seq<T>, int)
    recommends
        polls.len() == data.len(),
    decreases data.len(),
{
    if data.len() == 0 {
        (data, idx)
    } else {
        let (head, mid) = mux_spec(data.drop_last(), polls.drop_last(), out_chs, idx);
        let (value, next) = mux_slot(data.last(), polls.last(), out_chs, mid);
        (head.push(value), next)
    }
}

/// The render callback: fills one interleaved buffer for the device from the
/// bus's link, one poll for each slot. Nothing here waits: a slot for which
/// no sample is there stays as the device gave it. `ch_idx` is the place of
/// the output cursor in `out_channels`; the result is its place after the
/// buffer, to be passed to the next call.
pub fn playback_clb<T: Copy>(
    data: &mut [T],
    rx: &mut Inlet<(u8, T)>,
    out_channels: &Vec<u8>,
    ch_idx: usize,
) -> (next: usize)
    requires
        ch_idx < out_channels.len(),
    ensures
        next < out_channels.len(),
        final(data)@.len() == old(data)@.len(),
        final(rx).polled().len() == old(rx).polled().len() + old(data)@.len(),
        final(rx).polled().take(old(rx).polled().len() as int) == old(rx).polled(),
        (final(data)@, next as int) == mux_spec(
            old(data)@,
            final(rx).polled().skip(old(rx).polled().len() as int),
            out_channels@,
            ch_idx as int,
        ),
{
    let mut idx: usize = ch_idx;
    let mut i: usize = 0;
    let ghost mut polls: Seq<Polled<(u8, T)>> = Seq::empty();
    proof {
        assert(old(data)@.take(0) == Seq::<T>::empty());
    }
    while i < data.len()
        invariant
            i <= data@.len(),
            data@.len() == old(data)@.len(),
            idx < out_channels.len(),
            polls.len() == i,
            rx.polled() == old(rx).polled() + polls,
            (data@.take(i as int), idx as int) == mux_spec(
                old(data)@.take(i as int),
                polls,
                out_channels@,
                ch_idx as int,
            ),
            forall|k: int| i <= k < data@.len() ==> data@[k] == old(data)@[k],
        decreases data@.len() - i,
    {
        let polled = rx.poll();
        let ghost before = data@;
        let ghost old_polls = polls;
        proof {
            polls = polls.push(polled);
            assert(old(data)@.take(i + 1).drop_last() == old(data)@.take(i as int));
            assert(polls.drop_last() == old_polls);
        }
        match polled {
            Polled::Item((ch, sample)) => {
                if ch == out_channels[idx] {
                    data[i] = sample;
                }
                idx = if idx + 1 >= out_channels.len() {
                    0
                } else {
                    idx + 1
                };
            },
            _ => {},
        }
        proof {
            assert(data@.take(i + 1) == before.take(i as int).push(data@[i as int]));
        }
        i = i + 1;
    }
    proof {
        assert(data@.take(i as int) == data@);
        assert(old(data)@.take(i as int) == old(data)@);
        assert(rx.polled().skip(old(rx).polled().len() as int) == polls);
        assert(rx.polled().take(old(rx).polled().len() as int) == old(rx).polled());
    }
    idx
}

/// What a bus is, apart from its queues.
pub struct BusView {
    /// The bus's place among the buses of its direction.
    pub id: u8,
    /// The hardware channels the bus selects, in the order given.
    pub channel_ids: Seq<u8>,
    /// The tracks attached to the bus, in the order they were attached.
    pub track_ids: Seq<u8>,
    /// The layout that follows from the number of selected channels.
    pub config: BusConfig,
    /// How many channels the hardware stream interleaves.
    pub nof_channels: u8,
}

/// Whether a list of channel ids and a stream can make a bus: one or two
/// channels, in a stream that has between 1 and 255.
pub open spec fn bus_shape_ok(channel_ids: Seq<u8>, stream: StreamConfig) -> bool {
    &&& channel_ids.len() == 1 || channel_ids.len() == 2
    &&& 1 <= stream.channels <= 255
}

/// A bus as it stands when it is made: no track attached yet.
pub open spec fn new_bus(id: u8, channel_ids: Seq<u8>, stream: StreamConfig) -> BusView {
    BusView {
        id,
        channel_ids,
        track_ids: Seq::empty(),
        config: BusConfig::of_count(channel_ids.len() as int),
        nof_channels: stream.channels as u8,
    }
}

/// A bus that captures from the hardware.
pub struct InputBus {
    id: u8,
    track_ids: Vec<u8>,
    channel_ids: Vec<u8>,
    config: BusConfig,
    nof_channels: u8,
}

/// A bus that renders to the hardware.
pub struct OutputBus {
    id: u8,
    track_ids: Vec<u8>,
    channel_ids: Vec<u8>,
    config: BusConfig,
    nof_channels: u8,
}

impl View for InputBus {
    type V = BusView;

    closed spec fn view(&self) -> BusView {
        BusView {
            id: self.id,
            channel_ids: self.channel_ids@,
            track_ids: self.track_ids@,
            config: self.config,
            nof_channels: self.nof_channels,
        }
    }
}

impl View for OutputBus {
    type V = BusView;

    closed spec fn view(&self) -> BusView {
        BusView {
            id: self.id,
            channel_ids: self.channel_ids@,
            track_ids: self.track_ids@,
            config: self.config,
            nof_channels: self.nof_channels,
        }
    }
}

impl InputBus {
    /// Makes the bus with the given id over the selected channels of a stream.
    pub fn new(id: u8, stream_config: &StreamConfig, channel_ids: Vec<u8>) -> (bus: InputBus)
        requires
            bus_shape_ok(channel_ids@, *stream_config),
        ensures
            bus@ == new_bus(id, channel_ids@, *stream_config),
    {
        let count: u8 = if channel_ids.len() == 1 {
            1
        } else {
            2
        };
        InputBus {
            id,
            track_ids: Vec::new(),
            config: BusConfig::get_bus_config(&count),
            channel_ids,
            nof_channels: stream_config.channels as u8,
        }
    }

    /// Attaches a track to the bus.
    pub fn add_track(&mut self, track_id: u8)
        ensures
            final(self)@ == (BusView { track_ids: old(self)@.track_ids.push(track_id), ..old(self)@ }),
    {
        self.track_ids.push(track_id);
    }

    /// The bus's id.
    pub fn get_id(&self) -> (id: u8)
        ensures
            id == self@.id,
    {
        self.id
    }

    /// The tracks attached to the bus.
    pub fn get_track_ids(&self) -> (ids: Vec<u8>)
        ensures
            ids@ == self@.track_ids,
    {
        self.track_ids.clone()
    }

    /// The hardware channels the bus selects.
    pub fn get_channel_ids(&self) -> (ids: Vec<u8>)
        ensures
            ids@ == self@.channel_ids,
    {
        self.channel_ids.clone()
    }

    /// The bus's layout.
    pub fn get_config(&self) -> (config: BusConfig)
        ensures
            config == self@.config,
    {
        self.config
    }

    /// How many channels the hardware stream interleaves.
    pub fn get_nof_channels(&self) -> (nof_channels: u8)
        ensures
            nof_channels == self@.nof_channels,
    {
        self.nof_channels
    }

    /// The bus in words: its channels as a list.
    pub fn to_string(&self) -> (text: String)
        ensures
            text@ == "Channels: "@ + list_text(self@.channel_ids),
    {
        let mut text = String::from_str("Channels: ");
        push_list(&mut text, &self.channel_ids);
        text
    }
}

impl OutputBus {
    /// Makes the bus with the given id over the selected channels of a stream.
    pub fn new(id: u8, config: &StreamConfig, channel_ids: Vec<u8>) -> (bus: OutputBus)
        requires
            bus_shape_ok(channel_ids@, *config),
        ensures
            bus@ == new_bus(id, channel_ids@, *config),
    {
        let count: u8 = if channel_ids.len() == 1 {
            1
        } else {
            2
        };
        OutputBus {
            id,
            track_ids: Vec::new(),
            config: BusConfig::get_bus_config(&count),
            channel_ids,
            nof_channels: config.channels as u8,
        }
    }

    /// Attaches a track to the bus.
    pub fn add_track(&mut self, track_id: u8)
        ensures
            final(self)@ == (BusView { track_ids: old(self)@.track_ids.push(track_id), ..old(self)@ }),
    {
        self.track_ids.push(track_id);
    }

    /// The bus's id.
    pub fn get_id(&self) -> (id: u8)
        ensures
            id == self@.id,
    {
        self.id
    }

    /// The tracks attached to the bus.
    pub fn get_track_ids(&self) -> (ids: Vec<u8>)
        ensures
            ids@ == self@.track_ids,
    {
        self.track_ids.clone()
    }

    /// The hardware channels the bus selects.
    pub fn get_channel_ids(&self) -> (ids: Vec<u8>)
        ensures
            ids@ == self@.channel_ids,
    {
        self.channel_ids.clone()
    }

    /// The bus in words: its channels as a list.
    pub fn to_string(&self) -> (text: String)
        ensures
            text@ == "Channels: "@ + list_text(self@.channel_ids),
    {
        let mut text = String::from_str("Channels: ");
        push_list(&mut text, &self.channel_ids);
        text
    }
}

} // verus!
