//! The router: the owner of every bus and track and of the route map. It
//! decides which track records, monitors or plays back, and makes the queues
//! and links that the workers of those passes run on.

use vstd::prelude::*;
use crate::busses::{bus_shape_ok, new_bus, BusConfig, BusView, InputBus, OutputBus};
use crate::config::{SampleFormat, StreamConfig, WavSpec};
use crate::fanout::{broadcast_queue_for, Consumer, Mark, Polled, Producer};
use crate::link::{channel_for, Inlet, Outlet};
use crate::mixer::{MonitorLink, Mixer};
use crate::routes::{
    distinct_pairs, lemma_empty_route_added, lemma_no_route_between, lemma_with_track,
    one_route_each,
    lemma_push_contains, lemma_route_has_tracks, lemma_route_of_is_a_route, route_of, routes_with,
    tracks_of, RouteMap, RouteView,
};
use crate::tracks::{
    completed_takes, no_signals, output_signal_made, output_signal_sent, record_given_up,
    record_signal_made, record_signal_sent, take_name, wav_spec_of, Output, Signals, Track,
    TrackView,
};
use crate::utils::{contains_id, drain_bound, get_flushed_broadcast_queue, is_drain};

verus! {

/// How deep the queues of an input bus are.
pub const QUEUE_DEPTH: u32 = 1_000_000;

/// The devices and stream shapes a router works with.
pub struct RouteConfig {
    /// The shape of the capture stream.
    pub in_config: StreamConfig,
    /// The shape of the render stream.
    pub out_config: StreamConfig,
    /// The name of the capture device.
    pub in_device: String,
    /// The name of the render device.
    pub out_device: String,
    /// How the devices represent one sample.
    pub sample_format: SampleFormat,
}

/// What the capture callback of a new input bus is started with.
#[verifier::reject_recursive_types(T)]
pub struct CaptureStart<T: Copy> {
    /// The id of the new bus.
    pub bus_id: u8,
    /// The sending ends of the bus's queues: the one that record workers
    /// read, then the one that monitor workers read. Each has a pilot.
    pub txs: Vec<Producer<T>>,
    /// The hardware channels the bus selects.
    pub in_chs: Vec<u8>,
    /// How many channels the capture stream interleaves.
    pub nof_chs: u8,
    /// The bus's layout.
    pub config: BusConfig,
}

/// What the render callback and the mixer of a new output bus are started with.
#[verifier::reject_recursive_types(T)]
pub struct RenderStart<T> {
    /// The id of the new bus.
    pub bus_id: u8,
    /// Where the render callback receives mixed samples.
    pub rx: Inlet<(u8, T)>,
    /// The hardware channels the bus selects.
    pub out_chs: Vec<u8>,
    /// The bus's mixer, to be run on a thread of its own.
    pub mixer: Mixer<T>,
}

/// What the worker of one track's record pass is started with.
#[verifier::reject_recursive_types(T)]
pub struct RecordJob<T: Copy> {
    /// The track that records.
    pub track_id: u8,
    /// The file to create for the take.
    pub file: String,
    /// The header to create it with.
    pub spec: WavSpec,
    /// Where the worker reads what the input bus captures.
    pub consumer: Consumer<T>,
    /// Where the signal to stop arrives.
    pub cancel: Inlet<()>,
}

/// What the worker of one track's monitor or playback pass is started with.
#[verifier::reject_recursive_types(T)]
pub struct OutputJob<T: Copy> {
    /// The track that monitors or plays back.
    pub track_id: u8,
    /// The take to play back; none for a monitor pass.
    pub file: Option<String>,
    /// Where the worker reads what the input bus captures; none for a
    /// playback pass.
    pub consumer: Option<Consumer<T>>,
    /// Where the worker sends its samples; the mixer of the output bus has
    /// been handed the other end.
    pub feed: Outlet<(u8, T)>,
    /// Where the signal to stop arrives.
    pub cancel: Inlet<()>,
    /// The channels of the output bus, which the samples are tagged with in turn.
    pub out_chs: Vec<u8>,
}

/// What a router is, apart from its queues and links.
pub struct RouterView {
    /// The tracks, by id.
    pub tracks: Seq<TrackView>,
    /// The input buses, by id.
    pub inputs: Seq<BusView>,
    /// The output buses, by id.
    pub outputs: Seq<BusView>,
    /// The route map.
    pub routes: Seq<RouteView>,
}

/// The owner of the buses, the tracks and the route map.
#[verifier::reject_recursive_types(T)]
pub struct Router<T: Copy> {
    config: RouteConfig,
    tracks: Vec<Track>,
    input_busses: Vec<(Consumer<T>, Consumer<T>, InputBus)>,
    output_busses: Vec<(Outlet<(u8, T)>, OutputBus)>,
    routes: RouteMap,
    mix_threads: Vec<(u8, Outlet<MonitorLink<T>>, Outlet<()>)>,
}

impl<T: Copy> View for Router<T> {
    type V = RouterView;

    closed spec fn view(&self) -> RouterView {
        RouterView {
            tracks: Seq::new(self.tracks@.len(), |i: int| self.tracks@[i]@),
            inputs: Seq::new(self.input_busses@.len(), |i: int| self.input_busses@[i].2@),
            outputs: Seq::new(self.output_busses@.len(), |i: int| self.output_busses@[i].1@),
            routes: self.routes@,
        }
    }
}

/// Whether the buses of one direction are numbered by their place and have
/// the shape their stream allows.
pub open spec fn busses_ok(busses: Seq<BusView>, stream: StreamConfig) -> bool {
    &&& busses.len() <= 256
    &&& forall|b: int|
        0 <= b < busses.len() ==> {
            &&& (#[trigger] busses[b]).id == b
            &&& bus_shape_ok(busses[b].channel_ids, stream)
            &&& busses[b].config == BusConfig::of_count(busses[b].channel_ids.len() as int)
            &&& busses[b].nof_channels == stream.channels
        }
}

/// A track as it is made: idle, unarmed, without takes.
pub open spec fn new_track_view(id: u8, name: Seq<char>, config: RouteConfig) -> TrackView {
    TrackView {
        id,
        name,
        files: Seq::empty(),
        wav_spec: wav_spec_of(config.in_config, config.sample_format),
        rec_armed: false,
        monitor_armed: false,
        recording: false,
        output: Output::Idle,
    }
}

/// A bus after a track was attached to it.
pub open spec fn attached(bus: BusView, track_id: u8) -> BusView {
    BusView { track_ids: bus.track_ids.push(track_id), ..bus }
}

/// The channels of a stream, from 1 up.
pub open spec fn channel_list(nof_channels: u8) -> Seq<u8> {
    Seq::new(nof_channels as nat, |i: int| (i + 1) as u8)
}

/// The channels of a stream, from 1 up.
fn channels_up_to(nof_channels: u8) -> (list: Vec<u8>)
    ensures
        list@ == channel_list(nof_channels),
{
    let mut list: Vec<u8> = Vec::new();
    let mut ch: u8 = 0;
    while ch < nof_channels
        invariant
            ch <= nof_channels,
            list@ == channel_list(ch),
        decreases nof_channels - ch,
    {
        ch = ch + 1;
        list.push(ch);
        assert(list@ =~= channel_list(ch));
    }
    list
}

/// A question asked of every track in a pass over the tracks.
pub enum Pick {
    /// Is the track to begin recording: armed for it and not at it?
    ToRecord,
    /// Is a worker writing a take of the track?
    Recording,
    /// Is the track to begin sending toward its output bus?
    ToSend,
    /// Is a worker sending toward the track's output bus?
    Sending,
}

/// The answer to a question for one track.
pub open spec fn picks(pick: Pick, track: TrackView) -> bool {
    match pick {
        Pick::ToRecord => track.rec_armed && !track.recording,
        Pick::Recording => track.recording,
        Pick::ToSend => track.output == Output::Idle && wanted_output(track) != Output::Idle,
        Pick::Sending => track.output != Output::Idle,
    }
}

/// The ids of the tracks for which the answer is yes, in rising order.
pub open spec fn ids_where(tracks: Seq<TrackView>, pick: Pick) -> Seq<u8>
    decreases tracks.len(),
{
    if tracks.len() == 0 {
        Seq::empty()
    } else {
        let head = ids_where(tracks.drop_last(), pick);
        if picks(pick, tracks.last()) {
            head.push((tracks.len() - 1) as u8)
        } else {
            head
        }
    }
}

/// A track after its record pass has begun: the next take is named and a
/// worker is writing it.
pub open spec fn recording_begun(track: TrackView) -> TrackView {
    TrackView {
        files: track.files.push(take_name(track.name, track.files.len() + 1)),
        recording: true,
        ..track
    }
}

/// A record pass that is begun and then given up, because its file could
/// not be made, leaves the track as it was.
pub proof fn lemma_given_up_leaves_no_trace(track: TrackView)
    requires
        !track.recording,
    ensures
        record_given_up(recording_begun(track)) == track,
{
    let name = take_name(track.name, track.files.len() + 1);
    assert(track.files.push(name).drop_last() =~= track.files);
}

/// What a track sends toward its output bus once a monitor pass has gone
/// over it: what it sent before, if anything; else what it hears, if it is
/// armed for monitoring; else its most recent complete take, if it has one
/// and is not armed for recording; else nothing.
pub open spec fn wanted_output(track: TrackView) -> Output {
    if track.output != Output::Idle {
        track.output
    } else if track.monitor_armed {
        Output::Monitoring
    } else if !track.rec_armed && completed_takes(track) > 0 {
        Output::PlayingBack
    } else {
        Output::Idle
    }
}

/// Whether, between two states of the tracks' signals, only the signals
/// of the track `t` may have changed.
pub open spec fn others_kept(before: Seq<Signals>, after: Seq<Signals>, t: int) -> bool {
    &&& after.len() == before.len()
    &&& forall|k: int| 0 <= k < before.len() && k != t ==> #[trigger] after[k] == before[k]
}

/// The signals in a record pass that has come to the track `next`: each
/// track before it that was to begin recording has a fresh signal for its
/// record worker; the signals of the others are as they were.
pub open spec fn record_signals_made(
    tracks: Seq<TrackView>,
    before: Seq<Signals>,
    after: Seq<Signals>,
    next: int,
) -> bool {
    &&& after.len() == before.len()
    &&& forall|t: int|
        0 <= t < before.len() ==> if t < next && t < tracks.len() && picks(
            Pick::ToRecord,
            tracks[t],
        ) {
            record_signal_made(before[t], #[trigger] after[t], t as u8)
        } else {
            after[t] == before[t]
        }
}

/// The signals in a monitor pass that has come to the track `next`: each
/// track before it that was to begin sending has a fresh signal for the
/// worker that sends; the signals of the others are as they were.
pub open spec fn output_signals_made(
    tracks: Seq<TrackView>,
    before: Seq<Signals>,
    after: Seq<Signals>,
    next: int,
) -> bool {
    &&& after.len() == before.len()
    &&& forall|t: int|
        0 <= t < before.len() ==> if t < next && t < tracks.len() && picks(
            Pick::ToSend,
            tracks[t],
        ) {
            output_signal_made(before[t], #[trigger] after[t], t as u8)
        } else {
            after[t] == before[t]
        }
}

/// The signals in a pass that stops workers and has come to the track
/// `next`: each track before it has signalled its record worker, or, where
/// `output` is set, its worker that sends toward the output bus, if it had
/// one; the signals of the others are as they were.
pub open spec fn signals_sent(
    before: Seq<Signals>,
    after: Seq<Signals>,
    next: int,
    output: bool,
) -> bool {
    &&& after.len() == before.len()
    &&& forall|t: int|
        0 <= t < before.len() ==> if t < next {
            if output {
                output_signal_sent(before[t], #[trigger] after[t])
            } else {
                record_signal_sent(before[t], after[t])
            }
        } else {
            after[t] == before[t]
        }
}

/// One for the bus `out`, none for any other.
pub open spec fn one_at(bus: int, out: int) -> nat {
    if bus == out {
        1
    } else {
        0
    }
}

/// How many of the tracks before the track `next` a monitor pass starts
/// toward the output bus `bus`.
pub open spec fn starts_toward(router: RouterView, next: int, bus: int) -> nat
    decreases next,
{
    if next <= 0 {
        0
    } else {
        let before = starts_toward(router, next - 1, bus);
        if next - 1 < router.tracks.len() && picks(Pick::ToSend, router.tracks[next - 1])
            && route_of(router.routes, (next - 1) as u8) is Some && route_of(
            router.routes,
            (next - 1) as u8,
        ).unwrap().1 == bus {
            before + 1
        } else {
            before
        }
    }
}

/// The place of the last bus that a track is attached to, if there is one.
pub open spec fn last_bus_with(busses: Seq<BusView>, track_id: u8) -> Option<int>
    decreases busses.len(),
{
    if busses.len() == 0 {
        None
    } else if busses.last().track_ids.contains(track_id) {
        Some(busses.len() - 1)
    } else {
        last_bus_with(busses.drop_last(), track_id)
    }
}

/// The last bus that a track is attached to holds the track, and no bus
/// after it does; where there is none, no bus holds the track.
pub proof fn lemma_last_bus_with(busses: Seq<BusView>, track_id: u8)
    ensures
        last_bus_with(busses, track_id) matches Some(k) ==> 0 <= k < busses.len()
            && busses[k].track_ids.contains(track_id) && forall|b: int|
            k < b < busses.len() ==> !(#[trigger] busses[b]).track_ids.contains(track_id),
        last_bus_with(busses, track_id) is None ==> forall|b: int|
            0 <= b < busses.len() ==> !(#[trigger] busses[b]).track_ids.contains(track_id),
    decreases busses.len(),
{
    if busses.len() > 0 && !busses.last().track_ids.contains(track_id) {
        let rest = busses.drop_last();
        lemma_last_bus_with(rest, track_id);
        assert forall|b: int| 0 <= b < rest.len() implies rest[b] == busses[b] by {}
        match last_bus_with(rest, track_id) {
            Some(k) => {
                assert(rest[k] == busses[k]);
                assert forall|b: int| k < b < busses.len() implies !(#[trigger] busses[b]).track_ids.contains(
                    track_id,
                ) by {
                    if b < rest.len() {
                        assert(rest[b] == busses[b]);
                    }
                }
            },
            None => {
                assert forall|b: int| 0 <= b < busses.len() implies !(#[trigger] busses[b]).track_ids.contains(
                    track_id,
                ) by {
                    if b < rest.len() {
                        assert(rest[b] == busses[b]);
                    }
                }
            },
        }
    }
}

impl<T: Copy> Router<T> {
    /// The devices and stream shapes the router works with.
    pub closed spec fn config(&self) -> RouteConfig {
        self.config
    }

    /// The output buses that have a mixer, in the order the mixers were made.
    pub closed spec fn mixers(&self) -> Seq<u8> {
        Seq::new(self.mix_threads@.len(), |i: int| self.mix_threads@[i].0)
    }

    /// The sending ends of the side links on which the mixers receive new
    /// sources, in the order the mixers were made.
    pub closed spec fn mixer_feeds(&self) -> Seq<Outlet<MonitorLink<T>>> {
        Seq::new(self.mix_threads@.len(), |i: int| self.mix_threads@[i].1)
    }

    /// The signals with which the tracks stop their workers, by track id.
    pub closed spec fn signals(&self) -> Seq<Signals> {
        Seq::new(self.tracks@.len(), |i: int| self.tracks@[i].signals())
    }

    /// Whether every queue and link that the router keeps carries the mark
    /// of its bus: the two queues of an input bus the bus's id and their
    /// family, and the link to an output bus, the side link to its mixer and
    /// the link that stops its mixer the id of the output bus.
    pub closed spec fn marked(&self) -> bool {
        &&& forall|b: int|
            0 <= b < self.input_busses@.len() ==> (#[trigger] self.input_busses@[b]).0.mark() == (
            Mark { bus: b as u8, monitor: false }) && self.input_busses@[b].1.mark() == (Mark {
                bus: b as u8,
                monitor: true,
            })
        &&& forall|b: int|
            0 <= b < self.output_busses@.len() ==> (#[trigger] self.output_busses@[b]).0.mark()
                == b as u8
        &&& forall|b: int|
            0 <= b < self.mix_threads@.len() ==> (#[trigger] self.mix_threads@[b]).1.mark()
                == b as u8 && self.mix_threads@[b].2.mark() == b as u8
    }

    /// What holds of a router between any two calls: tracks and buses are
    /// numbered by their place, every output bus has its mixer, no two
    /// routes run between the same pair of buses, every track is on exactly
    /// one route, and it is attached to the two buses of that route and to no
    /// other; the queues and links that the router keeps carry the marks of
    /// their buses.
    pub open spec fn wf(&self) -> bool {
        let v = self@;
        &&& self.marked()
        &&& self.signals().len() == v.tracks.len()
        &&& 1 <= self.config().in_config.channels <= 255
        &&& 1 <= self.config().out_config.channels <= 255
        &&& v.tracks.len() <= 256
        &&& forall|t: int| 0 <= t < v.tracks.len() ==> (#[trigger] v.tracks[t]).id == t
        &&& busses_ok(v.inputs, self.config().in_config)
        &&& busses_ok(v.outputs, self.config().out_config)
        &&& self.mixers().len() == v.outputs.len()
        &&& self.mixer_feeds().len() == v.outputs.len()
        &&& forall|b: int| 0 <= b < v.outputs.len() ==> #[trigger] self.mixers()[b] == b
        &&& forall|k: int|
            0 <= k < v.routes.len() ==> (#[trigger] v.routes[k]).input < v.inputs.len()
                && v.routes[k].output < v.outputs.len()
        &&& distinct_pairs(v.routes)
        &&& one_route_each(v.routes)
        &&& forall|t: u8| (#[trigger] route_of(v.routes, t)) is Some <==> t < v.tracks.len()
        &&& forall|b: int, t: u8|
            0 <= b < v.inputs.len() ==> (#[trigger] v.inputs[b].track_ids.contains(t) <==> (route_of(
                v.routes,
                t,
            ) matches Some(pair) && pair.0 == b))
        &&& forall|b: int, t: u8|
            0 <= b < v.outputs.len() ==> (#[trigger] v.outputs[b].track_ids.contains(t) <==> (
            route_of(v.routes, t) matches Some(pair) && pair.1 == b))
    }

    /// Makes a router without buses or tracks for two streams.
    pub fn new(
        in_config: StreamConfig,
        out_config: StreamConfig,
        in_device_name: String,
        out_device_name: String,
        sample_format: SampleFormat,
    ) -> (router: Router<T>)
        requires
            1 <= in_config.channels <= 255,
            1 <= out_config.channels <= 255,
        ensures
            router.wf(),
            router@ == (RouterView {
                tracks: Seq::empty(),
                inputs: Seq::empty(),
                outputs: Seq::empty(),
                routes: Seq::empty(),
            }),
            router.config().in_config == in_config,
            router.config().out_config == out_config,
            router.config().in_device@ == in_device_name@,
            router.config().out_device@ == out_device_name@,
            router.config().sample_format == sample_format,
            router.signals() == Seq::<Signals>::empty(),
    {
        let router = Router {
            config: RouteConfig {
                in_config,
                out_config,
                in_device: in_device_name,
                out_device: out_device_name,
                sample_format,
            },
            tracks: Vec::new(),
            input_busses: Vec::new(),
            output_busses: Vec::new(),
            routes: RouteMap::new(),
            mix_threads: Vec::new(),
        };
        proof {
            assert(router@.tracks =~= Seq::empty());
            assert(router@.inputs =~= Seq::empty());
            assert(router@.outputs =~= Seq::empty());
            assert(router.mixers() =~= Seq::empty());
            assert(router.signals() =~= Seq::empty());
        }
        router
    }

    /// Makes an input bus over the given channels of the capture stream, with
    /// one queue for record workers and one for monitor workers. The result
    /// is what the bus's capture callback needs.
    pub fn new_input_bus(&mut self, channel_ids: Vec<u8>) -> (start: CaptureStart<T>)
        requires
            old(self).wf(),
            channel_ids@.len() == 1 || channel_ids@.len() == 2,
            old(self)@.inputs.len() <= 255,
        ensures
            final(self).wf(),
            final(self)@ == (RouterView {
                inputs: old(self)@.inputs.push(
                    new_bus(
                        old(self)@.inputs.len() as u8,
                        channel_ids@,
                        old(self).config().in_config,
                    ),
                ),
                ..old(self)@
            }),
            final(self).config() == old(self).config(),
            final(self).mixers() == old(self).mixers(),
            final(self).mixer_feeds() == old(self).mixer_feeds(),
            start.bus_id == old(self)@.inputs.len(),
            start.in_chs@ == channel_ids@,
            start.nof_chs == old(self).config().in_config.channels,
            start.config == BusConfig::of_count(channel_ids@.len() as int),
            final(self).signals() == old(self).signals(),
            start.txs@.len() == 2,
            forall|i: int|
                0 <= i < 2 ==> (#[trigger] start.txs@[i]).offered() == Seq::<(u8, T)>::empty()
                    && start.txs@[i].piloted() && start.txs@[i].mark() == (Mark {
                    bus: start.bus_id,
                    monitor: i == 1,
                }),
    {
        let bus_id = self.input_busses.len() as u8;
        let (mut bus_rec_tx, bus_rec_rx) = broadcast_queue_for::<T>(
            QUEUE_DEPTH,
            Mark { bus: bus_id, monitor: false },
        );
        let (mut bus_mon_tx, bus_mon_rx) = broadcast_queue_for::<T>(
            QUEUE_DEPTH,
            Mark { bus: bus_id, monitor: true },
        );
        bus_rec_tx.keep_drained(bus_rec_rx.share());
        bus_mon_tx.keep_drained(bus_mon_rx.share());
        let mut txs: Vec<Producer<T>> = Vec::new();
        txs.push(bus_rec_tx);
        txs.push(bus_mon_tx);
        let in_chs = channel_ids.clone();
        let in_bus = InputBus::new(bus_id, &self.config.in_config, channel_ids);
        let start = CaptureStart {
            bus_id,
            txs,
            in_chs,
            nof_chs: in_bus.get_nof_channels(),
            config: in_bus.get_config(),
        };
        self.input_busses.push((bus_rec_rx, bus_mon_rx, in_bus));
        proof {
            let v = self@;
            assert(v.inputs =~= old(self)@.inputs.push(
                new_bus(bus_id, channel_ids@, old(self).config().in_config),
            ));
            assert(v.tracks =~= old(self)@.tracks);
            assert(v.outputs =~= old(self)@.outputs);
            assert(self.signals() =~= old(self).signals());
            assert(self.marked()) by {
                assert forall|b: int| 0 <= b < self.input_busses@.len() implies (
                #[trigger] self.input_busses@[b]).0.mark() == (Mark {
                    bus: b as u8,
                    monitor: false,
                }) && self.input_busses@[b].1.mark() == (Mark { bus: b as u8, monitor: true }) by {
                    if b < old(self).input_busses@.len() {
                        assert(self.input_busses@[b] == old(self).input_busses@[b]);
                    }
                }
            }
            assert forall|b: int, t: u8| 0 <= b < v.inputs.len() implies (
            #[trigger] v.inputs[b].track_ids.contains(t) <==> (route_of(v.routes, t) matches Some(
                pair,
            ) && pair.0 == b)) by {
                lemma_route_of_is_a_route(v.routes, t);
                if b < old(self)@.inputs.len() {
                    assert(v.inputs[b] == old(self)@.inputs[b]);
                }
            }
        }
        start
    }

    /// Makes an output bus over the given channels of the render stream,
    /// and the bus's mixer, which has no source yet. The result is what the
    /// bus's render callback and the mixer's thread need.
    pub fn new_output_bus(&mut self, channel_ids: Vec<u8>) -> (start: RenderStart<T>)
        requires
            old(self).wf(),
            channel_ids@.len() == 1 || channel_ids@.len() == 2,
            old(self)@.outputs.len() <= 255,
        ensures
            final(self).wf(),
            final(self)@ == (RouterView {
                outputs: old(self)@.outputs.push(
                    new_bus(
                        old(self)@.outputs.len() as u8,
                        channel_ids@,
                        old(self).config().out_config,
                    ),
                ),
                ..old(self)@
            }),
            final(self).config() == old(self).config(),
            final(self).mixers() == old(self).mixers().push(old(self)@.outputs.len() as u8),
            final(self).mixer_feeds().len() == old(self).mixer_feeds().len() + 1,
            final(self).mixer_feeds().drop_last() == old(self).mixer_feeds(),
            final(self).mixer_feeds().last().sent() == Seq::<MonitorLink<T>>::empty(),
            final(self).signals() == old(self).signals(),
            start.bus_id == old(self)@.outputs.len(),
            start.out_chs@ == channel_ids@,
            start.rx.polled() == Seq::<Polled<(u8, T)>>::empty(),
            start.rx.mark() == start.bus_id,
            start.mixer.intake().mark() == start.bus_id,
            start.mixer.out().mark() == start.bus_id,
            start.mixer.cancel().mark() == start.bus_id,
            final(self).mixer_feeds().last().mark() == start.bus_id,
            start.mixer.wf(),
            start.mixer.out_channels() == channel_ids@,
            start.mixer.place() == 0,
            start.mixer.sources() == Seq::<Inlet<(u8, T)>>::empty(),
            start.mixer.intake().polled() == Seq::<Polled<MonitorLink<T>>>::empty(),
            start.mixer.out().sent() == Seq::<(u8, T)>::empty(),
            start.mixer.cancel().polled() == Seq::<Polled<()>>::empty(),
    {
        let bus_id = self.output_busses.len() as u8;
        let (bus_tx, bus_rx) = channel_for::<(u8, T)>(bus_id);
        let out_chs = channel_ids.clone();
        let mix_chs = channel_ids.clone();
        let out_bus = OutputBus::new(bus_id, &self.config.out_config, channel_ids);
        let (mix_tx, mix_rx) = channel_for::<MonitorLink<T>>(bus_id);
        let (term_tx, term_rx) = channel_for::<()>(bus_id);
        let mixer = Mixer::new(mix_chs, mix_rx, bus_tx.share(), term_rx);
        self.mix_threads.push((bus_id, mix_tx, term_tx));
        self.output_busses.push((bus_tx, out_bus));
        proof {
            let v = self@;
            assert(v.outputs =~= old(self)@.outputs.push(
                new_bus(bus_id, channel_ids@, old(self).config().out_config),
            ));
            assert(v.tracks =~= old(self)@.tracks);
            assert(v.inputs =~= old(self)@.inputs);
            assert(self.signals() =~= old(self).signals());
            assert(self.marked()) by {
                assert forall|b: int| 0 <= b < self.output_busses@.len() implies (
                #[trigger] self.output_busses@[b]).0.mark() == b as u8 by {
                    if b < old(self).output_busses@.len() {
                        assert(self.output_busses@[b] == old(self).output_busses@[b]);
                    }
                }
                assert forall|b: int| 0 <= b < self.mix_threads@.len() implies (
                #[trigger] self.mix_threads@[b]).1.mark() == b as u8 && self.mix_threads@[b].2.mark()
                    == b as u8 by {
                    if b < old(self).mix_threads@.len() {
                        assert(self.mix_threads@[b] == old(self).mix_threads@[b]);
                    }
                }
            }
            assert(self.mixers() =~= old(self).mixers().push(bus_id));
            assert(self.mixer_feeds().drop_last() =~= old(self).mixer_feeds());
            assert forall|b: int| 0 <= b < v.outputs.len() implies #[trigger] self.mixers()[b]
                == b by {
                if b < old(self)@.outputs.len() {
                    assert(self.mixers()[b] == old(self).mixers()[b]);
                }
            }
            assert forall|b: int, t: u8| 0 <= b < v.outputs.len() implies (
            #[trigger] v.outputs[b].track_ids.contains(t) <==> (route_of(v.routes, t) matches Some(
                pair,
            ) && pair.1 == b)) by {
                lemma_route_of_is_a_route(v.routes, t);
                if b < old(self)@.outputs.len() {
                    assert(v.outputs[b] == old(self)@.outputs[b]);
                }
            }
        }
        RenderStart { bus_id, rx: bus_rx, out_chs, mixer }
    }

    /// Makes a track between an input bus and an output bus, attaches it to
    /// both and puts it on the route between them. The result is its id.
    pub fn new_track(&mut self, track_name: String, in_bus_id: u8, out_bus_id: u8) -> (track_id: u8)
        requires
            old(self).wf(),
            old(self)@.tracks.len() <= 255,
            in_bus_id < old(self)@.inputs.len(),
            out_bus_id < old(self)@.outputs.len(),
        ensures
            final(self).wf(),
            track_id == old(self)@.tracks.len(),
            final(self)@ == (RouterView {
                tracks: old(self)@.tracks.push(
                    new_track_view(track_id, track_name@, old(self).config()),
                ),
                inputs: old(self)@.inputs.update(
                    in_bus_id as int,
                    attached(old(self)@.inputs[in_bus_id as int], track_id),
                ),
                outputs: old(self)@.outputs.update(
                    out_bus_id as int,
                    attached(old(self)@.outputs[out_bus_id as int], track_id),
                ),
                routes: routes_with(old(self)@.routes, in_bus_id, out_bus_id, track_id),
            }),
            route_of(final(self)@.routes, track_id) == Some((in_bus_id, out_bus_id)),
            final(self).config() == old(self).config(),
            final(self).mixers() == old(self).mixers(),
            final(self).mixer_feeds() == old(self).mixer_feeds(),
            final(self).signals() == old(self).signals().push(no_signals()),
    {
        let track_id = self.tracks.len() as u8;
        let track = Track::new(
            track_id,
            track_name,
            &self.config.in_config,
            self.config.sample_format,
        );
        self.input_busses[in_bus_id as usize].2.add_track(track_id);
        self.output_busses[out_bus_id as usize].1.add_track(track_id);
        let ghost base = if tracks_of(old(self)@.routes, in_bus_id, out_bus_id) is Some {
            old(self)@.routes
        } else {
            old(self)@.routes.push(
                RouteView { input: in_bus_id, output: out_bus_id, track_ids: Seq::empty() },
            )
        };
        match self.routes.get_route_track_ids(&in_bus_id, &out_bus_id) {
            Some(_) => {
                self.routes.add_track_to_route(&in_bus_id, &out_bus_id, &track_id);
            },
            None => {
                self.routes.add_route(&in_bus_id, &out_bus_id);
                self.routes.add_track_to_route(&in_bus_id, &out_bus_id, &track_id);
            },
        }
        self.tracks.push(track);
        proof {
            let v = self@;
            let w = old(self)@;
            assert(v.routes =~= routes_with(w.routes, in_bus_id, out_bus_id, track_id));
            assert(v.tracks =~= w.tracks.push(
                new_track_view(track_id, track_name@, old(self).config()),
            ));
            assert(v.inputs =~= w.inputs.update(
                in_bus_id as int,
                attached(w.inputs[in_bus_id as int], track_id),
            ));
            assert(v.outputs =~= w.outputs.update(
                out_bus_id as int,
                attached(w.outputs[out_bus_id as int], track_id),
            ));
            assert(self.mixers() =~= old(self).mixers());
            assert(self.mixer_feeds() =~= old(self).mixer_feeds());
            assert(self.signals() =~= old(self).signals().push(no_signals()));
            assert(self.marked()) by {
                assert forall|b: int| 0 <= b < self.input_busses@.len() implies (
                #[trigger] self.input_busses@[b]).0.mark() == (Mark {
                    bus: b as u8,
                    monitor: false,
                }) && self.input_busses@[b].1.mark() == (Mark { bus: b as u8, monitor: true }) by {
                    assert(self.input_busses@[b].0 == old(self).input_busses@[b].0);
                    assert(self.input_busses@[b].1 == old(self).input_busses@[b].1);
                }
                assert forall|b: int| 0 <= b < self.output_busses@.len() implies (
                #[trigger] self.output_busses@[b]).0.mark() == b as u8 by {
                    assert(self.output_busses@[b].0 == old(self).output_busses@[b].0);
                }
            }
            // the routes of the tracks
            lemma_empty_route_added(w.routes, in_bus_id, out_bus_id, track_id);
            lemma_no_route_between(w.routes, in_bus_id, out_bus_id);
            assert(route_of(base, track_id) is None);
            assert(tracks_of(base, in_bus_id, out_bus_id) is Some);
            assert(one_route_each(base)) by {
                assert forall|j: int, k: int, t: u8|
                    0 <= j < base.len() && 0 <= k < base.len()
                        && #[trigger] base[j].track_ids.contains(t)
                        && #[trigger] base[k].track_ids.contains(t) implies j == k by {
                    if j < w.routes.len() && k < w.routes.len() {
                        assert(base[j] == w.routes[j] && base[k] == w.routes[k]);
                    }
                }
            }
            lemma_with_track(base, in_bus_id, out_bus_id, track_id);
            assert forall|t: u8| t != track_id implies #[trigger] route_of(v.routes, t) == route_of(
                w.routes,
                t,
            ) by {
                lemma_empty_route_added(w.routes, in_bus_id, out_bus_id, t);
            }
            assert forall|t: int| 0 <= t < v.tracks.len() implies (#[trigger] v.tracks[t]).id
                == t by {
                if t < w.tracks.len() {
                    assert(v.tracks[t] == w.tracks[t]);
                }
            }
            assert forall|k: int| 0 <= k < v.routes.len() implies (#[trigger] v.routes[k]).input
                < v.inputs.len() && v.routes[k].output < v.outputs.len() by {
                assert(v.routes[k].input == base[k].input && v.routes[k].output == base[k].output);
                if k < w.routes.len() {
                    assert(base[k] == w.routes[k]);
                }
            }
            assert forall|t: u8| (#[trigger] route_of(v.routes, t)) is Some <==> t
                < v.tracks.len() by {
                if t != track_id {
                    assert(route_of(v.routes, t) == route_of(w.routes, t));
                }
            }
            // no two routes between one pair of buses
            assert forall|j: int, k: int| 0 <= j < k < v.routes.len() implies !((
            #[trigger] v.routes[j]).input == (#[trigger] v.routes[k]).input && v.routes[j].output
                == v.routes[k].output) by {
                assert(v.routes[j].input == base[j].input && v.routes[j].output == base[j].output);
                assert(v.routes[k].input == base[k].input && v.routes[k].output == base[k].output);
                if k < w.routes.len() {
                    assert(base[j] == w.routes[j] && base[k] == w.routes[k]);
                } else {
                    assert(base[j] == w.routes[j]);
                }
            }
            assert forall|b: int, t: u8| 0 <= b < v.inputs.len() implies (
            #[trigger] v.inputs[b].track_ids.contains(t) <==> (route_of(v.routes, t) matches Some(
                pair,
            ) && pair.0 == b)) by {
                lemma_push_contains(w.inputs[b].track_ids, track_id, t);
                if t != track_id {
                    assert(route_of(v.routes, t) == route_of(w.routes, t));
                }
            }
            assert forall|b: int, t: u8| 0 <= b < v.outputs.len() implies (
            #[trigger] v.outputs[b].track_ids.contains(t) <==> (route_of(v.routes, t) matches Some(
                pair,
            ) && pair.1 == b)) by {
                lemma_push_contains(w.outputs[b].track_ids, track_id, t);
                if t != track_id {
                    assert(route_of(v.routes, t) == route_of(w.routes, t));
                }
            }
        }
        track_id
    }

    /// Arms or disarms a track for monitoring. Workers are not touched; the
    /// next monitor pass goes by the new state.
    pub fn set_monitor(&mut self, track_id: u8, state: bool)
        requires
            old(self).wf(),
            track_id < old(self)@.tracks.len(),
        ensures
            final(self).wf(),
            final(self)@ == (RouterView {
                tracks: old(self)@.tracks.update(
                    track_id as int,
                    TrackView { monitor_armed: state, ..old(self)@.tracks[track_id as int] },
                ),
                ..old(self)@
            }),
            final(self).config() == old(self).config(),
            final(self).mixers() == old(self).mixers(),
            final(self).mixer_feeds() == old(self).mixer_feeds(),
            final(self).signals() == old(self).signals(),
    {
        self.tracks[track_id as usize].set_monitor(state);
        proof {
            self.lemma_one_track_changed(*old(self), track_id as int);
            assert(self.signals() =~= old(self).signals());
        }
    }

    /// Arms or disarms a track for recording. Workers are not touched; the
    /// next record pass goes by the new state.
    pub fn set_recording(&mut self, track_id: u8, state: bool)
        requires
            old(self).wf(),
            track_id < old(self)@.tracks.len(),
        ensures
            final(self).wf(),
            final(self)@ == (RouterView {
                tracks: old(self)@.tracks.update(
                    track_id as int,
                    TrackView { rec_armed: state, ..old(self)@.tracks[track_id as int] },
                ),
                ..old(self)@
            }),
            final(self).config() == old(self).config(),
            final(self).mixers() == old(self).mixers(),
            final(self).mixer_feeds() == old(self).mixer_feeds(),
            final(self).signals() == old(self).signals(),
    {
        self.tracks[track_id as usize].set_rec(state);
        proof {
            self.lemma_one_track_changed(*old(self), track_id as int);
            assert(self.signals() =~= old(self).signals());
        }
    }

    /// A router in which one track has changed, but not its id, is as sound
    /// as it was, and the rest of it is as it was.
    proof fn lemma_one_track_changed(&self, before: Router<T>, t: int)
        requires
            before.wf(),
            0 <= t < before.tracks@.len(),
            self.tracks@.len() == before.tracks@.len(),
            forall|k: int| 0 <= k < before.tracks@.len() && k != t ==> self.tracks@[k] == before.tracks@[k],
            self.tracks@[t]@.id == before.tracks@[t]@.id,
            self.config == before.config,
            self.input_busses == before.input_busses,
            self.output_busses == before.output_busses,
            self.routes == before.routes,
            self.mix_threads == before.mix_threads,
        ensures
            self.wf(),
            self@ == (RouterView { tracks: before@.tracks.update(t, self.tracks@[t]@), ..before@ }),
            self@.tracks[t] == self.tracks@[t]@,
            self.config() == before.config(),
            self.mixers() == before.mixers(),
            self.mixer_feeds() == before.mixer_feeds(),
            self.signals() == before.signals().update(t, self.tracks@[t].signals()),
            before.signals()[t] == before.tracks@[t].signals(),
    {
        assert(self@.tracks =~= before@.tracks.update(t, self.tracks@[t]@));
        assert(self.signals() =~= before.signals().update(t, self.tracks@[t].signals()));
        assert forall|k: int| 0 <= k < self@.tracks.len() implies (#[trigger] self@.tracks[k]).id
            == k by {
            assert(before@.tracks[k].id == k);
        }
    }

    /// A consumer of one of the queues of a track's input bus: of the queue
    /// for monitor workers if `monitor` is set, else of the queue for record
    /// workers. The consumer is a stream of its own: it gets every sample
    /// that the queue takes from now on, whatever other tracks read.
    fn tap(&self, track_id: u8, monitor: bool) -> (consumer: Consumer<T>)
        requires
            self.wf(),
            track_id < self@.tracks.len(),
        ensures
            consumer.polled() == Seq::<Polled<(u8, T)>>::empty(),
            consumer.independent(),
            consumer.mark() == (Mark {
                bus: route_of(self@.routes, track_id).unwrap().0,
                monitor,
            }),
    {
        let busses = self.routes.get_track_busses(&track_id);
        proof {
            lemma_route_of_is_a_route(self@.routes, track_id);
            assert(self@.inputs.len() == self.input_busses@.len());
        }
        let (input, _) = busses.unwrap();
        let bus = &self.input_busses[input as usize];
        if monitor {
            bus.1.add_stream()
        } else {
            bus.0.add_stream()
        }
    }

    /// The record pass: every track that is armed for recording and not at
    /// it begins a take. The result holds, for each such track in rising
    /// order of id, what its worker is started with.
    pub fn record(&mut self) -> (jobs: Vec<RecordJob<T>>)
        requires
            old(self).wf(),
        ensures
            final(self).wf(),
            final(self)@.tracks.len() == old(self)@.tracks.len(),
            forall|t: int|
                0 <= t < old(self)@.tracks.len() ==> #[trigger] final(self)@.tracks[t] == if picks(
                    Pick::ToRecord,
                    old(self)@.tracks[t],
                ) {
                    recording_begun(old(self)@.tracks[t])
                } else {
                    old(self)@.tracks[t]
                },
            final(self)@.inputs == old(self)@.inputs,
            final(self)@.outputs == old(self)@.outputs,
            final(self)@.routes == old(self)@.routes,
            final(self).config() == old(self).config(),
            final(self).mixers() == old(self).mixers(),
            final(self).mixer_feeds() == old(self).mixer_feeds(),
            record_signals_made(
                old(self)@.tracks,
                old(self).signals(),
                final(self).signals(),
                old(self)@.tracks.len() as int,
            ),
            jobs@.len() == ids_where(old(self)@.tracks, Pick::ToRecord).len(),
            forall|j: int|
                0 <= j < jobs@.len() ==> {
                    let id = ids_where(old(self)@.tracks, Pick::ToRecord)[j];
                    &&& (#[trigger] jobs@[j]).track_id == id
                    &&& id < old(self)@.tracks.len()
                    &&& jobs@[j].file@ == take_name(
                        old(self)@.tracks[id as int].name,
                        old(self)@.tracks[id as int].files.len() + 1,
                    )
                    &&& jobs@[j].spec == old(self)@.tracks[id as int].wav_spec
                    &&& jobs@[j].consumer.polled() == Seq::<Polled<(u8, T)>>::empty()
                    &&& jobs@[j].consumer.independent()
                    &&& jobs@[j].consumer.mark() == (Mark {
                        bus: route_of(old(self)@.routes, id).unwrap().0,
                        monitor: false,
                    })
                    &&& jobs@[j].cancel.polled() == Seq::<Polled<()>>::empty()
                    &&& jobs@[j].cancel.mark() == id
                },
    {
        let mut jobs: Vec<RecordJob<T>> = Vec::new();
        let mut t: usize = 0;
        let count = self.tracks.len();
        proof {
            assert(old(self)@.tracks.take(0) =~= Seq::<TrackView>::empty());
        }
        while t < count
            invariant
                t <= count,
                count == old(self)@.tracks.len(),
                count == self.tracks@.len(),
                old(self).wf(),
                self.wf(),
                self@.tracks.len() == count,
                forall|k: int|
                    0 <= k < t ==> #[trigger] self@.tracks[k] == if picks(
                        Pick::ToRecord,
                        old(self)@.tracks[k],
                    ) {
                        recording_begun(old(self)@.tracks[k])
                    } else {
                        old(self)@.tracks[k]
                    },
                forall|k: int| t <= k < count ==> #[trigger] self@.tracks[k] == old(self)@.tracks[k],
                self@.inputs == old(self)@.inputs,
                self@.outputs == old(self)@.outputs,
                self@.routes == old(self)@.routes,
                self.config() == old(self).config(),
                self.mixers() == old(self).mixers(),
                self.mixer_feeds() == old(self).mixer_feeds(),
                record_signals_made(
                    old(self)@.tracks,
                    old(self).signals(),
                    self.signals(),
                    t as int,
                ),
                jobs@.len() == ids_where(old(self)@.tracks.take(t as int), Pick::ToRecord).len(),
                forall|j: int|
                    0 <= j < jobs@.len() ==> {
                        let id = ids_where(old(self)@.tracks.take(t as int), Pick::ToRecord)[j];
                        &&& (#[trigger] jobs@[j]).track_id == id
                        &&& id < t
                        &&& jobs@[j].file@ == take_name(
                            old(self)@.tracks[id as int].name,
                            old(self)@.tracks[id as int].files.len() + 1,
                        )
                        &&& jobs@[j].spec == old(self)@.tracks[id as int].wav_spec
                        &&& jobs@[j].consumer.polled() == Seq::<Polled<(u8, T)>>::empty()
                        &&& jobs@[j].consumer.independent()
                        &&& jobs@[j].consumer.mark() == (Mark {
                            bus: route_of(old(self)@.routes, id).unwrap().0,
                            monitor: false,
                        })
                        &&& jobs@[j].cancel.polled() == Seq::<Polled<()>>::empty()
                        &&& jobs@[j].cancel.mark() == id
                    },
            decreases count - t,
        {
            let ghost mid = *self;
            let ghost upto = old(self)@.tracks.take(t as int);
            let ghost next = old(self)@.tracks.take(t + 1);
            proof {
                assert(next.drop_last() == upto);
                assert(next.last() == old(self)@.tracks[t as int]);
                assert(self@.tracks[t as int] == old(self)@.tracks[t as int]);
                assert(self@.tracks[t as int] == self.tracks@[t as int]@);
            }
            if self.tracks[t].is_rec_armed() && !self.tracks[t].is_recording() {
                let consumer = self.tap(t as u8, false);
                let start = self.tracks[t].record();
                proof {
                    self.lemma_one_track_changed(mid, t as int);
                }
                let start = start.unwrap();
                jobs.push(
                    RecordJob {
                        track_id: t as u8,
                        file: start.file,
                        spec: start.spec,
                        consumer,
                        cancel: start.cancel,
                    },
                );
            }
            proof {
                assert forall|k: int| 0 <= k < t + 1 implies #[trigger] self@.tracks[k] == if picks(
                    Pick::ToRecord,
                    old(self)@.tracks[k],
                ) {
                    recording_begun(old(self)@.tracks[k])
                } else {
                    old(self)@.tracks[k]
                } by {
                    if k < t {
                        assert(self@.tracks[k] == mid@.tracks[k]);
                    }
                }
                assert forall|k: int| t + 1 <= k < count implies #[trigger] self@.tracks[k] == old(
                    self,
                )@.tracks[k] by {
                    assert(self@.tracks[k] == mid@.tracks[k]);
                }
            }
            t = t + 1;
        }
        proof {
            assert(old(self)@.tracks.take(t as int) == old(self)@.tracks);
        }
        jobs
    }

    /// Gives up the record pass of one track because its file could not be
    /// made: the name of the take is taken back, nothing is being written,
    /// and no signal is sent, for no worker was started. Other tracks are not
    /// touched. Tells whether the track had a pass to give up.
    pub fn record_failed(&mut self, track_id: u8) -> (failed: bool)
        requires
            old(self).wf(),
            track_id < old(self)@.tracks.len(),
        ensures
            final(self).wf(),
            failed == old(self)@.tracks[track_id as int].recording,
            final(self)@ == (RouterView {
                tracks: old(self)@.tracks.update(
                    track_id as int,
                    record_given_up(old(self)@.tracks[track_id as int]),
                ),
                ..old(self)@
            }),
            final(self).config() == old(self).config(),
            final(self).mixers() == old(self).mixers(),
            final(self).mixer_feeds() == old(self).mixer_feeds(),
            final(self).signals() == old(self).signals().update(
                track_id as int,
                Signals { record: None, ..old(self).signals()[track_id as int] },
            ),
    {
        proof {
            assert(self@.tracks[track_id as int] == self.tracks@[track_id as int]@);
        }
        let failed = self.tracks[track_id as usize].record_failed();
        proof {
            self.lemma_one_track_changed(*old(self), track_id as int);
        }
        failed
    }

    /// Signals every record worker to stop. The result holds the ids of the
    /// tracks that were recording, in rising order.
    pub fn stop_recording(&mut self) -> (stopped: Vec<u8>)
        requires
            old(self).wf(),
        ensures
            final(self).wf(),
            final(self)@.tracks.len() == old(self)@.tracks.len(),
            forall|t: int|
                0 <= t < old(self)@.tracks.len() ==> #[trigger] final(self)@.tracks[t] == (TrackView {
                    recording: false,
                    ..old(self)@.tracks[t]
                }),
            final(self)@.inputs == old(self)@.inputs,
            final(self)@.outputs == old(self)@.outputs,
            final(self)@.routes == old(self)@.routes,
            final(self).config() == old(self).config(),
            final(self).mixers() == old(self).mixers(),
            final(self).mixer_feeds() == old(self).mixer_feeds(),
            signals_sent(
                old(self).signals(),
                final(self).signals(),
                old(self)@.tracks.len() as int,
                false,
            ),
            stopped@ == ids_where(old(self)@.tracks, Pick::Recording),
    {
        let mut stopped: Vec<u8> = Vec::new();
        let mut t: usize = 0;
        let count = self.tracks.len();
        proof {
            assert(old(self)@.tracks.take(0) =~= Seq::<TrackView>::empty());
        }
        while t < count
            invariant
                t <= count,
                count == old(self)@.tracks.len(),
                count == self.tracks@.len(),
                old(self).wf(),
                self.wf(),
                self@.tracks.len() == count,
                forall|k: int|
                    0 <= k < t ==> #[trigger] self@.tracks[k] == (TrackView {
                        recording: false,
                        ..old(self)@.tracks[k]
                    }),
                forall|k: int| t <= k < count ==> #[trigger] self@.tracks[k] == old(self)@.tracks[k],
                self@.inputs == old(self)@.inputs,
                self@.outputs == old(self)@.outputs,
                self@.routes == old(self)@.routes,
                self.config() == old(self).config(),
                self.mixers() == old(self).mixers(),
                self.mixer_feeds() == old(self).mixer_feeds(),
                signals_sent(old(self).signals(), self.signals(), t as int, false),
                stopped@ == ids_where(old(self)@.tracks.take(t as int), Pick::Recording),
            decreases count - t,
        {
            let ghost mid = *self;
            proof {
                assert(old(self)@.tracks.take(t + 1).drop_last() == old(self)@.tracks.take(t as int));
                assert(old(self)@.tracks.take(t + 1).last() == old(self)@.tracks[t as int]);
                assert(self@.tracks[t as int] == old(self)@.tracks[t as int]);
                assert(self@.tracks[t as int] == self.tracks@[t as int]@);
            }
            let was = self.tracks[t].stop_recording();
            proof {
                self.lemma_one_track_changed(mid, t as int);
            }
            if was {
                stopped.push(t as u8);
            }
            proof {
                assert forall|k: int| 0 <= k < t + 1 implies #[trigger] self@.tracks[k] == (TrackView {
                    recording: false,
                    ..old(self)@.tracks[k]
                }) by {
                    if k < t {
                        assert(self@.tracks[k] == mid@.tracks[k]);
                    }
                }
                assert forall|k: int| t + 1 <= k < count implies #[trigger] self@.tracks[k] == old(
                    self,
                )@.tracks[k] by {
                    assert(self@.tracks[k] == mid@.tracks[k]);
                }
            }
            t = t + 1;
        }
        proof {
            assert(old(self)@.tracks.take(t as int) == old(self)@.tracks);
        }
        stopped
    }

    /// What a job of a monitor pass holds: no take, a flushed consumer of its
    /// own of the input bus's monitor queue, fresh links, the channels of the
    /// output bus.
    pub open spec fn monitor_job(router: RouterView, job: OutputJob<T>, track_id: u8) -> bool {
        let pair = route_of(router.routes, track_id).unwrap();
        &&& job.track_id == track_id
        &&& job.file is None
        &&& job.consumer matches Some(c) && c.independent() && is_drain(
            c.polled(),
            drain_bound(c.depth()),
        ) && c.mark() == (Mark { bus: pair.0, monitor: true })
        &&& job.feed.mark() == track_id
        &&& job.cancel.mark() == track_id
        &&& job.feed.sent() == Seq::<(u8, T)>::empty()
        &&& job.cancel.polled() == Seq::<Polled<()>>::empty()
        &&& job.out_chs@ == router.outputs[pair.1 as int].channel_ids
    }

    /// What a job of a playback pass holds: the track's most recent complete
    /// take, no consumer, fresh links, the channels of the output bus.
    pub open spec fn playback_job(router: RouterView, job: OutputJob<T>, track_id: u8) -> bool {
        let pair = route_of(router.routes, track_id).unwrap();
        &&& job.track_id == track_id
        &&& job.file matches Some(f) && f@ == router.tracks[track_id as int].files[completed_takes(
            router.tracks[track_id as int],
        ) - 1]
        &&& job.consumer is None
        &&& job.feed.mark() == track_id
        &&& job.cancel.mark() == track_id
        &&& job.feed.sent() == Seq::<(u8, T)>::empty()
        &&& job.cancel.polled() == Seq::<Polled<()>>::empty()
        &&& job.out_chs@ == router.outputs[pair.1 as int].channel_ids
    }

    /// What a job of the monitor pass holds for a track that the pass takes
    /// in, in a router that stands as `router` when the pass comes to the
    /// track: a monitor pass for a track armed for monitoring, else playback.
    pub open spec fn output_job(router: RouterView, job: OutputJob<T>, track_id: u8) -> bool {
        if router.tracks[track_id as int].monitor_armed {
            Self::monitor_job(router, job, track_id)
        } else {
            Self::playback_job(router, job, track_id)
        }
    }

    /// Whether a link is what a mixer is handed for one track that begins
    /// to feed its bus: the bus's id, and one source that has not been read.
    pub open spec fn fresh_link(link: MonitorLink<T>, bus: int) -> bool {
        &&& link.out_bus_id == bus
        &&& link.tx_to_bus.mark() == bus
        &&& link.rxs_from_monitors@.len() == 1
        &&& link.rxs_from_monitors@[0].polled() == Seq::<Polled<(u8, T)>>::empty()
    }

    /// Whether, since `before`, the mixer of one output bus has been handed
    /// `count` links, each for one track that begins to feed the bus, and
    /// nothing else.
    pub open spec fn handed(&self, before: Router<T>, bus: int, count: nat) -> bool {
        let was = before.mixer_feeds()[bus].sent();
        let now = self.mixer_feeds()[bus].sent();
        &&& was.is_prefix_of(now)
        &&& now.len() == was.len() + count
        &&& forall|i: int| was.len() <= i < now.len() ==> Self::fresh_link(#[trigger] now[i], bus)
    }

    /// Whether, since `before`, the mixer of the output bus `out` has been
    /// handed one link, and the other mixers none.
    pub open spec fn handed_one(&self, before: Router<T>, out: int) -> bool {
        &&& self.mixer_feeds().len() == before.mixer_feeds().len()
        &&& forall|b: int|
            0 <= b < before.mixer_feeds().len() ==> #[trigger] self.handed(
                before,
                b,
                one_at(b, out),
            )
    }

    /// Begins what an idle track is to send toward its output bus: makes the
    /// links, hands the mixer of the output bus its end, and takes a
    /// consumer of the input bus for a monitor pass.
    fn start_output(&mut self, track_id: u8, playback: bool) -> (job: OutputJob<T>)
        requires
            old(self).wf(),
            track_id < old(self)@.tracks.len(),
            old(self)@.tracks[track_id as int].output == Output::Idle,
            playback ==> completed_takes(old(self)@.tracks[track_id as int]) > 0,
        ensures
            final(self).wf(),
            final(self)@ == (RouterView {
                tracks: old(self)@.tracks.update(
                    track_id as int,
                    TrackView {
                        output: if playback {
                            Output::PlayingBack
                        } else {
                            Output::Monitoring
                        },
                        ..old(self)@.tracks[track_id as int]
                    },
                ),
                ..old(self)@
            }),
            final(self).config() == old(self).config(),
            final(self).mixers() == old(self).mixers(),
            final(self).handed_one(
                *old(self),
                route_of(old(self)@.routes, track_id).unwrap().1 as int,
            ),
            playback ==> Self::playback_job(old(self)@, job, track_id),
            !playback ==> Self::monitor_job(old(self)@, job, track_id),
            others_kept(old(self).signals(), final(self).signals(), track_id as int),
            output_signal_made(
                old(self).signals()[track_id as int],
                final(self).signals()[track_id as int],
                track_id,
            ),
    {
        let busses = self.routes.get_track_busses(&track_id);
        proof {
            lemma_route_of_is_a_route(self@.routes, track_id);
            assert(self@.outputs.len() == self.output_busses@.len());
            assert(self.mixers().len() == self.mix_threads@.len());
        }
        let (_, output) = busses.unwrap();
        let out = output as usize;
        let out_chs = self.output_busses[out].1.get_channel_ids();
        proof {
            assert(self@.outputs[out as int] == self.output_busses@[out as int].1@);
            assert(self@.tracks[track_id as int] == self.tracks@[track_id as int]@);
        }
        let consumer = if playback {
            None
        } else {
            let flushed = get_flushed_broadcast_queue(self.tap(track_id, true));
            proof {
                assert(flushed.polled().skip(0) == flushed.polled());
            }
            Some(flushed)
        };
        let ghost mid = *self;
        let start = if playback {
            self.tracks[track_id as usize].start_playback::<T>(out_chs)
        } else {
            self.tracks[track_id as usize].start_monitor::<T>(out_chs)
        };
        proof {
            self.lemma_one_track_changed(mid, track_id as int);
        }
        let start = start.unwrap();
        let mut sources: Vec<Inlet<(u8, T)>> = Vec::new();
        sources.push(start.source);
        let link = MonitorLink {
            out_bus_id: output,
            tx_to_bus: self.output_busses[out].0.share(),
            rxs_from_monitors: sources,
        };
        let ghost mid2 = *self;
        let ghost handed_link = link;
        self.mix_threads[out].1.send(link);
        proof {
            assert(self@.tracks =~= mid2@.tracks);
            assert(self.signals() =~= mid2.signals());
            assert(self@.inputs =~= mid2@.inputs);
            assert(self@.outputs =~= mid2@.outputs);
            assert(self.mixers() =~= mid2.mixers());
            assert(self.mixer_feeds().len() == mid2.mixer_feeds().len());
            assert forall|b: int| 0 <= b < old(self).mixer_feeds().len() implies #[trigger] self.handed(
                *old(self),
                b,
                one_at(b, out as int),
            ) by {
                assert(old(self).mixer_feeds()[b] == mid2.mixer_feeds()[b]);
                if b != out {
                    assert(self.mixer_feeds()[b] == mid2.mixer_feeds()[b]);
                } else {
                    let was = mid2.mixer_feeds()[b].sent();
                    let now = self.mixer_feeds()[b].sent();
                    assert(now == was.push(handed_link));
                    assert(now[was.len() as int] == handed_link);
                }
            }
        }
        OutputJob {
            track_id,
            file: start.file,
            consumer,
            feed: start.feed,
            cancel: start.cancel,
            out_chs: start.out_chs,
        }
    }

    /// Begins a monitor pass for one track, whatever its arm state: its
    /// worker will read the input bus from now on and feed the mixer of the
    /// output bus. Nothing begins on a track that already sends something
    /// toward its output bus.
    pub fn start_monitor(&mut self, track_id: u8) -> (job: Option<OutputJob<T>>)
        requires
            old(self).wf(),
            track_id < old(self)@.tracks.len(),
        ensures
            final(self).wf(),
            job is Some <==> old(self)@.tracks[track_id as int].output == Output::Idle,
            job is None ==> final(self)@ == old(self)@,
            job is Some ==> final(self)@ == (RouterView {
                tracks: old(self)@.tracks.update(
                    track_id as int,
                    TrackView { output: Output::Monitoring, ..old(self)@.tracks[track_id as int] },
                ),
                ..old(self)@
            }),
            job matches Some(j) ==> Self::monitor_job(old(self)@, j, track_id),
            job is Some ==> final(self).handed_one(
                *old(self),
                route_of(old(self)@.routes, track_id).unwrap().1 as int,
            ),
            job is None ==> final(self).mixer_feeds() == old(self).mixer_feeds(),
            job is None ==> final(self).signals() == old(self).signals(),
            job is Some ==> others_kept(old(self).signals(), final(self).signals(), track_id as int)
                && output_signal_made(
                old(self).signals()[track_id as int],
                final(self).signals()[track_id as int],
                track_id,
            ),
            final(self).config() == old(self).config(),
            final(self).mixers() == old(self).mixers(),
    {
        proof {
            assert(self@.tracks[track_id as int] == self.tracks@[track_id as int]@);
        }
        if self.tracks[track_id as usize].get_output() == Output::Idle {
            Some(self.start_output(track_id, false))
        } else {
            None
        }
    }

    /// The monitor pass: every track that sends nothing toward its output
    /// bus begins to send what it hears, if it is armed for monitoring, or
    /// else its most recent complete take, if it has one and is not armed
    /// for recording. The result holds, for each track that begins, in rising
    /// order of id, what its worker is started with.
    pub fn monitor(&mut self) -> (jobs: Vec<OutputJob<T>>)
        requires
            old(self).wf(),
        ensures
            final(self).wf(),
            final(self)@.tracks.len() == old(self)@.tracks.len(),
            forall|t: int|
                0 <= t < old(self)@.tracks.len() ==> #[trigger] final(self)@.tracks[t] == (TrackView {
                    output: wanted_output(old(self)@.tracks[t]),
                    ..old(self)@.tracks[t]
                }),
            final(self)@.inputs == old(self)@.inputs,
            final(self)@.outputs == old(self)@.outputs,
            final(self)@.routes == old(self)@.routes,
            final(self).config() == old(self).config(),
            final(self).mixers() == old(self).mixers(),
            final(self).mixer_feeds().len() == old(self).mixer_feeds().len(),
            forall|b: int|
                0 <= b < old(self).mixer_feeds().len() ==> #[trigger] final(self).handed(
                    *old(self),
                    b,
                    starts_toward(old(self)@, old(self)@.tracks.len() as int, b),
                ),
            output_signals_made(
                old(self)@.tracks,
                old(self).signals(),
                final(self).signals(),
                old(self)@.tracks.len() as int,
            ),
            jobs@.len() == ids_where(old(self)@.tracks, Pick::ToSend).len(),
            forall|j: int|
                0 <= j < jobs@.len() ==> {
                    let id = ids_where(old(self)@.tracks, Pick::ToSend)[j];
                    &&& (#[trigger] jobs@[j]).track_id == id
                    &&& id < old(self)@.tracks.len()
                    &&& Self::output_job(old(self)@, jobs@[j], id)
                },
    {
        let mut jobs: Vec<OutputJob<T>> = Vec::new();
        let mut t: usize = 0;
        let count = self.tracks.len();
        proof {
            assert(old(self)@.tracks.take(0) =~= Seq::<TrackView>::empty());
        }
        while t < count
            invariant
                t <= count,
                count == old(self)@.tracks.len(),
                count == self.tracks@.len(),
                old(self).wf(),
                self.wf(),
                self@.tracks.len() == count,
                forall|k: int|
                    0 <= k < t ==> #[trigger] self@.tracks[k] == (TrackView {
                        output: wanted_output(old(self)@.tracks[k]),
                        ..old(self)@.tracks[k]
                    }),
                forall|k: int| t <= k < count ==> #[trigger] self@.tracks[k] == old(self)@.tracks[k],
                self@.inputs == old(self)@.inputs,
                self@.outputs == old(self)@.outputs,
                self@.routes == old(self)@.routes,
                self.config() == old(self).config(),
                self.mixers() == old(self).mixers(),
                self.mixer_feeds().len() == old(self).mixer_feeds().len(),
                forall|b: int|
                    0 <= b < old(self).mixer_feeds().len() ==> #[trigger] self.handed(
                        *old(self),
                        b,
                        starts_toward(old(self)@, t as int, b),
                    ),
                output_signals_made(
                    old(self)@.tracks,
                    old(self).signals(),
                    self.signals(),
                    t as int,
                ),
                jobs@.len() == ids_where(old(self)@.tracks.take(t as int), Pick::ToSend).len(),
                forall|j: int|
                    0 <= j < jobs@.len() ==> {
                        let id = ids_where(old(self)@.tracks.take(t as int), Pick::ToSend)[j];
                        &&& (#[trigger] jobs@[j]).track_id == id
                        &&& id < t
                        &&& Self::output_job(old(self)@, jobs@[j], id)
                    },
            decreases count - t,
        {
            let ghost mid = *self;
            proof {
                assert(old(self)@.tracks.take(t + 1).drop_last() == old(self)@.tracks.take(t as int));
                assert(old(self)@.tracks.take(t + 1).last() == old(self)@.tracks[t as int]);
                assert(self@.tracks[t as int] == old(self)@.tracks[t as int]);
                assert(self@.tracks[t as int] == self.tracks@[t as int]@);
            }
            let ghost started = picks(Pick::ToSend, old(self)@.tracks[t as int]);
            let ghost out_of_t = route_of(old(self)@.routes, t as u8).unwrap().1 as int;
            if self.tracks[t].get_output() == Output::Idle {
                if self.tracks[t].is_monitored() {
                    let job = self.start_output(t as u8, false);
                    proof {
                        assert(Self::monitor_job(mid@, job, t as u8));
                        assert(Self::monitor_job(old(self)@, job, t as u8));
                        assert(Self::output_job(old(self)@, job, t as u8));
                    }
                    jobs.push(job);
                } else if !self.tracks[t].is_rec_armed() && self.tracks[t].nof_completed_takes()
                    > 0 {
                    let job = self.start_output(t as u8, true);
                    proof {
                        assert(Self::playback_job(mid@, job, t as u8));
                        assert(Self::playback_job(old(self)@, job, t as u8));
                        assert(Self::output_job(old(self)@, job, t as u8));
                    }
                    jobs.push(job);
                }
            }
            proof {
                assert forall|k: int| 0 <= k < t + 1 implies #[trigger] self@.tracks[k] == (TrackView {
                    output: wanted_output(old(self)@.tracks[k]),
                    ..old(self)@.tracks[k]
                }) by {
                    if k < t {
                        assert(self@.tracks[k] == mid@.tracks[k]);
                    }
                }
                assert forall|k: int| t + 1 <= k < count implies #[trigger] self@.tracks[k] == old(
                    self,
                )@.tracks[k] by {
                    assert(self@.tracks[k] == mid@.tracks[k]);
                }
                assert forall|b: int| 0 <= b < old(self).mixer_feeds().len() implies #[trigger] self.handed(
                    *old(self),
                    b,
                    starts_toward(old(self)@, t + 1, b),
                ) by {
                    let a = old(self).mixer_feeds()[b].sent();
                    let m = mid.mixer_feeds()[b].sent();
                    let z = self.mixer_feeds()[b].sent();
                    assert(mid.handed(*old(self), b, starts_toward(old(self)@, t as int, b)));
                    if started {
                        lemma_route_of_is_a_route(old(self)@.routes, t as u8);
                        assert(self.handed(
                            mid,
                            b,
                            one_at(b, out_of_t),
                        ));
                        assert(a =~= z.subrange(0, a.len() as int)) by {
                            assert(a == m.subrange(0, a.len() as int));
                            assert(m == z.subrange(0, m.len() as int));
                        }
                        assert forall|i: int| a.len() <= i < z.len() implies Self::fresh_link(
                            #[trigger] z[i],
                            b,
                        ) by {
                            if i < m.len() {
                                assert(z[i] == m[i]);
                            }
                        }
                    } else {
                        assert(z == m);
                    }
                }
            }
            t = t + 1;
        }
        proof {
            assert(old(self)@.tracks.take(t as int) == old(self)@.tracks);
        }
        jobs
    }

    /// Signals the worker that sends toward a track's output bus to stop, if
    /// there is one, and tells whether there was.
    pub fn stop_monitor(&mut self, track_id: u8) -> (stopped: bool)
        requires
            old(self).wf(),
            track_id < old(self)@.tracks.len(),
        ensures
            final(self).wf(),
            stopped == (old(self)@.tracks[track_id as int].output != Output::Idle),
            final(self)@ == (RouterView {
                tracks: old(self)@.tracks.update(
                    track_id as int,
                    TrackView { output: Output::Idle, ..old(self)@.tracks[track_id as int] },
                ),
                ..old(self)@
            }),
            final(self).config() == old(self).config(),
            final(self).mixers() == old(self).mixers(),
            final(self).mixer_feeds() == old(self).mixer_feeds(),
            others_kept(old(self).signals(), final(self).signals(), track_id as int),
            output_signal_sent(
                old(self).signals()[track_id as int],
                final(self).signals()[track_id as int],
            ),
    {
        proof {
            assert(self@.tracks[track_id as int] == self.tracks@[track_id as int]@);
        }
        let stopped = self.tracks[track_id as usize].stop_monitor();
        proof {
            self.lemma_one_track_changed(*old(self), track_id as int);
        }
        stopped
    }

    /// Signals every worker that sends toward an output bus to stop. The
    /// result holds the ids of the tracks that had one, in rising order.
    pub fn stop_monitoring(&mut self) -> (stopped: Vec<u8>)
        requires
            old(self).wf(),
        ensures
            final(self).wf(),
            final(self)@.tracks.len() == old(self)@.tracks.len(),
            forall|t: int|
                0 <= t < old(self)@.tracks.len() ==> #[trigger] final(self)@.tracks[t] == (TrackView {
                    output: Output::Idle,
                    ..old(self)@.tracks[t]
                }),
            final(self)@.inputs == old(self)@.inputs,
            final(self)@.outputs == old(self)@.outputs,
            final(self)@.routes == old(self)@.routes,
            final(self).config() == old(self).config(),
            final(self).mixers() == old(self).mixers(),
            final(self).mixer_feeds() == old(self).mixer_feeds(),
            signals_sent(
                old(self).signals(),
                final(self).signals(),
                old(self)@.tracks.len() as int,
                true,
            ),
            stopped@ == ids_where(old(self)@.tracks, Pick::Sending),
    {
        let mut stopped: Vec<u8> = Vec::new();
        let mut t: usize = 0;
        let count = self.tracks.len();
        proof {
            assert(old(self)@.tracks.take(0) =~= Seq::<TrackView>::empty());
        }
        while t < count
            invariant
                t <= count,
                count == old(self)@.tracks.len(),
                count == self.tracks@.len(),
                old(self).wf(),
                self.wf(),
                self@.tracks.len() == count,
                forall|k: int|
                    0 <= k < t ==> #[trigger] self@.tracks[k] == (TrackView {
                        output: Output::Idle,
                        ..old(self)@.tracks[k]
                    }),
                forall|k: int| t <= k < count ==> #[trigger] self@.tracks[k] == old(self)@.tracks[k],
                self@.inputs == old(self)@.inputs,
                self@.outputs == old(self)@.outputs,
                self@.routes == old(self)@.routes,
                self.config() == old(self).config(),
                self.mixers() == old(self).mixers(),
                self.mixer_feeds() == old(self).mixer_feeds(),
                signals_sent(old(self).signals(), self.signals(), t as int, true),
                stopped@ == ids_where(old(self)@.tracks.take(t as int), Pick::Sending),
            decreases count - t,
        {
            let ghost mid = *self;
            proof {
                assert(old(self)@.tracks.take(t + 1).drop_last() == old(self)@.tracks.take(t as int));
                assert(old(self)@.tracks.take(t + 1).last() == old(self)@.tracks[t as int]);
                assert(self@.tracks[t as int] == old(self)@.tracks[t as int]);
                assert(self@.tracks[t as int] == self.tracks@[t as int]@);
            }
            let was = self.tracks[t].stop_monitor();
            proof {
                self.lemma_one_track_changed(mid, t as int);
            }
            if was {
                stopped.push(t as u8);
            }
            proof {
                assert forall|k: int| 0 <= k < t + 1 implies #[trigger] self@.tracks[k] == (TrackView {
                    output: Output::Idle,
                    ..old(self)@.tracks[k]
                }) by {
                    if k < t {
                        assert(self@.tracks[k] == mid@.tracks[k]);
                    }
                }
                assert forall|k: int| t + 1 <= k < count implies #[trigger] self@.tracks[k] == old(
                    self,
                )@.tracks[k] by {
                    assert(self@.tracks[k] == mid@.tracks[k]);
                }
            }
            t = t + 1;
        }
        proof {
            assert(old(self)@.tracks.take(t as int) == old(self)@.tracks);
        }
        stopped
    }

    /// The input bus and the output bus that a track is attached to, each
    /// with the router's ends of its queues or link. Where a track is attached
    /// to several buses of one direction, the last of them is given.
    pub fn get_track_io_busses(&self, track_id: u8) -> (busses: Option<
        (&(Consumer<T>, Consumer<T>, InputBus), &(Outlet<(u8, T)>, OutputBus)),
    >)
        ensures
            busses is Some <==> last_bus_with(self@.inputs, track_id) is Some && last_bus_with(
                self@.outputs,
                track_id,
            ) is Some,
            busses matches Some(pair) ==> {
                &&& pair.0.2@ == self@.inputs[last_bus_with(self@.inputs, track_id).unwrap()]
                &&& pair.1.1@ == self@.outputs[last_bus_with(self@.outputs, track_id).unwrap()]
            },
    {
        let mut in_bus: Option<usize> = None;
        let mut i: usize = 0;
        proof {
            assert(self@.inputs.take(0) =~= Seq::<BusView>::empty());
        }
        while i < self.input_busses.len()
            invariant
                i <= self.input_busses@.len(),
                self@.inputs.len() == self.input_busses@.len(),
                in_bus is Some <==> last_bus_with(self@.inputs.take(i as int), track_id) is Some,
                in_bus matches Some(k) ==> k < i && last_bus_with(
                    self@.inputs.take(i as int),
                    track_id,
                ) == Some(k as int),
            decreases self.input_busses@.len() - i,
        {
            proof {
                assert(self@.inputs.take(i + 1).drop_last() == self@.inputs.take(i as int));
                assert(self@.inputs.take(i + 1).last() == self.input_busses@[i as int].2@);
            }
            let ids = self.input_busses[i].2.get_track_ids();
            if contains_id(&ids, track_id) {
                in_bus = Some(i);
            }
            i = i + 1;
        }
        let mut out_bus: Option<usize> = None;
        let mut o: usize = 0;
        proof {
            assert(self@.inputs.take(i as int) == self@.inputs);
            assert(self@.outputs.take(0) =~= Seq::<BusView>::empty());
        }
        while o < self.output_busses.len()
            invariant
                o <= self.output_busses@.len(),
                self@.outputs.len() == self.output_busses@.len(),
                out_bus is Some <==> last_bus_with(self@.outputs.take(o as int), track_id) is Some,
                out_bus matches Some(k) ==> k < o && last_bus_with(
                    self@.outputs.take(o as int),
                    track_id,
                ) == Some(k as int),
            decreases self.output_busses@.len() - o,
        {
            proof {
                assert(self@.outputs.take(o + 1).drop_last() == self@.outputs.take(o as int));
                assert(self@.outputs.take(o + 1).last() == self.output_busses@[o as int].1@);
            }
            let ids = self.output_busses[o].1.get_track_ids();
            if contains_id(&ids, track_id) {
                out_bus = Some(o);
            }
            o = o + 1;
        }
        proof {
            assert(self@.outputs.take(o as int) == self@.outputs);
        }
        match (in_bus, out_bus) {
            (Some(a), Some(b)) => {
                proof {
                    assert(self@.inputs[a as int] == self.input_busses@[a as int].2@);
                    assert(self@.outputs[b as int] == self.output_busses@[b as int].1@);
                }
                Some((&self.input_busses[a], &self.output_busses[b]))
            },
            _ => None,
        }
    }

    /// New sending ends of the two links to the mixer of an output bus: the
    /// side link on which it receives new sources, and the link on which it
    /// receives the signal to stop. Both carry the bus's id as their mark, as
    /// the mixer's own ends of these links do.
    pub fn get_mix_thread_by_out_bus(&self, bus_id: u8) -> (ends: Option<
        (Outlet<MonitorLink<T>>, Outlet<()>),
    >)
        requires
            self.wf(),
        ensures
            ends is Some <==> self.mixers().contains(bus_id),
            ends matches Some(pair) ==> pair.0.sent() == Seq::<MonitorLink<T>>::empty()
                && pair.1.sent() == Seq::<()>::empty() && pair.0.mark() == bus_id && pair.1.mark()
                == bus_id,
    {
        let mut i: usize = 0;
        while i < self.mix_threads.len()
            invariant
                self.wf(),
                i <= self.mix_threads@.len(),
                self.mixers().len() == self.mix_threads@.len(),
                forall|k: int| 0 <= k < i ==> self.mixers()[k] != bus_id,
            decreases self.mix_threads@.len() - i,
        {
            if self.mix_threads[i].0 == bus_id {
                proof {
                    assert(self.mixers()[i as int] == bus_id);
                }
                return Some((self.mix_threads[i].1.share(), self.mix_threads[i].2.share()));
            }
            i = i + 1;
        }
        None
    }

    /// The channels of the capture stream and of the render stream, each
    /// from 1 up.
    pub fn get_io_channels(&self) -> (channels: (Vec<u8>, Vec<u8>))
        requires
            self.wf(),
        ensures
            channels.0@ == channel_list(self.config().in_config.channels as u8),
            channels.1@ == channel_list(self.config().out_config.channels as u8),
    {
        (
            channels_up_to(self.config.in_config.channels as u8),
            channels_up_to(self.config.out_config.channels as u8),
        )
    }

    /// The route map can be asked both ways: the two buses that a track is
    /// attached to are the buses of the one route the track is on.
    pub proof fn lemma_lookups_agree(&self, track_id: u8)
        requires
            self.wf(),
            track_id < self@.tracks.len(),
        ensures
            route_of(self@.routes, track_id) is Some,
            last_bus_with(self@.inputs, track_id) == Some(
                route_of(self@.routes, track_id).unwrap().0 as int,
            ),
            last_bus_with(self@.outputs, track_id) == Some(
                route_of(self@.routes, track_id).unwrap().1 as int,
            ),
            tracks_of(
                self@.routes,
                route_of(self@.routes, track_id).unwrap().0,
                route_of(self@.routes, track_id).unwrap().1,
            ) is Some,
    {
        let v = self@;
        let pair = route_of(v.routes, track_id).unwrap();
        lemma_route_of_is_a_route(v.routes, track_id);
        lemma_last_bus_with(v.inputs, track_id);
        lemma_last_bus_with(v.outputs, track_id);
        assert(v.inputs[pair.0 as int].track_ids.contains(track_id));
        assert(v.outputs[pair.1 as int].track_ids.contains(track_id));
        match last_bus_with(v.inputs, track_id) {
            Some(k) => {
                assert(v.inputs[k].track_ids.contains(track_id));
            },
            None => {},
        }
        match last_bus_with(v.outputs, track_id) {
            Some(k) => {
                assert(v.outputs[k].track_ids.contains(track_id));
            },
            None => {},
        }
        lemma_route_has_tracks(v.routes, pair.0, pair.1);
    }

    /// How many input buses, output buses and tracks the router has.
    pub fn counts(&self) -> (counts: (usize, usize, usize))
        ensures
            counts.0 == self@.inputs.len(),
            counts.1 == self@.outputs.len(),
            counts.2 == self@.tracks.len(),
    {
        (self.input_busses.len(), self.output_busses.len(), self.tracks.len())
    }

    /// The router's devices and stream shapes.
    pub fn get_config(&self) -> (config: &RouteConfig)
        ensures
            *config == self.config(),
    {
        &self.config
    }

    /// The router's tracks, by id.
    pub fn get_tracks(&self) -> (tracks: &Vec<Track>)
        ensures
            tracks@.len() == self@.tracks.len(),
            forall|t: int| 0 <= t < tracks@.len() ==> (#[trigger] tracks@[t])@ == self@.tracks[t],
    {
        &self.tracks
    }
}

} // verus!
