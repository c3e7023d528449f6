//! Tracks: a named unit that records from one bus into numbered takes and
//! sends what it hears, or what it recorded last, toward another bus.
//!
//! A track keeps the sending end of the signal that cancels each of its
//! workers. The workers themselves are threads of the program around this
//! library; what one of them does in one turn of its loop is a function here.

use vstd::prelude::*;
use vstd::string::StringExecFns;
use vstd::arithmetic::div_mod::{lemma_add_mod_noop, lemma_mod_bound, lemma_mod_self_0, lemma_small_mod};
use crate::config::{SampleFormat, StreamConfig, WavFormat, WavSpec};
use crate::fanout::{Consumer, Polled};
use crate::link::{channel_for, Inlet, Outlet};
use crate::text::{decimal, push_decimal};

verus! {

/// What a track sends toward its output bus.
#[derive(Debug, Clone, Copy, PartialEq, Eq, Structural)]
pub enum Output {
    /// Nothing.
    Idle,
    /// What its input bus captures.
    Monitoring,
    /// Its most recent complete take.
    PlayingBack,
}

/// What a track is, apart from the links to its workers.
pub struct TrackView {
    /// The track's place among the tracks of its router.
    pub id: u8,
    /// The name its takes are called after.
    pub name: Seq<char>,
    /// The file names of its takes, oldest first.
    pub files: Seq<Seq<char>>,
    /// The header its takes are written with.
    pub wav_spec: WavSpec,
    /// Whether the next record pass takes the track in.
    pub rec_armed: bool,
    /// Whether the next monitor pass takes the track in.
    pub monitor_armed: bool,
    /// Whether a worker is writing a take.
    pub recording: bool,
    /// What a worker is sending toward the output bus.
    pub output: Output,
}

/// A named unit of recording and monitoring.
pub struct Track {
    id: u8,
    name: String,
    files: Vec<String>,
    wav_spec: WavSpec,
    rec_cancel: Option<Outlet<()>>,
    out_cancel: Option<Outlet<()>>,
    playing: bool,
    rec: bool,
    monitor: bool,
    sent: Ghost<Seq<Outlet<()>>>,
}

/// The signals with which a track stops its workers.
pub struct Signals {
    /// The sending end of the signal that stops the record worker, while
    /// there is one.
    pub record: Option<Outlet<()>>,
    /// The sending end of the signal that stops the worker that sends toward
    /// the output bus, while there is one.
    pub output: Option<Outlet<()>>,
    /// The sending ends on which the track has signalled a worker to stop,
    /// oldest first, each as it was after the signal was sent.
    pub sent: Seq<Outlet<()>>,
}

/// The signals of a track that has no worker and never had one.
pub open spec fn no_signals() -> Signals {
    Signals { record: None, output: None, sent: Seq::empty() }
}

/// Whether the worker behind a sending end, if there was one, has been
/// signalled to stop: the signal went out on that end, and the end joined
/// the list of those that were used.
pub open spec fn signal_sent(
    end: Option<Outlet<()>>,
    was: Seq<Outlet<()>>,
    now: Seq<Outlet<()>>,
) -> bool {
    match end {
        Some(o) => now.len() == was.len() + 1 && now.drop_last() == was && now.last().sent()
            == o.sent().push(()),
        None => now == was,
    }
}

/// Whether a record pass has begun between two states of the signals of
/// the track `id`: there is a fresh sending end for its worker, under the
/// track's id as its mark, and nothing else has changed.
pub open spec fn record_signal_made(before: Signals, after: Signals, id: u8) -> bool {
    &&& after.record matches Some(o) && o.sent() == Seq::<()>::empty() && o.mark() == id
    &&& after.output == before.output
    &&& after.sent == before.sent
}

/// Whether the record worker, if there was one, has been signalled to stop
/// between two states of a track's signals.
pub open spec fn record_signal_sent(before: Signals, after: Signals) -> bool {
    &&& after.record is None
    &&& after.output == before.output
    &&& signal_sent(before.record, before.sent, after.sent)
}

/// Whether a pass toward the output bus has begun between two states of
/// the signals of the track `id`: there is a fresh sending end for its
/// worker, under the track's id as its mark, and nothing else has changed.
pub open spec fn output_signal_made(before: Signals, after: Signals, id: u8) -> bool {
    &&& after.output matches Some(o) && o.sent() == Seq::<()>::empty() && o.mark() == id
    &&& after.record == before.record
    &&& after.sent == before.sent
}

/// Whether the worker that sends toward the output bus, if there was one,
/// has been signalled to stop between two states of a track's signals.
pub open spec fn output_signal_sent(before: Signals, after: Signals) -> bool {
    &&& after.output is None
    &&& after.record == before.record
    &&& signal_sent(before.output, before.sent, after.sent)
}

/// A track after a record pass was given up because its file could not be
/// made: the name of the take is taken back and nothing is being written.
pub open spec fn record_given_up(track: TrackView) -> TrackView {
    TrackView {
        files: if track.recording && track.files.len() > 0 {
            track.files.drop_last()
        } else {
            track.files
        },
        recording: false,
        ..track
    }
}

/// What the worker of a record pass is started with. The links carry the
/// track's id as their mark.
pub struct RecordStart {
    /// The file to create.
    pub file: String,
    /// The header to create it with.
    pub spec: WavSpec,
    /// Where the signal to stop arrives.
    pub cancel: Inlet<()>,
}

/// What the worker of a monitor or playback pass is started with.
#[verifier::reject_recursive_types(T)]
pub struct OutputStart<T> {
    /// The take to play back; none for a monitor pass.
    pub file: Option<String>,
    /// Where the worker sends its samples.
    pub feed: Outlet<(u8, T)>,
    /// Where the mixer of the output bus receives them.
    pub source: Inlet<(u8, T)>,
    /// Where the signal to stop arrives.
    pub cancel: Inlet<()>,
    /// The channels of the output bus, which the samples are tagged with in turn.
    pub out_chs: Vec<u8>,
}

/// The name of a track's `number`-th take.
pub open spec fn take_name(name: Seq<char>, number: nat) -> Seq<char> {
    name + seq!['_'] + decimal(number) + seq!['.', 'w', 'a', 'v']
}

/// How many of a track's takes are complete: all of them, but for the one
/// that a worker is writing.
pub open spec fn completed_takes(track: TrackView) -> int {
    if track.recording && track.files.len() > 0 {
        track.files.len() - 1
    } else {
        track.files.len() as int
    }
}

/// The file names behind a list of strings.
pub open spec fn names_of(files: Seq<String>) -> Seq<Seq<char>> {
    Seq::new(files.len(), |i: int| files[i]@)
}

impl View for Track {
    type V = TrackView;

    closed spec fn view(&self) -> TrackView {
        TrackView {
            id: self.id,
            name: self.name@,
            files: names_of(self.files@),
            wav_spec: self.wav_spec,
            rec_armed: self.rec,
            monitor_armed: self.monitor,
            recording: self.rec_cancel is Some,
            output: if self.out_cancel is None {
                Output::Idle
            } else if self.playing {
                Output::PlayingBack
            } else {
                Output::Monitoring
            },
        }
    }
}

impl Track {
    /// The signals with which the track stops its workers.
    pub closed spec fn signals(&self) -> Signals {
        Signals { record: self.rec_cancel, output: self.out_cancel, sent: self.sent@ }
    }

    /// A worker is writing a take just when the track holds the signal to
    /// stop it, and one is sending toward the output bus just when the track
    /// holds the signal to stop that one.
    pub proof fn lemma_signals_match(&self)
        ensures
            self@.recording == (self.signals().record is Some),
            (self@.output != Output::Idle) == (self.signals().output is Some),
    {
    }

    /// Makes an idle, unarmed track without takes.
    pub fn new(id: u8, name: String, stream_config: &StreamConfig, sample_format: SampleFormat) -> (track:
        Track)
        ensures
            track@ == (TrackView {
                id,
                name: name@,
                files: Seq::empty(),
                wav_spec: wav_spec_of(*stream_config, sample_format),
                rec_armed: false,
                monitor_armed: false,
                recording: false,
                output: Output::Idle,
            }),
            track.signals() == no_signals(),
    {
        let track = Track {
            id,
            name,
            files: Vec::new(),
            wav_spec: wav_spec_from_config(stream_config, &sample_format),
            rec_cancel: None,
            out_cancel: None,
            playing: false,
            rec: false,
            monitor: false,
            sent: Ghost(Seq::empty()),
        };
        assert(names_of(track.files@) =~= Seq::empty());
        track
    }

    /// Begins a record pass: names the next take and makes the signal that
    /// will stop the pass. A track that is already recording is left as it is.
    /// Where the take's file cannot be made, `record_failed` takes the name
    /// back.
    pub fn record(&mut self) -> (start: Option<RecordStart>)
        ensures
            old(self)@.recording ==> start is None && final(self)@ == old(self)@
                && final(self).signals() == old(self).signals(),
            !old(self)@.recording ==> record_signal_made(
                old(self).signals(),
                final(self).signals(),
                old(self)@.id,
            ),
            old(self)@.recording ==> start is None && final(self)@ == old(self)@,
            !old(self)@.recording ==> start is Some && final(self)@ == (TrackView {
                files: old(self)@.files.push(
                    take_name(old(self)@.name, old(self)@.files.len() + 1),
                ),
                recording: true,
                ..old(self)@
            }),
            start matches Some(s) ==> {
                &&& s.file@ == take_name(old(self)@.name, old(self)@.files.len() + 1)
                &&& s.spec == old(self)@.wav_spec
                &&& s.cancel.polled() == Seq::<Polled<()>>::empty()
                &&& s.cancel.mark() == old(self)@.id
            },
    {
        if self.rec_cancel.is_some() {
            return None;
        }
        let ghost before = self.files@;
        let file = self.add_file();
        let (signal, cancel) = channel_for::<()>(self.id);
        self.rec_cancel = Some(signal);
        proof {
            assert(names_of(self.files@) =~= names_of(before).push(file@));
        }
        Some(RecordStart { file, spec: self.wav_spec, cancel })
    }

    /// Begins a playback pass of the most recent complete take toward the
    /// given channels. Nothing begins on a track without a complete take,
    /// nor on one that already sends something toward its output bus, nor
    /// toward no channel.
    pub fn start_playback<T>(&mut self, out_chs: Vec<u8>) -> (start: Option<OutputStart<T>>)
        ensures
            start is Some <==> old(self)@.output == Output::Idle && completed_takes(old(self)@) > 0
                && out_chs@.len() > 0,
            start is None ==> final(self)@ == old(self)@ && final(self).signals() == old(
                self,
            ).signals(),
            start is Some ==> output_signal_made(
                old(self).signals(),
                final(self).signals(),
                old(self)@.id,
            ),
            start is Some ==> final(self)@ == (TrackView {
                output: Output::PlayingBack,
                ..old(self)@
            }),
            start matches Some(s) ==> {
                &&& s.file matches Some(f) && f@ == old(self)@.files[completed_takes(old(self)@) - 1]
                &&& s.out_chs@ == out_chs@
                &&& s.feed.sent() == Seq::<(u8, T)>::empty()
                &&& s.source.polled() == Seq::<Polled<(u8, T)>>::empty()
                &&& s.cancel.polled() == Seq::<Polled<()>>::empty()
                &&& s.feed.mark() == old(self)@.id
                &&& s.source.mark() == old(self)@.id
                &&& s.cancel.mark() == old(self)@.id
            },
    {
        let completed = self.nof_completed_takes();
        if self.out_cancel.is_some() || completed == 0 || out_chs.len() == 0 {
            return None;
        }
        let file = self.files[completed - 1].clone();
        let (signal, cancel) = channel_for::<()>(self.id);
        let (feed, source) = channel_for::<(u8, T)>(self.id);
        self.out_cancel = Some(signal);
        self.playing = true;
        Some(OutputStart { file: Some(file), feed, source, cancel, out_chs })
    }

    /// Begins a monitor pass toward the given channels. Nothing begins on a
    /// track that already sends something toward its output bus, nor toward
    /// no channel.
    pub fn start_monitor<T>(&mut self, out_chs: Vec<u8>) -> (start: Option<OutputStart<T>>)
        ensures
            start is Some <==> old(self)@.output == Output::Idle && out_chs@.len() > 0,
            start is None ==> final(self)@ == old(self)@ && final(self).signals() == old(
                self,
            ).signals(),
            start is Some ==> output_signal_made(
                old(self).signals(),
                final(self).signals(),
                old(self)@.id,
            ),
            start is Some ==> final(self)@ == (TrackView {
                output: Output::Monitoring,
                ..old(self)@
            }),
            start matches Some(s) ==> {
                &&& s.file is None
                &&& s.out_chs@ == out_chs@
                &&& s.feed.sent() == Seq::<(u8, T)>::empty()
                &&& s.source.polled() == Seq::<Polled<(u8, T)>>::empty()
                &&& s.cancel.polled() == Seq::<Polled<()>>::empty()
                &&& s.feed.mark() == old(self)@.id
                &&& s.source.mark() == old(self)@.id
                &&& s.cancel.mark() == old(self)@.id
            },
    {
        if self.out_cancel.is_some() || out_chs.len() == 0 {
            return None;
        }
        let (signal, cancel) = channel_for::<()>(self.id);
        let (feed, source) = channel_for::<(u8, T)>(self.id);
        self.out_cancel = Some(signal);
        self.playing = false;
        Some(OutputStart { file: None, feed, source, cancel, out_chs })
    }

    /// Signals the worker of the record pass to stop, if there is one, and
    /// tells whether there was. The take that it wrote is complete from now
    /// on.
    pub fn stop_recording(&mut self) -> (stopped: bool)
        ensures
            stopped == old(self)@.recording,
            final(self)@ == (TrackView { recording: false, ..old(self)@ }),
            record_signal_sent(old(self).signals(), final(self).signals()),
    {
        match self.rec_cancel.take() {
            Some(mut signal) => {
                signal.send(());
                proof {
                    let was = self.sent@;
                    assert(was == old(self).sent@);
                    self.sent@ = was.push(signal);
                    assert(self.sent@.drop_last() =~= was);
                }
                true
            },
            None => false,
        }
    }

    /// Gives up a record pass whose file could not be made: takes the name
    /// of the take back, so that the list holds takes that exist and the
    /// next pass uses the same name. No signal is sent, for no worker was
    /// started. Tells whether there was a pass to give up.
    pub fn record_failed(&mut self) -> (failed: bool)
        ensures
            failed == old(self)@.recording,
            final(self)@ == record_given_up(old(self)@),
            final(self).signals() == (Signals { record: None, ..old(self).signals() }),
    {
        match self.rec_cancel.take() {
            Some(_) => {
                self.files.pop();
                proof {
                    if old(self).files@.len() > 0 {
                        assert(names_of(self.files@) =~= names_of(old(self).files@).drop_last());
                    } else {
                        assert(names_of(self.files@) =~= names_of(old(self).files@));
                    }
                }
                true
            },
            None => false,
        }
    }

    /// Signals the worker of the monitor or playback pass to stop, if there
    /// is one, and tells whether there was.
    pub fn stop_monitor(&mut self) -> (stopped: bool)
        ensures
            stopped == (old(self)@.output != Output::Idle),
            final(self)@ == (TrackView { output: Output::Idle, ..old(self)@ }),
            output_signal_sent(old(self).signals(), final(self).signals()),
    {
        self.playing = false;
        match self.out_cancel.take() {
            Some(mut signal) => {
                signal.send(());
                proof {
                    let was = self.sent@;
                    assert(was == old(self).sent@);
                    self.sent@ = was.push(signal);
                    assert(self.sent@.drop_last() =~= was);
                }
                true
            },
            None => false,
        }
    }

    /// Arms or disarms the track for recording. Workers are not touched.
    pub fn set_rec(&mut self, state: bool)
        ensures
            final(self)@ == (TrackView { rec_armed: state, ..old(self)@ }),
            final(self).signals() == old(self).signals(),
    {
        self.rec = state;
    }

    /// Arms or disarms the track for monitoring. Workers are not touched.
    pub fn set_monitor(&mut self, state: bool)
        ensures
            final(self)@ == (TrackView { monitor_armed: state, ..old(self)@ }),
            final(self).signals() == old(self).signals(),
    {
        self.monitor = state;
    }

    /// Whether the track is armed for recording.
    pub fn is_rec_armed(&self) -> (armed: bool)
        ensures
            armed == self@.rec_armed,
    {
        self.rec
    }

    /// Whether the track is armed for monitoring.
    pub fn is_monitored(&self) -> (armed: bool)
        ensures
            armed == self@.monitor_armed,
    {
        self.monitor
    }

    /// Whether a worker is writing a take.
    pub fn is_recording(&self) -> (recording: bool)
        ensures
            recording == self@.recording,
    {
        self.rec_cancel.is_some()
    }

    /// What a worker is sending toward the output bus.
    pub fn get_output(&self) -> (output: Output)
        ensures
            output == self@.output,
    {
        if self.out_cancel.is_none() {
            Output::Idle
        } else if self.playing {
            Output::PlayingBack
        } else {
            Output::Monitoring
        }
    }

    /// How many takes the track has, the one that is being written included.
    pub fn nof_takes(&self) -> (count: usize)
        ensures
            count == self@.files.len(),
    {
        self.files.len()
    }

    /// How many complete takes the track has.
    pub fn nof_completed_takes(&self) -> (count: usize)
        ensures
            count == completed_takes(self@),
    {
        if self.rec_cancel.is_some() && self.files.len() > 0 {
            self.files.len() - 1
        } else {
            self.files.len()
        }
    }

    /// The track's id, name and two arm flags: recording first, monitoring second.
    pub fn as_tup(&self) -> (summary: (u8, String, bool, bool))
        ensures
            summary.0 == self@.id,
            summary.1@ == self@.name,
            summary.2 == self@.rec_armed,
            summary.3 == self@.monitor_armed,
    {
        (self.id, self.name.clone(), self.rec, self.monitor)
    }

    /// The file names of the track's takes, oldest first.
    pub fn get_files(&self) -> (files: Vec<String>)
        ensures
            names_of(files@) == self@.files,
    {
        let mut files: Vec<String> = Vec::new();
        let mut i: usize = 0;
        while i < self.files.len()
            invariant
                i <= self.files.len(),
                files@.len() == i,
                forall|k: int| 0 <= k < i ==> files@[k]@ == self.files@[k]@,
            decreases self.files.len() - i,
        {
            files.push(self.files[i].clone());
            i = i + 1;
        }
        assert(names_of(files@) =~= names_of(self.files@));
        files
    }

    /// Names the next take and puts it on the list.
    fn add_file(&mut self) -> (file: String)
        ensures
            file@ == take_name(old(self).name@, old(self).files@.len() + 1),
            final(self).files@ == old(self).files@.push(final(self).files@.last()),
            final(self).files@.last()@ == file@,
            final(self).id == old(self).id,
            final(self).name == old(self).name,
            final(self).wav_spec == old(self).wav_spec,
            final(self).rec_cancel == old(self).rec_cancel,
            final(self).out_cancel == old(self).out_cancel,
            final(self).playing == old(self).playing,
            final(self).rec == old(self).rec,
            final(self).monitor == old(self).monitor,
            final(self).sent == old(self).sent,
    {
        proof {
            reveal_strlit("_");
            reveal_strlit(".wav");
        }
        let mut file = self.name.clone();
        file.append("_");
        push_decimal(&mut file, self.files.len() as u128 + 1);
        file.append(".wav");
        assert(file@ =~= take_name(self.name@, self.files@.len() + 1));
        let listed = file.clone();
        self.files.push(listed);
        file
    }
}

/// The header for takes of a stream: its channels and rate, and the sample's
/// size and kind.
pub open spec fn wav_spec_of(config: StreamConfig, format: SampleFormat) -> WavSpec {
    WavSpec {
        channels: config.channels,
        sample_rate: config.sample_rate,
        bits_per_sample: (format.byte_size() * 8) as u16,
        sample_format: wav_format_of(format),
    }
}

/// Whether a device's samples are written as integers or as floating point.
pub open spec fn wav_format_of(format: SampleFormat) -> WavFormat {
    match format {
        SampleFormat::U16 => WavFormat::Int,
        SampleFormat::I16 => WavFormat::Int,
        SampleFormat::F32 => WavFormat::Float,
    }
}

/// The header for takes of a stream.
pub fn wav_spec_from_config(config: &StreamConfig, sample_f: &SampleFormat) -> (spec: WavSpec)
    ensures
        spec == wav_spec_of(*config, *sample_f),
{
    let bits: u16 = match sample_f {
        SampleFormat::U16 => 16,
        SampleFormat::I16 => 16,
        SampleFormat::F32 => 32,
    };
    WavSpec {
        channels: config.channels,
        sample_rate: config.sample_rate,
        bits_per_sample: bits,
        sample_format: sample_format(*sample_f),
    }
}

/// The kind of sample a take holds for a kind of device sample.
pub fn sample_format(format: SampleFormat) -> (kind: WavFormat)
    ensures
        kind == wav_format_of(format),
{
    match format {
        SampleFormat::U16 => WavFormat::Int,
        SampleFormat::I16 => WavFormat::Int,
        SampleFormat::F32 => WavFormat::Float,
    }
}

/// The place in a cycle of `len` places that comes after `place`.
pub open spec fn turn(place: int, len: int) -> int {
    if place + 1 >= len {
        0
    } else {
        place + 1
    }
}

/// The samples of a run, each tagged with the channel whose turn it is when
/// the channels are taken round and round from the place `cursor`.
pub open spec fn tagged_for<T>(samples: Seq<T>, out_chs: Seq<u8>, cursor: int) -> Seq<(u8, T)> {
    Seq::new(
        samples.len(),
        |i: int| (out_chs[(cursor + i) % (out_chs.len() as int)], samples[i]),
    )
}

/// Taking one turn from the place reached after `k` turns gives the place
/// reached after `k + 1`.
pub proof fn lemma_turn(cursor: int, k: int, len: int)
    requires
        0 <= cursor < len,
        0 <= k,
    ensures
        0 <= (cursor + k) % len < len,
        turn((cursor + k) % len, len) == (cursor + k + 1) % len,
{
    let a = cursor + k;
    lemma_mod_bound(a, len);
    lemma_add_mod_noop(a, 1, len);
    if len == 1 {
        lemma_mod_self_0(1);
        lemma_mod_bound(a + 1, len);
    } else {
        lemma_small_mod(1, len as nat);
        let r = a % len;
        if r + 1 >= len {
            lemma_mod_self_0(len);
        } else {
            lemma_small_mod((r + 1) as nat, len as nat);
        }
    }
}

/// The sample that a poll of a consumer brought, without its tag.
pub open spec fn sample_of<T>(polled: Polled<(u8, T)>) -> Option<T> {
    match polled {
        Polled::Item((_, sample)) => Some(sample),
        _ => None,
    }
}

/// What a monitor worker sends on for one poll: the sample, tagged with the
/// channel under the cursor, or nothing.
pub open spec fn forwarded<T>(polled: Polled<(u8, T)>, out_chs: Seq<u8>, cursor: int) -> Seq<
    (u8, T),
> {
    match polled {
        Polled::Item((_, sample)) => seq![(out_chs[cursor], sample)],
        _ => Seq::empty(),
    }
}

/// One turn of a record worker's loop: takes the next captured sample, if
/// one is there, for the worker to write, and then looks for the signal to
/// stop. The result is that sample and whether the signal has come.
pub fn write_step<T: Copy>(consumer: &mut Consumer<T>, cancel: &mut Inlet<()>) -> (out: (
    Option<T>,
    bool,
))
    ensures
        final(consumer).polled().len() == old(consumer).polled().len() + 1,
        final(consumer).polled().drop_last() == old(consumer).polled(),
        final(consumer).depth() == old(consumer).depth(),
        final(consumer).independent() == old(consumer).independent(),
        final(consumer).mark() == old(consumer).mark(),
        final(cancel).polled().len() == old(cancel).polled().len() + 1,
        final(cancel).polled().drop_last() == old(cancel).polled(),
        out.0 == sample_of(final(consumer).polled().last()),
        out.1 == (final(cancel).polled().last() is Item),
{
    let polled = consumer.poll();
    let signal = cancel.poll();
    proof {
        assert(consumer.polled().drop_last() == old(consumer).polled());
        assert(cancel.polled().drop_last() == old(cancel).polled());
    }
    let sample = match polled {
        Polled::Item((_, sample)) => Some(sample),
        _ => None,
    };
    let stop = match signal {
        Polled::Item(_) => true,
        _ => false,
    };
    (sample, stop)
}

/// One turn of a monitor worker's loop: takes the next captured sample, if
/// one is there, sends it toward the mixer under the channel whose turn it
/// is, and then looks for the signal to stop. `cursor` is the place in
/// `out_chs` of that channel. The result is the place for the next turn and
/// whether the signal has come.
pub fn monitor_step<T: Copy>(
    consumer: &mut Consumer<T>,
    feed: &mut Outlet<(u8, T)>,
    cancel: &mut Inlet<()>,
    out_chs: &Vec<u8>,
    cursor: usize,
) -> (out: (usize, bool))
    requires
        cursor < out_chs.len(),
    ensures
        final(consumer).polled().len() == old(consumer).polled().len() + 1,
        final(consumer).polled().drop_last() == old(consumer).polled(),
        final(consumer).depth() == old(consumer).depth(),
        final(consumer).independent() == old(consumer).independent(),
        final(consumer).mark() == old(consumer).mark(),
        final(cancel).polled().len() == old(cancel).polled().len() + 1,
        final(cancel).polled().drop_last() == old(cancel).polled(),
        final(feed).sent() == old(feed).sent() + forwarded(
            final(consumer).polled().last(),
            out_chs@,
            cursor as int,
        ),
        out.0 == if final(consumer).polled().last() is Item {
            turn(cursor as int, out_chs@.len() as int)
        } else {
            cursor as int
        },
        out.0 < out_chs.len(),
        out.1 == (final(cancel).polled().last() is Item),
{
    let polled = consumer.poll();
    let mut next = cursor;
    match polled {
        Polled::Item((_, sample)) => {
            feed.send((out_chs[cursor], sample));
            next = if cursor + 1 >= out_chs.len() {
                0
            } else {
                cursor + 1
            };
        },
        _ => {},
    }
    let signal = cancel.poll();
    proof {
        assert(consumer.polled().drop_last() == old(consumer).polled());
        assert(cancel.polled().drop_last() == old(cancel).polled());
        assert(feed.sent() =~= old(feed).sent() + forwarded(polled, out_chs@, cursor as int));
    }
    let stop = match signal {
        Polled::Item(_) => true,
        _ => false,
    };
    (next, stop)
}

/// One run of a playback worker through its take: sends one silent sample
/// and then the samples of the take toward the mixer, each under the channel
/// whose turn it is, and then looks for the signal to stop. `cursor` is the
/// place in `out_chs` of the first channel. The result is the place for the
/// next run and whether the signal has come.
pub fn playback_pass<T: Copy>(
    feed: &mut Outlet<(u8, T)>,
    cancel: &mut Inlet<()>,
    silence: T,
    take: &Vec<T>,
    out_chs: &Vec<u8>,
    cursor: usize,
) -> (out: (usize, bool))
    requires
        cursor < out_chs.len(),
    ensures
        final(feed).sent() == old(feed).sent() + tagged_for(
            seq![silence] + take@,
            out_chs@,
            cursor as int,
        ),
        out.0 == (cursor + 1 + take@.len()) % (out_chs@.len() as int),
        final(cancel).polled().len() == old(cancel).polled().len() + 1,
        final(cancel).polled().drop_last() == old(cancel).polled(),
        out.1 == (final(cancel).polled().last() is Item),
{
    let ghost run = seq![silence] + take@;
    let ghost len = out_chs@.len() as int;
    proof {
        lemma_turn(cursor as int, 0, len);
        lemma_small_mod(cursor as nat, len as nat);
    }
    feed.send((out_chs[cursor], silence));
    let mut place: usize = if cursor + 1 >= out_chs.len() {
        0
    } else {
        cursor + 1
    };
    proof {
        assert(feed.sent() =~= old(feed).sent() + tagged_for(run.take(1), out_chs@, cursor as int));
    }
    let mut i: usize = 0;
    while i < take.len()
        invariant
            i <= take@.len(),
            cursor < out_chs.len(),
            len == out_chs@.len(),
            run == seq![silence] + take@,
            place == (cursor + 1 + i) % len,
            feed.sent() == old(feed).sent() + tagged_for(run.take(i + 1), out_chs@, cursor as int),
        decreases take@.len() - i,
    {
        proof {
            lemma_turn(cursor as int, 1 + i, len);
            assert(run[i + 1] == take@[i as int]);
        }
        feed.send((out_chs[place], take[i]));
        place = if place + 1 >= out_chs.len() {
            0
        } else {
            place + 1
        };
        i = i + 1;
        proof {
            assert(feed.sent() =~= old(feed).sent() + tagged_for(
                run.take(i + 1),
                out_chs@,
                cursor as int,
            ));
        }
    }
    let signal = cancel.poll();
    proof {
        assert(run.take(i + 1) == run);
        assert(cancel.polled().drop_last() == old(cancel).polled());
    }
    let stop = match signal {
        Polled::Item(_) => true,
        _ => false,
    };
    (place, stop)
}

} // verus!
