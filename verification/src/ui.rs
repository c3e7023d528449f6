//! What a front end keeps of the tracks it shows: for each track the state of
//! its two switches, and the form with which a track is added. Drawing is
//! not done here.

use vstd::prelude::*;
use vstd::string::{StrSliceExecFns, StringExecFns};
use crate::busses::new_bus;
use crate::router::{
    attached, channel_list, ids_where, new_track_view, output_signals_made, signals_sent,
    starts_toward, wanted_output, CaptureStart, OutputJob, Pick, RenderStart, Router, RouterView,
};
use crate::routes::routes_with;
use crate::tracks::{no_signals, Output, Signals, Track, TrackView};

verus! {

/// One track as the front end shows it.
pub struct TrackUi {
    /// The id of the track.
    pub id: u8,
    /// The name shown.
    pub name: String,
    /// The switch for monitoring.
    pub is_monitored: bool,
    /// The switch for recording.
    pub is_recorded: bool,
    /// The two switches as they were when last looked at: recording first,
    /// monitoring second.
    pub state: (bool, bool),
}

impl Default for TrackUi {
    fn default() -> (ui: Self)
        ensures
            ui.id == 0,
            ui.name@ == "TrackUi"@,
            !ui.is_monitored,
            !ui.is_recorded,
            ui.state == (false, false),
    {
        TrackUi {
            id: 0,
            name: String::from_str("TrackUi"),
            is_monitored: false,
            is_recorded: false,
            state: (false, false),
        }
    }
}

/// A track's arm flags after the front end's switches were applied: the
/// flag of a switch that was turned takes the switch's place.
pub open spec fn switched(track: TrackView, ui: TrackUi) -> TrackView {
    TrackView {
        rec_armed: if ui.state.0 != ui.is_recorded {
            ui.is_recorded
        } else {
            track.rec_armed
        },
        monitor_armed: if ui.state.1 != ui.is_monitored {
            ui.is_monitored
        } else {
            track.monitor_armed
        },
        ..track
    }
}

/// A router after the switches of an entry were carried over and, where the
/// monitoring switch was turned, every worker that sends toward an output
/// bus was stopped: the state in which the new monitor pass begins.
pub open spec fn before_restart(router: RouterView, ui: TrackUi) -> RouterView {
    RouterView {
        tracks: Seq::new(
            router.tracks.len(),
            |t: int|
                {
                    let armed = if t == ui.id {
                        switched(router.tracks[t], ui)
                    } else {
                        router.tracks[t]
                    };
                    if ui.state.1 != ui.is_monitored {
                        TrackView { output: Output::Idle, ..armed }
                    } else {
                        armed
                    }
                },
        ),
        ..router
    }
}

impl TrackUi {
    /// Makes the entry for a track, with the switches as the track is armed.
    pub fn new(id: u8, name: String, is_monitored: bool, is_recorded: bool) -> (ui: Self)
        ensures
            ui == (TrackUi { id, name, is_monitored, is_recorded, state: (is_recorded, is_monitored) }),
    {
        TrackUi { id, name, is_recorded, is_monitored, state: (is_recorded, is_monitored) }
    }

    /// Tells which switches were turned since they were last looked at,
    /// recording first and monitoring second, and takes note of how they
    /// stand now.
    pub fn get_changed(&mut self) -> (changed: (bool, bool))
        ensures
            changed.0 == (old(self).state.0 != old(self).is_recorded),
            changed.1 == (old(self).state.1 != old(self).is_monitored),
            *final(self) == (TrackUi {
                state: (old(self).is_recorded, old(self).is_monitored),
                ..*old(self)
            }),
    {
        let mut res = (false, false);
        if self.state.0 != self.is_recorded {
            self.state.0 = self.is_recorded;
            res.0 = true;
        }
        if self.state.1 != self.is_monitored {
            self.state.1 = self.is_monitored;
            res.1 = true;
        }
        res
    }

    /// Carries the switches that were turned over to the router. A turned
    /// recording switch arms or disarms the track. A turned monitoring
    /// switch arms or disarms it too, and then every worker that sends
    /// toward an output bus is stopped and a new monitor pass begins; the
    /// result holds what that pass starts.
    pub fn apply_changes<T: Copy>(&mut self, app_router: &mut Router<T>) -> (jobs: Vec<OutputJob<T>>)
        requires
            old(app_router).wf(),
            old(self).id < old(app_router)@.tracks.len(),
        ensures
            final(app_router).wf(),
            *final(self) == (TrackUi {
                state: (old(self).is_recorded, old(self).is_monitored),
                ..*old(self)
            }),
            final(app_router)@.tracks.len() == old(app_router)@.tracks.len(),
            forall|t: int|
                0 <= t < old(app_router)@.tracks.len() ==> #[trigger] final(app_router)@.tracks[t] == {
                    let begun = before_restart(old(app_router)@, *old(self)).tracks[t];
                    if old(self).state.1 != old(self).is_monitored {
                        TrackView { output: wanted_output(begun), ..begun }
                    } else {
                        begun
                    }
                },
            final(app_router)@.inputs == old(app_router)@.inputs,
            final(app_router)@.outputs == old(app_router)@.outputs,
            final(app_router)@.routes == old(app_router)@.routes,
            final(app_router).config() == old(app_router).config(),
            final(app_router).mixers() == old(app_router).mixers(),
            old(self).state.1 == old(self).is_monitored ==> jobs@.len() == 0,
            old(self).state.1 == old(self).is_monitored ==> final(app_router).mixer_feeds()
                == old(app_router).mixer_feeds(),
            old(self).state.1 == old(self).is_monitored ==> final(app_router).signals() == old(
                app_router,
            ).signals(),
            old(self).state.1 != old(self).is_monitored ==> exists|stopped: Seq<Signals>|
                {
                    &&& #[trigger] signals_sent(
                        old(app_router).signals(),
                        stopped,
                        old(app_router)@.tracks.len() as int,
                        true,
                    )
                    &&& output_signals_made(
                        before_restart(old(app_router)@, *old(self)).tracks,
                        stopped,
                        final(app_router).signals(),
                        old(app_router)@.tracks.len() as int,
                    )
                },
            old(self).state.1 != old(self).is_monitored ==> {
                let begun = before_restart(old(app_router)@, *old(self));
                &&& jobs@.len() == ids_where(begun.tracks, Pick::ToSend).len()
                &&& forall|j: int|
                    0 <= j < jobs@.len() ==> {
                        let id = ids_where(begun.tracks, Pick::ToSend)[j];
                        &&& (#[trigger] jobs@[j]).track_id == id
                        &&& id < begun.tracks.len()
                        &&& Router::<T>::output_job(begun, jobs@[j], id)
                    }
                &&& final(app_router).mixer_feeds().len() == old(app_router).mixer_feeds().len()
                &&& forall|b: int|
                    0 <= b < old(app_router).mixer_feeds().len() ==> #[trigger] final(app_router).handed(
                        *old(app_router),
                        b,
                        starts_toward(begun, begun.tracks.len() as int, b),
                    )
            },
    {
        let (rec_changed, monitor_changed) = self.get_changed();
        if rec_changed {
            app_router.set_recording(self.id, self.is_recorded);
        }
        if monitor_changed {
            app_router.set_monitor(self.id, self.is_monitored);
            app_router.stop_monitoring();
            let ghost stopped = *app_router;
            proof {
                assert(stopped@.tracks =~= before_restart(old(app_router)@, *old(self)).tracks);
                assert(stopped@ == before_restart(old(app_router)@, *old(self)));
            }
            let jobs = app_router.monitor();
            proof {
                assert(signals_sent(
                    old(app_router).signals(),
                    stopped.signals(),
                    old(app_router)@.tracks.len() as int,
                    true,
                ));
                assert forall|b: int| 0 <= b < old(app_router).mixer_feeds().len() implies #[trigger] app_router.handed(
                    *old(app_router),
                    b,
                    starts_toward(stopped@, stopped@.tracks.len() as int, b),
                ) by {
                    assert(app_router.handed(
                        stopped,
                        b,
                        starts_toward(stopped@, stopped@.tracks.len() as int, b),
                    ));
                }
            }
            jobs
        } else {
            proof {
                assert(app_router@.tracks =~= before_restart(
                    old(app_router)@,
                    *old(self),
                ).tracks);
            }
            Vec::new()
        }
    }
}

/// Whether an entry is the one that the front end makes for a track.
pub open spec fn is_entry_of(ui: TrackUi, track: TrackView) -> bool {
    &&& ui.id == track.id
    &&& ui.name@ == track.name
    &&& ui.is_monitored == track.monitor_armed
    &&& ui.is_recorded == track.rec_armed
    &&& ui.state == (track.rec_armed, track.monitor_armed)
}

/// Whether a list has an entry for the track with the given id.
pub open spec fn lists(list: Seq<TrackUi>, id: u8) -> bool {
    exists|i: int| 0 <= i < list.len() && (#[trigger] list[i]).id == id
}

/// The tracks that the front end shows, and the form to add one.
pub struct TrackListUi {
    /// The form to add a track.
    pub add_track_window: AddTrack,
    /// The entries, in the order the tracks were first seen.
    pub track_list: Vec<TrackUi>,
}

impl TrackListUi {
    /// Makes a list without entries.
    pub fn new() -> (list: Self)
        ensures
            list.track_list@ == Seq::<TrackUi>::empty(),
            list.add_track_window.is_blank(),
    {
        TrackListUi { add_track_window: AddTrack::default(), track_list: Vec::new() }
    }

    /// Tells whether the list has an entry for the track with the given id.
    pub fn has_entry(&self, id: u8) -> (found: bool)
        ensures
            found == lists(self.track_list@, id),
    {
        let mut i: usize = 0;
        while i < self.track_list.len()
            invariant
                i <= self.track_list@.len(),
                forall|k: int| 0 <= k < i ==> (#[trigger] self.track_list@[k]).id != id,
            decreases self.track_list@.len() - i,
        {
            if self.track_list[i].id == id {
                return true;
            }
            i = i + 1;
        }
        false
    }

    /// Makes an entry for each track that has none yet, in the order of the
    /// tracks. The entries that are there stay as they are.
    pub fn update_track_lst(&mut self, tracks: &Vec<Track>)
        ensures
            final(self).add_track_window == old(self).add_track_window,
            old(self).track_list@.is_prefix_of(final(self).track_list@),
            forall|t: int|
                0 <= t < tracks@.len() ==> lists(final(self).track_list@, (#[trigger] tracks@[t])@.id),
            forall|i: int|
                old(self).track_list@.len() <= i < final(self).track_list@.len() ==> {
                    &&& !lists(old(self).track_list@, (#[trigger] final(self).track_list@[i]).id)
                    &&& exists|t: int|
                        0 <= t < tracks@.len() && is_entry_of(
                            final(self).track_list@[i],
                            (#[trigger] tracks@[t])@,
                        )
                },
            forall|i: int, j: int|
                old(self).track_list@.len() <= i < j < final(self).track_list@.len() ==> (
                #[trigger] final(self).track_list@[i]).id != (
                #[trigger] final(self).track_list@[j]).id,
    {
        let mut t: usize = 0;
        let ghost before = self.track_list@;
        while t < tracks.len()
            invariant
                t <= tracks@.len(),
                before == old(self).track_list@,
                self.add_track_window == old(self).add_track_window,
                before.is_prefix_of(self.track_list@),
                forall|k: int| 0 <= k < t ==> lists(self.track_list@, (#[trigger] tracks@[k])@.id),
                forall|i: int|
                    before.len() <= i < self.track_list@.len() ==> {
                        &&& !lists(before, (#[trigger] self.track_list@[i]).id)
                        &&& exists|k: int|
                            0 <= k < tracks@.len() && is_entry_of(
                                self.track_list@[i],
                                (#[trigger] tracks@[k])@,
                            )
                    },
                forall|i: int, j: int|
                    before.len() <= i < j < self.track_list@.len() ==> (
                    #[trigger] self.track_list@[i]).id != (#[trigger] self.track_list@[j]).id,
            decreases tracks@.len() - t,
        {
            let (id, name, is_rec, is_monitored) = tracks[t].as_tup();
            let ghost mid = self.track_list@;
            if !self.has_entry(id) {
                let entry = TrackUi::new(id, name, is_monitored, is_rec);
                self.track_list.push(entry);
                proof {
                    let last = self.track_list@.len() - 1;
                    assert(self.track_list@[last].id == id);
                    assert(is_entry_of(self.track_list@[last], tracks@[t as int]@));
                    assert(!lists(before, id)) by {
                        if lists(before, id) {
                            let i = choose|i: int| 0 <= i < before.len() && (#[trigger] before[i]).id == id;
                            assert(mid[i] == before[i]);
                        }
                    }
                    assert forall|i: int| before.len() <= i < self.track_list@.len() implies {
                        &&& !lists(before, (#[trigger] self.track_list@[i]).id)
                        &&& exists|k: int|
                            0 <= k < tracks@.len() && is_entry_of(
                                self.track_list@[i],
                                (#[trigger] tracks@[k])@,
                            )
                    } by {
                        if i < last {
                            assert(self.track_list@[i] == mid[i]);
                        }
                    }
                    assert forall|i: int, j: int|
                        before.len() <= i < j < self.track_list@.len() implies (
                    #[trigger] self.track_list@[i]).id != (#[trigger] self.track_list@[j]).id by {
                        assert(self.track_list@[i] == mid[i]);
                        if j < last {
                            assert(self.track_list@[j] == mid[j]);
                        }
                    }
                }
            }
            proof {
                assert forall|k: int| 0 <= k < t + 1 implies lists(
                    self.track_list@,
                    (#[trigger] tracks@[k])@.id,
                ) by {
                    let wanted = tracks@[k]@.id;
                    if k < t {
                        let i = choose|i: int| 0 <= i < mid.len() && (#[trigger] mid[i]).id == wanted;
                        assert(self.track_list@[i].id == wanted);
                    } else if lists(mid, wanted) {
                        let i = choose|i: int| 0 <= i < mid.len() && (#[trigger] mid[i]).id == wanted;
                        assert(self.track_list@[i].id == wanted);
                    }
                }
            }
            t = t + 1;
        }
    }
}

impl Default for TrackListUi {
    /// A list of twenty placeholder entries.
    fn default() -> (list: Self)
        ensures
            list.track_list@.len() == 20,
            forall|i: int|
                0 <= i < 20 ==> (#[trigger] list.track_list@[i]).id == 0
                    && !list.track_list@[i].is_monitored && !list.track_list@[i].is_recorded,
            list.add_track_window.is_blank(),
    {
        let mut t_list: Vec<TrackUi> = Vec::new();
        let mut i: usize = 0;
        while i < 20
            invariant
                i <= 20,
                t_list@.len() == i,
                forall|k: int|
                    0 <= k < i ==> (#[trigger] t_list@[k]).id == 0 && !t_list@[k].is_monitored
                        && !t_list@[k].is_recorded,
            decreases 20 - i,
        {
            t_list.push(TrackUi::default());
            i = i + 1;
        }
        TrackListUi { add_track_window: AddTrack::default(), track_list: t_list }
    }
}

/// The form with which a track is added: a name, and a switch for each
/// channel of the capture stream and of the render stream.
pub struct AddTrack {
    /// The name typed in.
    pub track_name: String,
    /// The channels of the capture stream, each with its switch.
    pub selected_in_channels: Vec<(bool, u8)>,
    /// The channels of the render stream, each with its switch.
    pub selected_out_channels: Vec<(bool, u8)>,
    /// Whether the form is shown.
    pub open: bool,
}

/// The channels whose switch is on, in the order of the list.
pub open spec fn switched_on(switches: Seq<(bool, u8)>) -> Seq<u8>
    decreases switches.len(),
{
    if switches.len() == 0 {
        Seq::empty()
    } else if switches.last().0 {
        switched_on(switches.drop_last()).push(switches.last().1)
    } else {
        switched_on(switches.drop_last())
    }
}

/// The channels of a stream, each with its switch off.
pub open spec fn all_off(channels: Seq<u8>) -> Seq<(bool, u8)> {
    Seq::new(channels.len(), |i: int| (false, channels[i]))
}

/// Whether a selection of channels can make a bus: one channel or two.
pub open spec fn makes_a_bus(channels: Seq<u8>) -> bool {
    channels.len() == 1 || channels.len() == 2
}

impl Default for AddTrack {
    fn default() -> (form: Self)
        ensures
            form.is_blank(),
    {
        AddTrack {
            track_name: String::new(),
            selected_in_channels: Vec::new(),
            selected_out_channels: Vec::new(),
            open: false,
        }
    }
}

fn collect_on(switches: &Vec<(bool, u8)>) -> (channels: Vec<u8>)
    ensures
        channels@ == switched_on(switches@),
{
    let mut channels: Vec<u8> = Vec::new();
    let mut i: usize = 0;
    assert(switches@.take(0) =~= Seq::<(bool, u8)>::empty());
    while i < switches.len()
        invariant
            i <= switches@.len(),
            channels@ == switched_on(switches@.take(i as int)),
        decreases switches@.len() - i,
    {
        proof {
            assert(switches@.take(i + 1).drop_last() == switches@.take(i as int));
        }
        if switches[i].0 {
            channels.push(switches[i].1);
        }
        i = i + 1;
    }
    assert(switches@.take(i as int) == switches@);
    channels
}

fn switches_off(channels: &Vec<u8>) -> (switches: Vec<(bool, u8)>)
    ensures
        switches@ == all_off(channels@),
{
    let mut switches: Vec<(bool, u8)> = Vec::new();
    let mut i: usize = 0;
    while i < channels.len()
        invariant
            i <= channels@.len(),
            switches@ == all_off(channels@.take(i as int)),
        decreases channels@.len() - i,
    {
        switches.push((false, channels[i]));
        i = i + 1;
        assert(switches@ =~= all_off(channels@.take(i as int)));
    }
    assert(channels@.take(i as int) == channels@);
    switches
}

impl AddTrack {
    /// Whether the form has no name, no channels, and is not shown.
    pub open spec fn is_blank(&self) -> bool {
        &&& self.track_name@ == Seq::<char>::empty()
        &&& self.selected_in_channels@ == Seq::<(bool, u8)>::empty()
        &&& self.selected_out_channels@ == Seq::<(bool, u8)>::empty()
        &&& !self.open
    }

    /// Empties the form: no name, no channels. Whether it is shown stays.
    pub fn reset_window(&mut self)
        ensures
            final(self).track_name@ == Seq::<char>::empty(),
            final(self).selected_in_channels@ == Seq::<(bool, u8)>::empty(),
            final(self).selected_out_channels@ == Seq::<(bool, u8)>::empty(),
            final(self).open == old(self).open,
    {
        self.track_name = String::new();
        self.selected_in_channels = Vec::new();
        self.selected_out_channels = Vec::new();
    }

    /// Lists the channels of the router's two streams, every switch off.
    pub fn update_selection_lst<T: Copy>(&mut self, app_router: &Router<T>)
        requires
            app_router.wf(),
        ensures
            final(self).selected_in_channels@ == all_off(
                channel_list(app_router.config().in_config.channels as u8),
            ),
            final(self).selected_out_channels@ == all_off(
                channel_list(app_router.config().out_config.channels as u8),
            ),
            final(self).track_name == old(self).track_name,
            final(self).open == old(self).open,
    {
        let (input_chs, output_chs) = app_router.get_io_channels();
        self.selected_in_channels = switches_off(&input_chs);
        self.selected_out_channels = switches_off(&output_chs);
    }

    /// The channels that are switched on: those of the capture stream, then
    /// those of the render stream.
    pub fn selected(&self) -> (channels: (Vec<u8>, Vec<u8>))
        ensures
            channels.0@ == switched_on(self.selected_in_channels@),
            channels.1@ == switched_on(self.selected_out_channels@),
    {
        (collect_on(&self.selected_in_channels), collect_on(&self.selected_out_channels))
    }

    /// Whether the form can be sent: it has a name, and on each side one
    /// channel or two are switched on.
    pub fn can_add(&self) -> (enabled: bool)
        ensures
            enabled == (self.track_name@.len() > 0 && makes_a_bus(
                switched_on(self.selected_in_channels@),
            ) && makes_a_bus(switched_on(self.selected_out_channels@))),
    {
        let (in_chs, out_chs) = self.selected();
        let named = self.track_name.as_str().unicode_len() > 0;
        named && (in_chs.len() == 1 || in_chs.len() == 2) && (out_chs.len() == 1 || out_chs.len()
            == 2)
    }

    /// Whether the router has room for one more input bus, output bus and
    /// track.
    pub open spec fn has_room(router: RouterView) -> bool {
        router.inputs.len() <= 255 && router.outputs.len() <= 255 && router.tracks.len() <= 255
    }

    /// Sends the form: makes an input bus and an output bus over the
    /// channels that are switched on and a track of the given name between
    /// them, then empties and hides the form. Nothing is done with a form
    /// that cannot be sent, nor where the router has no room. The result
    /// holds what the two buses are started with, and the track's id.
    pub fn submit<T: Copy>(&mut self, app_router: &mut Router<T>) -> (made: Option<
        (CaptureStart<T>, RenderStart<T>, u8),
    >)
        requires
            old(app_router).wf(),
        ensures
            final(app_router).wf(),
            made is Some <==> old(self).track_name@.len() > 0 && makes_a_bus(
                switched_on(old(self).selected_in_channels@),
            ) && makes_a_bus(switched_on(old(self).selected_out_channels@)) && Self::has_room(
                old(app_router)@,
            ),
            made is None ==> *final(self) == *old(self) && final(app_router)@ == old(app_router)@
                && final(app_router).signals() == old(app_router).signals(),
            made is Some ==> final(app_router).signals() == old(app_router).signals().push(
                no_signals(),
            ),
            made is Some ==> final(self).is_blank(),
            made matches Some(m) ==> {
                let before = old(app_router)@;
                let in_chs = switched_on(old(self).selected_in_channels@);
                let out_chs = switched_on(old(self).selected_out_channels@);
                &&& m.0.bus_id == before.inputs.len()
                &&& m.1.bus_id == before.outputs.len()
                &&& m.2 == before.tracks.len()
                &&& m.0.in_chs@ == in_chs
                &&& m.1.out_chs@ == out_chs
                &&& final(app_router)@ == (RouterView {
                    tracks: before.tracks.push(
                        new_track_view(m.2, old(self).track_name@, old(app_router).config()),
                    ),
                    inputs: before.inputs.push(
                        attached(
                            new_bus(m.0.bus_id, in_chs, old(app_router).config().in_config),
                            m.2,
                        ),
                    ),
                    outputs: before.outputs.push(
                        attached(
                            new_bus(m.1.bus_id, out_chs, old(app_router).config().out_config),
                            m.2,
                        ),
                    ),
                    routes: routes_with(before.routes, m.0.bus_id, m.1.bus_id, m.2),
                })
            },
    {
        let (inputs, outputs, tracks) = app_router.counts();
        if !self.can_add() || inputs > 255 || outputs > 255 || tracks > 255 {
            return None;
        }
        let (in_chs, out_chs) = self.selected();
        let capture = app_router.new_input_bus(in_chs);
        let render = app_router.new_output_bus(out_chs);
        let track_id = app_router.new_track(
            self.track_name.clone(),
            capture.bus_id,
            render.bus_id,
        );
        proof {
            let v = app_router@;
            let before = old(app_router)@;
            assert(v.inputs =~= before.inputs.push(
                attached(
                    new_bus(
                        capture.bus_id,
                        switched_on(old(self).selected_in_channels@),
                        old(app_router).config().in_config,
                    ),
                    track_id,
                ),
            ));
            assert(v.outputs =~= before.outputs.push(
                attached(
                    new_bus(
                        render.bus_id,
                        switched_on(old(self).selected_out_channels@),
                        old(app_router).config().out_config,
                    ),
                    track_id,
                ),
            ));
        }
        self.open = false;
        self.reset_window();
        Some((capture, render, track_id))
    }
}

} // verus!
