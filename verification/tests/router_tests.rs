use cpal_recorder::busses::{broadcast_clb, playback_clb, BusConfig};
use cpal_recorder::config::{SampleFormat, StreamConfig, WavFormat};
use cpal_recorder::fanout::{Mark, Polled};
use cpal_recorder::router::Router;
use cpal_recorder::routes::RouteMap;
use cpal_recorder::tracks::{monitor_step, write_step, Output};

fn stereo() -> StreamConfig {
    StreamConfig { channels: 2, sample_rate: 44100 }
}

fn router() -> Router<f32> {
    Router::new(stereo(), stereo(), "in".to_string(), "out".to_string(), SampleFormat::F32)
}

fn mean_of_numbers(samples: &[f32]) -> Option<f32> {
    let numbers: Vec<f32> = samples.iter().copied().filter(|s| !s.is_nan()).collect();
    if numbers.is_empty() {
        None
    } else {
        Some(numbers.iter().sum::<f32>() / numbers.len() as f32)
    }
}

#[test]
fn route_map_starts_empty() {
    let map = RouteMap::new();
    assert_eq!(map.get_track_busses(&0), None);
    assert_eq!(map.get_route_track_ids(&0, &0), None);
}

#[test]
fn route_map_is_asked_both_ways() {
    let mut map = RouteMap::new();
    map.add_route(&0, &1);
    map.add_route(&2, &1);
    assert_eq!(map.get_route_track_ids(&0, &1), Some(vec![]));
    assert_eq!(map.get_route_track_ids(&1, &0), None);
    map.add_track_to_route(&0, &1, &5);
    map.add_track_to_route(&2, &1, &6);
    map.add_track_to_route(&0, &1, &7);
    assert_eq!(map.get_route_track_ids(&0, &1), Some(vec![5, 7]));
    assert_eq!(map.get_route_track_ids(&2, &1), Some(vec![6]));
    assert_eq!(map.get_track_busses(&5), Some((0, 1)));
    assert_eq!(map.get_track_busses(&6), Some((2, 1)));
    assert_eq!(map.get_track_busses(&7), Some((0, 1)));
    assert_eq!(map.get_track_busses(&8), None);
}

#[test]
fn route_map_takes_a_track_once_per_route() {
    let mut map = RouteMap::new();
    map.add_route(&0, &0);
    map.add_track_to_route(&0, &0, &1);
    map.add_track_to_route(&0, &0, &1);
    assert_eq!(map.get_route_track_ids(&0, &0), Some(vec![1]));
}

#[test]
fn route_map_ignores_a_track_for_a_missing_route() {
    let mut map = RouteMap::new();
    map.add_route(&0, &0);
    map.add_track_to_route(&1, &0, &1);
    assert_eq!(map.get_route_track_ids(&0, &0), Some(vec![]));
    assert_eq!(map.get_track_busses(&1), None);
}

#[test]
fn route_map_puts_a_track_on_the_first_route_between_the_buses() {
    let mut map = RouteMap::new();
    map.add_route(&0, &0);
    map.add_route(&1, &0);
    map.add_route(&0, &0);
    map.add_track_to_route(&0, &0, &3);
    map.add_track_to_route(&0, &0, &4);
    assert_eq!(map.get_route_track_ids(&0, &0), Some(vec![3, 4]));
    assert_eq!(map.get_route_track_ids(&1, &0), Some(vec![]));
    assert_eq!(map.get_track_busses(&3), Some((0, 0)));
}

#[test]
fn route_map_keeps_a_track_on_one_route() {
    let mut map = RouteMap::new();
    map.add_route(&0, &1);
    map.add_route(&2, &3);
    map.add_track_to_route(&0, &1, &5);
    // offered to another route, the track stays where it is
    map.add_track_to_route(&2, &3, &5);
    assert_eq!(map.get_route_track_ids(&0, &1), Some(vec![5]));
    assert_eq!(map.get_route_track_ids(&2, &3), Some(vec![]));
    assert_eq!(map.get_track_busses(&5), Some((0, 1)));
    map.add_track_to_route(&2, &3, &6);
    map.add_track_to_route(&0, &1, &6);
    assert_eq!(map.get_route_track_ids(&0, &1), Some(vec![5]));
    assert_eq!(map.get_route_track_ids(&2, &3), Some(vec![6]));
    assert_eq!(map.get_track_busses(&6), Some((2, 3)));
}

#[test]
fn new_router_has_nothing() {
    let r = router();
    assert!(r.get_tracks().is_empty());
    assert_eq!(r.get_config().in_config, stereo());
    assert_eq!(r.get_config().in_device, "in");
    assert_eq!(r.get_config().out_device, "out");
    assert_eq!(r.get_config().sample_format, SampleFormat::F32);
    assert!(r.get_track_io_busses(0).is_none());
    assert!(r.get_mix_thread_by_out_bus(0).is_none());
}

#[test]
fn io_channels_count_from_one() {
    let r: Router<f32> = Router::new(
        StreamConfig { channels: 4, sample_rate: 48000 },
        StreamConfig { channels: 2, sample_rate: 48000 },
        "a".to_string(),
        "b".to_string(),
        SampleFormat::I16,
    );
    assert_eq!(r.get_io_channels(), (vec![1, 2, 3, 4], vec![1, 2]));
}

#[test]
fn busses_are_numbered_in_the_order_made() {
    let mut r = router();
    let a = r.new_input_bus(vec![1]);
    let b = r.new_input_bus(vec![1, 2]);
    assert_eq!(a.bus_id, 0);
    assert_eq!(a.config, BusConfig::Mono);
    assert_eq!(a.in_chs, vec![1]);
    assert_eq!(a.nof_chs, 2);
    assert_eq!(a.txs.len(), 2);
    assert_eq!(b.bus_id, 1);
    assert_eq!(b.config, BusConfig::Stereo);
    let x = r.new_output_bus(vec![1, 2]);
    let y = r.new_output_bus(vec![2]);
    assert_eq!(x.bus_id, 0);
    assert_eq!(x.out_chs, vec![1, 2]);
    assert_eq!(x.mixer.nof_sources(), 0);
    assert_eq!(x.mixer.channel(), 1);
    assert_eq!(y.bus_id, 1);
    assert_eq!(y.mixer.channel(), 2);
    assert!(r.get_mix_thread_by_out_bus(0).is_some());
    assert!(r.get_mix_thread_by_out_bus(1).is_some());
    assert!(r.get_mix_thread_by_out_bus(2).is_none());
}

#[test]
fn tracks_are_attached_to_their_two_busses() {
    let mut r = router();
    let a = r.new_input_bus(vec![1]);
    let b = r.new_input_bus(vec![2]);
    let x = r.new_output_bus(vec![1, 2]);
    let t0 = r.new_track("one".to_string(), b.bus_id, x.bus_id);
    let t1 = r.new_track("two".to_string(), a.bus_id, x.bus_id);
    let t2 = r.new_track("three".to_string(), b.bus_id, x.bus_id);
    assert_eq!((t0, t1, t2), (0, 1, 2));
    assert_eq!(r.get_tracks().len(), 3);
    assert_eq!(r.get_tracks()[1].as_tup(), (1, "two".to_string(), false, false));
    let (input, output) = r.get_track_io_busses(t0).unwrap();
    assert_eq!(input.2.get_id(), 1);
    assert_eq!(input.2.get_track_ids(), vec![0, 2]);
    assert_eq!(output.1.get_id(), 0);
    assert_eq!(output.1.get_track_ids(), vec![0, 1, 2]);
    let (input, _) = r.get_track_io_busses(t1).unwrap();
    assert_eq!(input.2.get_id(), 0);
    assert!(r.get_track_io_busses(3).is_none());
}

#[test]
fn arming_flips_flags_only() {
    let mut r = router();
    let a = r.new_input_bus(vec![1, 2]);
    let x = r.new_output_bus(vec![1, 2]);
    let t = r.new_track("t".to_string(), a.bus_id, x.bus_id);
    r.set_recording(t, true);
    assert!(r.get_tracks()[0].is_rec_armed());
    assert!(!r.get_tracks()[0].is_recording());
    r.set_monitor(t, true);
    assert!(r.get_tracks()[0].is_monitored());
    assert_eq!(r.get_tracks()[0].get_output(), Output::Idle);
    r.set_recording(t, false);
    r.set_monitor(t, false);
    assert_eq!(r.get_tracks()[0].as_tup(), (0, "t".to_string(), false, false));
}

#[test]
fn record_pass_takes_armed_tracks_only() {
    let mut r = router();
    let a = r.new_input_bus(vec![1, 2]);
    let x = r.new_output_bus(vec![1, 2]);
    let t0 = r.new_track("a".to_string(), a.bus_id, x.bus_id);
    let t1 = r.new_track("b".to_string(), a.bus_id, x.bus_id);
    let t2 = r.new_track("c".to_string(), a.bus_id, x.bus_id);
    r.set_recording(t0, true);
    r.set_recording(t2, true);
    let jobs = r.record();
    assert_eq!(jobs.len(), 2);
    assert_eq!(jobs[0].track_id, t0);
    assert_eq!(jobs[0].file, "a_1.wav");
    assert_eq!(jobs[1].track_id, t2);
    assert_eq!(jobs[1].file, "c_1.wav");
    assert_eq!(jobs[0].spec.sample_format, WavFormat::Float);
    assert!(r.get_tracks()[0].is_recording());
    assert!(!r.get_tracks()[1].is_recording());
    assert!(r.get_tracks()[2].is_recording());
    // a second pass finds them at it
    assert!(r.record().is_empty());
    r.set_recording(t1, true);
    let more = r.record();
    assert_eq!(more.len(), 1);
    assert_eq!(more[0].file, "b_1.wav");
    assert_eq!(r.stop_recording(), vec![0, 1, 2]);
    assert_eq!(r.stop_recording(), Vec::<u8>::new());
    let again = r.record();
    assert_eq!(again.len(), 3);
    assert_eq!(again[0].file, "a_2.wav");
}

#[test]
fn every_recording_track_hears_every_sample() {
    let mut r = router();
    let mut a = r.new_input_bus(vec![1, 2]);
    let x = r.new_output_bus(vec![1, 2]);
    let t0 = r.new_track("a".to_string(), a.bus_id, x.bus_id);
    let t1 = r.new_track("b".to_string(), a.bus_id, x.bus_id);
    r.set_recording(t0, true);
    r.set_recording(t1, true);
    let mut jobs = r.record();
    let data: Vec<f32> = vec![0.1, 0.2, 0.3, 0.4];
    let next = broadcast_clb(&data, &mut a.txs, &a.in_chs, &a.nof_chs, &a.config, 1);
    assert_eq!(next, 1);
    for job in jobs.iter_mut() {
        for expected in data.iter() {
            let (sample, stop) = write_step(&mut job.consumer, &mut job.cancel);
            assert_eq!(sample, Some(*expected));
            assert!(!stop);
        }
        assert_eq!(write_step(&mut job.consumer, &mut job.cancel), (None, false));
    }
    r.stop_recording();
    for job in jobs.iter_mut() {
        assert_eq!(write_step(&mut job.consumer, &mut job.cancel), (None, true));
    }
}

#[test]
fn recorded_take_holds_what_was_captured() {
    let mut r = router();
    let mut a = r.new_input_bus(vec![1, 2]);
    let x = r.new_output_bus(vec![1, 2]);
    let t = r.new_track("take".to_string(), a.bus_id, x.bus_id);
    r.set_recording(t, true);
    let mut jobs = r.record();
    assert_eq!(jobs.len(), 1);
    let mut job = jobs.pop().unwrap();
    assert_eq!(job.file, "take_1.wav");
    // 1000 stereo frames
    let data: Vec<f32> = (0..2000).map(|i| i as f32 / 2000.0).collect();
    let mut cursor = 1;
    for chunk in data.chunks(300) {
        cursor = broadcast_clb(chunk, &mut a.txs, &a.in_chs, &a.nof_chs, &a.config, cursor);
    }
    assert_eq!(cursor, 1);
    let spec = hound::WavSpec {
        channels: job.spec.channels,
        sample_rate: job.spec.sample_rate,
        bits_per_sample: job.spec.bits_per_sample,
        sample_format: match job.spec.sample_format {
            WavFormat::Float => hound::SampleFormat::Float,
            WavFormat::Int => hound::SampleFormat::Int,
        },
    };
    let mut file: Vec<u8> = Vec::new();
    {
        let mut writer = hound::WavWriter::new(std::io::Cursor::new(&mut file), spec).unwrap();
        let mut stopped = false;
        let mut turns = 0;
        while !stopped {
            if turns == 2000 {
                assert_eq!(r.stop_recording(), vec![t]);
            }
            let (sample, stop) = write_step(&mut job.consumer, &mut job.cancel);
            if let Some(s) = sample {
                writer.write_sample(s).unwrap();
            }
            stopped = stop;
            turns += 1;
        }
        assert_eq!(turns, 2001);
        writer.finalize().unwrap();
    }
    let mut reader = hound::WavReader::new(std::io::Cursor::new(&file)).unwrap();
    assert_eq!(reader.spec().channels, 2);
    assert_eq!(reader.spec().sample_rate, 44100);
    assert_eq!(reader.spec().bits_per_sample, 32);
    assert_eq!(reader.spec().sample_format, hound::SampleFormat::Float);
    assert_eq!(reader.duration(), 1000);
    let written: Vec<f32> = reader.samples::<f32>().map(|s| s.unwrap()).collect();
    assert_eq!(written, data);
    assert!(!r.get_tracks()[0].is_recording());
    assert_eq!(r.get_tracks()[0].get_files(), vec!["take_1.wav".to_string()]);
}

#[test]
fn monitor_pass_takes_armed_tracks_and_plays_back_the_others_takes() {
    let mut r = router();
    let a = r.new_input_bus(vec![1, 2]);
    let x = r.new_output_bus(vec![1, 2]);
    let armed = r.new_track("armed".to_string(), a.bus_id, x.bus_id);
    let taken = r.new_track("taken".to_string(), a.bus_id, x.bus_id);
    let empty = r.new_track("empty".to_string(), a.bus_id, x.bus_id);
    let rec = r.new_track("rec".to_string(), a.bus_id, x.bus_id);
    // "taken" and "rec" each get a take
    r.set_recording(taken, true);
    r.set_recording(rec, true);
    assert_eq!(r.record().len(), 2);
    r.stop_recording();
    r.set_recording(taken, false);
    r.set_monitor(armed, true);
    let jobs = r.monitor();
    assert_eq!(jobs.len(), 2);
    assert_eq!(jobs[0].track_id, armed);
    assert!(jobs[0].file.is_none());
    assert!(jobs[0].consumer.is_some());
    assert_eq!(jobs[0].out_chs, vec![1, 2]);
    assert_eq!(jobs[1].track_id, taken);
    assert_eq!(jobs[1].file, Some("taken_1.wav".to_string()));
    assert!(jobs[1].consumer.is_none());
    assert_eq!(r.get_tracks()[armed as usize].get_output(), Output::Monitoring);
    assert_eq!(r.get_tracks()[taken as usize].get_output(), Output::PlayingBack);
    assert_eq!(r.get_tracks()[empty as usize].get_output(), Output::Idle);
    assert_eq!(r.get_tracks()[rec as usize].get_output(), Output::Idle);
    // a second pass finds them at it
    assert!(r.monitor().is_empty());
    assert_eq!(r.stop_monitoring(), vec![armed, taken]);
    assert_eq!(r.stop_monitoring(), Vec::<u8>::new());
    assert_eq!(r.get_tracks()[armed as usize].get_output(), Output::Idle);
}

#[test]
fn start_monitor_wires_one_track_to_the_mixer() {
    let mut r = router();
    let mut a = r.new_input_bus(vec![1, 2]);
    let mut x = r.new_output_bus(vec![1, 2]);
    let t = r.new_track("t".to_string(), a.bus_id, x.bus_id);
    // stale audio from before the pass
    let stale: Vec<f32> = vec![9.0; 64];
    broadcast_clb(&stale, &mut a.txs, &a.in_chs, &a.nof_chs, &a.config, 1);
    let mut job = r.start_monitor(t).unwrap();
    assert!(r.start_monitor(t).is_none());
    assert_eq!(x.mixer.adopt(), 1);
    let mut consumer = job.consumer.take().unwrap();
    // the flushed consumer has nothing waiting
    let (c, stop) = monitor_step(&mut consumer, &mut job.feed, &mut job.cancel, &job.out_chs, 0);
    assert_eq!((c, stop), (0, false));
    let fresh: Vec<f32> = vec![0.5, 0.25];
    broadcast_clb(&fresh, &mut a.txs, &a.in_chs, &a.nof_chs, &a.config, 1);
    let (c, _) = monitor_step(&mut consumer, &mut job.feed, &mut job.cancel, &job.out_chs, 0);
    let (c, _) = monitor_step(&mut consumer, &mut job.feed, &mut job.cancel, &job.out_chs, c);
    assert_eq!(c, 0);
    for expected in [(1u8, 0.5f32), (2, 0.25)] {
        assert_eq!(x.mixer.channel(), expected.0);
        let got = x.mixer.collect();
        assert_eq!(got, vec![expected.1]);
        x.mixer.emit(mean_of_numbers(&got));
    }
    let mut out: Vec<f32> = vec![0.0; 2];
    let next = playback_clb(&mut out, &mut x.rx, &x.out_chs, 0);
    assert_eq!(out, vec![0.5, 0.25]);
    assert_eq!(next, 0);
    assert!(r.stop_monitor(t));
    assert!(!r.stop_monitor(t));
    let (_, stop) = monitor_step(&mut consumer, &mut job.feed, &mut job.cancel, &job.out_chs, 0);
    assert!(stop);
}

#[test]
fn two_monitored_tracks_on_one_route_mix_to_what_each_hears() {
    let mut r = router();
    let mut a = r.new_input_bus(vec![1]);
    let mut x = r.new_output_bus(vec![1]);
    let t0 = r.new_track("a".to_string(), a.bus_id, x.bus_id);
    let t1 = r.new_track("b".to_string(), a.bus_id, x.bus_id);
    r.set_monitor(t0, true);
    r.set_monitor(t1, true);
    let mut jobs = r.monitor();
    assert_eq!(jobs.len(), 2);
    assert_eq!(x.mixer.adopt(), 1);
    assert_eq!(x.mixer.adopt(), 1);
    let mut second = jobs.pop().unwrap();
    let mut first = jobs.pop().unwrap();
    let mut first_rx = first.consumer.take().unwrap();
    let mut second_rx = second.consumer.take().unwrap();
    // the mono bus sends each captured sample as channel 1 and as channel 2
    let data: Vec<f32> = vec![0.75, 0.0];
    broadcast_clb(&data, &mut a.txs, &a.in_chs, &a.nof_chs, &a.config, 1);
    for _ in 0..2 {
        monitor_step(&mut first_rx, &mut first.feed, &mut first.cancel, &first.out_chs, 0);
        monitor_step(&mut second_rx, &mut second.feed, &mut second.cancel, &second.out_chs, 0);
    }
    for _ in 0..2 {
        let got = x.mixer.collect();
        assert_eq!(got, vec![0.75, 0.75]);
        x.mixer.emit(mean_of_numbers(&got));
        assert_eq!(x.rx.poll(), Polled::Item((1, 0.75)));
    }
    // the first track's worker is cancelled and ends
    assert!(r.stop_monitor(t0));
    let (_, stop) = monitor_step(&mut first_rx, &mut first.feed, &mut first.cancel, &first.out_chs, 0);
    assert!(stop);
    drop(first);
    drop(first_rx);
    let more: Vec<f32> = vec![0.5, 0.0];
    broadcast_clb(&more, &mut a.txs, &a.in_chs, &a.nof_chs, &a.config, 1);
    let (_, stop) =
        monitor_step(&mut second_rx, &mut second.feed, &mut second.cancel, &second.out_chs, 0);
    assert!(!stop);
    let got = x.mixer.collect();
    assert_eq!(got, vec![0.5]);
    assert_eq!(x.mixer.nof_sources(), 1);
    x.mixer.emit(mean_of_numbers(&got));
    assert_eq!(x.rx.poll(), Polled::Item((1, 0.5)));
}

#[test]
fn mixer_ends_of_a_bus_reach_its_mixer() {
    let mut r = router();
    let mut x = r.new_output_bus(vec![1, 2]);
    let (_feeds, mut signal) = r.get_mix_thread_by_out_bus(x.bus_id).unwrap();
    assert!(!x.mixer.cancelled());
    assert!(signal.send(()));
    assert!(x.mixer.cancelled());
}

#[test]
fn a_track_that_stops_does_not_starve_the_others() {
    let mut r = router();
    let mut a = r.new_input_bus(vec![1, 2]);
    let mut x = r.new_output_bus(vec![1, 2]);
    let t0 = r.new_track("a".to_string(), a.bus_id, x.bus_id);
    let t1 = r.new_track("b".to_string(), a.bus_id, x.bus_id);
    let mut first = r.start_monitor(t0).unwrap();
    let mut second = r.start_monitor(t1).unwrap();
    x.mixer.adopt();
    x.mixer.adopt();
    let mut first_rx = first.consumer.take().unwrap();
    let mut second_rx = second.consumer.take().unwrap();
    let data: Vec<f32> = vec![0.5; 1000];
    broadcast_clb(&data, &mut a.txs, &a.in_chs, &a.nof_chs, &a.config, 1);
    let mut c0 = 0;
    let mut c1 = 0;
    for _ in 0..1000 {
        c0 = monitor_step(&mut first_rx, &mut first.feed, &mut first.cancel, &first.out_chs, c0).0;
        c1 = monitor_step(&mut second_rx, &mut second.feed, &mut second.cancel, &second.out_chs, c1)
            .0;
    }
    for _ in 0..1000 {
        assert_eq!(x.mixer.collect(), vec![0.5, 0.5]);
        x.mixer.emit(None);
    }
    // the first track stops; its worker and its consumer go away
    assert!(r.stop_monitor(t0));
    drop(first_rx);
    drop(first);
    // far more than the queues hold
    let mut heard = 0usize;
    for _ in 0..3000 {
        broadcast_clb(&data, &mut a.txs, &a.in_chs, &a.nof_chs, &a.config, 1);
        for _ in 0..1000 {
            let before = c1;
            c1 = monitor_step(
                &mut second_rx,
                &mut second.feed,
                &mut second.cancel,
                &second.out_chs,
                c1,
            )
            .0;
            if c1 != before {
                heard += 1;
            }
        }
        for _ in 0..1000 {
            assert_eq!(x.mixer.collect(), vec![0.5]);
            x.mixer.emit(None);
        }
    }
    assert_eq!(heard, 3_000_000);
}

#[test]
fn a_record_pass_whose_file_cannot_be_made_leaves_no_take() {
    let mut r = router();
    let a = r.new_input_bus(vec![1, 2]);
    let x = r.new_output_bus(vec![1, 2]);
    let t0 = r.new_track("a".to_string(), a.bus_id, x.bus_id);
    let t1 = r.new_track("b".to_string(), a.bus_id, x.bus_id);
    r.set_recording(t0, true);
    r.set_recording(t1, true);
    let mut jobs = r.record();
    assert_eq!(jobs.len(), 2);
    assert_eq!(jobs[0].file, "a_1.wav");
    // the file of the first track could not be made
    assert!(r.record_failed(t0));
    assert!(!r.record_failed(t0));
    assert!(!r.get_tracks()[0].is_recording());
    assert_eq!(r.get_tracks()[0].nof_takes(), 0);
    assert_eq!(r.get_tracks()[0].nof_completed_takes(), 0);
    assert!(r.get_tracks()[1].is_recording());
    assert_eq!(r.get_tracks()[1].nof_takes(), 1);
    // no signal went to the worker that was never started
    assert_eq!(jobs[0].cancel.poll(), Polled::Closed);
    // nothing to play back, and the next pass uses the name again
    r.set_recording(t0, false);
    assert!(r.monitor().is_empty());
    r.set_recording(t0, true);
    assert_eq!(r.stop_recording(), vec![t1]);
    assert_eq!(jobs[1].cancel.poll(), Polled::Item(()));
    let again = r.record();
    assert_eq!(again[0].file, "a_1.wav");
    assert_eq!(again[1].file, "b_2.wav");
}

#[test]
fn jobs_read_the_queues_of_their_own_bus() {
    let mut r = router();
    let a = r.new_input_bus(vec![1]);
    let b = r.new_input_bus(vec![2]);
    let x = r.new_output_bus(vec![1, 2]);
    let y = r.new_output_bus(vec![1]);
    assert_eq!(a.txs[0].get_mark(), Mark { bus: 0, monitor: false });
    assert_eq!(a.txs[1].get_mark(), Mark { bus: 0, monitor: true });
    assert_eq!(b.txs[0].get_mark(), Mark { bus: 1, monitor: false });
    assert_eq!(b.txs[1].get_mark(), Mark { bus: 1, monitor: true });
    assert_eq!(x.rx.get_mark(), 0);
    assert_eq!(y.rx.get_mark(), 1);
    let t0 = r.new_track("a".to_string(), b.bus_id, y.bus_id);
    let t1 = r.new_track("b".to_string(), a.bus_id, x.bus_id);
    r.set_recording(t0, true);
    r.set_recording(t1, true);
    r.set_monitor(t0, true);
    r.set_monitor(t1, true);
    let rec = r.record();
    assert_eq!(rec[0].consumer.get_mark(), Mark { bus: 1, monitor: false });
    assert_eq!(rec[0].cancel.get_mark(), t0);
    assert_eq!(rec[1].consumer.get_mark(), Mark { bus: 0, monitor: false });
    assert_eq!(rec[1].cancel.get_mark(), t1);
    let mon = r.monitor();
    assert_eq!(mon[0].consumer.as_ref().unwrap().get_mark(), Mark { bus: 1, monitor: true });
    assert_eq!(mon[0].feed.get_mark(), t0);
    assert_eq!(mon[0].out_chs, vec![1]);
    assert_eq!(mon[1].consumer.as_ref().unwrap().get_mark(), Mark { bus: 0, monitor: true });
    assert_eq!(mon[1].out_chs, vec![1, 2]);
    let (feed, stop) = r.get_mix_thread_by_out_bus(1).unwrap();
    assert_eq!(feed.get_mark(), 1);
    assert_eq!(stop.get_mark(), 1);
}

#[test]
fn a_track_hears_only_its_own_bus() {
    let mut r = router();
    let mut a = r.new_input_bus(vec![1]);
    let mut b = r.new_input_bus(vec![2]);
    let x = r.new_output_bus(vec![1]);
    let t0 = r.new_track("a".to_string(), b.bus_id, x.bus_id);
    r.set_recording(t0, true);
    let mut jobs = r.record();
    let left: Vec<f32> = vec![0.1, 0.0];
    let right: Vec<f32> = vec![0.0, 0.9];
    broadcast_clb(&left, &mut a.txs, &a.in_chs, &a.nof_chs, &a.config, 1);
    broadcast_clb(&right, &mut b.txs, &b.in_chs, &b.nof_chs, &b.config, 1);
    // bus b is mono over channel 2: the sample comes as both sides of a pair
    let job = &mut jobs[0];
    assert_eq!(write_step(&mut job.consumer, &mut job.cancel), (Some(0.9), false));
    assert_eq!(write_step(&mut job.consumer, &mut job.cancel), (Some(0.9), false));
    assert_eq!(write_step(&mut job.consumer, &mut job.cancel), (None, false));
}
