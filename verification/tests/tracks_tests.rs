use cpal_recorder::config::{SampleFormat, StreamConfig, WavFormat, WavSpec};
use cpal_recorder::fanout::{broadcast_queue, Polled};
use cpal_recorder::link::channel;
use cpal_recorder::tracks::{
    monitor_step, playback_pass, sample_format, wav_spec_from_config, write_step, Output, Track,
};

fn stereo() -> StreamConfig {
    StreamConfig { channels: 2, sample_rate: 44100 }
}

fn track(name: &str) -> Track {
    Track::new(4, name.to_string(), &stereo(), SampleFormat::F32)
}

#[test]
fn new_track_is_idle_and_unarmed() {
    let t = track("guitar");
    assert_eq!(t.as_tup(), (4, "guitar".to_string(), false, false));
    assert!(!t.is_rec_armed());
    assert!(!t.is_monitored());
    assert!(!t.is_recording());
    assert_eq!(t.get_output(), Output::Idle);
    assert_eq!(t.nof_takes(), 0);
    assert_eq!(t.get_files(), Vec::<String>::new());
}

#[test]
fn arm_flags_are_independent() {
    let mut t = track("a");
    t.set_rec(true);
    assert!(t.is_rec_armed());
    assert!(!t.is_monitored());
    t.set_monitor(true);
    assert!(t.is_rec_armed());
    assert!(t.is_monitored());
    t.set_rec(false);
    assert!(!t.is_rec_armed());
    assert!(t.is_monitored());
    assert!(!t.is_recording());
    assert_eq!(t.get_output(), Output::Idle);
}

#[test]
fn takes_are_numbered_from_one() {
    let mut t = track("vox");
    for n in 1..=12 {
        let start = t.record().unwrap();
        assert_eq!(start.file, format!("vox_{}.wav", n));
        assert!(t.stop_recording());
    }
    assert_eq!(t.nof_takes(), 12);
    let files = t.get_files();
    assert_eq!(files[0], "vox_1.wav");
    assert_eq!(files[9], "vox_10.wav");
    assert_eq!(files[11], "vox_12.wav");
}

#[test]
fn record_start_carries_the_stream_header() {
    let mut t = Track::new(0, "x".to_string(), &stereo(), SampleFormat::I16);
    let start = t.record().unwrap();
    assert_eq!(
        start.spec,
        WavSpec {
            channels: 2,
            sample_rate: 44100,
            bits_per_sample: 16,
            sample_format: WavFormat::Int
        }
    );
}

#[test]
fn a_recording_track_does_not_record_again() {
    let mut t = track("bass");
    assert!(t.record().is_some());
    assert!(t.is_recording());
    assert!(t.record().is_none());
    assert_eq!(t.nof_takes(), 1);
    assert!(t.stop_recording());
    assert!(!t.is_recording());
    assert!(!t.stop_recording());
    assert!(t.record().is_some());
    assert_eq!(t.nof_takes(), 2);
}

#[test]
fn stop_recording_reaches_the_worker() {
    let mut t = track("bass");
    let mut start = t.record().unwrap();
    assert_eq!(start.cancel.poll(), Polled::Empty);
    assert!(t.stop_recording());
    assert_eq!(start.cancel.poll(), Polled::Item(()));
}

#[test]
fn playback_needs_a_take() {
    let mut t = track("keys");
    assert!(t.start_playback::<i16>(vec![1, 2]).is_none());
    assert_eq!(t.get_output(), Output::Idle);
    t.record().unwrap();
    t.stop_recording();
    t.record().unwrap();
    t.stop_recording();
    let start = t.start_playback::<i16>(vec![1, 2]).unwrap();
    assert_eq!(start.file, Some("keys_2.wav".to_string()));
    assert_eq!(start.out_chs, vec![1, 2]);
    assert_eq!(t.get_output(), Output::PlayingBack);
}

#[test]
fn monitor_and_playback_exclude_each_other() {
    let mut t = track("keys");
    t.record().unwrap();
    t.stop_recording();
    let start = t.start_monitor::<i16>(vec![1, 2]).unwrap();
    assert!(start.file.is_none());
    assert_eq!(t.get_output(), Output::Monitoring);
    assert!(t.start_playback::<i16>(vec![1, 2]).is_none());
    assert!(t.start_monitor::<i16>(vec![1, 2]).is_none());
    assert_eq!(t.get_output(), Output::Monitoring);
    assert!(t.stop_monitor());
    assert_eq!(t.get_output(), Output::Idle);
    assert!(!t.stop_monitor());
    assert!(t.start_playback::<i16>(vec![1, 2]).is_some());
    assert!(t.start_monitor::<i16>(vec![1, 2]).is_none());
}

#[test]
fn nothing_is_sent_toward_no_channel() {
    let mut t = track("keys");
    t.record().unwrap();
    t.stop_recording();
    assert!(t.start_monitor::<i16>(vec![]).is_none());
    assert!(t.start_playback::<i16>(vec![]).is_none());
    assert_eq!(t.get_output(), Output::Idle);
}

#[test]
fn recording_and_monitoring_run_side_by_side() {
    let mut t = track("keys");
    assert!(t.record().is_some());
    assert!(t.start_monitor::<i16>(vec![1]).is_some());
    assert!(t.is_recording());
    assert_eq!(t.get_output(), Output::Monitoring);
    assert!(t.stop_monitor());
    assert!(t.is_recording());
    assert!(t.stop_recording());
}

#[test]
fn stop_monitor_reaches_the_worker() {
    let mut t = track("keys");
    let mut start = t.start_monitor::<i16>(vec![1]).unwrap();
    assert_eq!(start.cancel.poll(), Polled::Empty);
    assert!(t.stop_monitor());
    assert_eq!(start.cancel.poll(), Polled::Item(()));
}

#[test]
fn wav_spec_follows_the_stream() {
    let mono = StreamConfig { channels: 1, sample_rate: 48000 };
    assert_eq!(
        wav_spec_from_config(&mono, &SampleFormat::F32),
        WavSpec {
            channels: 1,
            sample_rate: 48000,
            bits_per_sample: 32,
            sample_format: WavFormat::Float
        }
    );
    assert_eq!(
        wav_spec_from_config(&stereo(), &SampleFormat::U16),
        WavSpec {
            channels: 2,
            sample_rate: 44100,
            bits_per_sample: 16,
            sample_format: WavFormat::Int
        }
    );
    assert_eq!(wav_spec_from_config(&stereo(), &SampleFormat::I16).bits_per_sample, 16);
}

#[test]
fn sample_kinds_map_to_take_kinds() {
    assert_eq!(sample_format(SampleFormat::U16), WavFormat::Int);
    assert_eq!(sample_format(SampleFormat::I16), WavFormat::Int);
    assert_eq!(sample_format(SampleFormat::F32), WavFormat::Float);
    assert_eq!(SampleFormat::U16.sample_size(), 2);
    assert_eq!(SampleFormat::I16.sample_size(), 2);
    assert_eq!(SampleFormat::F32.sample_size(), 4);
}

#[test]
fn write_step_hands_samples_on_in_order() {
    let (mut tx, mut rx) = broadcast_queue::<i16>(16);
    let (mut signal, mut cancel) = channel::<()>();
    assert_eq!(write_step(&mut rx, &mut cancel), (None, false));
    assert!(tx.push((1, 100)));
    assert!(tx.push((2, 200)));
    assert_eq!(write_step(&mut rx, &mut cancel), (Some(100), false));
    assert!(signal.send(()));
    assert_eq!(write_step(&mut rx, &mut cancel), (Some(200), true));
}

#[test]
fn write_step_goes_on_when_the_signal_link_is_gone() {
    let (_tx, mut rx) = broadcast_queue::<i16>(16);
    let (signal, mut cancel) = channel::<()>();
    drop(signal);
    assert_eq!(write_step(&mut rx, &mut cancel), (None, false));
}

#[test]
fn monitor_step_tags_samples_with_the_output_channels_in_turn() {
    let (mut tx, mut rx) = broadcast_queue::<i16>(16);
    let (mut feed, mut source) = channel::<(u8, i16)>();
    let (mut signal, mut cancel) = channel::<()>();
    let out_chs = vec![3, 4];
    for (i, s) in [11i16, 22, 33].iter().enumerate() {
        assert!(tx.push(((i % 2) as u8 + 1, *s)));
    }
    let (c, stop) = monitor_step(&mut rx, &mut feed, &mut cancel, &out_chs, 0);
    assert_eq!((c, stop), (1, false));
    let (c, stop) = monitor_step(&mut rx, &mut feed, &mut cancel, &out_chs, c);
    assert_eq!((c, stop), (0, false));
    let (c, stop) = monitor_step(&mut rx, &mut feed, &mut cancel, &out_chs, c);
    assert_eq!((c, stop), (1, false));
    // nothing there: the cursor stays
    let (c, stop) = monitor_step(&mut rx, &mut feed, &mut cancel, &out_chs, c);
    assert_eq!((c, stop), (1, false));
    assert!(signal.send(()));
    let (c, stop) = monitor_step(&mut rx, &mut feed, &mut cancel, &out_chs, c);
    assert_eq!((c, stop), (1, true));
    assert_eq!(source.poll(), Polled::Item((3, 11)));
    assert_eq!(source.poll(), Polled::Item((4, 22)));
    assert_eq!(source.poll(), Polled::Item((3, 33)));
    assert_eq!(source.poll(), Polled::Empty);
}

#[test]
fn playback_pass_begins_with_one_silent_sample() {
    let (mut feed, mut source) = channel::<(u8, i16)>();
    let (mut signal, mut cancel) = channel::<()>();
    let take = vec![5i16, 6, 7];
    let out_chs = vec![1, 2];
    let (next, stop) = playback_pass(&mut feed, &mut cancel, 0, &take, &out_chs, 0);
    assert_eq!((next, stop), (0, false));
    for expected in [(1u8, 0i16), (2, 5), (1, 6), (2, 7)] {
        assert_eq!(source.poll(), Polled::Item(expected));
    }
    assert_eq!(source.poll(), Polled::Empty);
    assert!(signal.send(()));
    let (next, stop) = playback_pass(&mut feed, &mut cancel, 0, &vec![9], &out_chs, 1);
    assert_eq!((next, stop), (1, true));
    assert_eq!(source.poll(), Polled::Item((2, 0)));
    assert_eq!(source.poll(), Polled::Item((1, 9)));
}

#[test]
fn playback_pass_moves_the_cursor_by_the_samples_sent() {
    let (mut feed, _source) = channel::<(u8, i16)>();
    let (_signal, mut cancel) = channel::<()>();
    let out_chs = vec![1, 2, 3];
    for len in 0usize..7 {
        for cursor in 0usize..3 {
            let take = vec![1i16; len];
            let (next, _) = playback_pass(&mut feed, &mut cancel, 0, &take, &out_chs, cursor);
            assert_eq!(next, (cursor + 1 + len) % 3);
        }
    }
}

#[test]
fn a_take_in_progress_is_not_played_back() {
    let mut t = track("x");
    assert_eq!(t.nof_completed_takes(), 0);
    t.record().unwrap();
    assert_eq!(t.nof_takes(), 1);
    assert_eq!(t.nof_completed_takes(), 0);
    assert!(t.start_playback::<i16>(vec![1]).is_none());
    t.stop_recording();
    assert_eq!(t.nof_completed_takes(), 1);
    t.record().unwrap();
    assert_eq!(t.nof_takes(), 2);
    assert_eq!(t.nof_completed_takes(), 1);
    let start = t.start_playback::<i16>(vec![1]).unwrap();
    assert_eq!(start.file, Some("x_1.wav".to_string()));
}

#[test]
fn a_failed_record_pass_takes_the_name_back() {
    let mut t = track("x");
    assert!(!t.record_failed());
    let mut first = t.record().unwrap();
    assert_eq!(first.file, "x_1.wav");
    assert!(t.record_failed());
    assert!(!t.is_recording());
    assert_eq!(t.nof_takes(), 0);
    assert_eq!(t.get_files(), Vec::<String>::new());
    assert!(t.start_playback::<i16>(vec![1]).is_none());
    // no signal was sent: the link just ends
    assert_eq!(first.cancel.poll(), Polled::Closed);
    let second = t.record().unwrap();
    assert_eq!(second.file, "x_1.wav");
    assert!(t.stop_recording());
    assert!(!t.record_failed());
    assert_eq!(t.get_files(), vec!["x_1.wav".to_string()]);
    t.record().unwrap();
    assert!(t.record_failed());
    assert_eq!(t.get_files(), vec!["x_1.wav".to_string()]);
    assert_eq!(t.nof_completed_takes(), 1);
}

#[test]
fn the_links_of_a_track_carry_its_id() {
    let mut t = track("x");
    let rec = t.record().unwrap();
    assert_eq!(rec.cancel.get_mark(), 4);
    let out = t.start_monitor::<i16>(vec![1, 2]).unwrap();
    assert_eq!(out.feed.get_mark(), 4);
    assert_eq!(out.source.get_mark(), 4);
    assert_eq!(out.cancel.get_mark(), 4);
}
