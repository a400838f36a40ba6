//! The playback engine, the Opus reader and the level meter.

use furumi::media::{playback_of, Playback};
use furumi::player::analyzer::{AnalyzerShared, FrameCounter};
use furumi::player::engine::{Command, Engine, Next, PlayerCall, PlayerEvent, Shared};
use furumi::player::opus::{
    is_ogg_opus, opus_gain_q8, opus_playable_frames, opus_pre_skip, OpusCursor, PacketStep,
    SNIFF_BYTES,
};

#[test]
fn ogg_vorbis_header_is_not_misclassified_as_opus() {
    let mut bytes =
        b"OggS\0\0\0\0\0\0\0\0\0\0\0\0\0\0\0\0\0\0\0\0\0\0\x01\x1e\x01vorbis".to_vec();
    bytes.resize(SNIFF_BYTES, 0);
    assert!(!is_ogg_opus(&bytes));
}

#[test]
fn ogg_opus_header_is_recognised() {
    let mut bytes =
        b"OggS\0\0\0\0\0\0\0\0\0\0\0\0\0\0\0\0\0\0\0\0\0\0\x01\x13OpusHead".to_vec();
    bytes.resize(SNIFF_BYTES, 0);
    assert!(is_ogg_opus(&bytes));
    assert!(!is_ogg_opus(b"OggS"));
}

#[test]
fn opus_headers_give_pre_skip_and_gain() {
    let mut head = b"OpusHead\x01\x01\x38\x01\x80\xbb\0\0\0\x01\0".to_vec();
    head.resize(19, 0);
    assert_eq!(opus_pre_skip(Some(&head)), 312);
    assert_eq!(opus_gain_q8(Some(&head)), Some(256));
    assert_eq!(opus_gain_q8(Some(&head[..17])), None);
    assert_eq!(opus_playable_frames(Some(1000), None, None, 312), Some(688));
    assert_eq!(opus_playable_frames(None, None, None, 312), None);
}

#[test]
fn opus_stops_at_the_end_of_the_track() {
    let mut cursor = OpusCursor::new(1, 312, Some(1440)).unwrap();
    assert!(OpusCursor::new(0, 0, None).is_err());
    assert!(matches!(cursor.packet(false, 960), PacketStep::Skip));
    let mut played = 0;
    for _ in 0..3 {
        match cursor.packet(true, 960) {
            PacketStep::Decode { frames, samples } => {
                if let Some((from, to)) = cursor.decoded(frames, samples) {
                    played += to - from;
                }
            }
            PacketStep::Skip => {}
            PacketStep::End => break,
        }
    }
    assert_eq!(played, 1440);
    let (target, _) = cursor.seek_target(720);
    cursor.seeked(720, target);
    assert_eq!(cursor.output_position_frames, 720);
}

#[test]
fn the_engine_opens_the_device_once() {
    let mut engine = Engine::default();
    assert!(matches!(engine.handle(Command::Play, false), Next::OpenDevice));
    assert!(matches!(engine.device_opened(Ok(())), Next::Decode));
    match engine.decoded(false, Ok(())) {
        Next::Calls(calls) => assert!(calls.contains(&PlayerCall::Append)),
        _ => unreachable!(),
    }
    engine.commanded(1);
    assert!(matches!(engine.handle(Command::Enqueue, false), Next::Decode));
    match engine.handle(Command::Seek(1500), false) {
        Next::Calls(calls) => assert_eq!(calls, vec![PlayerCall::Seek(1500)]),
        _ => unreachable!(),
    }
}

#[test]
fn the_end_of_a_track_is_reported_once() {
    let mut engine = Engine::default();
    engine.handle(Command::Play, false);
    engine.device_opened(Ok(()));
    engine.decoded(false, Ok(()));
    engine.commanded(1);
    let mut shared = Shared::default();
    assert!(engine.tick(100, false, 1, &mut shared).is_empty());
    assert_eq!(shared.position(), 100);
    let events = engine.tick(200, false, 0, &mut shared);
    assert_eq!(events.len(), 1);
    assert!(matches!(events[0], PlayerEvent::TrackFinished { has_next: false }));
    assert!(engine.tick(200, false, 0, &mut shared).is_empty());
}

#[test]
fn a_failure_is_reported() {
    let mut engine = Engine::default();
    engine.handle(Command::Play, false);
    match engine.device_opened(Err("no device".into())) {
        Next::Report(PlayerEvent::Failed(message)) => assert!(message.contains("no device")),
        _ => unreachable!(),
    }
}

#[test]
fn the_scope_keeps_the_last_samples() {
    let mut shared = AnalyzerShared::default();
    for n in 0..300i16 {
        shared.push_scope(n);
    }
    let recent = shared.recent_samples();
    assert_eq!(recent.len(), 256);
    assert_eq!(*recent.last().unwrap(), 299);
    assert_eq!(recent[0], 44);
    shared.clear();
    assert!(shared.recent_samples().iter().all(|sample| *sample == 0));
}

#[test]
fn frames_are_counted_by_channel() {
    let mut counter = FrameCounter::new(2, 2, 1);
    assert!(!counter.sample().frame);
    let first = counter.sample();
    assert!(first.frame && !first.window);
    counter.sample();
    assert!(counter.sample().window);
}

#[test]
fn media_keys_see_the_state() {
    assert!(matches!(playback_of(false, false), Playback::Stopped));
    assert!(matches!(playback_of(true, true), Playback::Paused));
    assert!(matches!(playback_of(true, false), Playback::Playing));
}

#[test]
fn levels_are_stored_and_cleared() {
    let mut shared = AnalyzerShared::default();
    shared.store_levels(1, 2, 3, 4, 5);
    shared.store_levels(6, 7, 8, 9, 10);
    assert_eq!((shared.energy, shared.bass, shared.mid), (6, 7, 8));
    assert_eq!((shared.treble, shared.beat, shared.sequence), (9, 10, 2));
    shared.clear();
    assert_eq!((shared.energy, shared.beat, shared.sequence), (0, 0, 0));
    let mut counter = FrameCounter::new(2, 3, 2);
    counter.sample();
    counter.reset();
    assert!(!counter.sample().frame);
    assert!(counter.sample().frame);
}

#[test]
fn what_a_command_drops_is_no_track_that_ended() {
    let mut engine = Engine::default();
    engine.handle(Command::Play, false);
    engine.device_opened(Ok(()));
    engine.decoded(false, Ok(()));
    engine.commanded(3);
    let mut shared = Shared::default();
    assert!(engine.tick(100, false, 3, &mut shared).is_empty());
    engine.commanded(1);
    assert!(engine.tick(200, false, 1, &mut shared).is_empty());
    assert_eq!(engine.tick(300, false, 0, &mut shared).len(), 1);
}
