//! Listening together.

use furumi::devices::model::{
    PlaybackCommand, PlaybackRepeat, PlaybackSnapshot, PlaybackStateWire,
};
use furumi::jam::{
    check_jam_invite, decode_jam_invite, encode_jam_invite, random_hex, Jam, JamCommand,
    JamInvite, JamInviteError, JamParticipant, JamRole, PollAnswer, PROTOCOL_VERSION,
};
use furumi::library::models::Seconds;

const NOW: i64 = 1_767_225_600_000;

fn invite() -> JamInvite {
    JamInvite {
        v: PROTOCOL_VERSION,
        ticket: "ticket".into(),
        jam_id: "jam_test".into(),
        secret: "0123456789abcdef".into(),
        host_device_id: "dev_host".into(),
        host_name: "Host".into(),
    }
}

#[test]
fn invite_round_trips_and_is_separate_from_pairing() {
    let json = b"{\"v\":1,\"ticket\":\"ticket\",\"jam_id\":\"jam_test\",\"secret\":\"0123456789abcdef\",\"host_device_id\":\"dev_host\",\"host_name\":\"Host\"}";
    let uri = encode_jam_invite(json);
    assert!(uri.starts_with("frid://j/"));
    assert_eq!(decode_jam_invite(&uri).unwrap(), json);
    assert_eq!(check_jam_invite(&invite()), Ok(()));
    assert!(decode_jam_invite("frid://i/abcd").is_err());
}

fn state(volume: u8) -> PlaybackStateWire {
    PlaybackStateWire {
        queue: Vec::new(),
        queue_pos: 0,
        playing: true,
        paused: false,
        idle_since_ms: None,
        position: Seconds::Whole(0),
        volume,
        shuffle: false,
        repeat: PlaybackRepeat::Off,
    }
}

fn snapshot(volume: u8) -> PlaybackSnapshot {
    PlaybackSnapshot {
        device_id: "dev_host".into(),
        device_name: "Host".into(),
        active: true,
        updated_at_ms: NOW,
        state: state(volume),
    }
}

fn guest() -> JamParticipant {
    JamParticipant { participant_id: "guest_1".into(), name: "Guest".into(), last_seen_ms: NOW }
}

fn command(id: &str) -> JamCommand {
    JamCommand {
        command_id: id.into(),
        participant_id: "guest_1".into(),
        command: PlaybackCommand::SetState { state: state(5), seek: false },
        sent_at_ms: NOW,
    }
}

fn hosting() -> Jam {
    let mut jam = Jam::new();
    jam.create_or_regenerate(
        "ticket".into(),
        "jam_test".into(),
        "0123456789abcdef".into(),
        "dev_host".into(),
        "Host".into(),
        "frid://j/abc".into(),
    );
    jam.publish_host_playback(snapshot(40));
    jam
}

#[test]
fn a_command_runs_once() {
    let mut jam = hosting();
    let secret = "0123456789abcdef";
    let (reply, run) = jam.serve_poll(
        PROTOCOL_VERSION,
        "jam_test",
        secret,
        guest(),
        vec![command("c1"), command("c2"), command("c1")],
        NOW,
    );
    assert!(reply.accepted);
    assert_eq!(run.len(), 2);
    assert!(reply.acknowledged_command_ids.contains(&"c1".to_string()));
    let (_, run) =
        jam.serve_poll(PROTOCOL_VERSION, "jam_test", secret, guest(), vec![command("c2")], NOW);
    assert!(run.is_empty());
    assert_eq!(jam.status().participants.len(), 1);
    jam.serve_leave(PROTOCOL_VERSION, "jam_test", secret, "guest_1");
    assert!(jam.status().participants.is_empty());
}

#[test]
fn polls_with_a_wrong_secret_are_refused() {
    let mut jam = hosting();
    let (reply, run) = jam.serve_poll(
        PROTOCOL_VERSION,
        "jam_test",
        "wrong",
        guest(),
        vec![command("c1")],
        NOW,
    );
    assert!(!reply.accepted && reply.error.is_some() && run.is_empty());
    assert!(jam.status().participants.is_empty());
}

#[test]
fn a_participant_follows_the_host() {
    let mut jam = Jam::new();
    assert!(matches!(jam.status().role, JamRole::Idle));
    jam.join(invite(), "guest_1".into(), "Guest".into(), NOW).unwrap();
    assert!(matches!(jam.status().role, JamRole::Participant));
    jam.submit_command(
        PlaybackCommand::SetState { state: state(7), seek: false },
        "c1".into(),
        NOW,
    )
    .unwrap();
    let answer = PollAnswer {
        accepted: true,
        error: None,
        acknowledged_command_ids: vec!["c1".into()],
        playback: Some(snapshot(40)),
        participants: vec![guest()],
    };
    assert!(jam.finish_poll("jam_test", &answer, NOW).is_ok());
    assert!(jam.joined.as_ref().unwrap().pending.is_empty());
    assert!(jam.status().connected);
    jam.poll_failed("gone");
    assert!(!jam.status().connected);
    assert!(jam.is_expired(NOW + 1_800_001));
    jam.leave();
    assert!(matches!(jam.status().role, JamRole::Idle));
}

#[test]
fn bad_invites_are_told_apart() {
    assert_eq!(decode_jam_invite("https://x"), Err(JamInviteError::NotAnInvite));
    assert_eq!(decode_jam_invite("frid://j/!!!!"), Err(JamInviteError::Encoding));
    assert_eq!(decode_jam_invite("frid://j/A"), Err(JamInviteError::Encoding));
    let mut other = invite();
    other.v = 9;
    assert_eq!(check_jam_invite(&other), Err(JamInviteError::Version));
    let mut blank = invite();
    blank.ticket = String::new();
    assert_eq!(check_jam_invite(&blank), Err(JamInviteError::Incomplete));
    assert!(!JamInviteError::Encoding.message().is_empty());
    assert_eq!(random_hex("seed", 8).len(), 16);
}

#[test]
fn only_an_accepted_poll_is_told_what_plays() {
    let mut jam = hosting();
    let secret = "0123456789abcdef";
    let (reply, _) =
        jam.serve_poll(PROTOCOL_VERSION, "jam_test", secret, guest(), Vec::new(), NOW);
    let playback = reply.playback.unwrap();
    assert_eq!(playback.device_id, "dev_host");
    assert_eq!(playback.state.volume, 40);
    let (reply, _) =
        jam.serve_poll(PROTOCOL_VERSION, "jam_test", "wrong", guest(), Vec::new(), NOW);
    assert!(!reply.accepted);
    assert!(reply.playback.is_none());
}
