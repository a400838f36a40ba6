//! What holds of playback, whatever is played.

use crate::player::analyzer::{counts_sample, pushes, AnalyzerShared, Completed, FrameCounter};
use crate::player::engine::{
    handles, opens, takes_decoded, ticks, Command, Engine, Next, PlayerCall, PlayerEvent, Shared,
};
use crate::player::opus::{
    aims, hears_frames, marked, ogg_mark, opus_header, opus_mark, playable_of, seeks, takes_packet,
    OpusCursor, PacketStep,
};
use vstd::prelude::*;

verus! {

// ---------------------------------------------------------------------------
// Commands
// ---------------------------------------------------------------------------

/// Without a device nothing is called: a track asks for the device first and other
/// commands are passed over. With one, a pause pauses, a resumption plays, and the
/// command that turns it round does the one that is not going on.
pub proof fn law_commands_reach_the_device(
    a: Engine,
    b: Engine,
    command: Command,
    paused: bool,
    r: Next,
)
    requires
        handles(a, b, command, paused, r),
    ensures
        !a.open ==> !(r is Calls) && !(r is Decode),
        r is OpenDevice <==> !a.open && command == Command::Play,
        a.open && (command == Command::Play || command == Command::Enqueue) ==> r is Decode,
        a.open && command == Command::Pause ==> (r matches Next::Calls(v) && v@
            == seq![PlayerCall::Pause]),
        a.open && command == Command::Resume ==> (r matches Next::Calls(v) && v@
            == seq![PlayerCall::Play]),
        a.open && command == Command::TogglePause && paused ==> (r matches Next::Calls(v) && v@
            == seq![PlayerCall::Play]),
        a.open && command == Command::TogglePause && !paused ==> (r matches Next::Calls(v) && v@
            == seq![PlayerCall::Pause]),
        a.open && command == Command::Stop ==> (r matches Next::Calls(v) && v@
            == seq![PlayerCall::Stop]),
        command matches Command::Seek(ms) ==> (a.open ==> (r matches Next::Calls(v) && v@
            == seq![PlayerCall::Seek(ms)])),
        command == Command::Stop ==> !b.track_loaded,
        command != Command::Stop ==> b.track_loaded == a.track_loaded,
        b.open == a.open,
{
}

/// A device that opened is used for the track that asked for it; one that did not is
/// reported.
pub proof fn law_device_is_opened_for_a_track(
    a: Engine,
    b: Engine,
    result: Result<(), String>,
    r: Next,
)
    requires
        opens(a, b, result, r),
    ensures
        result is Ok ==> b.open && r is Decode,
        result is Err ==> b.open == a.open && r is Report,
        b.track_loaded == a.track_loaded,
{
}

/// A track that is to be played now takes the place of what was: that is stopped before
/// the track is put in, and playing comes last. One for later is only put in. One that
/// cannot be decoded is reported and changes nothing.
pub proof fn law_decoded_track_is_played(
    a: Engine,
    b: Engine,
    queued: bool,
    result: Result<(), String>,
    r: Next,
)
    requires
        takes_decoded(a, b, queued, result, r),
    ensures
        result is Err ==> r is Report && b == a,
        result is Ok && queued ==> (r matches Next::Calls(v) && v@ == seq![PlayerCall::Append])
            && b.track_loaded == a.track_loaded,
        result is Ok && !queued ==> b.track_loaded && (r matches Next::Calls(v) && v@.len() > 1
            && v@[0] == PlayerCall::Stop && v@.last() == PlayerCall::Play && exists|k: int|
            0 < k < v@.len() - 1 && #[trigger] v@[k] == PlayerCall::Append),
{
    if result is Ok && !queued {
        if let Next::Calls(v) = r {
            assert(v@[2] == PlayerCall::Append);
        }
    }
}

/// Each track that ended since the last tick is reported once, and whether another one
/// follows. A second tick with as many tracks left reports nothing.
pub proof fn law_every_end_is_reported_once(
    a: Engine,
    b: Engine,
    c: Engine,
    position: u64,
    later: u64,
    paused: bool,
    len: usize,
    x: Shared,
    y: Shared,
    z: Shared,
    r: Seq<PlayerEvent>,
    again: Seq<PlayerEvent>,
)
    requires
        ticks(a, b, position, paused, len, x, y, r),
        ticks(b, c, later, paused, len, y, z, again),
    ensures
        again.len() == 0,
        a.open && a.track_loaded && len <= a.last_len ==> r.len() == a.last_len - len,
        !a.open || !a.track_loaded || len > a.last_len ==> r.len() == 0,
        forall|i: int|
            0 <= i < r.len() ==> (#[trigger] r[i] matches PlayerEvent::TrackFinished { has_next }
                && has_next == (len != 0)),
        a.open ==> y.position_ms == position && y.paused == paused,
        a.open && r.len() > 0 && len == 0 ==> !b.track_loaded,
{
}

// ---------------------------------------------------------------------------
// What is heard of a stream
// ---------------------------------------------------------------------------

/// What is to be left out at the start is left out and no more; what is heard counts once,
/// and no further than to the end.
pub proof fn law_every_frame_is_heard_once(
    a: OpusCursor,
    b: OpusCursor,
    frames: usize,
    samples: usize,
    r: Option<(usize, usize)>,
)
    requires
        hears_frames(a, b, frames, samples, r),
        a.output_position_frames + frames <= u64::MAX,
    ensures
        a.discard_frames >= frames ==> r is None && b.discard_frames == a.discard_frames - frames
            && b.output_position_frames == a.output_position_frames,
        a.discard_frames < frames ==> b.discard_frames == 0,
        a.discard_frames < frames && a.playable_frames is None ==> r is Some
            && b.output_position_frames == a.output_position_frames + (frames - a.discard_frames),
        a.playable_frames matches Some(total) ==> (a.output_position_frames <= total
            ==> b.output_position_frames <= total),
        a.playable_frames matches Some(total) ==> (a.discard_frames < frames
            && a.output_position_frames + (frames - a.discard_frames) <= total
            ==> b.output_position_frames == a.output_position_frames + (frames
            - a.discard_frames)),
        a.playable_frames matches Some(total) ==> (b.output_position_frames >= total ==> b.done),
        !a.done && b.done ==> a.playable_frames is Some && b.output_position_frames
            >= a.playable_frames->0,
        r matches Some(s) ==> s.0 == a.discard_frames * a.channels && s.1 <= samples,
{
    if a.discard_frames < frames {
        let start = a.discard_frames as int;
        assert(crate::player::opus::heard(a, frames as int).0 == start);
    }
}

/// After a seek playback goes on at the frame that was aimed at: what the decoder gives
/// before it is left out. It is never aimed beyond the end, and decoding starts no later
/// than there.
pub proof fn law_seek_goes_on_at_the_frame(
    a: OpusCursor,
    b: OpusCursor,
    requested: u64,
    aim: (u64, u64),
    actual: u64,
)
    requires
        aims(a, requested, aim),
        seeks(a, b, aim.0, actual),
        requested + a.pre_skip <= u64::MAX,
    ensures
        b.output_position_frames == aim.0,
        !b.done,
        a.playable_frames matches Some(total) ==> aim.0 <= total,
        a.playable_frames is None || requested <= a.playable_frames->0 ==> aim.0 == requested,
        aim.1 <= aim.0 + a.pre_skip,
        actual <= aim.0 + a.pre_skip ==> actual + b.discard_frames == aim.0 + a.pre_skip,
{
}

/// Of a stream everything is heard but what is cut off at its start and its end.
pub proof fn law_length_of_a_stream(
    encoded: u64,
    padding: Option<u32>,
    delay: Option<u32>,
    pre_skip: u64,
)
    ensures
        ({
            let cut = if padding is Some {
                padding->0 as int
            } else {
                0
            };
            let r = playable_of(Some(encoded), padding, delay, pre_skip);
            &&& r is Some
            &&& 0 <= r->0 <= encoded
            &&& delay is None && encoded >= pre_skip + cut ==> r->0 == encoded - pre_skip - cut
            &&& delay is Some && delay->0 == pre_skip && encoded >= pre_skip + cut ==> r->0
                == encoded - pre_skip - cut
            &&& playable_of(None, padding, delay, pre_skip) is None
        }),
{
}

// ---------------------------------------------------------------------------
// What the analyzer shows
// ---------------------------------------------------------------------------

/// The ring holds the latest samples in the order in which they came: a new one comes in
/// at the end and the oldest goes.
pub proof fn law_ring_holds_the_latest(a: AnalyzerShared, b: AnalyzerShared, sample: i16)
    requires
        a.wf(),
        pushes(a, b, sample),
        a.scope_write < usize::MAX,
    ensures
        b.recent() == a.recent().skip(1).push(sample),
        b.recent().len() == a.recent().len(),
        b.energy == a.energy,
        b.sequence == a.sequence,
{
    let w = a.scope_write as int;
    assert(b.scope_write == w + 1) by {
        assert((w + 1) % (usize::MAX + 1) == w + 1) by (nonlinear_arith)
            requires
                0 <= w < usize::MAX,
        ;
    }
    let x = a.recent();
    let y = b.recent();
    assert(x.len() == 256 && y.len() == 256);
    assert forall|k: int| 0 <= k < 256 implies #[trigger] y[k] == x.skip(1).push(sample)[k] by {
        assert(y[k] == b.scope@[(w + 1 + k) % 256]);
        if k == 255 {
            assert((w + 1 + k) % 256 == w % 256);
        } else {
            assert((w + 1 + k) % 256 != w % 256);
            assert(x[k + 1] == a.scope@[(w + (k + 1)) % 256]);
        }
    }
    assert(y =~= x.skip(1).push(sample));
}

/// A frame is complete when each of its channels had a sample, and only then can a window
/// or a point of the scope be.
pub proof fn law_frame_takes_a_sample_of_each_channel(
    a: FrameCounter,
    b: FrameCounter,
    r: Completed,
)
    requires
        a.wf(),
        counts_sample(a, b, r),
    ensures
        r.frame <==> a.channel_index == a.channels - 1,
        r.window ==> r.frame && a.frame_count == a.window_frames - 1 && b.frame_count == 0,
        r.scope ==> r.frame && a.scope_counter == a.scope_stride - 1 && b.scope_counter == 0,
        !r.frame ==> b.channel_index == a.channel_index + 1 && b.frame_count == a.frame_count
            && b.scope_counter == a.scope_counter,
        r.frame ==> b.channel_index == 0,
        r.frame && !r.window ==> b.frame_count == a.frame_count + 1,
        r.frame && !r.scope ==> b.scope_counter == a.scope_counter + 1,
        b.channels == a.channels,
        b.window_frames == a.window_frames,
{
}

/// A file is taken for Opus exactly when it starts with the letters of an Ogg stream and
/// holds those of an Opus header.
pub proof fn law_opus_is_told_by_its_letters(bytes: Seq<u8>)
    ensures
        opus_header(bytes) <==> {
            &&& bytes.len() >= 4
            &&& bytes[0] == 'O' as u8 && bytes[1] == 'g' as u8 && bytes[2] == 'g' as u8 && bytes[3]
                == 'S' as u8
            &&& exists|k: int|
                0 <= k && k + 8 <= bytes.len() && #[trigger] has_opus_letters(bytes, k)
        },
{
    assert(marked(bytes, ogg_mark(), 0) <==> bytes.len() >= 4 && bytes[0] == 'O' as u8 && bytes[1]
        == 'g' as u8 && bytes[2] == 'g' as u8 && bytes[3] == 'S' as u8) by {
        if bytes.len() >= 4 {
            let s = bytes.subrange(0, 4);
            assert(s[0] == bytes[0] && s[1] == bytes[1] && s[2] == bytes[2] && s[3] == bytes[3]);
            let m = ogg_mark();
            assert(m[0] == 0x4f && m[1] == 0x67 && m[2] == 0x67 && m[3] == 0x53);
            if bytes[0] == 0x4f && bytes[1] == 0x67 && bytes[2] == 0x67 && bytes[3] == 0x53 {
                assert(s =~= m);
            }
        }
    }
    assert forall|k: int| 0 <= k && k + 8 <= bytes.len() implies (#[trigger] has_opus_letters(
        bytes,
        k,
    ) <==> marked(bytes, opus_mark(), k)) by {
        let s = bytes.subrange(k, k + 8);
        let m = opus_mark();
        assert(m[0] == 0x4f && m[1] == 0x70 && m[2] == 0x75 && m[3] == 0x73 && m[4] == 0x48 && m[5]
            == 0x65 && m[6] == 0x61 && m[7] == 0x64);
        assert(forall|i: int| 0 <= i < 8 ==> #[trigger] s[i] == bytes[k + i]);
        if has_opus_letters(bytes, k) {
            assert(s =~= m);
        }
        if marked(bytes, m, k) {
            assert(s == m);
            assert(s[0] == m[0] && s[1] == m[1] && s[2] == m[2] && s[3] == m[3] && s[4] == m[4]
                && s[5] == m[5] && s[6] == m[6] && s[7] == m[7]);
        }
    }
    if opus_header(bytes) {
        let k = choose|k: int| marked(bytes, opus_mark(), k);
        assert(has_opus_letters(bytes, k));
    }
    if exists|k: int| 0 <= k && k + 8 <= bytes.len() && #[trigger] has_opus_letters(bytes, k) {
        let k = choose|k: int|
            0 <= k && k + 8 <= bytes.len() && #[trigger] has_opus_letters(bytes, k);
        assert(marked(bytes, opus_mark(), k));
    }
}

/// Whether the letters of an Opus header stand at a place.
pub open spec fn has_opus_letters(bytes: Seq<u8>, k: int) -> bool {
    &&& bytes[k] == 'O' as u8
    &&& bytes[k + 1] == 'p' as u8
    &&& bytes[k + 2] == 'u' as u8
    &&& bytes[k + 3] == 's' as u8
    &&& bytes[k + 4] == 'H' as u8
    &&& bytes[k + 5] == 'e' as u8
    &&& bytes[k + 6] == 'a' as u8
    &&& bytes[k + 7] == 'd' as u8
}

/// A packet of another track is passed over. One of this track is decoded with as many
/// samples as it has frames in each channel, unless there is nothing in it.
pub proof fn law_packet_is_decoded(
    a: OpusCursor,
    b: OpusCursor,
    same_track: bool,
    duration: u64,
    r: PacketStep,
)
    requires
        takes_packet(a, b, same_track, duration, r),
    ensures
        !same_track ==> r is Skip && b == a,
        same_track && duration == 0 ==> r is Skip,
        r matches PacketStep::Decode { frames, samples } ==> same_track && frames == duration
            && samples == duration * a.channels && b == a,
        same_track && 0 < duration <= usize::MAX && duration * a.channels <= usize::MAX
            ==> r is Decode,
        r is End ==> b.done,
{
}

} // verus!
