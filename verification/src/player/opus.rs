//! Which samples of an Opus stream are heard: what is cut off at its start
//! and its end, and where a seek lands.

use vstd::prelude::*;

verus! {

pub const OPUS_SAMPLE_RATE: u32 = 48_000;

/// The decoder runs this long before the sound is right again after a seek.
pub const OPUS_SEEK_PREROLL_FRAMES: u64 = 3_840;

/// How much of a file is looked at to tell what it is.
pub const SNIFF_BYTES: usize = 512;

/// The mark of an Ogg page.
pub open spec fn ogg_mark() -> Seq<u8> {
    seq![0x4fu8, 0x67, 0x67, 0x53]
}

/// The mark of an Opus header.
pub open spec fn opus_mark() -> Seq<u8> {
    seq![0x4fu8, 0x70, 0x75, 0x73, 0x48, 0x65, 0x61, 0x64]
}

/// Whether a mark stands at a place.
pub open spec fn marked(bytes: Seq<u8>, mark: Seq<u8>, at: int) -> bool {
    &&& 0 <= at
    &&& at + mark.len() <= bytes.len()
    &&& bytes.subrange(at, at + mark.len()) == mark
}

/// Whether the start of a file is that of an Opus stream in an Ogg container.
pub open spec fn opus_header(bytes: Seq<u8>) -> bool {
    &&& marked(bytes, ogg_mark(), 0)
    &&& exists|at: int| marked(bytes, opus_mark(), at)
}

fn is_opus_mark(bytes: &[u8], at: usize) -> (r: bool)
    requires
        at + 8 <= bytes@.len(),
    ensures
        r == marked(bytes@, opus_mark(), at as int),
{
    let r = bytes[at] == 0x4f && bytes[at + 1] == 0x70 && bytes[at + 2] == 0x75 && bytes[at + 3]
        == 0x73 && bytes[at + 4] == 0x48 && bytes[at + 5] == 0x65 && bytes[at + 6] == 0x61 && bytes[at
        + 7] == 0x64;
    proof {
        let s = bytes@.subrange(at as int, at + 8);
        let m = opus_mark();
        assert(m.len() == 8);
        if r {
            assert(s =~= m);
        } else if s == m {
            assert(s[0] == m[0] && s[1] == m[1] && s[2] == m[2] && s[3] == m[3] && s[4] == m[4]
                && s[5] == m[5] && s[6] == m[6] && s[7] == m[7]);
        }
    }
    r
}

/// Tells from the first bytes of a file whether it is Opus in Ogg.
pub fn is_ogg_opus(header: &[u8]) -> (r: bool)
    ensures
        r == opus_header(header@),
{
    if header.len() < 4 {
        return false;
    }
    let ogg = header[0] == 0x4f && header[1] == 0x67 && header[2] == 0x67 && header[3] == 0x53;
    proof {
        let s = header@.subrange(0, 4);
        let m = ogg_mark();
        assert(m.len() == 4);
        if ogg {
            assert(s =~= m);
        } else if s == m {
            assert(s[0] == m[0] && s[1] == m[1] && s[2] == m[2] && s[3] == m[3]);
        }
    }
    if !ogg {
        return false;
    }
    let size: usize = header.len();
    let mut at: usize = 0;
    while size >= 8 && at <= size - 8
        invariant
            size == header@.len(),
            size >= 8 ==> at <= size - 8 + 1,
            marked(header@, ogg_mark(), 0),
            forall|k: int| 0 <= k < at ==> !marked(header@, opus_mark(), k),
        decreases size - at,
    {
        if is_opus_mark(header, at) {
            return true;
        }
        at += 1;
    }
    proof {
        assert forall|k: int| !marked(header@, opus_mark(), k) by {
            if k >= at {
                assert(opus_mark().len() == 8);
            }
        }
    }
    false
}

/// The number that two bytes hold, the low one first.
pub open spec fn little_endian(low: u8, high: u8) -> int {
    low + 256 * high
}

/// How many frames at the start are not heard, as the header of the stream
/// says; none where the header is too short to say.
pub open spec fn pre_skip_of(extra: Option<Seq<u8>>) -> int {
    match extra {
        Some(h) => if h.len() >= 12 {
            little_endian(h[10], h[11])
        } else {
            0
        },
        None => 0,
    }
}

pub open spec fn bytes_view(extra: Option<&[u8]>) -> Option<Seq<u8>> {
    match extra {
        Some(h) => Some(h@),
        None => None,
    }
}

pub fn opus_pre_skip(extra_data: Option<&[u8]>) -> (r: u64)
    ensures
        r == pre_skip_of(bytes_view(extra_data)),
{
    match extra_data {
        Some(h) => if h.len() >= 12 {
            h[10] as u64 + 256 * (h[11] as u64)
        } else {
            0
        },
        None => 0,
    }
}

/// The gain that the header asks for, in steps of a decibel divided by 256;
/// none where the header is too short to say.
pub fn opus_gain_q8(extra_data: Option<&[u8]>) -> (r: Option<i16>)
    ensures
        r is Some == (bytes_view(extra_data) matches Some(h) && h.len() >= 18),
        r matches Some(g) ==> {
            let h = bytes_view(extra_data)->0;
            let n = little_endian(h[16], h[17]);
            g == (if n < 0x8000 {
                n
            } else {
                n - 0x10000
            })
        },
{
    match extra_data {
        Some(h) => if h.len() >= 18 {
            let n: i32 = h[16] as i32 + 256 * (h[17] as i32);
            let g: i32 = if n < 0x8000 {
                n
            } else {
                n - 0x10000
            };
            Some(g as i16)
        } else {
            None
        },
        None => None,
    }
}

/// A difference that does not go below zero.
pub open spec fn less(a: int, b: int) -> int {
    if a > b {
        a - b
    } else {
        0
    }
}

pub open spec fn or_none(n: Option<u32>) -> int {
    match n {
        Some(v) => v as int,
        None => 0,
    }
}

/// How many frames of a stream are heard, if it is known how many there are:
/// all but those at the start and the padding at the end. A stream that is a
/// single page has its padding where another has what is skipped at the
/// start.
pub open spec fn playable_of(
    encoded: Option<u64>,
    padding: Option<u32>,
    delay: Option<u32>,
    pre_skip: u64,
) -> Option<int> {
    match encoded {
        None => None,
        Some(n) => Some(
            less(
                less(less(n as int, pre_skip as int), or_none(padding)),
                if or_none(delay) != pre_skip {
                    or_none(delay)
                } else {
                    0
                },
            ),
        ),
    }
}

pub fn opus_playable_frames(
    encoded: Option<u64>,
    padding: Option<u32>,
    delay: Option<u32>,
    pre_skip: u64,
) -> (r: Option<u64>)
    ensures
        r is Some == encoded is Some,
        r matches Some(n) ==> playable_of(encoded, padding, delay, pre_skip) == Some(n as int),
{
    let total: u64 = match encoded {
        Some(n) => n,
        None => {
            return None;
        },
    };
    let end: u64 = match padding {
        Some(n) => n as u64,
        None => 0,
    };
    let one_page: u64 = match delay {
        Some(n) => if n as u64 != pre_skip {
            n as u64
        } else {
            0
        },
        None => 0,
    };
    Some(total.saturating_sub(pre_skip).saturating_sub(end).saturating_sub(one_page))
}

/// What is to be done with a packet.
#[derive(Clone, Copy, PartialEq, Eq, Structural, Debug)]
pub enum PacketStep {
    /// It is not for this stream, or holds nothing.
    Skip,
    /// It cannot be handled: the stream ends here.
    End,
    /// Decode it into this many samples.
    Decode { frames: usize, samples: usize },
}

/// Where the decoding of a stream is.
#[derive(Debug)]
pub struct OpusCursor {
    pub channels: u16,
    pub pre_skip: u64,
    /// How many frames are heard, if that is known.
    pub playable_frames: Option<u64>,
    /// How many frames were handed out.
    pub output_position_frames: u64,
    /// How many frames are still to be dropped.
    pub discard_frames: u64,
    pub done: bool,
}

/// How many frames may still be handed out, if there is a limit.
pub open spec fn left_of(c: OpusCursor) -> Option<int> {
    match c.playable_frames {
        Some(total) => Some(less(total as int, c.output_position_frames as int)),
        None => None,
    }
}

pub open spec fn smaller(a: int, b: int) -> int {
    if a < b {
        a
    } else {
        b
    }
}

/// Which frames of a decoded packet are heard: from behind those that are to
/// be dropped, as many as may still be handed out.
pub open spec fn heard(c: OpusCursor, frames: int) -> (int, int) {
    let start = smaller(c.discard_frames as int, frames);
    let end = match left_of(c) {
        Some(n) => smaller(frames, start + n),
        None => frames,
    };
    (start, end)
}

/// Why a stream cannot be played.
#[derive(Clone, Copy, PartialEq, Eq, Structural, Debug)]
pub enum OpusError {
    /// It is not mono or stereo.
    Channels(u16),
}

pub open spec fn channel_error_text(channels: u16) -> Seq<char> {
    "Opus track has "@ + crate::text::decimal(channels as nat)
        + " channels; only mono and stereo are supported"@
}

impl OpusError {
    pub fn message(&self) -> (r: String)
        ensures
            *self matches OpusError::Channels(n) ==> r@ == channel_error_text(n),
    {
        match self {
            OpusError::Channels(n) => {
                let mut out = "Opus track has ".to_owned();
                out.append(crate::text::decimal_text(*n as u64).as_str());
                out.append(" channels; only mono and stereo are supported");
                proof {
                    assert(out@ =~= channel_error_text(*n));
                }
                out
            },
        }
    }
}

/// What is heard of decoded frames.
pub open spec fn hears_frames(
    a: OpusCursor,
    b: OpusCursor,
    frames: usize,
    samples: usize,
    r: Option<(usize, usize)>,
) -> bool {
    &&& r is Some == (heard(a, frames as int).0 < heard(a, frames as int).1)
    &&& r matches Some(s) ==> {
        &&& s.0 == heard(a, frames as int).0 * a.channels
        &&& s.1 == smaller(
            heard(a, frames as int).1 * a.channels,
            samples as int,
        )
    }
    &&& b.channels == a.channels
    &&& b.pre_skip == a.pre_skip
    &&& b.playable_frames == a.playable_frames
    &&& b.discard_frames == a.discard_frames - heard(
        a,
        frames as int,
    ).0
    &&& b.output_position_frames == (if r is Some {
        smaller(
            a.output_position_frames + heard(a, frames as int).1 - heard(
                a,
                frames as int,
            ).0,
            u64::MAX as int,
        )
    } else {
        a.output_position_frames as int
    })
    &&& b.done == (a.done || (a.playable_frames matches Some(total)
        && b.output_position_frames >= total))
}

/// The frame that a seek aims at, and the one from which is decoded.
pub open spec fn aims(c: OpusCursor, requested: u64, r: (u64, u64)) -> bool {
    &&& r.0 == seek_frame(c, requested)
    &&& r.1 == less(
        smaller(seek_frame(c, requested) + c.pre_skip, u64::MAX as int),
        OPUS_SEEK_PREROLL_FRAMES as int,
    )
}

/// What a seek changes.
pub open spec fn seeks(a: OpusCursor, b: OpusCursor, target: u64, actual: u64) -> bool {
    &&& b.channels == a.channels
    &&& b.pre_skip == a.pre_skip
    &&& b.playable_frames == a.playable_frames
    &&& b.output_position_frames == target
    &&& b.discard_frames == less(
        smaller(target + a.pre_skip, u64::MAX as int),
        actual as int,
    )
    &&& !b.done
}

/// What is done with a packet.
pub open spec fn takes_packet(
    a: OpusCursor,
    b: OpusCursor,
    same_track: bool,
    duration: u64,
    r: PacketStep,
) -> bool {
    &&& r == (if !same_track {
        PacketStep::Skip
    } else if duration > usize::MAX {
        PacketStep::End
    } else if duration == 0 {
        PacketStep::Skip
    } else if duration * a.channels > usize::MAX {
        PacketStep::End
    } else {
        PacketStep::Decode {
            frames: duration as usize,
            samples: (duration * a.channels) as usize,
        }
    })
    &&& b.done == (a.done || r == PacketStep::End)
    &&& (OpusCursor { done: a.done, ..b }) == a
}

impl OpusCursor {
    /// The start of a stream: what it skips at the start is still to be
    /// dropped. Only mono and stereo can be played.
    pub fn new(channels: u16, pre_skip: u64, playable_frames: Option<u64>) -> (r: Result<
        Self,
        OpusError,
    >)
        ensures
            match r {
                Ok(c) => (1 <= channels <= 2) && c == (OpusCursor {
                    channels,
                    pre_skip,
                    playable_frames,
                    output_position_frames: 0,
                    discard_frames: pre_skip,
                    done: false,
                }),
                Err(e) => !(1 <= channels <= 2) && e == OpusError::Channels(channels),
            },
    {
        if channels < 1 || channels > 2 {
            return Err(OpusError::Channels(channels));
        }
        Ok(
            OpusCursor {
                channels,
                pre_skip,
                playable_frames,
                output_position_frames: 0,
                discard_frames: pre_skip,
                done: false,
            },
        )
    }

    /// Looks at a packet before it is decoded.
    pub fn packet(&mut self, same_track: bool, duration: u64) -> (r: PacketStep)
        ensures
            takes_packet(*old(self), *final(self), same_track, duration, r),
    {
        if !same_track {
            return PacketStep::Skip;
        }
        if duration > usize::MAX as u64 {
            self.done = true;
            return PacketStep::End;
        }
        let frames: usize = duration as usize;
        if frames == 0 {
            return PacketStep::Skip;
        }
        match frames.checked_mul(self.channels as usize) {
            Some(samples) => PacketStep::Decode { frames, samples },
            None => {
                self.done = true;
                PacketStep::End
            },
        }
    }

    /// The stream has ended, or cannot be read on.
    pub fn ended(&mut self)
        ensures
            final(self).done,
            (OpusCursor { done: old(self).done, ..*final(self) }) == *old(self),
    {
        self.done = true;
    }

    /// Takes a decoded packet, of so many frames in a buffer of so many
    /// samples: gives which samples of the buffer are heard, if any are.
    pub fn decoded(&mut self, frames: usize, samples: usize) -> (r: Option<(usize, usize)>)
        requires
            heard(*old(self), frames as int).0 * old(self).channels <= samples,
        ensures
            hears_frames(*old(self), *final(self), frames, samples, r),
    {
        let start: usize = if self.discard_frames < frames as u64 {
            self.discard_frames as usize
        } else {
            frames
        };
        self.discard_frames = self.discard_frames - start as u64;
        let end: usize = match self.playable_frames {
            Some(total) => {
                let left: u64 = total.saturating_sub(self.output_position_frames);
                if left < (frames - start) as u64 {
                    start + left as usize
                } else {
                    frames
                }
            },
            None => frames,
        };
        if start >= end {
            if let Some(total) = self.playable_frames {
                if self.output_position_frames >= total {
                    self.done = true;
                }
            }
            return None;
        }
        self.output_position_frames = self.output_position_frames.saturating_add(
            (end - start) as u64,
        );
        if let Some(total) = self.playable_frames {
            if self.output_position_frames >= total {
                self.done = true;
            }
        }
        let channels: usize = self.channels as usize;
        let stop: usize = match end.checked_mul(channels) {
            Some(n) => if n < samples {
                n
            } else {
                samples
            },
            None => samples,
        };
        Some((start * channels, stop))
    }

    /// Where a seek to a frame goes: the frame itself, at the end of what is
    /// heard at most, and where the container is to be read from.
    pub fn seek_target(&self, requested: u64) -> (r: (u64, u64))
        ensures
            aims(*self, requested, r),
    {
        let target: u64 = match self.playable_frames {
            Some(total) => if requested < total {
                requested
            } else {
                total
            },
            None => requested,
        };
        let raw: u64 = target.saturating_add(self.pre_skip);
        (target, raw.saturating_sub(OPUS_SEEK_PREROLL_FRAMES))
    }

    /// The container was moved for a seek: what it stands before the frame is
    /// dropped.
    pub fn seeked(&mut self, target: u64, actual: u64)
        ensures
            seeks(*old(self), *final(self), target, actual),
    {
        let raw: u64 = target.saturating_add(self.pre_skip);
        self.output_position_frames = target;
        self.discard_frames = raw.saturating_sub(actual);
        self.done = false;
    }
}

/// The frame that a seek lands on.
pub open spec fn seek_frame(c: OpusCursor, requested: u64) -> int {
    match c.playable_frames {
        Some(total) => smaller(requested as int, total as int),
        None => requested as int,
    }
}

/// What is handed out of a packet never goes beyond what is heard of the
/// stream.
pub proof fn law_never_plays_past_the_end(c: OpusCursor, frames: int, total: u64)
    requires
        frames >= 0,
        c.playable_frames == Some(total),
        c.output_position_frames <= total,
    ensures
        heard(c, frames).0 <= frames,
        heard(c, frames).1 <= frames,
        heard(c, frames).0 < heard(c, frames).1 ==> c.output_position_frames + (heard(
            c,
            frames,
        ).1 - heard(c, frames).0) <= total,
{
}

/// A seek never lands behind the end of what is heard, and a read from where
/// it sends the container reaches the frame after dropping what it says.
pub proof fn law_seek_lands_on_the_frame(c: OpusCursor, requested: u64)
    requires
        seek_frame(c, requested) + c.pre_skip <= u64::MAX,
    ensures
        c.playable_frames matches Some(total) ==> seek_frame(c, requested) <= total,
        ({
            let raw = seek_frame(c, requested) + c.pre_skip;
            let from = less(raw, OPUS_SEEK_PREROLL_FRAMES as int);
            from + less(raw, from) == raw
        }),
{
}

} // verus!
