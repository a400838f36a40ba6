//! What the analyzer of the sound publishes: levels, and a ring of recent
//! samples.

use vstd::prelude::*;

verus! {

/// How many samples the ring holds.
pub const SCOPE_SAMPLES: usize = 256;

/// The published state. A level is in millionths.
#[derive(Debug)]
pub struct AnalyzerShared {
    pub sequence: u64,
    pub energy: u32,
    pub bass: u32,
    pub mid: u32,
    pub treble: u32,
    pub beat: u32,
    /// How many samples were written to the ring, and so where the next goes.
    pub scope_write: usize,
    pub scope: Vec<i16>,
}

/// What a new sample changes.
pub open spec fn pushes(a: AnalyzerShared, b: AnalyzerShared, sample: i16) -> bool {
    &&& b.wf()
    &&& b.scope_write == (a.scope_write + 1) % (usize::MAX + 1)
    &&& b.scope@ == a.scope@.update(
        a.scope_write as int % SCOPE_SAMPLES as int,
        sample,
    )
    &&& b.sequence == a.sequence
    &&& b.energy == a.energy
    &&& b.bass == a.bass
    &&& b.mid == a.mid
    &&& b.treble == a.treble
    &&& b.beat == a.beat
}

impl AnalyzerShared {
    pub open spec fn wf(&self) -> bool {
        self.scope@.len() == SCOPE_SAMPLES
    }

    /// The samples of the ring, the oldest first.
    pub open spec fn recent(&self) -> Seq<i16> {
        Seq::new(
            self.scope@.len(),
            |k: int| self.scope@[(self.scope_write + k) % (self.scope@.len() as int)],
        )
    }

    /// Back to silence.
    pub fn clear(&mut self)
        ensures
            final(self).sequence == 0,
            final(self).energy == 0,
            final(self).bass == 0,
            final(self).mid == 0,
            final(self).treble == 0,
            final(self).beat == 0,
            final(self).scope_write == 0,
            final(self).scope@.len() == old(self).scope@.len(),
            forall|i: int| 0 <= i < final(self).scope@.len() ==> final(self).scope@[i] == 0,
    {
        self.energy = 0;
        self.bass = 0;
        self.mid = 0;
        self.treble = 0;
        self.beat = 0;
        self.scope_write = 0;
        self.sequence = 0;
        let size: usize = self.scope.len();
        self.scope = silence(size);
    }

    /// Publishes the levels of a window.
    pub fn store_levels(&mut self, energy: u32, bass: u32, mid: u32, treble: u32, beat: u32)
        ensures
            final(self).sequence == (old(self).sequence + 1) % 0x1_0000_0000_0000_0000,
            final(self).energy == energy,
            final(self).bass == bass,
            final(self).mid == mid,
            final(self).treble == treble,
            final(self).beat == beat,
            final(self).scope_write == old(self).scope_write,
            final(self).scope@ == old(self).scope@,
    {
        self.energy = energy;
        self.bass = bass;
        self.mid = mid;
        self.treble = treble;
        self.beat = beat;
        self.sequence = self.sequence.wrapping_add(1);
    }

    /// Puts a sample into the ring, in place of the oldest.
    pub fn push_scope(&mut self, sample: i16)
        requires
            old(self).wf(),
        ensures
            pushes(*old(self), *final(self), sample),
    {
        let index: usize = self.scope_write % SCOPE_SAMPLES;
        self.scope_write = self.scope_write.wrapping_add(1);
        self.scope[index] = sample;
    }

    /// The samples of the ring, the oldest first.
    pub fn recent_samples(&self) -> (r: Vec<i16>)
        requires
            self.wf(),
        ensures
            r@ == self.recent(),
    {
        let start: usize = self.scope_write % SCOPE_SAMPLES;
        let mut out: Vec<i16> = Vec::new();
        let mut k: usize = 0;
        while k < SCOPE_SAMPLES
            invariant
                self.wf(),
                k <= SCOPE_SAMPLES,
                start == self.scope_write % SCOPE_SAMPLES,
                out@ == self.recent().take(k as int),
            decreases SCOPE_SAMPLES - k,
        {
            let index: usize = (start + k) % SCOPE_SAMPLES;
            out.push(self.scope[index]);
            proof {
                vstd::arithmetic::div_mod::lemma_add_mod_noop(
                    self.scope_write as int,
                    k as int,
                    SCOPE_SAMPLES as int,
                );
                vstd::arithmetic::div_mod::lemma_small_mod(k as nat, SCOPE_SAMPLES as nat);
                assert(self.recent()[k as int] == self.scope@[index as int]);
                assert(out@ =~= self.recent().take(k + 1));
            }
            k += 1;
        }
        proof {
            assert(self.recent().take(SCOPE_SAMPLES as int) =~= self.recent());
        }
        out
    }
}

fn silence(size: usize) -> (r: Vec<i16>)
    ensures
        r@.len() == size,
        forall|i: int| 0 <= i < size ==> r@[i] == 0,
{
    let mut out: Vec<i16> = Vec::new();
    let mut i: usize = 0;
    while i < size
        invariant
            i <= size,
            out@.len() == i,
            forall|k: int| 0 <= k < i ==> out@[k] == 0,
        decreases size - i,
    {
        out.push(0);
        i += 1;
    }
    out
}

impl Default for AnalyzerShared {
    fn default() -> (r: Self)
        ensures
            r.wf(),
            r.sequence == 0,
            r.energy == 0,
            r.bass == 0,
            r.mid == 0,
            r.treble == 0,
            r.beat == 0,
            r.scope_write == 0,
            forall|i: int| 0 <= i < r.scope@.len() ==> r.scope@[i] == 0,
    {
        AnalyzerShared {
            sequence: 0,
            energy: 0,
            bass: 0,
            mid: 0,
            treble: 0,
            beat: 0,
            scope_write: 0,
            scope: silence(SCOPE_SAMPLES),
        }
    }
}

/// Counts samples into frames, frames into windows and into the samples of
/// the ring.
#[derive(Debug)]
pub struct FrameCounter {
    pub channels: usize,
    pub channel_index: usize,
    pub frame_count: usize,
    pub window_frames: usize,
    pub scope_counter: usize,
    pub scope_stride: usize,
}

/// What a sample completed.
#[derive(Clone, Copy, PartialEq, Eq, Structural, Debug)]
pub struct Completed {
    /// All channels of a frame are there.
    pub frame: bool,
    /// The frame goes into the ring.
    pub scope: bool,
    /// The window is full and is published.
    pub window: bool,
}

/// What one more sample completes.
pub open spec fn counts_sample(a: FrameCounter, b: FrameCounter, r: Completed) -> bool {
    &&& b.wf()
    &&& r.frame == (a.channel_index + 1 == a.channels)
    &&& r.scope == (r.frame && a.scope_counter + 1 == a.scope_stride)
    &&& r.window == (r.frame && a.frame_count + 1 == a.window_frames)
    &&& b == (FrameCounter {
        channel_index: if r.frame {
            0
        } else {
            (a.channel_index + 1) as usize
        },
        frame_count: if r.window {
            0
        } else if r.frame {
            (a.frame_count + 1) as usize
        } else {
            a.frame_count
        },
        scope_counter: if r.scope {
            0
        } else if r.frame {
            (a.scope_counter + 1) as usize
        } else {
            a.scope_counter
        },
        ..a
    })
}

impl FrameCounter {
    pub open spec fn wf(&self) -> bool {
        &&& self.channels >= 1
        &&& self.window_frames >= 1
        &&& self.scope_stride >= 1
        &&& self.channel_index < self.channels
        &&& self.frame_count < self.window_frames
        &&& self.scope_counter < self.scope_stride
    }

    /// A counter for a format; there is always at least one channel.
    pub fn new(channels: usize, window_frames: usize, scope_stride: usize) -> (r: Self)
        requires
            window_frames >= 1,
            scope_stride >= 1,
        ensures
            r.wf(),
            r.channels == (if channels >= 1 {
                channels
            } else {
                1
            }),
            r.window_frames == window_frames,
            r.scope_stride == scope_stride,
            r.channel_index == 0,
            r.frame_count == 0,
            r.scope_counter == 0,
    {
        FrameCounter {
            channels: if channels >= 1 {
                channels
            } else {
                1
            },
            channel_index: 0,
            frame_count: 0,
            window_frames,
            scope_counter: 0,
            scope_stride,
        }
    }

    /// Starts over within the same format.
    pub fn reset(&mut self)
        requires
            old(self).wf(),
        ensures
            final(self).wf(),
            *final(self) == (FrameCounter {
                channel_index: 0,
                frame_count: 0,
                scope_counter: 0,
                ..*old(self)
            }),
    {
        self.channel_index = 0;
        self.frame_count = 0;
        self.scope_counter = 0;
    }

    /// One more sample.
    pub fn sample(&mut self) -> (r: Completed)
        requires
            old(self).wf(),
        ensures
            counts_sample(*old(self), *final(self), r),
    {
        self.channel_index += 1;
        if self.channel_index < self.channels {
            return Completed { frame: false, scope: false, window: false };
        }
        self.channel_index = 0;
        self.frame_count += 1;
        self.scope_counter += 1;
        let scope = self.scope_counter >= self.scope_stride;
        if scope {
            self.scope_counter = 0;
        }
        let window = self.frame_count >= self.window_frames;
        if window {
            self.frame_count = 0;
        }
        Completed { frame: true, scope, window }
    }
}

} // verus!
