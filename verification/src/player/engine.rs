//! What the audio thread does with a command, and when it reports that a
//! track has ended. The device and the decoder are driven from outside: each
//! function says which calls come next.

use vstd::prelude::*;

verus! {

#[derive(Debug)]
pub enum PlayerEvent {
    /// A track played to its end. `has_next` is true when a source was
    /// already queued behind it and is now playing.
    TrackFinished { has_next: bool },
    Failed(String),
}

/// A command for the engine. What is to be played and how loud stays with the
/// one who drives the device.
#[derive(Clone, Copy, PartialEq, Eq, Structural, Debug)]
pub enum Command {
    Play,
    /// Puts the next track behind the current one.
    Enqueue,
    TogglePause,
    Pause,
    Resume,
    Stop,
    /// To a position in milliseconds.
    Seek(u64),
    SetVolume,
}

/// One call of the player of the device.
#[derive(Clone, Copy, PartialEq, Eq, Structural, Debug)]
pub enum PlayerCall {
    Stop,
    SetVolume,
    Append,
    Play,
    Pause,
    Seek(u64),
}

/// What is to be done next.
#[derive(Debug)]
pub enum Next {
    /// Open the device, and say how that went.
    OpenDevice,
    /// Decode the track, and say how that went.
    Decode,
    /// Make these calls, in this order.
    Calls(Vec<PlayerCall>),
    /// Report this.
    Report(PlayerEvent),
    Nothing,
}

/// The playback state that others read.
#[derive(Debug)]
pub struct Shared {
    pub position_ms: u64,
    pub paused: bool,
}

impl Default for Shared {
    fn default() -> (r: Self)
        ensures
            r.position_ms == 0,
            !r.paused,
    {
        Shared { position_ms: 0, paused: false }
    }
}

impl Shared {
    /// The position in milliseconds.
    pub fn position(&self) -> (r: u64)
        ensures
            r == self.position_ms,
    {
        self.position_ms
    }

    pub fn paused(&self) -> (r: bool)
        ensures
            r == self.paused,
    {
        self.paused
    }
}

/// The state of the engine.
#[derive(Debug)]
pub struct Engine {
    /// Whether the device is open. It is opened at the first playback.
    pub open: bool,
    pub track_loaded: bool,
    /// How many sources the player held when it was last looked at.
    pub last_len: usize,
}

impl Default for Engine {
    fn default() -> (r: Self)
        ensures
            !r.open,
            !r.track_loaded,
            r.last_len == 0,
    {
        Engine { open: false, track_loaded: false, last_len: 0 }
    }
}

/// The engine after a command that left so many sources.
pub open spec fn after_command(e: Engine, len: usize) -> Engine {
    Engine {
        last_len: if e.open {
            len
        } else {
            0
        },
        ..e
    }
}

/// How many tracks ended since the player was last looked at, when there are
/// so many sources now.
pub open spec fn ended_since(e: Engine, len: usize) -> int {
    if e.open && e.track_loaded && len < e.last_len {
        e.last_len - len
    } else {
        0
    }
}

fn one(call: PlayerCall) -> (r: Next)
    ensures
        r matches Next::Calls(v) && v@ == seq![call],
{
    let mut calls: Vec<PlayerCall> = Vec::new();
    calls.push(call);
    proof {
        assert(calls@ =~= seq![call]);
    }
    Next::Calls(calls)
}

/// The calls that a command asks for on an open device.
pub open spec fn calls_for(command: Command, paused: bool) -> Seq<PlayerCall> {
    match command {
        Command::TogglePause => if paused {
            seq![PlayerCall::Play]
        } else {
            seq![PlayerCall::Pause]
        },
        Command::Pause => seq![PlayerCall::Pause],
        Command::Resume => seq![PlayerCall::Play],
        Command::Stop => seq![PlayerCall::Stop],
        Command::Seek(ms) => seq![PlayerCall::Seek(ms)],
        Command::SetVolume => seq![PlayerCall::SetVolume],
        _ => Seq::empty(),
    }
}

/// A message with what went wrong.
pub open spec fn failure(what: Seq<char>, why: Seq<char>) -> Seq<char> {
    what + why
}

fn failed(what: &str, why: &str) -> (r: Next)
    ensures
        r matches Next::Report(PlayerEvent::Failed(m)) && m@ == failure(what@, why@),
{
    let mut message = what.to_owned();
    message.append(why);
    Next::Report(PlayerEvent::Failed(message))
}

/// What is done with a command.
pub open spec fn handles(a: Engine, b: Engine, command: Command, paused: bool, r: Next) -> bool {
    &&& b.open == a.open
    &&& b.last_len == a.last_len
    &&& b.track_loaded == (a.track_loaded && command != Command::Stop)
    &&& match command {
        Command::Play => if a.open {
            r is Decode
        } else {
            r is OpenDevice
        },
        Command::Enqueue => if a.open {
            r is Decode
        } else {
            r is Nothing
        },
        _ => if a.open {
            r matches Next::Calls(v) && v@ == calls_for(command, paused)
        } else {
            r is Nothing
        },
    }
}

/// What follows the attempt to open the device.
pub open spec fn opens(a: Engine, b: Engine, result: Result<(), String>, r: Next) -> bool {
    &&& b.track_loaded == a.track_loaded
    &&& b.last_len == a.last_len
    &&& match result {
        Ok(_) => b.open && r is Decode,
        Err(e) => b.open == a.open && (r matches Next::Report(
            PlayerEvent::Failed(m),
        ) && m@ == failure("no audio device: "@, e@)),
    }
}

/// What follows the attempt to decode a track.
pub open spec fn takes_decoded(
    a: Engine,
    b: Engine,
    queued: bool,
    result: Result<(), String>,
    r: Next,
) -> bool {
    &&& b.open == a.open
    &&& b.last_len == a.last_len
    &&& b.track_loaded == (a.track_loaded || (result is Ok && !queued))
    &&& match result {
        Ok(_) => r matches Next::Calls(v) && v@ == (if queued {
            seq![PlayerCall::Append]
        } else {
            seq![
                PlayerCall::Stop,
                PlayerCall::SetVolume,
                PlayerCall::Append,
                PlayerCall::Play,
            ]
        }),
        Err(e) => r matches Next::Report(PlayerEvent::Failed(m)) && m@ == failure(
            if queued {
                "cannot decode next track: "@
            } else {
                "cannot decode track: "@
            },
            e@,
        ),
    }
}

/// What is reported and shown at a tick.
pub open spec fn ticks(
    a: Engine,
    b: Engine,
    position_ms: u64,
    paused: bool,
    len: usize,
    x: Shared,
    y: Shared,
    r: Seq<PlayerEvent>,
) -> bool {
    &&& b.open == a.open
    &&& !a.open ==> b == a && y == x
    &&& r.len() == ended_since(a, len)
    &&& a.open ==> {
        let ended = ended_since(a, len) > 0;
        &&& y.position_ms == position_ms
        &&& y.paused == paused
        &&& b.last_len == len
        &&& b.track_loaded == (a.track_loaded && !(ended && len == 0))
        &&& forall|i: int|
            0 <= i < r.len() ==> (#[trigger] r[i] matches PlayerEvent::TrackFinished {
                has_next,
            } && has_next == (len > 0))
    }
}

impl Engine {
    /// What a command asks for. A track is played on a device that is open,
    /// so the device is opened first; every other command does nothing
    /// without one. `paused` says whether the player is paused.
    pub fn handle(&mut self, command: Command, paused: bool) -> (r: Next)
        ensures
            handles(*old(self), *final(self), command, paused, r),
    {
        match command {
            Command::Play => if self.open {
                Next::Decode
            } else {
                Next::OpenDevice
            },
            Command::Enqueue => if self.open {
                Next::Decode
            } else {
                Next::Nothing
            },
            Command::TogglePause => if !self.open {
                Next::Nothing
            } else if paused {
                one(PlayerCall::Play)
            } else {
                one(PlayerCall::Pause)
            },
            Command::Pause => if self.open {
                one(PlayerCall::Pause)
            } else {
                Next::Nothing
            },
            Command::Resume => if self.open {
                one(PlayerCall::Play)
            } else {
                Next::Nothing
            },
            Command::Stop => {
                self.track_loaded = false;
                if self.open {
                    one(PlayerCall::Stop)
                } else {
                    Next::Nothing
                }
            },
            Command::Seek(ms) => if self.open {
                one(PlayerCall::Seek(ms))
            } else {
                Next::Nothing
            },
            Command::SetVolume => if self.open {
                one(PlayerCall::SetVolume)
            } else {
                Next::Nothing
            },
        }
    }

    /// The device was opened for playback, or could not be.
    pub fn device_opened(&mut self, result: Result<(), String>) -> (r: Next)
        ensures
            opens(*old(self), *final(self), result, r),
    {
        match result {
            Ok(_) => {
                self.open = true;
                Next::Decode
            },
            Err(e) => failed("no audio device: ", e.as_str()),
        }
    }

    /// The track was decoded, or could not be. A track that is to be played
    /// now takes the place of whatever plays; one that is queued goes behind.
    pub fn decoded(&mut self, queued: bool, result: Result<(), String>) -> (r: Next)
        ensures
            takes_decoded(*old(self), *final(self), queued, result, r),
    {
        match result {
            Ok(_) => {
                if queued {
                    one(PlayerCall::Append)
                } else {
                    self.track_loaded = true;
                    let mut calls: Vec<PlayerCall> = Vec::new();
                    calls.push(PlayerCall::Stop);
                    calls.push(PlayerCall::SetVolume);
                    calls.push(PlayerCall::Append);
                    calls.push(PlayerCall::Play);
                    proof {
                        assert(calls@ =~= seq![
                            PlayerCall::Stop,
                            PlayerCall::SetVolume,
                            PlayerCall::Append,
                            PlayerCall::Play,
                        ]);
                    }
                    Next::Calls(calls)
                }
            },
            Err(e) => if queued {
                failed("cannot decode next track: ", e.as_str())
            } else {
                failed("cannot decode track: ", e.as_str())
            },
        }
    }

    /// A command was carried out. It may have changed how many sources there
    /// are; that is no track that ended.
    pub fn commanded(&mut self, len: usize)
        ensures
            *final(self) == after_command(*old(self), len),
    {
        self.last_len = if self.open {
            len
        } else {
            0
        };
    }

    /// Looks at the player between commands: takes over its position and
    /// whether it is paused, and gives a report for each track that ended.
    /// Without a device there is nothing to look at.
    pub fn tick(&mut self, position_ms: u64, paused: bool, len: usize, shared: &mut Shared) -> (r:
        Vec<PlayerEvent>)
        ensures
            ticks(
                *old(self),
                *final(self),
                position_ms,
                paused,
                len,
                *old(shared),
                *final(shared),
                r@,
            ),
    {
        let mut events: Vec<PlayerEvent> = Vec::new();
        if !self.open {
            return events;
        }
        shared.position_ms = position_ms;
        shared.paused = paused;
        if self.track_loaded && len < self.last_len {
            if len == 0 {
                self.track_loaded = false;
            }
            let mut k: usize = len;
            let last: usize = self.last_len;
            while k < last
                invariant
                    len <= k <= last,
                    events@.len() == k - len,
                    forall|i: int|
                        0 <= i < events@.len() ==> (#[trigger] events@[i] matches PlayerEvent::TrackFinished {
                            has_next,
                        } && has_next == (len > 0)),
                decreases last - k,
            {
                events.push(PlayerEvent::TrackFinished { has_next: len > 0 });
                k += 1;
            }
        }
        self.last_len = len;
        events
    }
}

/// What a command did to the number of sources is no track that ended. Whatever
/// the engine knew before, a look at the player behind a command reports
/// nothing as long as there are as many sources as the command left, and else
/// at most those that went since.
pub proof fn law_commands_end_no_track(before: Engine, left: usize, len: usize)
    ensures
        ended_since(after_command(before, left), left) == 0,
        len >= left ==> ended_since(after_command(before, left), len) == 0,
        len < left ==> ended_since(after_command(before, left), len) <= left - len,
{
}

} // verus!
