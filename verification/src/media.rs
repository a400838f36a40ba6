//! The media keys of the system.

use vstd::prelude::*;

verus! {

/// A command from the media keys.
#[derive(Clone, Copy, PartialEq, Eq, Structural, Debug)]
pub enum MediaCommand {
    TogglePause,
    Play,
    Pause,
    Next,
    Previous,
    Stop,
}

/// What the system is told of the playback.
#[derive(Clone, Copy, PartialEq, Eq, Structural, Debug)]
pub enum Playback {
    Stopped,
    Paused,
    Playing,
}

/// What the system is told: stopped if nothing plays, else paused or playing.
pub fn playback_of(playing: bool, paused: bool) -> (r: Playback)
    ensures
        r == (if !playing {
            Playback::Stopped
        } else if paused {
            Playback::Paused
        } else {
            Playback::Playing
        }),
{
    if !playing {
        Playback::Stopped
    } else if paused {
        Playback::Paused
    } else {
        Playback::Playing
    }
}

} // verus!
