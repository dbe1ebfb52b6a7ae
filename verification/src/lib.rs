//! The playback sequencer of a small audio player: a registry of songs
//! keyed by stable handles, a priority bag holding the automatic play
//! order, a user queue, a single-slot pinned-next override, a bounded
//! history ring for stepping back, and the shuffle and loop policies
//! that tie them together.  Every operation carries a contract that
//! pins down the whole state transition, and the laws module states
//! and proves the properties the sequencer is designed around.
//!
//! Audio output, the terminal interface and the remote-control bus are
//! the caller's business: the sequencer answers "what plays now and
//! next" from plain values alone.

pub mod history;
pub mod laws;
pub mod parse;
pub mod queue;
pub mod registry;
pub mod song;
pub mod text;
pub mod timefmt;
pub mod uri;
pub mod util;

use vstd::prelude::*;

verus! {

/// A stable, opaque reference to a song held by the registry.
///
/// Handles are indices into the registry's slot vector; slots are never
/// reused, so a handle denotes the same song for the whole life of the
/// registry that issued it.
#[derive(Clone, Copy, PartialEq, Eq, Structural, Debug, Hash)]
pub struct Handle {
    pub id: usize,
}

/// A status line for the user interface: a fixed string or one built at
/// runtime.
pub enum Message {
    Static(&'static str),
    Dynamic(String),
}

impl View for Message {
    type V = Seq<char>;

    open spec fn view(&self) -> Seq<char> {
        match self {
            Message::Static(s) => s@,
            Message::Dynamic(s) => s@,
        }
    }
}

impl Message {
    /// A message built at runtime.
    pub fn new(s: String) -> (m: Message)
        ensures
            m@ == s@,
    {
        Message::Dynamic(s)
    }

    /// A fixed message.
    pub fn stc(s: &'static str) -> (m: Message)
        ensures
            m@ == s@,
    {
        Message::Static(s)
    }

    /// The message's text.
    pub fn as_str(&self) -> (r: &str)
        ensures
            r@ == self@,
    {
        match self {
            Message::Static(s) => *s,
            Message::Dynamic(s) => s.as_str(),
        }
    }
}

/// What the remote-control surface reports of playback.
#[derive(Clone, Copy, PartialEq, Eq, Structural, Debug)]
pub enum PlaybackStatus {
    Playing,
    Paused,
    Stopped,
}

/// Map the audio engine's flags to the reported status.  A finished or
/// empty engine is Stopped whatever the sequencer intends; otherwise
/// the engine's pause flag decides between Playing and Paused.
pub fn playback_status(playing: bool, finished: bool) -> (r: PlaybackStatus)
    ensures
        r == (if finished {
            PlaybackStatus::Stopped
        } else if playing {
            PlaybackStatus::Playing
        } else {
            PlaybackStatus::Paused
        }),
{
    if finished {
        PlaybackStatus::Stopped
    } else if playing {
        PlaybackStatus::Playing
    } else {
        PlaybackStatus::Paused
    }
}

} // verus!
