//! Shared playback state reported while one track fades into the next.

use vstd::prelude::*;

verus! {

/// What the player and user interface treat as current during a crossfade.
pub struct CrossfadeState {
    /// Path of the track the user interface and player treat as current;
    /// updated when the fade starts, not when the outgoing track ends.
    pub current_path: Option<String>,
    /// Playback position within `current_path`.
    pub position: std::time::Duration,
    /// Total duration of `current_path`.
    pub duration: Option<std::time::Duration>,
    /// Whether the outgoing track still has a pending next source attached.
    pub pending_next: bool,
    /// Latched when the logical track changes (fade start); cleared by the
    /// player.
    pub track_switched: bool,
}

/// An optional path as text.
pub open spec fn path_view(p: Option<String>) -> Option<Seq<char>> {
    match p {
        Some(s) => Some(s@),
        None => None,
    }
}

impl CrossfadeState {
    /// The fade into `next_path` has begun: report the incoming track, at
    /// `position` of `duration`, with its source still attached as the
    /// pending next one, and latch the switch.
    pub fn latch_fade_start(
        &mut self,
        next_path: Option<String>,
        position: std::time::Duration,
        duration: Option<std::time::Duration>,
    )
        ensures
            final(self).current_path == next_path,
            final(self).position == position,
            final(self).duration == duration,
            final(self).pending_next,
            final(self).track_switched,
    {
        self.current_path = next_path;
        self.position = position;
        self.duration = duration;
        self.pending_next = true;
        self.track_switched = true;
    }

    /// The next source became current after the outgoing one ended: report
    /// it, with nothing pending, and latch a switch unless the fade start
    /// already reported this track.
    pub fn latch_promotion(
        &mut self,
        next_path: Option<String>,
        position: std::time::Duration,
        duration: Option<std::time::Duration>,
    )
        ensures
            final(self).current_path == next_path,
            final(self).position == position,
            final(self).duration == duration,
            !final(self).pending_next,
            final(self).track_switched == (old(self).track_switched || path_view(old(self).current_path) != path_view(
                next_path,
            )),
    {
        let already = match (&self.current_path, &next_path) {
            (Some(a), Some(b)) => *a == *b,
            (None, None) => true,
            _ => false,
        };
        self.current_path = next_path;
        self.position = position;
        self.duration = duration;
        self.pending_next = false;
        if !already {
            self.track_switched = true;
        }
    }

    /// Take the latched track switch, clearing it.
    pub fn take_track_switched(&mut self) -> (r: bool)
        ensures
            r == old(self).track_switched,
            !final(self).track_switched,
            final(self).current_path == old(self).current_path,
            final(self).position == old(self).position,
            final(self).duration == old(self).duration,
            final(self).pending_next == old(self).pending_next,
    {
        let was = self.track_switched;
        self.track_switched = false;
        was
    }
}

} // verus!
