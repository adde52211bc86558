//! Listen sessions: why one ends, and what its end is recorded as.

use vstd::prelude::*;

verus! {

/// Why a listen session is being closed.
#[derive(Clone, Copy, PartialEq, Eq, Structural, Debug)]
pub enum ListenEndReason {
    /// Track reached the end (or crossfade handoff counted as completion).
    Completed,
    /// User skipped to another track before the listen threshold.
    Skipped,
    /// Pause-away / stop / new selection / app close — credit seconds only.
    Partial,
}

/// How a closed listen session counts, as `(completed, skipped)`, given why
/// it ended and whether it was listened to long enough (30 seconds, or half
/// the track when its duration is known). A natural end always completes; a
/// skip after listening long enough counts as completed instead; a partial
/// session completes when listened to long enough and is never a skip.
pub fn listen_outcome(reason: ListenEndReason, listened_enough: bool) -> (r: (bool, bool))
    ensures
        r == match reason {
            ListenEndReason::Completed => (true, false),
            ListenEndReason::Skipped => if listened_enough {
                (true, false)
            } else {
                (false, true)
            },
            ListenEndReason::Partial => (listened_enough, false),
        },
        !(r.0 && r.1),
{
    match reason {
        ListenEndReason::Completed => (true, false),
        ListenEndReason::Skipped => {
            if listened_enough {
                (true, false)
            } else {
                (false, true)
            }
        },
        ListenEndReason::Partial => (listened_enough, false),
    }
}

} // verus!
