//! Playlist and lyrics backup files: which files an import accepts, what it
//! takes from each entry, and in which order a lyrics entry is matched to a
//! library track.

use vstd::prelude::*;

use crate::text::{decimal, decimal_string, push_str, str_eq, trim, trim_str};

verus! {

/// Most tracks a playlist backup may list.
pub const MAX_PLAYLIST_BACKUP_TRACKS: usize = 10000;

/// Most tracks a lyrics backup may list.
pub const MAX_LYRICS_BACKUP_TRACKS: usize = 50000;

/// Why a playlist backup with this format tag and number of tracks is
/// refused, or `None` when it is accepted.
pub open spec fn playlist_backup_error(format: Seq<char>, tracks: nat) -> Option<Seq<char>> {
    if format != "wave-playlist"@ {
        Some("Unsupported playlist format: "@ + format + " (expected wave-playlist)"@)
    } else if tracks > MAX_PLAYLIST_BACKUP_TRACKS {
        Some("Playlist has too many tracks ("@ + decimal(tracks) + "; max 10000)"@)
    } else {
        None
    }
}

/// Why a lyrics backup with this format tag, version and number of tracks
/// is refused, or `None` when it is accepted.
pub open spec fn lyrics_backup_error(format: Seq<char>, version: u32, tracks: nat) -> Option<Seq<char>> {
    if format != "wave-lyrics"@ {
        Some("Unsupported lyrics format: "@ + format + " (expected wave-lyrics)"@)
    } else if version != 1 && version != 2 {
        Some("Unsupported lyrics export version: "@ + decimal(version as nat) + " (expected 1 or 2)"@)
    } else if tracks > MAX_LYRICS_BACKUP_TRACKS {
        Some("Lyrics file has too many tracks ("@ + decimal(tracks) + "; max 50000)"@)
    } else {
        None
    }
}

/// `Ok` exactly when `error` is `None`; otherwise the error's text.
pub open spec fn refused_as(r: Result<(), String>, error: Option<Seq<char>>) -> bool {
    match error {
        None => r is Ok,
        Some(m) => r matches Err(e) && e@ == m,
    }
}

/// `prefix`, the decimal form of `n`, then `suffix`.
fn count_message(prefix: &str, n: u64, suffix: &str) -> (r: String)
    ensures
        r@ == prefix@ + decimal(n as nat) + suffix@,
{
    let mut m = String::from_str(prefix);
    push_str(&mut m, decimal_string(n).as_str());
    push_str(&mut m, suffix);
    m
}

/// `prefix`, `s`, then `suffix`.
fn quoted_message(prefix: &str, s: &str, suffix: &str) -> (r: String)
    ensures
        r@ == prefix@ + s@ + suffix@,
{
    let mut m = String::from_str(prefix);
    push_str(&mut m, s);
    push_str(&mut m, suffix);
    m
}

/// Check a playlist backup before importing it: its format tag must be
/// `wave-playlist` and it may list at most 10000 tracks.
pub fn check_playlist_backup(format: &str, track_count: usize) -> (r: Result<(), String>)
    ensures
        refused_as(r, playlist_backup_error(format@, track_count as nat)),
{
    if !str_eq(format, "wave-playlist") {
        Err(quoted_message("Unsupported playlist format: ", format, " (expected wave-playlist)"))
    } else if track_count > MAX_PLAYLIST_BACKUP_TRACKS {
        Err(count_message("Playlist has too many tracks (", track_count as u64, "; max 10000)"))
    } else {
        Ok(())
    }
}

/// Check a lyrics backup before importing it: its format tag must be
/// `wave-lyrics`, its version 1 or 2, and it may list at most 50000 tracks.
pub fn check_lyrics_backup(format: &str, version: u32, track_count: usize) -> (r: Result<(), String>)
    ensures
        refused_as(r, lyrics_backup_error(format@, version, track_count as nat)),
{
    if !str_eq(format, "wave-lyrics") {
        Err(quoted_message("Unsupported lyrics format: ", format, " (expected wave-lyrics)"))
    } else if version != 1 && version != 2 {
        Err(count_message("Unsupported lyrics export version: ", version as u64, " (expected 1 or 2)"))
    } else if track_count > MAX_LYRICS_BACKUP_TRACKS {
        Err(count_message("Lyrics file has too many tracks (", track_count as u64, "; max 50000)"))
    } else {
        Ok(())
    }
}

/// The lyrics an entry contributes, trimmed; `None` (the entry is skipped)
/// when they are blank.
pub fn lyrics_to_import(lyrics: &str) -> (r: Option<String>)
    ensures
        match r {
            None => trim(lyrics@).len() == 0,
            Some(t) => trim(lyrics@).len() > 0 && t@ == trim(lyrics@),
        },
{
    let t = trim_str(lyrics);
    if t.unicode_len() == 0 {
        None
    } else {
        Some(t)
    }
}

/// The lyrics source recorded for an imported entry: its own source,
/// trimmed, unless that is missing or blank; then `imported`.
pub open spec fn import_source_text(source: Option<String>) -> Seq<char> {
    match source {
        Some(s) => if trim(s@).len() > 0 {
            trim(s@)
        } else {
            "imported"@
        },
        None => "imported"@,
    }
}

/// The lyrics source recorded for an imported entry.
pub fn lyrics_source_for_import(source: &Option<String>) -> (r: String)
    ensures
        r@ == import_source_text(*source),
{
    match source {
        Some(s) => {
            let t = trim_str(s.as_str());
            if t.unicode_len() > 0 {
                t
            } else {
                String::from_str("imported")
            }
        },
        None => String::from_str("imported"),
    }
}

/// One way of finding the library track a lyrics entry belongs to.
#[derive(Clone, Copy, PartialEq, Eq, Structural, Debug)]
pub enum LyricsMatch {
    /// By the file fingerprint.
    Fingerprint,
    /// By artist, album and title (case-insensitive) with a duration within
    /// two seconds.
    TagsAndDuration,
    /// By artist, album and title (case-insensitive).
    Tags,
    /// By the legacy file path.
    Path,
    /// By the legacy library id.
    Id,
}

/// The lookups tried for an entry, in order, given which of its keys it
/// has: a fingerprint; usable tags (a title other than empty and
/// `Unknown`), and with them a usable duration; a legacy path; a legacy id.
pub open spec fn lyrics_match_order(
    fingerprint: bool,
    tagged: bool,
    timed: bool,
    path: bool,
    id: bool,
) -> Seq<LyricsMatch> {
    (if fingerprint {
        seq![LyricsMatch::Fingerprint]
    } else {
        Seq::empty()
    }) + (if tagged && timed {
        seq![LyricsMatch::TagsAndDuration]
    } else {
        Seq::empty()
    }) + (if tagged {
        seq![LyricsMatch::Tags]
    } else {
        Seq::empty()
    }) + (if path {
        seq![LyricsMatch::Path]
    } else {
        Seq::empty()
    }) + (if id {
        seq![LyricsMatch::Id]
    } else {
        Seq::empty()
    })
}

/// Whether an optional key is present and not empty.
pub open spec fn has_key(o: Option<String>) -> bool {
    o matches Some(k) && k@.len() > 0
}

/// Whether an optional key is present and not empty (exec).
fn key_present(o: &Option<String>) -> (r: bool)
    ensures
        r == has_key(*o),
{
    match o {
        Some(k) => k.unicode_len() > 0,
        None => false,
    }
}

/// The lookups to try, in order, for a lyrics entry with these keys; the
/// first that finds a track wins. `has_duration` says whether the entry's
/// duration is a finite number of seconds above zero.
pub fn lyrics_match_plan(
    fingerprint: &Option<String>,
    title: &str,
    has_duration: bool,
    path: &Option<String>,
    id: &Option<String>,
) -> (r: Vec<LyricsMatch>)
    ensures
        r@ == lyrics_match_order(
            has_key(*fingerprint),
            title@.len() > 0 && title@ != "Unknown"@,
            has_duration,
            has_key(*path),
            has_key(*id),
        ),
{
    let mut plan: Vec<LyricsMatch> = Vec::new();
    if key_present(fingerprint) {
        plan.push(LyricsMatch::Fingerprint);
    }
    let tagged = title.unicode_len() > 0 && !str_eq(title, "Unknown");
    if tagged && has_duration {
        plan.push(LyricsMatch::TagsAndDuration);
    }
    if tagged {
        plan.push(LyricsMatch::Tags);
    }
    if key_present(path) {
        plan.push(LyricsMatch::Path);
    }
    if key_present(id) {
        plan.push(LyricsMatch::Id);
    }
    assert(plan@ =~= lyrics_match_order(
        has_key(*fingerprint),
        title@.len() > 0 && title@ != "Unknown"@,
        has_duration,
        has_key(*path),
        has_key(*id),
    ));
    plan
}

} // verus!
