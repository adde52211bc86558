//! Plain data records exchanged with the user interface.

use vstd::prelude::*;

use crate::track::{copy_opt_string, Track};

verus! {

/// Summary of a distinct artist in the library, used for browse/discography views.
pub struct ArtistSummaryDto {
    pub name: String,
    pub track_count: i64,
    pub album_count: i64,
}

/// One realtime search hit with which fields matched and an optional lyrics snippet.
pub struct SearchHitDto {
    pub track: Track,
    /// Fields that matched: `title`, `artist`, `album`, `name`, `lyrics`.
    pub matched_fields: Vec<String>,
    pub lyrics_snippet: Option<String>,
}

/// A genre/vibe-similar artist not found in the local library, surfaced as a
/// "you might also like" hint on Home.
pub struct DiscoveryArtistDto {
    pub name: String,
    /// Display name of the owned artist this suggestion was derived from.
    pub similar_to: String,
    /// Cover Art Archive URL for a representative album, when one was resolved.
    pub cover_url: Option<String>,
}

impl DiscoveryArtistDto {
    /// A field-for-field copy.
    pub fn duplicate(&self) -> (r: Self)
        ensures
            r == *self,
    {
        DiscoveryArtistDto {
            name: self.name.clone(),
            similar_to: self.similar_to.clone(),
            cover_url: copy_opt_string(&self.cover_url),
        }
    }
}

/// What happens when the user clicks the window close button.
#[derive(Clone, Copy, PartialEq, Eq, Structural, Debug)]
pub enum CloseAction {
    /// Exit the application.
    Quit,
    /// Hide the main window; playback and the tray icon keep running.
    HideWindow,
}

impl CloseAction {
    /// The other close action (what the tray toggle switches to).
    pub fn toggled(self) -> (r: Self)
        ensures
            r == self.toggled_spec(),
    {
        match self {
            CloseAction::Quit => CloseAction::HideWindow,
            CloseAction::HideWindow => CloseAction::Quit,
        }
    }
}

impl Default for CloseAction {
    /// Closing the window quits unless the user chose otherwise.
    fn default() -> (r: Self)
        ensures
            r == CloseAction::Quit,
    {
        CloseAction::Quit
    }
}

/// Toggling the close action twice gives back the same action, and it
/// always changes it.
pub proof fn lemma_close_action_toggle(a: CloseAction)
    ensures
        a.toggled_spec().toggled_spec() == a,
        a.toggled_spec() != a,
{
}

impl CloseAction {
    /// The other close action, as a value.
    pub open spec fn toggled_spec(self) -> CloseAction {
        match self {
            CloseAction::Quit => CloseAction::HideWindow,
            CloseAction::HideWindow => CloseAction::Quit,
        }
    }
}

/// How the queue repeats: not at all, the current track, or the whole queue.
#[derive(Clone, Copy, PartialEq, Eq, Structural, Debug)]
pub enum RepeatMode {
    Off,
    One,
    All,
}

/// The queue as paths, with the current position and shuffle flag.
pub struct QueueStateDto {
    pub tracks: Vec<String>,
    pub current_index: Option<usize>,
    pub is_shuffled: bool,
}

/// Queue with full track metadata (for UI display).
pub struct QueueDto {
    pub tracks: Vec<Track>,
    pub current_index: Option<usize>,
    pub is_shuffled: bool,
}

/// Repeat and shuffle settings of the player.
pub struct PlaybackModeDto {
    pub repeat: RepeatMode,
    pub shuffle: bool,
}

/// Result of importing a playlist — the new playlist id and its tracks.
pub struct ImportResultDto {
    pub playlist_id: String,
    pub playlist_name: String,
    pub track_count: usize,
}

/// Result of importing a Wave lyrics backup into matching library tracks.
pub struct LyricsImportResultDto {
    pub imported: usize,
    pub skipped: usize,
    pub missing: usize,
}

/// Summary of a distinct album in the library, used for browse/grid views.
///
/// Albums are grouped by `(album, album_artist)` — falling back to the track
/// `artist` when `album_artist` is missing — so that unrelated albums which
/// happen to share a name are kept separate.
pub struct AlbumSummaryDto {
    pub name: String,
    /// Resolved album artist: the tag `album_artist` when present, else `artist`.
    pub album_artist: Option<String>,
    /// A representative track artist for the album (first found).
    pub artist: String,
    pub track_count: i64,
    pub year: Option<i32>,
    /// Representative cover art for the album (may be a `data:` URL or HTTPS URL).
    pub cover_art_data_url: Option<String>,
    pub cover_art_mime: Option<String>,
    /// Path of a track that carries this album's cover (for full-res extraction).
    pub cover_track_path: Option<String>,
}

impl AlbumSummaryDto {
    /// A field-for-field copy of the summary.
    pub fn duplicate(&self) -> (r: AlbumSummaryDto)
        ensures
            r == *self,
    {
        AlbumSummaryDto {
            name: self.name.clone(),
            album_artist: copy_opt_string(&self.album_artist),
            artist: self.artist.clone(),
            track_count: self.track_count,
            year: self.year,
            cover_art_data_url: copy_opt_string(&self.cover_art_data_url),
            cover_art_mime: copy_opt_string(&self.cover_art_mime),
            cover_track_path: copy_opt_string(&self.cover_track_path),
        }
    }
}

/// Album and artist matches for a query, so search results can show
/// collections alongside the individual track hits.
pub struct SearchCollectionsDto {
    pub albums: Vec<AlbumSummaryDto>,
    pub artists: Vec<ArtistSummaryDto>,
}

/// Curated Home page payload built from listen stats + transitions.
pub struct HomeSuggestionsDto {
    pub featured: Option<Track>,
    pub mix: Vec<Track>,
    pub more: Vec<Track>,
    pub albums: Vec<AlbumSummaryDto>,
    pub favorite_track: Option<Track>,
    pub favorite_album: Option<AlbumSummaryDto>,
    pub favorite_artist: Option<ArtistSummaryDto>,
    /// True when listen history influenced the picks.
    pub curated: bool,
    /// Artists similar to what you listen to but not in your library yet.
    pub discovery: Vec<DiscoveryArtistDto>,
}

} // verus!
