//! The track record that the library's ranking and search logic reads.

use vstd::prelude::*;

verus! {

/// One library track, reduced to the text fields that search, ranking and
/// suggestion logic read.
pub struct Track {
    pub id: String,
    pub path: String,
    /// File name (without directories).
    pub name: String,
    pub title: String,
    pub artist: String,
    pub album: String,
    pub album_artist: Option<String>,
    pub genre: Option<String>,
    pub lyrics: Option<String>,
}

/// A copy of an optional string.
pub fn copy_opt_string(o: &Option<String>) -> (r: Option<String>)
    ensures
        r == *o,
{
    match o {
        Some(s) => Some(s.clone()),
        None => None,
    }
}

impl Track {
    /// A field-for-field copy of the track.
    pub fn duplicate(&self) -> (r: Track)
        ensures
            r == *self,
    {
        Track {
            id: self.id.clone(),
            path: self.path.clone(),
            name: self.name.clone(),
            title: self.title.clone(),
            artist: self.artist.clone(),
            album: self.album.clone(),
            album_artist: copy_opt_string(&self.album_artist),
            genre: copy_opt_string(&self.genre),
            lyrics: copy_opt_string(&self.lyrics),
        }
    }
}

} // verus!
