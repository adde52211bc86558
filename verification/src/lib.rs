//! Wave's player logic, verified: text and search, suggestions, playlists
//! and backups, cover art, the command-line model and the Android bridge's
//! decisions.

pub mod android;
pub mod b64;
pub mod backup;
pub mod cli;
pub mod cover_art;
pub mod dto;
pub mod enrichment;
pub mod errors;
pub mod exo;
pub mod id3;
pub mod instance;
pub mod listen;
pub mod lyrics;
pub mod m3u;
pub mod media_controls;
pub mod paths;
pub mod playback;
pub mod playlists;
pub mod search;
pub mod snippet;
pub mod suggestions;
pub mod text;
pub mod track;
