//! Error kinds of the audio engine, the library database and metadata
//! reading, each with the message it shows.

use vstd::prelude::*;

use crate::text::push_str;

verus! {

/// `prefix` followed by `detail`.
fn with_detail(prefix: &str, detail: &str) -> (r: String)
    ensures
        r@ == prefix@ + detail@,
{
    let mut out = String::from_str(prefix);
    push_str(&mut out, detail);
    out
}

/// Failures of the audio engine.
pub enum AudioError {
    StreamCreation(String),
    SinkCreation(String),
    FileOpen(String),
    Decode(String),
    UnsupportedFormat(String),
    NoTrackLoaded,
    AlreadyPlaying,
    SeekOutOfBounds,
    InvalidVolume,
    DeviceUnavailable(String),
}

/// The message of an audio error.
pub open spec fn audio_error_message(e: AudioError) -> Seq<char> {
    match e {
        AudioError::StreamCreation(d) => "Failed to create output stream: "@ + d@,
        AudioError::SinkCreation(d) => "Failed to create sink: "@ + d@,
        AudioError::FileOpen(d) => "Failed to open audio file: "@ + d@,
        AudioError::Decode(d) => "Failed to decode audio: "@ + d@,
        AudioError::UnsupportedFormat(d) => "Unsupported audio format: "@ + d@,
        AudioError::NoTrackLoaded => "No track currently loaded"@,
        AudioError::AlreadyPlaying => "Track already playing"@,
        AudioError::SeekOutOfBounds => "Seek position out of bounds"@,
        AudioError::InvalidVolume => "Volume must be between 0.0 and 1.0"@,
        AudioError::DeviceUnavailable(d) => "Audio device not available: "@ + d@,
    }
}

impl AudioError {
    /// The message shown for this error.
    pub fn message(&self) -> (r: String)
        ensures
            r@ == audio_error_message(*self),
    {
        match self {
            AudioError::StreamCreation(d) => with_detail("Failed to create output stream: ", d.as_str()),
            AudioError::SinkCreation(d) => with_detail("Failed to create sink: ", d.as_str()),
            AudioError::FileOpen(d) => with_detail("Failed to open audio file: ", d.as_str()),
            AudioError::Decode(d) => with_detail("Failed to decode audio: ", d.as_str()),
            AudioError::UnsupportedFormat(d) => with_detail("Unsupported audio format: ", d.as_str()),
            AudioError::NoTrackLoaded => String::from_str("No track currently loaded"),
            AudioError::AlreadyPlaying => String::from_str("Track already playing"),
            AudioError::SeekOutOfBounds => String::from_str("Seek position out of bounds"),
            AudioError::InvalidVolume => String::from_str("Volume must be between 0.0 and 1.0"),
            AudioError::DeviceUnavailable(d) => with_detail("Audio device not available: ", d.as_str()),
        }
    }
}

/// Failures of the library database.
pub enum DatabaseError {
    Connection(String),
    Query(String),
    Migration(String),
    Constraint(String),
    NotFound(String),
}

/// The message of a database error.
pub open spec fn database_error_message(e: DatabaseError) -> Seq<char> {
    match e {
        DatabaseError::Connection(d) => "Connection error: "@ + d@,
        DatabaseError::Query(d) => "Query error: "@ + d@,
        DatabaseError::Migration(d) => "Migration error: "@ + d@,
        DatabaseError::Constraint(d) => "Constraint violation: "@ + d@,
        DatabaseError::NotFound(d) => "Record not found: "@ + d@,
    }
}

impl DatabaseError {
    /// The message shown for this error.
    pub fn message(&self) -> (r: String)
        ensures
            r@ == database_error_message(*self),
    {
        match self {
            DatabaseError::Connection(d) => with_detail("Connection error: ", d.as_str()),
            DatabaseError::Query(d) => with_detail("Query error: ", d.as_str()),
            DatabaseError::Migration(d) => with_detail("Migration error: ", d.as_str()),
            DatabaseError::Constraint(d) => with_detail("Constraint violation: ", d.as_str()),
            DatabaseError::NotFound(d) => with_detail("Record not found: ", d.as_str()),
        }
    }
}

/// Failures while reading a file's tags and format.
pub enum MetadataError {
    FileNotFound(String),
    UnsupportedExtension(String),
    ReadMetadata(String),
    ProbeFormat(String),
    NoAudioTracks,
    InvalidTag(String),
}

/// The message of a metadata error.
pub open spec fn metadata_error_message(e: MetadataError) -> Seq<char> {
    match e {
        MetadataError::FileNotFound(d) => "File not found: "@ + d@,
        MetadataError::UnsupportedExtension(d) => "Unsupported file extension: "@ + d@,
        MetadataError::ReadMetadata(d) => "Failed to read file metadata: "@ + d@,
        MetadataError::ProbeFormat(d) => "Failed to probe audio format: "@ + d@,
        MetadataError::NoAudioTracks => "No audio tracks found in file"@,
        MetadataError::InvalidTag(d) => "Invalid tag data: "@ + d@,
    }
}

impl MetadataError {
    /// The message shown for this error.
    pub fn message(&self) -> (r: String)
        ensures
            r@ == metadata_error_message(*self),
    {
        match self {
            MetadataError::FileNotFound(d) => with_detail("File not found: ", d.as_str()),
            MetadataError::UnsupportedExtension(d) => with_detail("Unsupported file extension: ", d.as_str()),
            MetadataError::ReadMetadata(d) => with_detail("Failed to read file metadata: ", d.as_str()),
            MetadataError::ProbeFormat(d) => with_detail("Failed to probe audio format: ", d.as_str()),
            MetadataError::NoAudioTracks => String::from_str("No audio tracks found in file"),
            MetadataError::InvalidTag(d) => with_detail("Invalid tag data: ", d.as_str()),
        }
    }
}

} // verus!
