//! Command-line front end: the subcommand model, routing decisions and the
//! small text formatters the CLI prints with.

use vstd::prelude::*;

use crate::text::{
    ascii_lower, ascii_lower_chars, chars_eq, chars_of, decimal, decimal_padded,
    decimal_padded_string, decimal_string, push_char, push_str, signed_decimal,
    signed_decimal_string, string_of_range, to_lowercase, trim, trim_bounds, unicode_lower,
};

verus! {

// ── Subcommands ───────────────────────────────────────────────────────────

/// Library track commands.
pub enum TracksCmd {
    /// List all tracks, or tracks in a playlist.
    List { playlist_id: Option<String> },
    /// Import audio file(s) or a directory into the library.
    Import { paths: Vec<String> },
    /// Show detailed metadata for a track.
    Info { track_id: String },
    /// Search tracks by title, artist, or album.
    Query { query: String },
    /// Add a track to a playlist (Library if no playlist id is given).
    Add { track_id: String, playlist_id: Option<String> },
    /// Remove a track from a playlist, or from the Library.
    Remove { track_id: String, playlist_id: Option<String> },
    /// Delete every track and all playlists except Library and Favorites.
    Reset { yes: bool },
}

/// Playlist commands.
pub enum PlaylistsCmd {
    List,
    Import { file: String, name: Option<String> },
    Export { id: String, format: String, output: String },
    Info { id: String },
    Query { query: String },
    Create { name: String },
    Delete { id: String },
    Rename { id: String, name: String },
    Clear { id: String },
    AddTrack { id: String, track_id: String },
    RemoveTrack { id: String, track_id: String },
    Sync { id: String },
}

/// Playback queue commands.
pub enum QueueCmd {
    List,
    Add { track_id: String },
    Remove { index: usize },
    Next { track_id: String },
    Shuffle { state: Option<String> },
    Repeat { mode: String },
    Clear,
}

/// Favorite-track commands.
pub enum FavoriteCmd {
    Add { track_id: String },
    Remove { track_id: String },
    List,
    Clear,
}

/// Listening statistics commands.
pub enum StatsCmd {
    Summary { limit: u32 },
    Recent { limit: u32 },
    Most { limit: u32 },
    Artists { limit: u32 },
    Albums { limit: u32 },
    Genres { limit: u32 },
}

/// Track metadata commands.
pub enum MetadataCmd {
    Get { track_id: String },
    CoverExport { track_id: String, output: String },
    CoverSet { track_id: String, image: String },
}

/// Which device command was given.
pub enum DevicesKind {
    List,
    Switch,
    Volume,
}

/// Whether a DSP command only lists presets.
pub enum DspKind {
    Presets,
    Other,
}

/// The top-level subcommand of a parsed command line, as far as routing
/// between the CLI, the playback daemon and the desktop app needs it.
pub enum CommandKind {
    Tracks,
    Playlists,
    Playback,
    Queue,
    Devices(DevicesKind),
    Favorite,
    Metadata,
    Dsp(DspKind),
    Stats,
}

/// Commands a running playback daemon serves over IPC.
pub open spec fn is_ipc_command(c: CommandKind) -> bool {
    match c {
        CommandKind::Playback => true,
        CommandKind::Queue => true,
        CommandKind::Devices(DevicesKind::Volume) => true,
        CommandKind::Devices(DevicesKind::Switch) => true,
        CommandKind::Dsp(DspKind::Other) => true,
        _ => false,
    }
}

/// Commands that spawn or control the playback daemon.
pub open spec fn is_playback_command(c: CommandKind) -> bool {
    match c {
        CommandKind::Playback => true,
        CommandKind::Queue => true,
        CommandKind::Devices(_) => true,
        _ => false,
    }
}

/// True when the command line (parsed into `command`, `None` when it did not
/// parse or has no subcommand) targets an existing playback daemon.
pub fn is_daemon_ipc_client(daemon_running: bool, command: Option<&CommandKind>) -> (r: bool)
    ensures
        r == (daemon_running && match command {
            Some(c) => is_ipc_command(*c),
            None => false,
        }),
{
    if !daemon_running {
        return false;
    }
    match command {
        Some(CommandKind::Playback) => true,
        Some(CommandKind::Queue) => true,
        Some(CommandKind::Devices(DevicesKind::Volume)) => true,
        Some(CommandKind::Devices(DevicesKind::Switch)) => true,
        Some(CommandKind::Dsp(DspKind::Other)) => true,
        _ => false,
    }
}

/// Commands that spawn or control the CLI playback daemon while the GUI is open.
pub fn conflicts_with_gui(command: Option<&CommandKind>) -> (r: bool)
    ensures
        r == match command {
            Some(c) => is_playback_command(*c),
            None => false,
        },
{
    match command {
        Some(CommandKind::Playback) => true,
        Some(CommandKind::Queue) => true,
        Some(CommandKind::Devices(_)) => true,
        _ => false,
    }
}

// ── Formatting ────────────────────────────────────────────────────────────

/// `mm:ss` for a duration in whole seconds (minutes are not capped at 99).
pub open spec fn duration_text(secs: nat) -> Seq<char> {
    decimal_padded(secs / 60, 2) + seq![':'] + decimal_padded(secs % 60, 2)
}

/// Format a duration as `mm:ss`, both fields zero-padded to two digits.
pub fn format_duration(secs: u64) -> (r: String)
    ensures
        r@ == duration_text(secs as nat),
{
    let mut out = decimal_padded_string(secs / 60, 2);
    push_char(&mut out, ':');
    let s = decimal_padded_string(secs % 60, 2);
    push_str(&mut out, s.as_str());
    out
}

/// The ellipsis appended to truncated text.
pub open spec fn ellipsis() -> char {
    '\u{2026}'
}

/// `s` cut to at most `max` characters: when it is longer than `max - 1`
/// characters (`0` when `max` is `0`), its first `max - 1` characters
/// followed by an ellipsis.
pub open spec fn truncated(s: Seq<char>, max: nat) -> Seq<char> {
    let keep: nat = if max == 0 {
        0
    } else {
        (max - 1) as nat
    };
    if s.len() > keep {
        s.take(keep as int).push(ellipsis())
    } else {
        s
    }
}

/// Truncate `s` for a fixed-width column, marking the cut with `…`.
pub fn truncate(s: &str, max: usize) -> (r: String)
    ensures
        r@ == truncated(s@, max as nat),
{
    let cs = chars_of(s);
    let keep = if max == 0 {
        0
    } else {
        max - 1
    };
    if cs.len() > keep {
        let mut out = string_of_range(cs.as_slice(), 0, keep);
        push_char(&mut out, '\u{2026}');
        assert(cs@.subrange(0, keep as int) == s@.take(keep as int));
        out
    } else {
        string_of_range(cs.as_slice(), 0, cs.len())
    }
}

/// `{h}h {m}m {s}s`, dropping leading zero units.
pub open spec fn listen_duration_text(total: nat) -> Seq<char> {
    let h = total / 3600;
    let m = (total % 3600) / 60;
    let s = total % 60;
    if h > 0 {
        decimal(h) + seq!['h', ' '] + decimal(m) + seq!['m', ' '] + decimal(s) + seq!['s']
    } else if m > 0 {
        decimal(m) + seq!['m', ' '] + decimal(s) + seq!['s']
    } else {
        decimal(s) + seq!['s']
    }
}

/// Human listening time for a whole number of seconds.
pub fn format_listen_duration(total: u64) -> (r: String)
    ensures
        r@ == listen_duration_text(total as nat),
{
    let h = total / 3600;
    let m = (total % 3600) / 60;
    let s = total % 60;
    let mut out = String::new();
    if h > 0 {
        push_str(&mut out, decimal_string(h).as_str());
        push_char(&mut out, 'h');
        push_char(&mut out, ' ');
    }
    if h > 0 || m > 0 {
        push_str(&mut out, decimal_string(m).as_str());
        push_char(&mut out, 'm');
        push_char(&mut out, ' ');
    }
    push_str(&mut out, decimal_string(s).as_str());
    push_char(&mut out, 's');
    assert(out@ == listen_duration_text(total as nat));
    out
}

// ── Parsing small arguments ───────────────────────────────────────────────

/// Words accepted as "on".
pub open spec fn is_on_word(w: Seq<char>) -> bool {
    w == "on"@ || w == "true"@ || w == "1"@ || w == "enable"@ || w == "enabled"@
}

/// Words accepted as "off".
pub open spec fn is_off_word(w: Seq<char>) -> bool {
    w == "off"@ || w == "false"@ || w == "0"@ || w == "disable"@ || w == "disabled"@
}

/// Whether `cs` equals the characters of `lit`.
fn is_word(cs: &[char], lit: &str) -> (r: bool)
    ensures
        r == (cs@ == lit@),
{
    let l = chars_of(lit);
    chars_eq(cs, l.as_slice())
}

/// Parse an on/off switch (trimmed, ASCII case-insensitive). `None` when the
/// word is neither.
pub fn parse_on_off(raw: &str) -> (r: Option<bool>)
    ensures
        ({
            let w = ascii_lower(trim(raw@));
            &&& r == Some(true) <==> is_on_word(w)
            &&& r == Some(false) <==> (is_off_word(w) && !is_on_word(w))
            &&& r is None <==> (!is_on_word(w) && !is_off_word(w))
        }),
{
    let cs = chars_of(raw);
    let (a, b) = trim_bounds(cs.as_slice());
    let t = vstd::slice::slice_subrange(cs.as_slice(), a, b);
    let w = ascii_lower_chars(t);
    let ws = w.as_slice();
    if is_word(ws, "on") || is_word(ws, "true") || is_word(ws, "1") || is_word(ws, "enable") || is_word(
        ws,
        "enabled",
    ) {
        Some(true)
    } else if is_word(ws, "off") || is_word(ws, "false") || is_word(ws, "0") || is_word(ws, "disable")
        || is_word(ws, "disabled") {
        Some(false)
    } else {
        None
    }
}

/// Whether a typed confirmation `line` matches `expected` (trimmed, ASCII
/// case-insensitive).
pub fn confirm_matches(line: &str, expected: &str) -> (r: bool)
    ensures
        r == (ascii_lower(trim(line@)) == ascii_lower(expected@)),
{
    let cs = chars_of(line);
    let (a, b) = trim_bounds(cs.as_slice());
    let t = ascii_lower_chars(vstd::slice::slice_subrange(cs.as_slice(), a, b));
    let e = ascii_lower_chars(chars_of(expected).as_slice());
    chars_eq(t.as_slice(), e.as_slice())
}

/// The pending DSP status message, or `fallback` when there is none.
pub fn dsp_message_or(message: Option<String>, fallback: &str) -> (r: String)
    ensures
        r@ == match message {
            Some(m) => m@,
            None => fallback@,
        },
{
    match message {
        Some(m) => m,
        None => String::from_str(fallback),
    }
}

/// Playlist file formats the CLI imports and exports.
pub enum PlaylistFileFormat {
    M3u,
    Json,
}

/// Format of a playlist file to import, by its (lower-cased) extension.
pub fn playlist_import_format(extension: &str) -> (r: Result<PlaylistFileFormat, String>)
    ensures
        ({
            let e = unicode_lower(extension@);
            &&& (r matches Ok(PlaylistFileFormat::Json)) <==> e == "json"@
            &&& (r matches Ok(PlaylistFileFormat::M3u)) <==> (e == "m3u"@ || e == "m3u8"@) && e != "json"@
            &&& r is Err <==> (e != "json"@ && e != "m3u"@ && e != "m3u8"@)
            &&& r matches Err(msg) ==> msg@ == "Unsupported playlist format: ."@ + e
                + " (use .m3u, .m3u8, or .json)"@
        }),
{
    let lower = to_lowercase(extension);
    let e = chars_of(lower.as_str());
    if is_word(e.as_slice(), "json") {
        Ok(PlaylistFileFormat::Json)
    } else if is_word(e.as_slice(), "m3u") || is_word(e.as_slice(), "m3u8") {
        Ok(PlaylistFileFormat::M3u)
    } else {
        let mut msg = String::from_str("Unsupported playlist format: .");
        push_str(&mut msg, lower.as_str());
        push_str(&mut msg, " (use .m3u, .m3u8, or .json)");
        Err(msg)
    }
}

/// Format and file extension of a playlist export (`m3u` or `json`).
pub fn playlist_export_format(format: &str) -> (r: Option<PlaylistFileFormat>)
    ensures
        (r matches Some(PlaylistFileFormat::M3u)) <==> format@ == "m3u"@,
        (r matches Some(PlaylistFileFormat::Json)) <==> format@ == "json"@ && format@ != "m3u"@,
        r is None <==> (format@ != "m3u"@ && format@ != "json"@),
{
    let f = chars_of(format);
    if is_word(f.as_slice(), "m3u") {
        Some(PlaylistFileFormat::M3u)
    } else if is_word(f.as_slice(), "json") {
        Some(PlaylistFileFormat::Json)
    } else {
        None
    }
}

// ── Table lines ───────────────────────────────────────────────────────────

/// `n` copies of `c`.
pub open spec fn repeated(c: char, n: nat) -> Seq<char> {
    Seq::new(n, |_i: int| c)
}

/// `format!("{:w}", s)`: `s` padded with spaces on the right to `w`
/// characters.
pub open spec fn pad_right(s: Seq<char>, w: nat) -> Seq<char> {
    if s.len() < w {
        s + repeated(' ', (w - s.len()) as nat)
    } else {
        s
    }
}

/// `format!("{:>w}", s)`: `s` padded with spaces on the left.
pub open spec fn pad_left(s: Seq<char>, w: nat) -> Seq<char> {
    if s.len() < w {
        repeated(' ', (w - s.len()) as nat) + s
    } else {
        s
    }
}

/// Append `n` copies of `c`.
fn push_repeated(out: &mut String, c: char, n: usize)
    ensures
        final(out)@ == old(out)@ + repeated(c, n as nat),
{
    let mut i: usize = 0;
    while i < n
        invariant
            i <= n,
            out@ == old(out)@ + repeated(c, i as nat),
        decreases n - i,
    {
        push_char(out, c);
        i += 1;
        assert(out@ =~= old(out)@ + repeated(c, i as nat));
    }
}

/// Append `s` padded on the right to `w` characters.
fn push_padded_right(out: &mut String, s: &str, w: usize)
    ensures
        final(out)@ == old(out)@ + pad_right(s@, w as nat),
{
    push_str(out, s);
    let n = s.unicode_len();
    if n < w {
        push_repeated(out, ' ', w - n);
    }
    assert(out@ =~= old(out)@ + pad_right(s@, w as nat));
}

/// Append `s` padded on the left to `w` characters.
fn push_padded_left(out: &mut String, s: &str, w: usize)
    ensures
        final(out)@ == old(out)@ + pad_left(s@, w as nat),
{
    let n = s.unicode_len();
    if n < w {
        push_repeated(out, ' ', w - n);
    }
    push_str(out, s);
    assert(out@ =~= old(out)@ + pad_left(s@, w as nat));
}

/// The duration column of a track line.
pub open spec fn duration_cell(secs: Option<u64>) -> Seq<char> {
    match secs {
        Some(d) => duration_text(d as nat),
        None => "--:--"@,
    }
}

/// One track in the track table.
pub open spec fn track_line_text(
    id: Seq<char>,
    format: Seq<char>,
    secs: Option<u64>,
    artist: Seq<char>,
    album: Seq<char>,
    title: Seq<char>,
) -> Seq<char> {
    "  "@ + pad_right(id, 36) + "  "@ + pad_right(format, 6) + "  "@ + pad_right(duration_cell(secs), 4) + "  "@
        + pad_right(truncated(artist, 28), 30) + "  "@ + pad_right(truncated(album, 28), 30) + "  "@ + pad_right(
        truncated(title, 38),
        40,
    )
}

/// A track as one line of the track table: id, format, `mm:ss` duration
/// (`--:--` when unknown, `secs` in whole seconds), artist, album and title,
/// each in its column.
pub fn track_line(id: &str, format: &str, secs: Option<u64>, artist: &str, album: &str, title: &str) -> (r: String)
    ensures
        r@ == track_line_text(id@, format@, secs, artist@, album@, title@),
{
    let mut out = String::from_str("  ");
    push_padded_right(&mut out, id, 36);
    push_str(&mut out, "  ");
    push_padded_right(&mut out, format, 6);
    push_str(&mut out, "  ");
    let dur = match secs {
        Some(d) => format_duration(d),
        None => String::from_str("--:--"),
    };
    push_padded_right(&mut out, dur.as_str(), 4);
    push_str(&mut out, "  ");
    push_padded_right(&mut out, truncate(artist, 28).as_str(), 30);
    push_str(&mut out, "  ");
    push_padded_right(&mut out, truncate(album, 28).as_str(), 30);
    push_str(&mut out, "  ");
    push_padded_right(&mut out, truncate(title, 38).as_str(), 40);
    out
}

/// The two header lines of the track table.
pub fn track_header_lines() -> (r: (String, String))
    ensures
        r.0@ == "  "@ + pad_right("ID"@, 36) + "  "@ + pad_right("FORMAT"@, 6) + "  "@ + pad_right("DUR"@, 4) + "  "@
            + pad_right("ARTIST"@, 30) + "  "@ + pad_right("ALBUM"@, 30) + "  "@ + pad_right("TITLE"@, 40),
        r.1@ == "  "@ + repeated('-', 36) + "  "@ + repeated('-', 6) + "  "@ + repeated('-', 4) + "  "@ + repeated(
            '-',
            30,
        ) + "  "@ + repeated('-', 30) + "  "@ + repeated('-', 40),
{
    let mut a = String::from_str("  ");
    push_padded_right(&mut a, "ID", 36);
    push_str(&mut a, "  ");
    push_padded_right(&mut a, "FORMAT", 6);
    push_str(&mut a, "  ");
    push_padded_right(&mut a, "DUR", 4);
    push_str(&mut a, "  ");
    push_padded_right(&mut a, "ARTIST", 30);
    push_str(&mut a, "  ");
    push_padded_right(&mut a, "ALBUM", 30);
    push_str(&mut a, "  ");
    push_padded_right(&mut a, "TITLE", 40);
    let mut b = String::from_str("  ");
    push_repeated(&mut b, '-', 36);
    push_str(&mut b, "  ");
    push_repeated(&mut b, '-', 6);
    push_str(&mut b, "  ");
    push_repeated(&mut b, '-', 4);
    push_str(&mut b, "  ");
    push_repeated(&mut b, '-', 30);
    push_str(&mut b, "  ");
    push_repeated(&mut b, '-', 30);
    push_str(&mut b, "  ");
    push_repeated(&mut b, '-', 40);
    (a, b)
}

/// The line of a ranked track list for the track at 1-based `rank`.
pub open spec fn rank_track_text(rank: nat, artist: Seq<char>, title: Seq<char>, secs: nat) -> Seq<char> {
    "  "@ + pad_left(decimal(rank), 2) + ". "@ + truncated(artist, 28) + " \u{2014} "@ + truncated(title, 40)
        + "  ["@ + duration_text(secs) + "]"@
}

/// One entry of a ranked track list: 1-based `rank`, artist, title and
/// `mm:ss` duration.
pub fn rank_track_line(rank: u64, artist: &str, title: &str, secs: u64) -> (r: String)
    ensures
        r@ == rank_track_text(rank as nat, artist@, title@, secs as nat),
{
    let mut out = String::from_str("  ");
    push_padded_left(&mut out, decimal_string(rank).as_str(), 2);
    push_str(&mut out, ". ");
    push_str(&mut out, truncate(artist, 28).as_str());
    push_str(&mut out, " \u{2014} ");
    push_str(&mut out, truncate(title, 40).as_str());
    push_str(&mut out, "  [");
    push_str(&mut out, format_duration(secs).as_str());
    push_str(&mut out, "]");
    out
}

/// The line of a ranked name list for the entry at 1-based `rank`.
pub open spec fn rank_name_text(rank: nat, name: Seq<char>, listen_secs: nat, plays: int) -> Seq<char> {
    "  "@ + pad_left(decimal(rank), 2) + ". "@ + pad_right(truncated(name, 32), 32) + "  "@ + listen_duration_text(
        listen_secs,
    ) + "  ("@ + signed_decimal(plays) + " plays)"@
}

/// One entry of a ranked artist / album / genre list: 1-based `rank`, the
/// name (left-aligned in 32 columns), listen time (`listen_secs` in whole
/// seconds) and play count.
pub fn rank_name_line(rank: u64, name: &str, listen_secs: u64, plays: i64) -> (r: String)
    ensures
        r@ == rank_name_text(rank as nat, name@, listen_secs as nat, plays as int),
{
    let mut out = String::from_str("  ");
    push_padded_left(&mut out, decimal_string(rank).as_str(), 2);
    push_str(&mut out, ". ");
    push_padded_right(&mut out, truncate(name, 32).as_str(), 32);
    push_str(&mut out, "  ");
    push_str(&mut out, format_listen_duration(listen_secs).as_str());
    push_str(&mut out, "  (");
    push_str(&mut out, signed_decimal_string(plays).as_str());
    push_str(&mut out, " plays)");
    out
}


// ── Reports ───────────────────────────────────────────────────────────────

/// A track as a ranked list shows it: artist, title and duration in whole
/// seconds.
pub struct RankedTrack {
    pub artist: String,
    pub title: String,
    pub secs: u64,
}

/// An artist, album or genre as a ranked list shows it: its name, listen
/// time in whole seconds and play count.
pub struct NamedRank {
    pub name: String,
    pub listen_secs: u64,
    pub plays: i64,
}

/// The lines of a ranked track list under `title`: the title, one line per
/// track ranked from 1, and a blank line; the title and `  (none)` when
/// there are no tracks.
pub open spec fn track_rank_list_text(title: Seq<char>, rows: Seq<RankedTrack>) -> Seq<Seq<char>> {
    if rows.len() == 0 {
        seq![title, "  (none)"@]
    } else {
        seq![title] + Seq::new(
            rows.len(),
            |i: int| rank_track_text((i + 1) as nat, rows[i].artist@, rows[i].title@, rows[i].secs as nat),
        ) + seq![Seq::<char>::empty()]
    }
}

/// The lines of a ranked name list under `title`, laid out as
/// `track_rank_list_text`.
pub open spec fn named_rank_list_text(title: Seq<char>, rows: Seq<NamedRank>) -> Seq<Seq<char>> {
    if rows.len() == 0 {
        seq![title, "  (none)"@]
    } else {
        seq![title] + Seq::new(
            rows.len(),
            |i: int|
                rank_name_text((i + 1) as nat, rows[i].name@, rows[i].listen_secs as nat, rows[i].plays as int),
        ) + seq![Seq::<char>::empty()]
    }
}

/// The lines printed for a ranked track list.
pub fn track_rank_list_lines(title: &str, rows: &[RankedTrack]) -> (r: Vec<String>)
    ensures
        r@.map_values(|s: String| s@) == track_rank_list_text(title@, rows@),
{
    let mut out: Vec<String> = Vec::new();
    out.push(String::from_str(title));
    if rows.len() == 0 {
        out.push(String::from_str("  (none)"));
        assert(out@.map_values(|s: String| s@) =~= track_rank_list_text(title@, rows@));
        return out;
    }
    let mut i: usize = 0;
    while i < rows.len()
        invariant
            i <= rows@.len(),
            out@.len() == i + 1,
            out@[0]@ == title@,
            forall|k: int|
                0 <= k < i ==> #[trigger] out@[k + 1]@ == rank_track_text(
                    (k + 1) as nat,
                    rows@[k].artist@,
                    rows@[k].title@,
                    rows@[k].secs as nat,
                ),
        decreases rows.len() - i,
    {
        let row = &rows[i];
        let line = rank_track_line((i + 1) as u64, row.artist.as_str(), row.title.as_str(), row.secs);
        out.push(line);
        i += 1;
    }
    out.push(String::new());
    assert(out@.map_values(|s: String| s@) =~= track_rank_list_text(title@, rows@));
    out
}

/// The lines printed for a ranked artist, album or genre list.
pub fn named_rank_list_lines(title: &str, rows: &[NamedRank]) -> (r: Vec<String>)
    ensures
        r@.map_values(|s: String| s@) == named_rank_list_text(title@, rows@),
{
    let mut out: Vec<String> = Vec::new();
    out.push(String::from_str(title));
    if rows.len() == 0 {
        out.push(String::from_str("  (none)"));
        assert(out@.map_values(|s: String| s@) =~= named_rank_list_text(title@, rows@));
        return out;
    }
    let mut i: usize = 0;
    while i < rows.len()
        invariant
            i <= rows@.len(),
            out@.len() == i + 1,
            out@[0]@ == title@,
            forall|k: int|
                0 <= k < i ==> #[trigger] out@[k + 1]@ == rank_name_text(
                    (k + 1) as nat,
                    rows@[k].name@,
                    rows@[k].listen_secs as nat,
                    rows@[k].plays as int,
                ),
        decreases rows.len() - i,
    {
        let row = &rows[i];
        let line = rank_name_line((i + 1) as u64, row.name.as_str(), row.listen_secs, row.plays);
        out.push(line);
        i += 1;
    }
    out.push(String::new());
    assert(out@.map_values(|s: String| s@) =~= named_rank_list_text(title@, rows@));
    out
}

/// The header block of `wave stats summary`: total listen time (whole
/// seconds), total plays and distinct tracks played, then a blank line.
pub fn stats_overview_lines(total_listen_secs: u64, total_plays: i64, tracks_played: i64) -> (r: Vec<String>)
    ensures
        r@.map_values(|s: String| s@) == seq![
            "Listening overview"@,
            "  Total listen time: "@ + listen_duration_text(total_listen_secs as nat),
            "  Total plays:       "@ + signed_decimal(total_plays as int),
            "  Tracks played:     "@ + signed_decimal(tracks_played as int),
            Seq::<char>::empty(),
        ],
{
    let mut out: Vec<String> = Vec::new();
    out.push(String::from_str("Listening overview"));
    out.push(labelled("  Total listen time: ", format_listen_duration(total_listen_secs).as_str()));
    out.push(labelled("  Total plays:       ", signed_decimal_string(total_plays).as_str()));
    out.push(labelled("  Tracks played:     ", signed_decimal_string(tracks_played).as_str()));
    out.push(String::new());
    assert(out@.map_values(|s: String| s@) =~= seq![
        "Listening overview"@,
        "  Total listen time: "@ + listen_duration_text(total_listen_secs as nat),
        "  Total plays:       "@ + signed_decimal(total_plays as int),
        "  Tracks played:     "@ + signed_decimal(tracks_played as int),
        Seq::<char>::empty(),
    ]);
    out
}


/// The metadata of one track as `wave metadata get` prints it, with the
/// duration in whole seconds.
pub struct TrackDetails {
    pub id: String,
    pub path: String,
    pub name: String,
    pub title: String,
    pub artist: String,
    pub album: String,
    pub album_artist: Option<String>,
    pub genre: Option<String>,
    pub year: Option<i32>,
    pub track_number: Option<i32>,
    pub disc_number: Option<i32>,
    pub format: String,
    /// Duration in whole seconds.
    pub duration_secs: Option<u64>,
    pub sample_rate: Option<u32>,
    pub channels: Option<u32>,
    pub bit_depth: Option<u32>,
    /// Size of the file in bytes.
    pub file_size: i64,
    /// Modification time as the library stores it.
    pub modified_at: i64,
    /// When the library indexed the file.
    pub indexed_at: i64,
    pub lyrics_source: Option<String>,
    pub cover_art_mime: Option<String>,
    pub cover_art_source: Option<String>,
    pub fingerprint_sha256: Option<String>,
    pub musicbrainz_recording_id: Option<String>,
    pub lyrics: Option<String>,
}

/// An optional text field, or `(none)`.
pub open spec fn or_none(o: Option<String>) -> Seq<char> {
    match o {
        Some(s) => s@,
        None => "(none)"@,
    }
}

/// An optional number in decimal, or `(none)`.
pub open spec fn count_or_none(o: Option<i32>) -> Seq<char> {
    match o {
        Some(n) => signed_decimal(n as int),
        None => "(none)"@,
    }
}

/// An optional duration as `mm:ss`, or `Unknown`.
pub open spec fn duration_or_unknown(o: Option<u64>) -> Seq<char> {
    match o {
        Some(s) => duration_text(s as nat),
        None => "Unknown"@,
    }
}

/// An optional measurement in decimal followed by its unit, or `Unknown`.
pub open spec fn measured(o: Option<u32>, unit: Seq<char>) -> Seq<char> {
    match o {
        Some(n) => decimal(n as nat) + unit,
        None => "Unknown"@,
    }
}

/// The lines `wave metadata get` prints for a track, one per field, then
/// the lyrics (after a blank line and a `Lyrics:` heading) when the track
/// has any.
pub open spec fn track_details_text(d: TrackDetails) -> Seq<Seq<char>> {
    track_fields_text(d) + match d.lyrics {
        Some(l) => seq!["\nLyrics:\n"@ + l@],
        None => Seq::empty(),
    }
}

/// The field lines of `track_details_text`, without the lyrics.
pub open spec fn track_fields_text(d: TrackDetails) -> Seq<Seq<char>> {
    seq![
        "ID:              "@ + d.id@,
        "Path:            "@ + d.path@,
        "Name:            "@ + d.name@,
        "Title:           "@ + d.title@,
        "Artist:          "@ + d.artist@,
        "Album:           "@ + d.album@,
        "Album Artist:    "@ + or_none(d.album_artist),
        "Genre:           "@ + or_none(d.genre),
        "Year:            "@ + count_or_none(d.year),
        "Track Number:    "@ + count_or_none(d.track_number),
        "Disc Number:     "@ + count_or_none(d.disc_number),
        "Format:          "@ + d.format@,
        "Duration:        "@ + duration_or_unknown(d.duration_secs),
        "Sample Rate:     "@ + measured(d.sample_rate, " Hz"@),
        "Channels:        "@ + measured(d.channels, ""@),
        "Bit Depth:       "@ + measured(d.bit_depth, " bit"@),
        "File Size:       "@ + signed_decimal(d.file_size as int) + " bytes"@,
        "Modified:        "@ + signed_decimal(d.modified_at as int),
        "Indexed:         "@ + signed_decimal(d.indexed_at as int),
        "Lyrics Source:   "@ + or_none(d.lyrics_source),
        "Cover Art MIME:  "@ + or_none(d.cover_art_mime),
        "Cover Art Src:   "@ + or_none(d.cover_art_source),
        "Fingerprint:     "@ + or_none(d.fingerprint_sha256),
        "MusicBrainz ID:  "@ + or_none(d.musicbrainz_recording_id),
    ]
}

/// `label` followed by `value`.
fn labelled(label: &str, value: &str) -> (r: String)
    ensures
        r@ == label@ + value@,
{
    let mut out = String::from_str(label);
    push_str(&mut out, value);
    out
}

/// The text of an optional field, or `(none)`.
fn or_none_str(o: &Option<String>) -> (r: &str)
    ensures
        r@ == or_none(*o),
{
    match o {
        Some(s) => s.as_str(),
        None => "(none)",
    }
}

/// An optional number in decimal, or `(none)`.
fn count_or_none_string(o: Option<i32>) -> (r: String)
    ensures
        r@ == count_or_none(o),
{
    match o {
        Some(n) => signed_decimal_string(n as i64),
        None => String::from_str("(none)"),
    }
}

/// An optional duration as `mm:ss`, or `Unknown`.
fn duration_or_unknown_string(o: Option<u64>) -> (r: String)
    ensures
        r@ == duration_or_unknown(o),
{
    match o {
        Some(s) => format_duration(s),
        None => String::from_str("Unknown"),
    }
}

/// An optional measurement followed by its unit, or `Unknown`.
fn measured_string(o: Option<u32>, unit: &str) -> (r: String)
    ensures
        r@ == measured(o, unit@),
{
    match o {
        Some(n) => {
            let mut s = decimal_string(n as u64);
            push_str(&mut s, unit);
            s
        },
        None => String::from_str("Unknown"),
    }
}

/// A size in bytes, such as `1024 bytes`.
fn byte_count_string(n: i64) -> (r: String)
    ensures
        r@ == signed_decimal(n as int) + " bytes"@,
{
    let mut s = signed_decimal_string(n);
    push_str(&mut s, " bytes");
    s
}

/// The lines `wave metadata get` prints for a track, in order.
#[verifier::rlimit(40)]
pub fn track_details_lines(d: &TrackDetails) -> (r: Vec<String>)
    ensures
        r@.map_values(|s: String| s@) == track_details_text(*d),
{
    let mut out: Vec<String> = Vec::new();
    out.push(labelled("ID:              ", d.id.as_str()));
    out.push(labelled("Path:            ", d.path.as_str()));
    out.push(labelled("Name:            ", d.name.as_str()));
    out.push(labelled("Title:           ", d.title.as_str()));
    out.push(labelled("Artist:          ", d.artist.as_str()));
    out.push(labelled("Album:           ", d.album.as_str()));
    out.push(labelled("Album Artist:    ", or_none_str(&d.album_artist)));
    out.push(labelled("Genre:           ", or_none_str(&d.genre)));
    out.push(labelled("Year:            ", count_or_none_string(d.year).as_str()));
    out.push(labelled("Track Number:    ", count_or_none_string(d.track_number).as_str()));
    out.push(labelled("Disc Number:     ", count_or_none_string(d.disc_number).as_str()));
    out.push(labelled("Format:          ", d.format.as_str()));
    out.push(labelled("Duration:        ", duration_or_unknown_string(d.duration_secs).as_str()));
    out.push(labelled("Sample Rate:     ", measured_string(d.sample_rate, " Hz").as_str()));
    out.push(labelled("Channels:        ", measured_string(d.channels, "").as_str()));
    out.push(labelled("Bit Depth:       ", measured_string(d.bit_depth, " bit").as_str()));
    out.push(labelled("File Size:       ", byte_count_string(d.file_size).as_str()));
    out.push(labelled("Modified:        ", signed_decimal_string(d.modified_at).as_str()));
    out.push(labelled("Indexed:         ", signed_decimal_string(d.indexed_at).as_str()));
    out.push(labelled("Lyrics Source:   ", or_none_str(&d.lyrics_source)));
    out.push(labelled("Cover Art MIME:  ", or_none_str(&d.cover_art_mime)));
    out.push(labelled("Cover Art Src:   ", or_none_str(&d.cover_art_source)));
    out.push(labelled("Fingerprint:     ", or_none_str(&d.fingerprint_sha256)));
    out.push(labelled("MusicBrainz ID:  ", or_none_str(&d.musicbrainz_recording_id)));
    assert(out@[16]@ == track_fields_text(*d)[16]);
    assert(out@.map_values(|s: String| s@) =~= track_fields_text(*d));
    let ghost fields = out@;
    match &d.lyrics {
        Some(l) => {
            out.push(labelled("\nLyrics:\n", l.as_str()));
            assert(out@ == fields.push(out@.last()));
        },
        None => {},
    }
    assert(out@.map_values(|s: String| s@) =~= track_details_text(*d));
    out
}

// ── Naming a track by id or by path ───────────────────────────────────────

/// An ASCII hexadecimal digit.
pub open spec fn is_hex_digit(c: char) -> bool {
    ('0' <= c && c <= '9') || ('a' <= c && c <= 'f') || ('A' <= c && c <= 'F')
}

/// Thirty-six characters in the hyphenated UUID form
/// `xxxxxxxx-xxxx-xxxx-xxxx-xxxxxxxxxxxx` of hexadecimal digits.
pub open spec fn hyphenated_uuid(s: Seq<char>) -> bool {
    &&& s.len() == 36
    &&& forall|i: int|
        0 <= i < 36 ==> if i == 8 || i == 13 || i == 18 || i == 23 {
            s[i] == '-'
        } else {
            is_hex_digit(#[trigger] s[i])
        }
}

/// Text that `uuid::Uuid::parse_str` accepts: 32 hexadecimal digits, the
/// hyphenated form, the hyphenated form in braces, or the hyphenated form
/// after `urn:uuid:` in any ASCII case.
pub open spec fn uuid_text(s: Seq<char>) -> bool {
    ||| s.len() == 32 && forall|i: int| 0 <= i < 32 ==> is_hex_digit(#[trigger] s[i])
    ||| hyphenated_uuid(s)
    ||| s.len() == 38 && s[0] == '{' && s[37] == '}' && hyphenated_uuid(s.subrange(1, 37))
    ||| s.len() == 45 && ascii_lower(s.take(9)) == "urn:uuid:"@ && hyphenated_uuid(s.skip(9))
}

/// `uuid::Uuid::parse_str(s).is_ok()`: the parser takes the lengths 32
/// (bare digits), 36 (hyphenated), 38 (`{` hyphenated `}`) and 45
/// (`urn:uuid:` in any ASCII case, then hyphenated), and each digit must be
/// an ASCII hexadecimal digit, so accepted text is ASCII and its byte
/// length is its character length.
#[verifier::external_body]
fn parses_as_uuid(s: &str) -> (r: bool)
    ensures
        r == uuid_text(s@),
{
    uuid::Uuid::parse_str(s).is_ok()
}

/// Whether the CLI looks `id_or_path` up as a track id first: it does when
/// the text is a UUID.
pub fn looks_up_track_id(id_or_path: &str) -> (r: bool)
    ensures
        r == uuid_text(id_or_path@),
{
    parses_as_uuid(id_or_path)
}

/// The file a CLI track argument names. `found_by_id` is the path of the
/// library track with that id, when it was looked up (see
/// `looks_up_track_id`) and found; `path_exists` whether the argument names
/// an existing file. A track found by id wins; otherwise an existing file
/// path is taken as it is; otherwise the argument names nothing.
pub fn resolve_track_path(id_or_path: &str, found_by_id: Option<String>, path_exists: bool) -> (r: Result<
    String,
    String,
>)
    ensures
        match found_by_id {
            Some(p) if uuid_text(id_or_path@) => r matches Ok(q) && q@ == p@,
            _ => if path_exists {
                r matches Ok(q) && q@ == id_or_path@
            } else {
                r matches Err(msg) && msg@ == "Track not found: "@ + id_or_path@
                    + " (not a valid UUID or existing file path)"@
            },
        },
{
    if parses_as_uuid(id_or_path) {
        if let Some(p) = found_by_id {
            return Ok(p);
        }
    }
    if path_exists {
        Ok(String::from_str(id_or_path))
    } else {
        let mut msg = String::from_str("Track not found: ");
        push_str(&mut msg, id_or_path);
        push_str(&mut msg, " (not a valid UUID or existing file path)");
        Err(msg)
    }
}

} // verus!
