use wave::cli::{
    confirm_matches, conflicts_with_gui, dsp_message_or, format_duration, format_listen_duration,
    is_daemon_ipc_client, looks_up_track_id, parse_on_off, resolve_track_path, playlist_export_format, playlist_import_format,
    named_rank_list_lines, rank_name_line, rank_track_line, stats_overview_lines,
    track_details_lines, track_header_lines, track_line, track_rank_list_lines, truncate, CommandKind,
    NamedRank, RankedTrack, TrackDetails, DevicesKind, DspKind, PlaylistFileFormat,
};

#[test]
fn ipc_routing_needs_a_running_daemon() {
    assert!(is_daemon_ipc_client(true, Some(&CommandKind::Playback)));
    assert!(is_daemon_ipc_client(true, Some(&CommandKind::Queue)));
    assert!(is_daemon_ipc_client(true, Some(&CommandKind::Devices(DevicesKind::Volume))));
    assert!(is_daemon_ipc_client(true, Some(&CommandKind::Devices(DevicesKind::Switch))));
    assert!(!is_daemon_ipc_client(true, Some(&CommandKind::Devices(DevicesKind::List))));
    assert!(is_daemon_ipc_client(true, Some(&CommandKind::Dsp(DspKind::Other))));
    assert!(!is_daemon_ipc_client(true, Some(&CommandKind::Dsp(DspKind::Presets))));
    assert!(!is_daemon_ipc_client(true, Some(&CommandKind::Tracks)));
    assert!(!is_daemon_ipc_client(true, None));
    assert!(!is_daemon_ipc_client(false, Some(&CommandKind::Playback)));
}

#[test]
fn playback_commands_conflict_with_the_gui() {
    assert!(conflicts_with_gui(Some(&CommandKind::Playback)));
    assert!(conflicts_with_gui(Some(&CommandKind::Queue)));
    assert!(conflicts_with_gui(Some(&CommandKind::Devices(DevicesKind::List))));
    assert!(!conflicts_with_gui(Some(&CommandKind::Stats)));
    assert!(!conflicts_with_gui(None));
}

#[test]
fn durations_are_formatted() {
    assert_eq!(format_duration(0), "00:00");
    assert_eq!(format_duration(185), "03:05");
    assert_eq!(format_duration(6000), "100:00");
    assert_eq!(format_listen_duration(0), "0s");
    assert_eq!(format_listen_duration(59), "59s");
    assert_eq!(format_listen_duration(61), "1m 1s");
    assert_eq!(format_listen_duration(3600), "1h 0m 0s");
    assert_eq!(format_listen_duration(3725), "1h 2m 5s");
}

#[test]
fn truncate_keeps_room_for_the_ellipsis() {
    assert_eq!(truncate("abc", 4), "abc");
    assert_eq!(truncate("abcd", 4), "abc…");
    assert_eq!(truncate("héllo wörld", 6), "héllo…");
    assert_eq!(truncate("x", 0), "…");
    assert_eq!(truncate("", 0), "");
}

#[test]
fn on_off_words_are_parsed() {
    assert_eq!(parse_on_off(" ON "), Some(true));
    assert_eq!(parse_on_off("Enabled"), Some(true));
    assert_eq!(parse_on_off("1"), Some(true));
    assert_eq!(parse_on_off("false"), Some(false));
    assert_eq!(parse_on_off("disable"), Some(false));
    assert_eq!(parse_on_off("maybe"), None);
}

#[test]
fn confirmation_is_case_insensitive_and_trimmed() {
    assert!(confirm_matches("  RESET\n", "reset"));
    assert!(!confirm_matches("res", "reset"));
}

#[test]
fn dsp_message_falls_back() {
    assert_eq!(dsp_message_or(Some("EQ on".into()), "done"), "EQ on");
    assert_eq!(dsp_message_or(None, "done"), "done");
}

#[test]
fn playlist_formats_by_extension() {
    assert!(matches!(playlist_import_format("JSON"), Ok(PlaylistFileFormat::Json)));
    assert!(matches!(playlist_import_format("m3u8"), Ok(PlaylistFileFormat::M3u)));
    assert!(matches!(playlist_import_format("M3U"), Ok(PlaylistFileFormat::M3u)));
    match playlist_import_format("TXT") {
        Err(msg) => assert_eq!(msg, "Unsupported playlist format: .txt (use .m3u, .m3u8, or .json)"),
        Ok(_) => panic!("txt is not a playlist format"),
    }
    assert!(matches!(playlist_export_format("m3u"), Some(PlaylistFileFormat::M3u)));
    assert!(matches!(playlist_export_format("json"), Some(PlaylistFileFormat::Json)));
    assert!(playlist_export_format("JSON").is_none());
}

#[test]
fn track_lines_are_laid_out_in_columns() {
    let line = track_line("abc", "flac", Some(185), "Artist", "Album", "Title");
    let expected = format!(
        "  {:36}  {:6}  {:4}  {:30}  {:30}  {:40}",
        "abc", "flac", "03:05", "Artist", "Album", "Title"
    );
    assert_eq!(line, expected);
    let unknown = track_line("id", "mp3", None, "", "", "");
    assert!(unknown.contains("  --:--  "));
    let long = track_line("id", "mp3", None, &"a".repeat(40), "", "");
    assert!(long.contains(&format!("{}\u{2026}", "a".repeat(27))));
    let (header, rule) = track_header_lines();
    assert_eq!(
        header,
        format!(
            "  {:36}  {:6}  {:4}  {:30}  {:30}  {:40}",
            "ID", "FORMAT", "DUR", "ARTIST", "ALBUM", "TITLE"
        )
    );
    assert_eq!(rule.chars().filter(|c| *c == '-').count(), 36 + 6 + 4 + 30 + 30 + 40);
    assert!(rule.starts_with("  ------"));
}

#[test]
fn ranked_lines_show_rank_and_totals() {
    assert_eq!(rank_track_line(1, "A", "B", 185), "   1. A \u{2014} B  [03:05]");
    assert_eq!(rank_track_line(12, "A", "B", 0), "  12. A \u{2014} B  [00:00]");
    assert_eq!(
        rank_name_line(3, "Band", 3725, 7),
        format!("   3. {:<32}  1h 2m 5s  (7 plays)", "Band")
    );
    assert_eq!(
        rank_name_line(100, "x", 5, -2),
        format!("  100. {:<32}  5s  (-2 plays)", "x")
    );
}

#[test]
fn ranked_lists_number_their_rows() {
    let rows = vec![
        RankedTrack { artist: "A".into(), title: "B".into(), secs: 185 },
        RankedTrack { artist: "C".into(), title: "D".into(), secs: 61 },
    ];
    assert_eq!(
        track_rank_list_lines("Top tracks", &rows),
        vec![
            "Top tracks".to_string(),
            "   1. A \u{2014} B  [03:05]".to_string(),
            "   2. C \u{2014} D  [01:01]".to_string(),
            String::new(),
        ]
    );
    assert_eq!(track_rank_list_lines("Most played", &[]), vec!["Most played", "  (none)"]);
    let named = vec![NamedRank { name: "Band".into(), listen_secs: 61, plays: 4 }];
    assert_eq!(
        named_rank_list_lines("Top artists", &named),
        vec![
            "Top artists".to_string(),
            format!("   1. {:<32}  1m 1s  (4 plays)", "Band"),
            String::new(),
        ]
    );
    assert_eq!(named_rank_list_lines("Top genres", &[]), vec!["Top genres", "  (none)"]);
}

#[test]
fn stats_overview_totals() {
    assert_eq!(
        stats_overview_lines(3725, 10, 4),
        vec![
            "Listening overview",
            "  Total listen time: 1h 2m 5s",
            "  Total plays:       10",
            "  Tracks played:     4",
            "",
        ]
    );
}

fn sample_details(lyrics: Option<String>) -> TrackDetails {
    TrackDetails {
        id: "t1".into(),
        path: "/music/song.mp3".into(),
        name: "song.mp3".into(),
        title: "Song".into(),
        artist: "Artist".into(),
        album: "Album".into(),
        album_artist: None,
        genre: Some("Rock".into()),
        year: Some(1999),
        track_number: None,
        disc_number: Some(-1),
        format: "MP3".into(),
        duration_secs: Some(180),
        sample_rate: Some(44_100),
        channels: Some(2),
        bit_depth: None,
        file_size: 1,
        modified_at: 7,
        indexed_at: 8,
        lyrics_source: None,
        cover_art_mime: Some("image/jpeg".into()),
        cover_art_source: None,
        fingerprint_sha256: None,
        musicbrainz_recording_id: None,
        lyrics,
    }
}

#[test]
fn track_details_list_every_field() {
    let lines = track_details_lines(&sample_details(None));
    assert_eq!(lines.len(), 24);
    assert_eq!(lines[0], "ID:              t1");
    assert_eq!(lines[6], "Album Artist:    (none)");
    assert_eq!(lines[7], "Genre:           Rock");
    assert_eq!(lines[8], "Year:            1999");
    assert_eq!(lines[9], "Track Number:    (none)");
    assert_eq!(lines[10], "Disc Number:     -1");
    assert_eq!(lines[12], "Duration:        03:00");
    assert_eq!(lines[13], "Sample Rate:     44100 Hz");
    assert_eq!(lines[14], "Channels:        2");
    assert_eq!(lines[15], "Bit Depth:       Unknown");
    assert_eq!(lines[16], "File Size:       1 bytes");
    assert_eq!(lines[17], "Modified:        7");
    assert_eq!(lines[21], "Cover Art Src:   (none)");
    assert_eq!(lines[23], "MusicBrainz ID:  (none)");
    let with_lyrics = track_details_lines(&sample_details(Some("la la".into())));
    assert_eq!(with_lyrics.len(), 25);
    assert_eq!(with_lyrics[24], "\nLyrics:\nla la");
    let mut unknown = sample_details(None);
    unknown.duration_secs = None;
    assert_eq!(track_details_lines(&unknown)[12], "Duration:        Unknown");
}

#[test]
fn track_ids_are_uuids_in_any_form_the_parser_takes() {
    assert!(looks_up_track_id("550e8400-e29b-41d4-a716-446655440000"));
    assert!(looks_up_track_id("550E8400E29B41D4A716446655440000"));
    assert!(looks_up_track_id("{550e8400-e29b-41d4-a716-446655440000}"));
    assert!(looks_up_track_id("URN:uuid:550e8400-e29b-41d4-a716-446655440000"));
    assert!(!looks_up_track_id("550e8400-e29b-41d4-a716-44665544000g"));
    assert!(!looks_up_track_id("550e8400e29b-41d4-a716-4466554400001"));
    assert!(!looks_up_track_id("/music/song.mp3"));
    assert!(!looks_up_track_id(""));
}

#[test]
fn track_argument_prefers_id_then_existing_path() {
    let id = "550e8400-e29b-41d4-a716-446655440000";
    assert_eq!(
        resolve_track_path(id, Some("/music/a.flac".to_string()), false),
        Ok("/music/a.flac".to_string())
    );
    assert_eq!(resolve_track_path(id, None, true), Ok(id.to_string()));
    assert_eq!(
        resolve_track_path("/music/b.mp3", Some("/music/a.flac".to_string()), true),
        Ok("/music/b.mp3".to_string())
    );
    assert_eq!(
        resolve_track_path("nope", None, false),
        Err("Track not found: nope (not a valid UUID or existing file path)".to_string())
    );
}
