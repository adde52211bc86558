use wave::backup::{
    check_lyrics_backup, check_playlist_backup, lyrics_match_plan, lyrics_source_for_import,
    lyrics_to_import, LyricsMatch,
};

#[test]
fn playlist_backups_are_checked() {
    assert!(check_playlist_backup("wave-playlist", 0).is_ok());
    assert!(check_playlist_backup("wave-playlist", 10_000).is_ok());
    assert_eq!(
        check_playlist_backup("wave-playlist", 10_001),
        Err("Playlist has too many tracks (10001; max 10000)".to_string())
    );
    assert_eq!(
        check_playlist_backup("m3u", 3),
        Err("Unsupported playlist format: m3u (expected wave-playlist)".to_string())
    );
}

#[test]
fn lyrics_backups_are_checked() {
    assert!(check_lyrics_backup("wave-lyrics", 1, 5).is_ok());
    assert!(check_lyrics_backup("wave-lyrics", 2, 50_000).is_ok());
    assert_eq!(
        check_lyrics_backup("wave-playlist", 2, 5),
        Err("Unsupported lyrics format: wave-playlist (expected wave-lyrics)".to_string())
    );
    assert_eq!(
        check_lyrics_backup("wave-lyrics", 3, 5),
        Err("Unsupported lyrics export version: 3 (expected 1 or 2)".to_string())
    );
    assert_eq!(
        check_lyrics_backup("wave-lyrics", 2, 50_001),
        Err("Lyrics file has too many tracks (50001; max 50000)".to_string())
    );
}

#[test]
fn blank_lyrics_are_skipped() {
    assert_eq!(lyrics_to_import("  \n\t"), None);
    assert_eq!(lyrics_to_import("  la la\n"), Some("la la".to_string()));
}

#[test]
fn import_source_defaults_to_imported() {
    assert_eq!(lyrics_source_for_import(&None), "imported");
    assert_eq!(lyrics_source_for_import(&Some("   ".into())), "imported");
    assert_eq!(lyrics_source_for_import(&Some(" lrclib ".into())), "lrclib");
}

#[test]
fn lyrics_entries_are_matched_in_order() {
    let fp = Some("abc".to_string());
    let none: Option<String> = None;
    assert_eq!(
        lyrics_match_plan(&fp, "Song", true, &Some("/a.mp3".into()), &Some("id1".into())),
        vec![
            LyricsMatch::Fingerprint,
            LyricsMatch::TagsAndDuration,
            LyricsMatch::Tags,
            LyricsMatch::Path,
            LyricsMatch::Id,
        ]
    );
    assert_eq!(lyrics_match_plan(&Some(String::new()), "Song", false, &none, &none), vec![LyricsMatch::Tags]);
    assert_eq!(lyrics_match_plan(&none, "Unknown", true, &none, &Some("id".into())), vec![LyricsMatch::Id]);
    assert_eq!(lyrics_match_plan(&none, "", true, &none, &none), Vec::<LyricsMatch>::new());
}
