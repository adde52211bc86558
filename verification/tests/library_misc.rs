use wave::dto::{CloseAction, RepeatMode};
use wave::errors::{AudioError, DatabaseError, MetadataError};
use wave::listen::{listen_outcome, ListenEndReason};
use wave::lyrics::{looks_like_ttml, normalize_ws};
use wave::media_controls::{
    classify_cover_url, file_url_for, file_url_from, inline_cover_image, resolve_cover_url, Cache,
    CoverSource,
};
use wave::playlists::{diff_playlist_paths, resolve_unique_playlist_name};

fn keyed(v: &[(&str, &str)]) -> Vec<(String, String)> {
    v.iter().map(|(k, r)| (k.to_string(), r.to_string())).collect()
}

#[test]
fn sync_diff_lists_removals_and_additions() {
    let current = keyed(&[("/a", "/A"), ("/b", "/B"), ("/a", "/A2"), ("/c", "/C")]);
    let desired = keyed(&[("/c", "/c"), ("/d", "/d1"), ("/d", "/d2"), ("/e", "/e")]);
    let (remove, add) = diff_playlist_paths(&current, &desired);
    assert_eq!(remove, vec!["/A".to_string(), "/B".to_string()]);
    assert_eq!(add, vec!["/d1".to_string(), "/e".to_string()]);
}

#[test]
fn sync_diff_of_a_matching_playlist_is_empty() {
    let current = keyed(&[("/a", "/A"), ("/b", "/B")]);
    let desired = keyed(&[("/b", "/b"), ("/a", "/a"), ("/a", "/a")]);
    let (remove, add) = diff_playlist_paths(&current, &desired);
    assert!(remove.is_empty());
    assert!(add.is_empty());
}

#[test]
fn unique_playlist_names_get_a_number() {
    assert_eq!(resolve_unique_playlist_name("Mix", &[]), Ok("Mix".to_string()));
    let taken = vec!["Mix".to_string(), "Mix (2)".to_string()];
    assert_eq!(resolve_unique_playlist_name("Mix", &taken), Ok("Mix (3)".to_string()));
    let mut all = vec!["X".to_string()];
    for i in 2..1000 {
        all.push(format!("X ({i})"));
    }
    assert_eq!(
        resolve_unique_playlist_name("X", &all),
        Err("Could not find a unique name for playlist \"X\"".to_string())
    );
}

#[test]
fn close_action_toggles_back_and_forth() {
    assert_eq!(CloseAction::default(), CloseAction::Quit);
    assert_eq!(CloseAction::Quit.toggled(), CloseAction::HideWindow);
    assert_eq!(CloseAction::HideWindow.toggled(), CloseAction::Quit);
    assert_eq!(CloseAction::Quit.toggled().toggled(), CloseAction::Quit);
    assert_ne!(RepeatMode::Off, RepeatMode::All);
}

#[test]
fn error_messages_match_their_kind() {
    assert_eq!(
        AudioError::Decode("bad frame".into()).message(),
        "Failed to decode audio: bad frame"
    );
    assert_eq!(AudioError::NoTrackLoaded.message(), "No track currently loaded");
    assert_eq!(AudioError::InvalidVolume.message(), "Volume must be between 0.0 and 1.0");
    assert_eq!(
        DatabaseError::NotFound("track 7".into()).message(),
        "Record not found: track 7"
    );
    assert_eq!(MetadataError::NoAudioTracks.message(), "No audio tracks found in file");
    assert_eq!(
        MetadataError::UnsupportedExtension("xyz".into()).message(),
        "Unsupported file extension: xyz"
    );
}

#[test]
fn ttml_is_recognised_by_its_head() {
    assert!(looks_like_ttml("<?xml version=\"1.0\"?><TT xmlns=\"http://www.w3.org/ns/ttml\">"));
    assert!(looks_like_ttml("<tt><BODY><p>hi</p></BODY></tt>"));
    assert!(!looks_like_ttml("[00:01.00] <tt> not markup"));
    let late = format!("{}<tt xmlns=\"ttml\">", " ".repeat(600));
    assert!(!looks_like_ttml(&late));
}

#[test]
fn whitespace_is_collapsed() {
    assert_eq!(normalize_ws("\n    Hello\t  big \n world  "), "Hello big world");
    assert_eq!(normalize_ws("   "), "");
    assert_eq!(normalize_ws("one"), "one");
}

#[test]
fn cover_urls_are_classified() {
    assert!(matches!(classify_cover_url(None), CoverSource::Missing));
    assert!(matches!(classify_cover_url(Some("  ")), CoverSource::Missing));
    assert!(matches!(classify_cover_url(Some("covers/a.jpg")), CoverSource::Missing));
    match classify_cover_url(Some(" https://x/y.jpg ")) {
        CoverSource::Direct(u) => assert_eq!(u, "https://x/y.jpg"),
        _ => panic!("direct url expected"),
    }
    match classify_cover_url(Some("/abs/a.jpg")) {
        CoverSource::LocalPath(p) => assert_eq!(p, "/abs/a.jpg"),
        _ => panic!("local path expected"),
    }
}

#[test]
fn media_controls_get_file_urls_for_local_covers() {
    let mut cache = Cache::new();
    assert_eq!(cache.resolve_url(Some("data:image/png;base64,AA"), None), Some("data:image/png;base64,AA".to_string()));
    assert_eq!(cache.resolve_url(Some("/music/a b.jpg"), None), None);
    assert_eq!(
        cache.resolve_url(Some("/music/a b.jpg"), Some("/music/a b.jpg")),
        Some("file:///music/a%20b.jpg".to_string())
    );
    assert_eq!(cache.resolve_artwork_url(Some("relative.jpg"), Some("/x")), None);
    assert_eq!(file_url_for("relative/path.jpg"), "file://relative/path.jpg");
    assert_eq!(cache.replace_temp_file("/tmp/a.jpg".into()), None);
    assert_eq!(cache.replace_temp_file("/tmp/b.jpg".into()), Some("/tmp/a.jpg".to_string()));
}

#[test]
fn inline_cover_images_are_decoded() {
    assert_eq!(
        inline_cover_image("data:image/png;base64,AQID"),
        Some(("png".to_string(), vec![1, 2, 3]))
    );
    assert_eq!(
        inline_cover_image("data:image/jpg,AQID"),
        Some(("jpg".to_string(), vec![1, 2, 3]))
    );
    assert_eq!(inline_cover_image("data:image/tiff;base64,AQID"), None);
    assert_eq!(inline_cover_image("data:image/png;base64,@@"), None);
    assert_eq!(inline_cover_image("https://x/a.png"), None);
    assert_eq!(inline_cover_image("data:image/png;base64"), None);
}

#[test]
fn listen_sessions_count_as_completed_or_skipped() {
    assert_eq!(listen_outcome(ListenEndReason::Completed, false), (true, false));
    assert_eq!(listen_outcome(ListenEndReason::Skipped, true), (true, false));
    assert_eq!(listen_outcome(ListenEndReason::Skipped, false), (false, true));
    assert_eq!(listen_outcome(ListenEndReason::Partial, true), (true, false));
    assert_eq!(listen_outcome(ListenEndReason::Partial, false), (false, false));
}

#[test]
fn file_urls_come_from_the_crate_or_the_fallback() {
    assert_eq!(file_url_from(Some("file:///a%20b".into()), "/a b"), "file:///a%20b");
    assert_eq!(file_url_from(None, "relative/x.jpg"), "file://relative/x.jpg");
    assert!(file_url_for("/music/cover one.jpg").starts_with("file:///music/"));
    assert_eq!(
        resolve_cover_url(Some(" /c/x.jpg "), Some("/real/x.jpg"), Some("file:///real/x.jpg".into())),
        Some("file:///real/x.jpg".to_string())
    );
    assert_eq!(resolve_cover_url(Some("/c/x.jpg"), Some("/real/x.jpg"), None), Some("file:///real/x.jpg".to_string()));
    assert_eq!(resolve_cover_url(Some("/c/x.jpg"), None, None), None);
    assert_eq!(resolve_cover_url(Some(" data:image/png;base64,AAAA "), None, None), Some("data:image/png;base64,AAAA".to_string()));
    assert_eq!(resolve_cover_url(Some("rel/x.jpg"), Some("/x"), None), None);
    let mut cache = Cache::new();
    assert_eq!(
        cache.resolve_url(Some("/c/x.jpg"), Some("/real/x.jpg")),
        cache.resolve_artwork_url(Some("/c/x.jpg"), Some("/real/x.jpg"))
    );
}

#[test]
fn plain_local_covers_get_their_own_file_url() {
    let mut cache = Cache::new();
    assert_eq!(
        cache.resolve_url(Some(" /c/x.jpg "), Some("/real/cover_art/x.jpg")),
        Some("file:///real/cover_art/x.jpg".to_string())
    );
    assert_eq!(
        cache.resolve_artwork_url(Some("/c/x.jpg"), Some("/real/cover_art/x.jpg")),
        Some("file:///real/cover_art/x.jpg".to_string())
    );
    assert_eq!(file_url_for("/"), "file:///");
}

#[test]
fn local_covers_get_percent_encoded_file_urls() {
    assert_eq!(
        file_url_for("/Users/me/Library/Application Support/wave/é #1.jpg"),
        "file:///Users/me/Library/Application%20Support/wave/%C3%A9%20%231.jpg"
    );
    assert_eq!(file_url_for("/a/./b//c/"), "file:///a/b/c");
    assert_eq!(file_url_for("/a/../b%"), "file:///a/../b%25");
    assert_eq!(file_url_from(None, "/x y/🎵"), "file:///x%20y/%F0%9F%8E%B5");
    assert_eq!(file_url_from(None, "/"), "file:///");
    let mut cache = Cache::new();
    let spaced = Some("/Users/me/Application Support/t.jpg");
    assert_eq!(
        cache.resolve_url(Some("/c/t.jpg"), spaced),
        Some("file:///Users/me/Application%20Support/t.jpg".to_string())
    );
    assert_eq!(cache.resolve_url(Some("/c/t.jpg"), spaced), cache.resolve_artwork_url(Some("/c/t.jpg"), spaced));
}
