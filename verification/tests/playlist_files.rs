use wave::android::imported_extension;
use wave::cover_art::{cover_display_candidates, full_cover_data_url, thumb_candidates, MAX_FULL_COVER_BYTES};
use wave::m3u::{m3u_document, m3u_entries, M3uEntry};
use wave::playlists::normalize_path_key;

#[test]
fn m3u_entries_skip_comments_and_blank_lines() {
    let content = "#EXTM3U\r\n#EXTINF:180,Band - Song\r\n  /music/a.mp3  \r\n\r\n/music/b.flac\n# comment\nrelative/c.ogg";
    assert_eq!(
        m3u_entries(content),
        vec![
            "/music/a.mp3".to_string(),
            "/music/b.flac".to_string(),
            "relative/c.ogg".to_string()
        ]
    );
    assert!(m3u_entries("").is_empty());
    assert!(m3u_entries("\n\n#x\n").is_empty());
}

#[test]
fn m3u_document_lists_each_track() {
    let doc = m3u_document(&[
        M3uEntry {
            duration: 180,
            artist: "Band".into(),
            title: "Song".into(),
            path: "/music/a.mp3".into(),
        },
        M3uEntry {
            duration: -1,
            artist: "Other".into(),
            title: "Track".into(),
            path: "/music/b.flac".into(),
        },
    ]);
    assert_eq!(
        doc,
        "#EXTM3U\n#EXTINF:180,Band - Song\n/music/a.mp3\n#EXTINF:-1,Other - Track\n/music/b.flac\n"
    );
    assert_eq!(m3u_document(&[]), "#EXTM3U\n");
}

#[test]
fn m3u_written_then_read_gives_the_paths_back() {
    let entries = vec![
        M3uEntry { duration: 1, artist: "A".into(), title: "B".into(), path: "/x/1.mp3".into() },
        M3uEntry { duration: 2, artist: "C".into(), title: "D".into(), path: "/x/2.mp3".into() },
    ];
    let doc = m3u_document(&entries);
    assert_eq!(m3u_entries(&doc), vec!["/x/1.mp3".to_string(), "/x/2.mp3".to_string()]);
}

#[test]
fn path_keys_keep_content_uris_and_prefer_canonical_paths() {
    assert_eq!(
        normalize_path_key("  content://media/x ", Some("/ignored")),
        "content://media/x"
    );
    assert_eq!(normalize_path_key(" /a/../b.mp3 ", Some("/b.mp3")), "/b.mp3");
    assert_eq!(normalize_path_key(" missing.mp3 ", None), "missing.mp3");
}

#[test]
fn thumb_references_give_candidate_files() {
    assert!(thumb_candidates("").is_empty());
    assert_eq!(
        thumb_candidates("abc"),
        vec!["thumbs/abc.jpg", "abc.jpg", "abc.png", "abc.webp"]
    );
    assert_eq!(
        thumb_candidates("thumbs/x.jpg"),
        vec!["thumbs/x.jpg", "thumbs/x.jpg.jpg", "thumbs/x.jpg.png", "thumbs/x.jpg.webp"]
    );
    assert_eq!(thumb_candidates("cover.png")[0], "cover.png");
}

#[test]
fn display_candidates_follow_thumb_then_art_id() {
    assert_eq!(
        cover_display_candidates("/root/covers", Some("thumbs/a.jpg"), Some("id1")),
        vec!["/root/covers/thumbs/a.jpg", "/root/covers/thumbs/id1.jpg"]
    );
    assert_eq!(
        cover_display_candidates("/root/covers", Some("/abs/a.jpg"), Some("")),
        vec!["/abs/a.jpg"]
    );
    assert!(cover_display_candidates("/r", None, None).is_empty());
}

#[test]
fn full_covers_are_sent_as_is_when_small() {
    assert_eq!(full_cover_data_url(&[1, 2, 3], "IMAGE/PNG", None), "data:image/png;base64,AQID");
    let big = vec![0u8; MAX_FULL_COVER_BYTES + 1];
    assert_eq!(
        full_cover_data_url(&big, "image/png", Some(Ok((vec![9], "image/jpeg".to_string())))),
        "data:image/jpeg;base64,CQ=="
    );
    assert_eq!(
        full_cover_data_url(&big, "image/jpg", Some(Err("bad".into()))),
        "data:image/jpeg;base64,"
    );
}

#[test]
fn imported_files_get_a_usable_extension() {
    assert_eq!(imported_extension("flac".into(), true, "mp3".into()), "flac");
    assert_eq!(imported_extension("bin".into(), false, "ogg".into()), "ogg");
    assert_eq!(imported_extension("dat".into(), false, "wav".into()), "wav");
    assert_eq!(imported_extension("dat".into(), false, "bin".into()), "dat");
    assert_eq!(imported_extension("bin".into(), true, "bin".into()), "mp3");
    assert_eq!(imported_extension("bin".into(), true, "m4a".into()), "m4a");
}

#[test]
fn written_playlists_read_back_as_their_paths() {
    let entries = vec![
        M3uEntry { duration: 185, artist: "Artist".into(), title: "Song".into(), path: "/music/a.mp3".into() },
        M3uEntry { duration: -1, artist: "".into(), title: "".into(), path: "C:\\music\\b b.flac".into() },
        M3uEntry { duration: 0, artist: "A\r".into(), title: "#T".into(), path: "rel/c.ogg".into() },
    ];
    let text = m3u_document(&entries);
    let paths: Vec<String> = entries.iter().map(|e| e.path.clone()).collect();
    assert_eq!(m3u_entries(&text), paths);
}
