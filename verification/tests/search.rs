use wave::dto::SearchHitDto;
use wave::search::{
    build_fts_match_query, contains_pattern, escape_like_pattern, field_contains,
    is_library_playlist_name, match_field_priority, matched_fields_for, prefix_pattern, rank_hits,
    search_hit, search_limit, search_tokens, sort_search_hits,
};
use wave::snippet::lyrics_snippet;
use wave::track::Track;

fn sample_track(id: &str, path: &str) -> Track {
    Track {
        id: id.to_string(),
        path: path.to_string(),
        name: "song.mp3".to_string(),
        title: "Song".to_string(),
        artist: "Artist".to_string(),
        album: "Album".to_string(),
        album_artist: None,
        genre: None,
        lyrics: None,
    }
}

fn strs(v: &[&str]) -> Vec<String> {
    v.iter().map(|s| s.to_string()).collect()
}

#[test]
fn library_playlist_names_are_recognised() {
    assert!(is_library_playlist_name("Library"));
    assert!(is_library_playlist_name("All Local Files"));
    assert!(!is_library_playlist_name("library"));
}

#[test]
fn like_patterns_escape_wildcards() {
    assert_eq!(escape_like_pattern("50%_off\\"), "50\\%\\_off\\\\");
    assert_eq!(contains_pattern("  a_b "), "%a\\_b%");
    assert_eq!(prefix_pattern(" x%"), "x\\%%");
}

#[test]
fn search_tokens_take_at_most_six_words() {
    assert_eq!(
        search_tokens("  the dark side of the moon again "),
        strs(&["the", "dark", "side", "of", "the", "moon"])
    );
    assert_eq!(search_tokens("   "), strs(&[""]));
}

#[test]
fn fts_query_quotes_prefix_terms() {
    assert_eq!(
        build_fts_match_query("AC/DC's \"best\""),
        Some("\"AC\"* \"DC's\"* \"best\"*".to_string())
    );
    assert_eq!(build_fts_match_query(" ,;. "), None);
}

#[test]
fn field_contains_is_case_insensitive() {
    assert!(field_contains("Hello World", "WORLD"));
    assert!(!field_contains("Hello", "bye"));
}

fn rainy() -> Track {
    Track {
        title: "Rainy Day".into(),
        artist: "Storm Band".into(),
        album: "Cloud Nine".into(),
        lyrics: Some("walking through the thunder\nand rain tonight".into()),
        ..sample_track("s1", "/m/rainy.flac")
    }
}

#[test]
fn matched_fields_report_each_hit_field() {
    assert_eq!(matched_fields_for(&rainy(), "rain"), strs(&["title", "lyrics"]));
    assert_eq!(matched_fields_for(&rainy(), "storm nine"), strs(&["artist", "album"]));
    assert_eq!(matched_fields_for(&rainy(), "zzz"), strs(&["title"]));
    assert!(matched_fields_for(&rainy(), "   ").is_empty());
    let t = Track {
        title: "Other".into(),
        ..sample_track("x", "/x")
    };
    assert_eq!(matched_fields_for(&t, "song"), strs(&["name"]));
}

#[test]
fn field_priority_prefers_title_then_artist_album_lyrics() {
    assert_eq!(match_field_priority(&strs(&["lyrics", "name"])), 0);
    assert_eq!(match_field_priority(&strs(&["artist"])), 1);
    assert_eq!(match_field_priority(&strs(&["album", "lyrics"])), 2);
    assert_eq!(match_field_priority(&strs(&["lyrics"])), 3);
    assert_eq!(match_field_priority(&[]), 4);
}

fn hit(id: &str, artist: &str, album: &str, title: &str, fields: &[&str]) -> SearchHitDto {
    SearchHitDto {
        track: Track {
            artist: artist.into(),
            album: album.into(),
            title: title.into(),
            ..sample_track(id, &format!("/{id}"))
        },
        matched_fields: strs(fields),
        lyrics_snippet: None,
    }
}

#[test]
fn hits_sort_by_priority_then_artist_album_title() {
    let mut hits = vec![
        hit("1", "Zed", "A", "t", &["lyrics"]),
        hit("2", "beta", "A", "t", &["title"]),
        hit("3", "Alpha", "B", "t", &["title"]),
        hit("4", "alpha", "A", "t", &["artist"]),
        hit("5", "Alpha", "B", "t", &["name"]),
    ];
    sort_search_hits(&mut hits);
    let ids: Vec<&str> = hits.iter().map(|h| h.track.id.as_str()).collect();
    assert_eq!(ids, vec!["3", "5", "2", "4", "1"]);
}

#[test]
fn rank_hits_keeps_the_best_ones() {
    let mut hits = vec![
        hit("1", "b", "a", "t", &["album"]),
        hit("2", "a", "a", "t", &["title"]),
        hit("3", "c", "a", "t", &["artist"]),
    ];
    rank_hits(&mut hits, 2);
    let ids: Vec<&str> = hits.iter().map(|h| h.track.id.as_str()).collect();
    assert_eq!(ids, vec!["2", "3"]);
}

#[test]
fn search_limit_defaults_and_caps() {
    assert_eq!(search_limit(None), 80);
    assert_eq!(search_limit(Some(10)), 10);
    assert_eq!(search_limit(Some(500)), 200);
}

#[test]
fn snippet_takes_the_matching_line() {
    assert_eq!(
        lyrics_snippet(
            "first line\nwalking through the thunder and rain tonight\nlast line",
            "Rain"
        ),
        Some("…walking through the thunder and rain tonight…".to_string())
    );
}

#[test]
fn snippet_without_line_breaks_takes_a_window() {
    let lyrics = format!("{}rain{}", "a".repeat(100), "b".repeat(100));
    let expected = format!("…{}rain{}…", "a".repeat(40), "b".repeat(60));
    assert_eq!(lyrics_snippet(&lyrics, "rain"), Some(expected));
}

#[test]
fn snippet_cuts_on_character_boundaries() {
    let lyrics = "Ünïcödé çhàràctérs éverywhere ünd RAIN fällt über alles dort wo niemand mehr wartet und singt";
    assert_eq!(
        lyrics_snippet(lyrics, "rain fall"),
        Some("…ïcödé çhàràctérs éverywhere ünd RAIN fällt über alles dort wo niemand mehr wartet und singt".to_string())
    );
}

#[test]
fn snippet_needs_a_match() {
    assert_eq!(lyrics_snippet("no match here", "zzz"), None);
    assert_eq!(lyrics_snippet("x", ""), None);
    assert_eq!(lyrics_snippet("  leading spaces line  ", "   "), None);
}

#[test]
fn search_hit_uses_lyrics_snippet_or_fallback() {
    let h = search_hit(rainy(), "rain", Some("index snippet".into()));
    assert_eq!(h.matched_fields, strs(&["title", "lyrics"]));
    assert_eq!(h.lyrics_snippet, Some("…and rain tonight".to_string()));
    let h = search_hit(rainy(), "storm", Some("index snippet".into()));
    assert_eq!(h.lyrics_snippet, None);
    let no_lyrics = Track {
        lyrics: None,
        ..rainy()
    };
    let t = Track {
        title: "X".into(),
        lyrics: Some("RAIN".into()),
        ..no_lyrics
    };
    let h = search_hit(t, "rain", Some("   ".into()));
    assert_eq!(h.lyrics_snippet, Some("RAIN".to_string()));
}
