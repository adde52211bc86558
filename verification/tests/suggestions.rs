use wave::dto::{ArtistSummaryDto, DiscoveryArtistDto};
use wave::suggestions::{
    add_candidate, cap_tracks_per_artist, diversity_seed_artists_from, favorite_lookups,
    gather_discovery, gather_home_candidates, home_discovery, merge_discovery, SeedSimilarRows, SimilarArtistRow,
    normalize_artist_key, pick_album_suggestions, pick_diversity_seed_artists, shuffle_tracks,
    split_suggestions,
};
use wave::track::Track;

fn sample_track(id: &str, path: &str) -> Track {
    Track {
        id: id.to_string(),
        path: path.to_string(),
        name: "song.mp3".to_string(),
        title: "Song".to_string(),
        artist: "Artist".to_string(),
        album: "Album".to_string(),
        album_artist: None,
        genre: None,
        lyrics: None,
    }
}

fn ids(tracks: &[Track]) -> Vec<&str> {
    tracks.iter().map(|t| t.id.as_str()).collect()
}

#[test]
fn cap_tracks_per_artist_limits_per_artist_and_preserves_order() {
    let tracks = vec![
        Track {
            artist: "Metallica".into(),
            ..sample_track("1", "/a1.mp3")
        },
        Track {
            artist: "Metallica".into(),
            ..sample_track("2", "/a2.mp3")
        },
        Track {
            artist: "Metallica".into(),
            ..sample_track("3", "/a3.mp3")
        },
        Track {
            artist: "Slayer".into(),
            ..sample_track("4", "/b1.mp3")
        },
        Track {
            artist: "Metallica".into(),
            ..sample_track("5", "/a4.mp3")
        },
    ];
    let capped = cap_tracks_per_artist(tracks, 2);
    let ids: Vec<&str> = capped.iter().map(|t| t.id.as_str()).collect();
    assert_eq!(ids, vec!["1", "2", "4"]);
}

#[test]
fn cap_tracks_per_artist_matches_case_insensitively() {
    let tracks = vec![
        Track {
            artist: "Metallica".into(),
            ..sample_track("1", "/a1.mp3")
        },
        Track {
            artist: "METALLICA".into(),
            ..sample_track("2", "/a2.mp3")
        },
        Track {
            artist: "  metallica  ".into(),
            ..sample_track("3", "/a3.mp3")
        },
    ];
    let capped = cap_tracks_per_artist(tracks, 1);
    assert_eq!(capped.len(), 1);
    assert_eq!(capped[0].id, "1");
}

#[test]
fn pick_diversity_seed_artists_prioritizes_favorite_then_recent_dedup() {
    let recent = vec![
        Track {
            artist: "Slayer".into(),
            ..sample_track("1", "/1.mp3")
        },
        Track {
            artist: "Metallica".into(),
            ..sample_track("2", "/2.mp3")
        },
        Track {
            artist: "slayer".into(),
            ..sample_track("3", "/3.mp3")
        },
        Track {
            artist: "Megadeth".into(),
            ..sample_track("4", "/4.mp3")
        },
    ];
    let seeds = pick_diversity_seed_artists(Some("Metallica"), &recent, 3);
    assert_eq!(
        seeds,
        vec![
            "Metallica".to_string(),
            "Slayer".to_string(),
            "Megadeth".to_string()
        ]
    );
}

#[test]
fn pick_diversity_seed_artists_skips_empty_favorite() {
    let recent = vec![Track {
        artist: "Slayer".into(),
        ..sample_track("1", "/1.mp3")
    }];
    let seeds = pick_diversity_seed_artists(Some(""), &recent, 3);
    assert_eq!(seeds, vec!["Slayer".to_string()]);
}

#[test]
fn cap_of_zero_keeps_nothing() {
    let tracks = vec![sample_track("1", "/1.mp3"), sample_track("2", "/2.mp3")];
    assert!(cap_tracks_per_artist(tracks, 0).is_empty());
}

#[test]
fn capping_twice_changes_nothing_more() {
    let tracks = vec![
        Track { artist: "A".into(), ..sample_track("1", "/1.mp3") },
        Track { artist: "a ".into(), ..sample_track("2", "/2.mp3") },
        Track { artist: "B".into(), ..sample_track("3", "/3.mp3") },
        Track { artist: "A".into(), ..sample_track("4", "/4.mp3") },
    ];
    let once = cap_tracks_per_artist(tracks, 1);
    assert_eq!(ids(&once), vec!["1", "3"]);
    let twice = cap_tracks_per_artist(once, 1);
    assert_eq!(ids(&twice), vec!["1", "3"]);
}

#[test]
fn seeds_are_trimmed_and_limited() {
    let recent = vec![
        Track { artist: "  Slayer ".into(), ..sample_track("1", "/1.mp3") },
        Track { artist: "   ".into(), ..sample_track("2", "/2.mp3") },
        Track { artist: "Megadeth".into(), ..sample_track("3", "/3.mp3") },
        Track { artist: "Anthrax".into(), ..sample_track("4", "/4.mp3") },
    ];
    let seeds = pick_diversity_seed_artists(None, &recent, 2);
    assert_eq!(seeds, vec!["Slayer".to_string(), "Megadeth".to_string()]);
}

#[test]
fn a_zero_limit_still_keeps_the_first_seed() {
    let recent = vec![
        Track { artist: "Slayer".into(), ..sample_track("1", "/1.mp3") },
        Track { artist: "Megadeth".into(), ..sample_track("2", "/2.mp3") },
    ];
    let seeds = pick_diversity_seed_artists(None, &recent, 0);
    assert_eq!(seeds, vec!["Slayer".to_string()]);
}

#[test]
fn seeds_from_favorite_summary_use_the_standard_limit() {
    let fav = ArtistSummaryDto {
        name: "Tool".to_string(),
        track_count: 3,
        album_count: 1,
    };
    let recent: Vec<Track> = (0..8)
        .map(|i| Track {
            artist: format!("Band {i}"),
            ..sample_track(&i.to_string(), &format!("/{i}.mp3"))
        })
        .collect();
    let seeds = diversity_seed_artists_from(Some(&fav), &recent);
    assert_eq!(
        seeds,
        vec!["Tool", "Band 0", "Band 1", "Band 2", "Band 3"]
            .into_iter()
            .map(String::from)
            .collect::<Vec<_>>()
    );
    let none = diversity_seed_artists_from(None, &recent[..1]);
    assert_eq!(none, vec!["Band 0".to_string()]);
}

#[test]
fn artist_key_trims_and_lowercases() {
    assert_eq!(normalize_artist_key("  MetalLICA \t"), "metallica");
    assert_eq!(normalize_artist_key("Ärzte"), "ärzte");
}

#[test]
fn add_candidate_skips_paths_already_present() {
    let mut pool = Vec::new();
    add_candidate(&mut pool, sample_track("1", "/a.mp3"));
    add_candidate(&mut pool, sample_track("2", "/b.mp3"));
    add_candidate(&mut pool, sample_track("3", "/a.mp3"));
    assert_eq!(ids(&pool), vec!["1", "2"]);
}

fn hint(name: &str, seed: &str) -> DiscoveryArtistDto {
    DiscoveryArtistDto {
        name: name.to_string(),
        similar_to: seed.to_string(),
        cover_url: None,
    }
}

#[test]
fn discovery_is_merged_round_robin() {
    let groups = vec![
        vec![hint("a1", "A"), hint("a2", "A"), hint("a3", "A")],
        vec![hint("b1", "B")],
        vec![hint("c1", "C"), hint("c2", "C")],
    ];
    let merged = merge_discovery(&groups);
    let names: Vec<&str> = merged.iter().map(|d| d.name.as_str()).collect();
    assert_eq!(names, vec!["a1", "b1", "c1", "a2", "c2", "a3"]);
}

#[test]
fn discovery_merge_stops_at_eight_and_keeps_every_seed() {
    let many: Vec<DiscoveryArtistDto> = (0..10).map(|i| hint(&format!("a{i}"), "A")).collect();
    let groups = vec![many, vec![hint("b0", "B")], vec![]];
    let merged = merge_discovery(&groups);
    assert_eq!(merged.len(), 8);
    assert_eq!(merged[0].name, "a0");
    assert_eq!(merged[1].name, "b0");
    assert_eq!(merged[7].name, "a6");
}

#[test]
fn split_takes_featured_mix_and_more() {
    let candidates: Vec<Track> = (0..25)
        .map(|i| sample_track(&i.to_string(), &format!("/{i}.mp3")))
        .collect();
    let (featured, mix, more) = split_suggestions(candidates, None);
    assert_eq!(featured.unwrap().id, "0");
    assert_eq!(ids(&mix), vec!["1", "2", "3", "4", "5", "6", "7", "8"]);
    assert_eq!(
        ids(&more),
        vec!["9", "10", "11", "12", "13", "14", "15", "16", "17", "18"]
    );
}

#[test]
fn split_falls_back_to_favorite_without_candidates() {
    let (featured, mix, more) = split_suggestions(Vec::new(), Some(sample_track("fav", "/f.mp3")));
    assert_eq!(featured.unwrap().id, "fav");
    assert!(mix.is_empty());
    assert!(more.is_empty());
    let (featured, mix, more) = split_suggestions(vec![sample_track("x", "/x.mp3")], None);
    assert_eq!(featured.unwrap().id, "x");
    assert!(mix.is_empty() && more.is_empty());
}

#[test]
fn shuffle_is_a_seeded_permutation() {
    let mut items: Vec<Track> = (1..=5)
        .map(|i| sample_track(&i.to_string(), &format!("/{i}.mp3")))
        .collect();
    shuffle_tracks(&mut items, 1_700_000_000);
    assert_eq!(ids(&items), vec!["3", "2", "1", "4", "5"]);
    let mut three: Vec<Track> = (1..=3)
        .map(|i| sample_track(&i.to_string(), &format!("/{i}.mp3")))
        .collect();
    shuffle_tracks(&mut three, 0);
    assert_eq!(ids(&three), vec!["1", "3", "2"]);
    let mut sorted: Vec<String> = items.iter().map(|t| t.id.clone()).collect();
    sorted.sort();
    assert_eq!(sorted, vec!["1", "2", "3", "4", "5"]);
}

#[test]
fn shuffling_one_track_leaves_it() {
    let mut one = vec![sample_track("only", "/o.mp3")];
    shuffle_tracks(&mut one, 42);
    assert_eq!(ids(&one), vec!["only"]);
}

use wave::dto::{AlbumSummaryDto, HomeSuggestionsDto};
use wave::suggestions::{finish_home_suggestions, note_similar_artist};

#[test]
fn owned_similar_artists_become_candidates() {
    let mut candidates = vec![sample_track("1", "/a.mp3")];
    let mut seen = Vec::new();
    let mut hints = Vec::new();
    note_similar_artist(
        &mut candidates,
        &mut seen,
        &mut hints,
        "Metallica",
        "Megadeth".into(),
        None,
        vec![sample_track("2", "/b.mp3"), sample_track("3", "/a.mp3")],
    );
    assert_eq!(ids(&candidates), vec!["1", "2"]);
    assert!(seen.is_empty() && hints.is_empty());
}

#[test]
fn unowned_similar_artists_become_one_hint_each() {
    let mut candidates = Vec::new();
    let mut seen = Vec::new();
    let mut hints = Vec::new();
    note_similar_artist(&mut candidates, &mut seen, &mut hints, "Metallica", "Anthrax".into(), Some("rg-1".into()), vec![]);
    note_similar_artist(&mut candidates, &mut seen, &mut hints, "Slayer", " ANTHRAX ".into(), None, vec![]);
    note_similar_artist(&mut candidates, &mut seen, &mut hints, "Slayer", "Exodus".into(), None, vec![]);
    assert!(candidates.is_empty());
    assert_eq!(seen, vec!["anthrax".to_string(), "exodus".to_string()]);
    assert_eq!(hints.len(), 2);
    assert_eq!(hints[0].name, "Anthrax");
    assert_eq!(hints[0].similar_to, "Metallica");
    assert_eq!(
        hints[0].cover_url.as_deref(),
        Some("https://coverartarchive.org/release-group/rg-1/front-250")
    );
    assert_eq!(hints[1].name, "Exodus");
    assert_eq!(hints[1].cover_url, None);
}

#[test]
fn home_page_is_assembled_from_ranked_candidates() {
    let candidates: Vec<Track> = (1..=5)
        .map(|i| Track {
            artist: if i <= 4 { "Same".into() } else { "Other".into() },
            ..sample_track(&i.to_string(), &format!("/{i}.mp3"))
        })
        .collect();
    let album = AlbumSummaryDto {
        name: "Album".into(),
        album_artist: None,
        artist: "Same".into(),
        track_count: 4,
        year: None,
        cover_art_data_url: None,
        cover_art_mime: None,
        cover_track_path: None,
    };
    let groups = vec![vec![hint("h1", "Same")]];
    let home: HomeSuggestionsDto = finish_home_suggestions(
        candidates,
        1_700_000_000,
        Some(sample_track("fav", "/fav.mp3")),
        None,
        None,
        vec![album],
        true,
        &groups,
    );
    // Shuffled at this time the order is 3, 2, 1, 4, 5; "Same" is capped at three.
    assert_eq!(home.featured.as_ref().map(|t| t.id.as_str()), Some("3"));
    assert_eq!(ids(&home.mix), vec!["2", "1", "5"]);
    assert!(home.more.is_empty());
    assert_eq!(home.favorite_track.as_ref().map(|t| t.id.as_str()), Some("fav"));
    assert_eq!(home.albums.len(), 1);
    assert!(home.curated);
    assert_eq!(home.discovery.len(), 1);
}

#[test]
fn empty_home_page_features_the_favorite() {
    let home = finish_home_suggestions(
        Vec::new(),
        0,
        Some(sample_track("fav", "/fav.mp3")),
        None,
        None,
        Vec::new(),
        false,
        &Vec::new(),
    );
    assert_eq!(home.featured.as_ref().map(|t| t.id.as_str()), Some("fav"));
    assert!(home.mix.is_empty() && home.more.is_empty() && home.discovery.is_empty());
    assert!(!home.curated);
}

fn album(name: &str, artist: Option<&str>) -> AlbumSummaryDto {
    AlbumSummaryDto {
        name: name.to_string(),
        album_artist: artist.map(|a| a.to_string()),
        artist: artist.unwrap_or("Various").to_string(),
        track_count: 10,
        year: None,
        cover_art_data_url: None,
        cover_art_mime: None,
        cover_track_path: None,
    }
}

fn names(albums: &[AlbumSummaryDto]) -> Vec<String> {
    albums.iter().map(|a| a.name.clone()).collect()
}

#[test]
fn album_suggestions_put_listened_albums_first() {
    let rows = vec![(album("Cold", Some("A")), false), (album("Hot", Some("B")), true)];
    let picked = pick_album_suggestions(&rows, None, 10, 1_700_000_000);
    assert_eq!(names(&picked), vec!["Hot", "Cold"]);
}

#[test]
fn album_suggestions_start_with_the_favorite_and_skip_repeats() {
    let rows = vec![
        (album("Fav", Some("A")), true),
        (album("Other", Some("B")), false),
        (album("Other", Some("B")), false),
        (album("Fav", Some("Z")), false),
    ];
    let picked = pick_album_suggestions(&rows, Some(album("Fav", Some("A"))), 10, 42);
    assert_eq!(picked[0].name, "Fav");
    assert_eq!(picked[0].album_artist.as_deref(), Some("A"));
    assert_eq!(picked.len(), 3);
    let keys: Vec<String> = picked
        .iter()
        .map(|a| format!("{}::{}", a.name, a.album_artist.clone().unwrap_or_default()))
        .collect();
    for i in 0..keys.len() {
        for j in (i + 1)..keys.len() {
            assert_ne!(keys[i], keys[j]);
        }
    }
}

#[test]
fn album_suggestions_stop_at_the_limit() {
    let rows = vec![
        (album("One", None), true),
        (album("Two", None), true),
        (album("Three", None), true),
    ];
    assert_eq!(pick_album_suggestions(&rows, None, 2, 7).len(), 2);
    assert!(pick_album_suggestions(&[], None, 2, 7).is_empty());
    assert_eq!(names(&pick_album_suggestions(&[], Some(album("Fav", None)), 5, 7)), vec!["Fav"]);
}

#[test]
fn home_pool_keeps_gather_order_and_dedupes_by_path() {
    let transitions = vec![
        vec![sample_track("t1", "/m/a.mp3"), sample_track("t2", "/m/b.mp3")],
        vec![sample_track("t3", "/m/b.mp3"), sample_track("t4", "/m/c.mp3")],
    ];
    let most = vec![sample_track("m1", "/m/a.mp3"), sample_track("m2", "/m/d.mp3")];
    let recent = vec![sample_track("r1", "/m/e.mp3")];
    let genre = vec![sample_track("g1", "/m/f.mp3"), sample_track("g2", "/m/e.mp3")];
    let pool = gather_home_candidates(&transitions, &most, &recent, &[], &[], &genre);
    assert_eq!(ids(&pool), vec!["t1", "t2", "t4", "m2", "r1", "g1"]);
}

#[test]
fn home_pool_takes_twenty_by_artist_and_sixteen_of_album() {
    let by_artist: Vec<Track> =
        (0..25).map(|i| sample_track(&format!("a{i}"), &format!("/a/{i}.mp3"))).collect();
    let by_album: Vec<Track> =
        (0..20).map(|i| sample_track(&format!("b{i}"), &format!("/b/{i}.mp3"))).collect();
    let pool = gather_home_candidates(&Vec::new(), &[], &[], &by_artist, &by_album, &[]);
    assert_eq!(pool.len(), 36);
    assert_eq!(pool[19].id, "a19");
    assert_eq!(pool[20].id, "b0");
    assert_eq!(pool[35].id, "b15");
}

#[test]
fn favorite_lookups_skip_blank_tags_and_fall_back_to_artist() {
    let none = favorite_lookups(None);
    assert!(none.artist.is_none() && none.album.is_none() && none.genre.is_none());

    let mut t = sample_track("f", "/f.mp3");
    t.album_artist = Some("  ".to_string());
    t.genre = Some("  Jazz ".to_string());
    let l = favorite_lookups(Some(&t));
    assert_eq!(l.artist.as_deref(), Some("Artist"));
    assert_eq!(l.album, Some(("Album".to_string(), "Artist".to_string())));
    assert_eq!(l.genre.as_deref(), Some("Jazz"));

    t.artist = " ".to_string();
    t.album = String::new();
    t.album_artist = Some("Band".to_string());
    t.genre = Some("   ".to_string());
    let l = favorite_lookups(Some(&t));
    assert!(l.artist.is_none() && l.album.is_none() && l.genre.is_none());

    t.album = "LP".to_string();
    let l = favorite_lookups(Some(&t));
    assert_eq!(l.album, Some(("LP".to_string(), "Band".to_string())));
}

fn similar(name: &str, mbid: Option<&str>, owned: Vec<Track>) -> SimilarArtistRow {
    SimilarArtistRow {
        name: name.to_string(),
        cover_release_group_mbid: mbid.map(|m| m.to_string()),
        owned,
    }
}

#[test]
fn discovery_lists_unowned_similar_artists_once_and_pools_owned_tracks() {
    let mut owned_track = sample_track("y1", "/m/y.mp3");
    owned_track.artist = "Y".to_string();
    let seeds = vec![
        SeedSimilarRows {
            seed: "Seed A".to_string(),
            rows: vec![
                similar("X", Some("mb1"), Vec::new()),
                similar("Y", None, vec![owned_track]),
                similar(" x ", None, Vec::new()),
            ],
        },
        SeedSimilarRows {
            seed: "Seed B".to_string(),
            rows: vec![similar("Z", None, Vec::new()), similar("X", None, Vec::new())],
        },
    ];
    let mut candidates = vec![sample_track("c1", "/m/c.mp3")];
    let groups = gather_discovery(&mut candidates, seeds);
    assert_eq!(ids(&candidates), vec!["c1", "y1"]);
    assert_eq!(groups.len(), 2);
    assert_eq!(groups[0].len(), 1);
    assert_eq!(groups[0][0].name, "X");
    assert_eq!(groups[0][0].similar_to, "Seed A");
    assert_eq!(
        groups[0][0].cover_url.as_deref(),
        Some("https://coverartarchive.org/release-group/mb1/front-250")
    );
    assert_eq!(groups[1].len(), 1);
    assert_eq!(groups[1][0].name, "Z");
    assert_eq!(groups[1][0].similar_to, "Seed B");
    assert_eq!(groups[1][0].cover_url, None);
    let merged = merge_discovery(&groups);
    let names: Vec<&str> = merged.iter().map(|d| d.name.as_str()).collect();
    assert_eq!(names, vec!["X", "Z"]);
}

#[test]
fn home_discovery_lists_non_owned_similar_artist_without_cover() {
    let seeds = vec![SeedSimilarRows {
        seed: "Metallica".to_string(),
        rows: vec![similar("Anthrax", None, Vec::new())],
    }];
    let mut candidates = Vec::new();
    let discovery = home_discovery(&mut candidates, seeds);
    assert_eq!(discovery.len(), 1);
    assert_eq!(discovery[0].name, "Anthrax");
    assert_eq!(discovery[0].similar_to, "Metallica");
    assert_eq!(discovery[0].cover_url, None);
    assert!(!discovery.iter().any(|d| d.name == "Metallica"));
    assert!(candidates.is_empty());
}

#[test]
fn home_discovery_balances_across_seed_artists() {
    let metallica_rows: Vec<SimilarArtistRow> = (0..10)
        .map(|i| similar(&format!("Metallica Similar {i}"), None, Vec::new()))
        .collect();
    let seeds = vec![
        SeedSimilarRows { seed: "Metallica".to_string(), rows: metallica_rows },
        SeedSimilarRows { seed: "Slayer".to_string(), rows: vec![similar("Exodus", Some("rg"), Vec::new())] },
    ];
    let mut candidates = Vec::new();
    let discovery = home_discovery(&mut candidates, seeds);
    assert_eq!(discovery.len(), 8);
    assert_eq!(discovery[0].name, "Metallica Similar 0");
    assert_eq!(discovery[1].name, "Exodus");
    assert_eq!(discovery[1].similar_to, "Slayer");
    assert_eq!(
        discovery[1].cover_url.as_deref(),
        Some("https://coverartarchive.org/release-group/rg/front-250")
    );
    assert_eq!(discovery[7].name, "Metallica Similar 6");
}
