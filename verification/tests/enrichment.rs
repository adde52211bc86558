use wave::enrichment::{
    artists_needing_enrichment, cover_art_url, enrichment_is_stale, enrichment_lookups,
    genres_by_count, GenreTag, ARTIST_ENRICHMENT_PROFILE_VERSION, ARTIST_ENRICHMENT_TTL_SECS,
};

#[test]
fn cover_art_url_points_at_release_group_front_image() {
    assert_eq!(
        cover_art_url("f1afec0b-26dd-3db5-9aa1-c91229a74a24"),
        "https://coverartarchive.org/release-group/f1afec0b-26dd-3db5-9aa1-c91229a74a24/front-250"
    );
}

fn tag(name: &str, count: i64) -> GenreTag {
    GenreTag {
        name: name.to_string(),
        count,
    }
}

#[test]
fn genres_are_ranked_by_count_descending() {
    let ranked = genres_by_count(vec![
        tag("hard rock", 20),
        tag("heavy metal", 41),
        tag("thrash metal", 5),
    ]);
    assert_eq!(
        ranked,
        vec![
            "heavy metal".to_string(),
            "hard rock".to_string(),
            "thrash metal".to_string()
        ]
    );
}

#[test]
fn genres_with_equal_counts_keep_their_order() {
    let ranked = genres_by_count(vec![
        tag("b", 1),
        tag("a", 3),
        tag("c", 1),
        tag("d", 3),
        tag("e", 0),
    ]);
    assert_eq!(ranked, vec!["a", "d", "b", "c", "e"]);
    assert!(genres_by_count(Vec::new()).is_empty());
}

/// Looks up each name's key in `rows` the way the cache table is keyed.
fn with_cache(names: &[String], rows: &[(&str, i64, i64)]) -> Vec<(String, Option<(i64, i64)>)> {
    enrichment_lookups(names)
        .into_iter()
        .map(|(name, key)| {
            let cached = rows
                .iter()
                .find(|(k, _, _)| *k == key)
                .map(|(_, at, v)| (*at, *v));
            (name, cached)
        })
        .collect()
}

#[test]
fn artists_needing_enrichment_filters_fresh_cache_and_includes_missing_and_stale() {
    let now = 1_700_000_000;
    let rows = [
        ("metallica", now, ARTIST_ENRICHMENT_PROFILE_VERSION),
        ("slayer", now - 40 * 24 * 60 * 60, ARTIST_ENRICHMENT_PROFILE_VERSION),
    ];
    let names = vec![
        "Metallica".to_string(),
        "Slayer".to_string(),
        "Megadeth".to_string(),
    ];
    let needing = artists_needing_enrichment(&with_cache(&names, &rows), now);
    assert_eq!(needing, vec!["Slayer".to_string(), "Megadeth".to_string()]);
}

#[test]
fn artists_needing_enrichment_forces_refresh_when_cache_predates_current_profile_version() {
    let now = 1_700_000_000;
    let rows = [("pantera", now, ARTIST_ENRICHMENT_PROFILE_VERSION - 1)];
    let needing = artists_needing_enrichment(&with_cache(&["Pantera".to_string()], &rows), now);
    assert_eq!(
        needing,
        vec!["Pantera".to_string()],
        "a fresh-by-TTL row saved under an older profile version must still be flagged as needing refresh"
    );
}

#[test]
fn lookups_skip_blank_names_and_trim() {
    let names = vec!["  Tool ".to_string(), "   ".to_string(), "ABBA".to_string()];
    let lookups = enrichment_lookups(&names);
    assert_eq!(
        lookups,
        vec![
            ("Tool".to_string(), "tool".to_string()),
            ("ABBA".to_string(), "abba".to_string())
        ]
    );
}

#[test]
fn staleness_boundary_is_exclusive() {
    let now = 2_000_000_000;
    let v = ARTIST_ENRICHMENT_PROFILE_VERSION;
    assert!(!enrichment_is_stale(Some((now - ARTIST_ENRICHMENT_TTL_SECS, v)), now));
    assert!(enrichment_is_stale(Some((now - ARTIST_ENRICHMENT_TTL_SECS - 1, v)), now));
    assert!(enrichment_is_stale(None, now));
    assert!(!enrichment_is_stale(Some((now, v + 1)), now));
    assert!(enrichment_is_stale(Some((i64::MIN, v)), i64::MAX));
    assert_eq!(ARTIST_ENRICHMENT_TTL_SECS, 2_592_000);
}
