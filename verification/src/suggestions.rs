//! Home-page suggestion shaping: per-artist caps, seed-artist selection,
//! discovery merging and the final featured / mix / more split.

use vstd::prelude::*;

use crate::text::{
    all_ascii, ascii_lower, is_blank, lemma_trim_idempotent, push_str, str_eq, to_lowercase, trim, trim_str, unicode_lower,
};
use crate::dto::{AlbumSummaryDto, ArtistSummaryDto, DiscoveryArtistDto, HomeSuggestionsDto};
use crate::enrichment::{cover_art_prefix, cover_art_suffix, cover_art_url};
use crate::track::Track;

verus! {

/// How many tracks by a single artist may appear in one suggestions response.
pub const MAX_TRACKS_PER_ARTIST_IN_SUGGESTIONS: usize = 3;

/// How many of your top artists seed the similar-artist / genre lookups.
pub const DIVERSITY_SEED_ARTIST_LIMIT: usize = 5;

/// Most discovery hints a suggestions response carries.
pub const MAX_DISCOVERY: usize = 8;

// ── Artist keys ───────────────────────────────────────────────────────────

/// Case/whitespace-insensitive artist key: trimmed, then lower-cased.
pub open spec fn artist_key_of(name: Seq<char>) -> Seq<char> {
    unicode_lower(trim(name))
}

/// The artist key of a track.
pub open spec fn track_key(t: Track) -> Seq<char> {
    artist_key_of(t.artist@)
}

/// Case/whitespace-insensitive key used to match an artist name against
/// cached enrichment rows and against other tracks in the library.
pub fn normalize_artist_key(artist_name: &str) -> (r: String)
    ensures
        r@ == artist_key_of(artist_name@),
        all_ascii(trim(artist_name@)) ==> r@ == ascii_lower(trim(artist_name@)),
{
    let trimmed = trim_str(artist_name);
    to_lowercase(trimmed.as_str())
}

// ── Per-artist cap ────────────────────────────────────────────────────────

/// How many tracks of `ts` have artist key `k`.
pub open spec fn key_count(ts: Seq<Track>, k: Seq<char>) -> nat
    decreases ts.len(),
{
    if ts.len() == 0 {
        0
    } else {
        key_count(ts.drop_last(), k) + if track_key(ts.last()) == k {
            1nat
        } else {
            0nat
        }
    }
}

/// `ts` with every track dropped whose artist already appeared `cap` times
/// earlier in the list; order is kept.
pub open spec fn capped(ts: Seq<Track>, cap: nat) -> Seq<Track>
    decreases ts.len(),
{
    if ts.len() == 0 {
        Seq::empty()
    } else {
        let before = capped(ts.drop_last(), cap);
        if key_count(ts, track_key(ts.last())) <= cap {
            before.push(ts.last())
        } else {
            before
        }
    }
}

/// Position of key `k` in `keys`, if present.
fn key_position(keys: &Vec<String>, k: &String) -> (r: Option<usize>)
    ensures
        r matches Some(i) ==> i < keys@.len() && keys@[i as int]@ == k@,
        r is None ==> forall|i: int| 0 <= i < keys@.len() ==> keys@[i]@ != k@,
{
    let mut i: usize = 0;
    while i < keys.len()
        invariant
            i <= keys@.len(),
            forall|j: int| 0 <= j < i ==> keys@[j]@ != k@,
        decreases keys.len() - i,
    {
        if keys[i] == *k {
            return Some(i);
        }
        i += 1;
    }
    None
}

/// Keep at most `cap` tracks per artist (case-insensitive), preserving the
/// input order.
pub fn cap_tracks_per_artist(tracks: Vec<Track>, cap: usize) -> (r: Vec<Track>)
    ensures
        r@ == capped(tracks@, cap as nat),
{
    let ghost all = tracks@;
    let n = tracks.len();
    let mut keys: Vec<String> = Vec::new();
    let mut counts: Vec<usize> = Vec::new();
    let mut out: Vec<Track> = Vec::new();
    let mut seen: usize = 0;
    for t in it: tracks
        invariant
            it.seq() == all,
            all.len() == n,
            seen == it.index(),
            seen <= all.len(),
            keys@.len() == counts@.len(),
            out@ == capped(all.take(seen as int), cap as nat),
            forall|i: int|
                0 <= i < keys@.len() ==> counts@[i] == key_count(
                    all.take(seen as int),
                    #[trigger] keys@[i]@,
                ),
            forall|k: Seq<char>|
                key_count(all.take(seen as int), k) > 0 ==> exists|i: int|
                    0 <= i < keys@.len() && #[trigger] keys@[i]@ == k,
            forall|i: int, j: int| 0 <= i < j < keys@.len() ==> keys@[i]@ != keys@[j]@,
            forall|i: int| 0 <= i < counts@.len() ==> counts@[i] <= seen,
    {
        let ghost prefix = all.take(seen as int);
        let ghost next = all.take(seen + 1);
        assert(next.drop_last() == prefix);
        assert(next.last() == t);
        let key = normalize_artist_key(t.artist.as_str());
        let ghost old_keys = keys@;
        let ghost kv = key@;
        let ghost mut pos: int = 0;
        assert(seen < n);
        let count: usize;
        match key_position(&keys, &key) {
            Some(p) => {
                count = counts[p] + 1;
                counts.set(p, count);
                proof {
                    pos = p as int;
                }
            },
            None => {
                proof {
                    if key_count(prefix, key@) > 0 {
                        let i = choose|i: int| 0 <= i < keys@.len() && #[trigger] keys@[i]@ == key@;
                        assert(keys@[i]@ == key@);
                    }
                }
                keys.push(key);
                counts.push(1);
                count = 1;
                proof {
                    pos = keys@.len() - 1;
                }
            },
        }
        assert(keys@[pos]@ == kv);
        proof {
            assert forall|i: int| 0 <= i < keys@.len() implies counts@[i] == key_count(
                next,
                #[trigger] keys@[i]@,
            ) by {
                assert(key_count(next, keys@[i]@) == key_count(prefix, keys@[i]@) + if track_key(t)
                    == keys@[i]@ {
                    1nat
                } else {
                    0nat
                });
            }
            assert forall|k: Seq<char>| key_count(next, k) > 0 implies exists|i: int|
                0 <= i < keys@.len() && #[trigger] keys@[i]@ == k by {
                if key_count(prefix, k) > 0 {
                    let i = choose|i: int| 0 <= i < old_keys.len() && #[trigger] old_keys[i]@ == k;
                    assert(keys@[i] == old_keys[i]);
                } else {
                    assert(track_key(t) == k);
                    assert(keys@[pos]@ == k);
                }
            }
        }
        if count <= cap {
            out.push(t);
        }
        seen += 1;
    }
    proof {
        assert(all.take(all.len() as int) == all);
    }
    out
}

/// After capping, each artist appears as often as before, but at most `cap`
/// times.
pub proof fn lemma_capped_counts(ts: Seq<Track>, cap: nat, k: Seq<char>)
    ensures
        key_count(capped(ts, cap), k) == if key_count(ts, k) <= cap {
            key_count(ts, k)
        } else {
            cap
        },
    decreases ts.len(),
{
    if ts.len() > 0 {
        let before = capped(ts.drop_last(), cap);
        lemma_capped_counts(ts.drop_last(), cap, k);
        let x = ts.last();
        if key_count(ts, track_key(x)) <= cap {
            assert(capped(ts, cap).drop_last() == before);
            assert(capped(ts, cap).last() == x);
        }
    }
}

/// A list in which no artist exceeds `cap` tracks is left as it is.
pub proof fn lemma_capped_noop(ts: Seq<Track>, cap: nat)
    requires
        forall|k: Seq<char>| #[trigger] key_count(ts, k) <= cap,
    ensures
        capped(ts, cap) == ts,
    decreases ts.len(),
{
    if ts.len() > 0 {
        let init = ts.drop_last();
        assert forall|k: Seq<char>| #[trigger] key_count(init, k) <= cap by {
            assert(key_count(init, k) <= key_count(ts, k));
        }
        lemma_capped_noop(init, cap);
        assert(key_count(ts, track_key(ts.last())) <= cap);
        assert(ts =~= init.push(ts.last()));
    }
}

/// Capping twice is the same as capping once.
pub proof fn lemma_capped_idempotent(ts: Seq<Track>, cap: nat)
    ensures
        capped(capped(ts, cap), cap) == capped(ts, cap),
{
    assert forall|k: Seq<char>| #[trigger] key_count(capped(ts, cap), k) <= cap by {
        lemma_capped_counts(ts, cap, k);
    }
    lemma_capped_noop(capped(ts, cap), cap);
}

// ── Seed artists ──────────────────────────────────────────────────────────

/// One step of seed selection: add the trimmed `name` unless it is blank,
/// its key was already taken, or the list is already full.
pub open spec fn seed_step(acc: Seq<Seq<char>>, name: Seq<char>, limit: nat) -> Seq<Seq<char>> {
    let t = trim(name);
    if acc.len() > 0 && acc.len() >= limit {
        acc
    } else if t.len() == 0 {
        acc
    } else if exists|i: int| 0 <= i < acc.len() && artist_key_of(#[trigger] acc[i]) == artist_key_of(t) {
        acc
    } else {
        acc.push(t)
    }
}

/// Seed artists picked from `names`, in order.
pub open spec fn seeds(names: Seq<Seq<char>>, limit: nat) -> Seq<Seq<char>>
    decreases names.len(),
{
    if names.len() == 0 {
        Seq::empty()
    } else {
        seed_step(seeds(names.drop_last(), limit), names.last(), limit)
    }
}

/// The candidate names: the favorite artist (if any), then the artist of each
/// recently played track, most recent first.
pub open spec fn seed_candidates(favorite: Option<Seq<char>>, recent: Seq<Track>) -> Seq<Seq<char>> {
    let fav = match favorite {
        Some(f) => seq![f],
        None => Seq::empty(),
    };
    fav + recent.map_values(|t: Track| t.artist@)
}

/// Seed artists are non-blank, trimmed, pairwise distinct by artist key,
/// and there are at most `limit` of them (one, when `limit` is zero).
pub proof fn lemma_seeds_shape(names: Seq<Seq<char>>, limit: nat)
    ensures
        seeds(names, limit).len() <= if limit == 0 {
            1
        } else {
            limit
        },
        forall|i: int|
            0 <= i < seeds(names, limit).len() ==> #[trigger] seeds(names, limit)[i].len() > 0
                && trim(seeds(names, limit)[i]) == seeds(names, limit)[i],
        forall|i: int, j: int|
            0 <= i < j < seeds(names, limit).len() ==> artist_key_of(#[trigger] seeds(names, limit)[i])
                != artist_key_of(#[trigger] seeds(names, limit)[j]),
    decreases names.len(),
{
    if names.len() > 0 {
        let acc = seeds(names.drop_last(), limit);
        lemma_seeds_shape(names.drop_last(), limit);
        let t = trim(names.last());
        lemma_trim_idempotent(names.last());
        let r = seeds(names, limit);
        if r != acc {
            assert(r == acc.push(t));
            assert forall|i: int, j: int| 0 <= i < j < r.len() implies artist_key_of(#[trigger] r[i])
                != artist_key_of(#[trigger] r[j]) by {
                if j == acc.len() {
                    assert(r[i] == acc[i]);
                }
            }
        }
    }
}

/// Seed selection only ever appends: the seeds picked from a prefix of the
/// names start the seeds picked from all of them.
proof fn lemma_seeds_prefix(names: Seq<Seq<char>>, k: int, limit: nat)
    requires
        0 <= k <= names.len(),
    ensures
        seeds(names.take(k), limit).len() <= seeds(names, limit).len(),
        seeds(names, limit).take(seeds(names.take(k), limit).len() as int) == seeds(names.take(k), limit),
    decreases names.len(),
{
    if k == names.len() {
        assert(names.take(k) == names);
    } else {
        let init = names.drop_last();
        assert(init.take(k) == names.take(k));
        lemma_seeds_prefix(init, k, limit);
        let a = seeds(init, limit);
        let r = seeds(names, limit);
        assert(r == a || r == a.push(trim(names.last())));
        assert(r.take(a.len() as int) == a);
    }
}

/// A non-blank favorite artist is always the first seed, trimmed.
pub proof fn lemma_favorite_seeds_first(favorite: Seq<char>, recent: Seq<Track>, limit: nat)
    requires
        trim(favorite).len() > 0,
    ensures
        seeds(seed_candidates(Some(favorite), recent), limit).len() >= 1,
        seeds(seed_candidates(Some(favorite), recent), limit)[0] == trim(favorite),
{
    let names = seed_candidates(Some(favorite), recent);
    assert(names.take(1) == seq![favorite]);
    assert(seq![favorite].drop_last() == Seq::<Seq<char>>::empty());
    let empty = Seq::<Seq<char>>::empty();
    assert(seeds(empty, limit) == empty);
    assert(seed_step(empty, favorite, limit) =~= seq![trim(favorite)]);
    assert(seq![favorite].last() == favorite);
    assert(seeds(seq![favorite], limit) == seed_step(seeds(empty, limit), favorite, limit));
    assert(seeds(seq![favorite], limit) == seq![trim(favorite)]);
    lemma_seeds_prefix(names, 1, limit);
    let all = seeds(names, limit);
    assert(all.take(1) == seq![trim(favorite)]);
    assert(all.take(1)[0] == all[0]);
}

/// Pick the artists whose taste should seed genre/similar-artist diversity:
/// your favorite artist first, then distinct artists from recently played
/// tracks, most recent first. Case-insensitively deduplicated.
pub fn pick_diversity_seed_artists(favorite_artist: Option<&str>, recent: &[Track], limit: usize) -> (r:
    Vec<String>)
    ensures
        r@.map_values(|s: String| s@) == seeds(
            seed_candidates(
                match favorite_artist {
                    Some(f) => Some(f@),
                    None => None,
                },
                recent@,
            ),
            limit as nat,
        ),
{
    let ghost fav = match favorite_artist {
        Some(f) => Some(f@),
        None => None,
    };
    let ghost names = seed_candidates(fav, recent@);
    let mut out: Vec<String> = Vec::new();
    let mut keys: Vec<String> = Vec::new();
    let ghost mut done: int = 0;
    assert(out@.map_values(|s: String| s@) =~= Seq::<Seq<char>>::empty());
    match favorite_artist {
        Some(f) => {
            assert(names.take(1).drop_last() == names.take(0));
            assert(seeds(names.take(0), limit as nat) == Seq::<Seq<char>>::empty());
            consider_seed(&mut out, &mut keys, f, limit, Ghost(names.take(0)));
            proof {
                done = 1;
            }
        },
        None => {},
    }
    proof {
        assert(out@.map_values(|s: String| s@) == seeds(names.take(done), limit as nat));
    }
    let mut i: usize = 0;
    while i < recent.len()
        invariant
            names == seed_candidates(fav, recent@),
            done == names.len() - recent@.len() + i,
            0 <= done <= names.len(),
            i <= recent@.len(),
            out@.map_values(|s: String| s@) == seeds(names.take(done), limit as nat),
            keys@.len() == out@.len(),
            forall|j: int| 0 <= j < keys@.len() ==> keys@[j]@ == artist_key_of(#[trigger] out@[j]@),
        decreases recent.len() - i,
    {
        let ghost before = names.take(done);
        assert(names.take(done + 1).drop_last() == before);
        assert(names.take(done + 1).last() == recent@[i as int].artist@);
        consider_seed(&mut out, &mut keys, recent[i].artist.as_str(), limit, Ghost(before));
        i += 1;
        proof {
            done = done + 1;
        }
    }
    proof {
        assert(names.take(done) == names);
    }
    out
}

/// Apply `seed_step` for `name` to the accumulated seeds.
fn consider_seed(
    out: &mut Vec<String>,
    keys: &mut Vec<String>,
    name: &str,
    limit: usize,
    Ghost(before): Ghost<Seq<Seq<char>>>,
)
    requires
        old(out)@.map_values(|s: String| s@) == seeds(before, limit as nat),
        old(keys)@.len() == old(out)@.len(),
        forall|j: int|
            0 <= j < old(keys)@.len() ==> old(keys)@[j]@ == artist_key_of(#[trigger] old(out)@[j]@),
    ensures
        final(out)@.map_values(|s: String| s@) == seed_step(seeds(before, limit as nat), name@, limit as nat),
        final(keys)@.len() == final(out)@.len(),
        forall|j: int|
            0 <= j < final(keys)@.len() ==> final(keys)@[j]@ == artist_key_of(#[trigger] final(out)@[j]@),
{
    let ghost acc = seeds(before, limit as nat);
    let ghost view_out = out@.map_values(|s: String| s@);
    assert(view_out.len() == out@.len());
    assert(view_out == acc);
    if out.len() > 0 && out.len() >= limit {
        return;
    }
    let trimmed = trim_str(name);
    if trimmed.unicode_len() == 0 {
        return;
    }
    let key = normalize_artist_key(trimmed.as_str());
    if let Some(j) = key_position(keys, &key) {
        proof {
            assert(keys@[j as int]@ == artist_key_of(out@[j as int]@));
            assert(view_out[j as int] == out@[j as int]@);
            assert(artist_key_of(acc[j as int]) == artist_key_of(trim(name@)));
            assert(seed_step(acc, name@, limit as nat) == acc);
        }
        return;
    }
    proof {
        assert forall|q: int| 0 <= q < view_out.len() implies artist_key_of(#[trigger] view_out[q])
            != artist_key_of(trim(name@)) by {
            assert(keys@[q]@ != key@);
            assert(keys@[q]@ == artist_key_of(out@[q]@));
            assert(view_out[q] == out@[q]@);
        }
    }
    out.push(trimmed);
    keys.push(key);
    proof {
        assert(out@.map_values(|s: String| s@) == view_out.push(trim(name@)));
    }
}

/// Same as [`pick_diversity_seed_artists`] but takes the already-resolved
/// favorite artist summary, with the standard seed limit.
pub fn diversity_seed_artists_from(favorite_artist: Option<&ArtistSummaryDto>, recent: &[Track]) -> (r:
    Vec<String>)
    ensures
        r@.map_values(|s: String| s@) == seeds(
            seed_candidates(
                match favorite_artist {
                    Some(a) => Some(a.name@),
                    None => None,
                },
                recent@,
            ),
            DIVERSITY_SEED_ARTIST_LIMIT as nat,
        ),
{
    match favorite_artist {
        Some(a) => pick_diversity_seed_artists(Some(a.name.as_str()), recent, DIVERSITY_SEED_ARTIST_LIMIT),
        None => pick_diversity_seed_artists(None, recent, DIVERSITY_SEED_ARTIST_LIMIT),
    }
}

// ── Candidate pool ────────────────────────────────────────────────────────

/// Whether some track of `ts` has path `p`.
pub open spec fn has_path(ts: Seq<Track>, p: Seq<char>) -> bool {
    exists|i: int| 0 <= i < ts.len() && (#[trigger] ts[i]).path@ == p
}

/// Add `track` to the candidate pool unless a candidate with the same path
/// is already there.
pub fn add_candidate(candidates: &mut Vec<Track>, track: Track)
    ensures
        final(candidates)@ == if has_path(old(candidates)@, track.path@) {
            old(candidates)@
        } else {
            old(candidates)@.push(track)
        },
{
    let mut i: usize = 0;
    let mut found = false;
    while i < candidates.len()
        invariant
            i <= candidates@.len(),
            candidates@ == old(candidates)@,
            found ==> has_path(candidates@, track.path@),
            !found ==> forall|j: int| 0 <= j < i ==> (#[trigger] candidates@[j]).path@ != track.path@,
        decreases candidates.len() - i,
    {
        if candidates[i].path == track.path {
            found = true;
        }
        i += 1;
    }
    if !found {
        candidates.push(track);
    }
}

// ── Discovery merge ───────────────────────────────────────────────────────

/// The `r`-th entry of every group that has one, in group order.
pub open spec fn round_items(groups: Seq<Seq<DiscoveryArtistDto>>, r: int) -> Seq<DiscoveryArtistDto>
    decreases groups.len(),
{
    if groups.len() == 0 {
        Seq::empty()
    } else {
        let before = round_items(groups.drop_last(), r);
        if 0 <= r < groups.last().len() {
            before.push(groups.last()[r])
        } else {
            before
        }
    }
}

/// Rounds `0..n` of the round-robin, concatenated.
pub open spec fn rounds(groups: Seq<Seq<DiscoveryArtistDto>>, n: nat) -> Seq<DiscoveryArtistDto>
    decreases n,
{
    if n == 0 {
        Seq::empty()
    } else {
        rounds(groups, (n - 1) as nat) + round_items(groups, n - 1)
    }
}

/// Length of the longest group.
pub open spec fn longest(groups: Seq<Seq<DiscoveryArtistDto>>) -> nat
    decreases groups.len(),
{
    if groups.len() == 0 {
        0
    } else {
        let m = longest(groups.drop_last());
        if groups.last().len() > m {
            groups.last().len()
        } else {
            m
        }
    }
}

/// Round-robin merge of per-seed discovery hints (first of each seed, then
/// second of each, …), capped at `MAX_DISCOVERY` entries.
pub open spec fn merged_discovery(groups: Seq<Seq<DiscoveryArtistDto>>) -> Seq<DiscoveryArtistDto> {
    let all = rounds(groups, longest(groups));
    if all.len() <= MAX_DISCOVERY {
        all
    } else {
        all.take(MAX_DISCOVERY as int)
    }
}

/// The exec groups as values.
pub open spec fn groups_view(gs: Seq<Vec<DiscoveryArtistDto>>) -> Seq<Seq<DiscoveryArtistDto>> {
    gs.map_values(|g: Vec<DiscoveryArtistDto>| g@)
}

/// A round holds at most one entry per group, and each entry comes from
/// one of the groups.
proof fn lemma_round_items(groups: Seq<Seq<DiscoveryArtistDto>>, r: int)
    ensures
        round_items(groups, r).len() <= groups.len(),
        forall|i: int|
            0 <= i < round_items(groups, r).len() ==> exists|g: int|
                0 <= g < groups.len() && groups[g].contains(#[trigger] round_items(groups, r)[i]),
        forall|g: int|
            0 <= g < groups.len() && 0 <= r < groups[g].len() ==> round_items(groups, r).contains(
                #[trigger] groups[g][r],
            ),
    decreases groups.len(),
{
    if groups.len() > 0 {
        let init = groups.drop_last();
        lemma_round_items(init, r);
        let before = round_items(init, r);
        let items = round_items(groups, r);
        assert forall|i: int| 0 <= i < items.len() implies exists|g: int|
            0 <= g < groups.len() && groups[g].contains(#[trigger] items[i]) by {
            if i < before.len() {
                assert(items[i] == before[i]);
                let g = choose|g: int| 0 <= g < init.len() && init[g].contains(before[i]);
                assert(groups[g] == init[g]);
            } else {
                assert(groups[groups.len() - 1].contains(groups.last()[r]));
            }
        }
        assert forall|g: int| 0 <= g < groups.len() && 0 <= r < groups[g].len() implies items.contains(
            #[trigger] groups[g][r],
        ) by {
            if g < init.len() {
                assert(groups[g] == init[g]);
                let i = choose|i: int| 0 <= i < before.len() && before[i] == init[g][r];
                assert(items[i] == before[i]);
            } else {
                assert(items[items.len() - 1] == groups.last()[r]);
            }
        }
    }
}

/// Every merged entry comes from one of the groups.
proof fn lemma_rounds_from_groups(groups: Seq<Seq<DiscoveryArtistDto>>, n: nat)
    ensures
        forall|i: int|
            0 <= i < rounds(groups, n).len() ==> exists|g: int|
                0 <= g < groups.len() && groups[g].contains(#[trigger] rounds(groups, n)[i]),
        n >= 1 ==> rounds(groups, n).len() >= round_items(groups, 0).len(),
        n >= 1 ==> rounds(groups, n).take(round_items(groups, 0).len() as int) == round_items(groups, 0),
    decreases n,
{
    if n > 0 {
        lemma_rounds_from_groups(groups, (n - 1) as nat);
        lemma_round_items(groups, n - 1);
        let a = rounds(groups, (n - 1) as nat);
        let b = round_items(groups, n - 1);
        let all = rounds(groups, n);
        assert(all == a + b);
        assert forall|i: int| 0 <= i < all.len() implies exists|g: int|
            0 <= g < groups.len() && groups[g].contains(#[trigger] all[i]) by {
            if i < a.len() {
                assert(all[i] == a[i]);
            } else {
                assert(all[i] == b[i - a.len()]);
            }
        }
        if n == 1 {
            assert(a =~= Seq::<DiscoveryArtistDto>::empty());
            assert(all =~= b);
        } else {
            lemma_round_items(groups, 0);
            assert(all.take(round_items(groups, 0).len() as int) =~= a.take(round_items(groups, 0).len() as int));
        }
    }
}

/// Some group is at least as long as any given one.
proof fn lemma_longest(groups: Seq<Seq<DiscoveryArtistDto>>, g: int)
    requires
        0 <= g < groups.len(),
    ensures
        groups[g].len() <= longest(groups),
    decreases groups.len(),
{
    if g < groups.len() - 1 {
        lemma_longest(groups.drop_last(), g);
        assert(groups.drop_last()[g] == groups[g]);
    }
}

/// The merged discovery list holds at most `MAX_DISCOVERY` entries, each
/// from one of the per-seed groups; when there are at most `MAX_DISCOVERY`
/// seeds, the first hint of every seed that has one is among them.
pub proof fn lemma_merged_discovery(groups: Seq<Seq<DiscoveryArtistDto>>)
    ensures
        merged_discovery(groups).len() <= MAX_DISCOVERY,
        forall|i: int|
            0 <= i < merged_discovery(groups).len() ==> exists|g: int|
                0 <= g < groups.len() && groups[g].contains(#[trigger] merged_discovery(groups)[i]),
        groups.len() <= MAX_DISCOVERY ==> forall|g: int|
            0 <= g < groups.len() && groups[g].len() > 0 ==> merged_discovery(groups).contains(
                #[trigger] groups[g][0],
            ),
{
    let all = rounds(groups, longest(groups));
    let m = merged_discovery(groups);
    lemma_rounds_from_groups(groups, longest(groups));
    assert forall|i: int| 0 <= i < m.len() implies exists|g: int|
        0 <= g < groups.len() && groups[g].contains(#[trigger] m[i]) by {
        assert(m[i] == all[i]);
    }
    if groups.len() <= MAX_DISCOVERY {
        assert forall|g: int| 0 <= g < groups.len() && groups[g].len() > 0 implies m.contains(
            #[trigger] groups[g][0],
        ) by {
            lemma_longest(groups, g);
            lemma_round_items(groups, 0);
            let first = round_items(groups, 0);
            assert(all.len() >= first.len());
            let i = choose|i: int| 0 <= i < first.len() && first[i] == groups[g][0];
            assert(all.take(first.len() as int) == first);
            assert(all[i] == first[i]);
            assert(m[i] == all[i]);
        }
    }
}

/// Merge discovery hints round-robin so a seed with many cached similar
/// artists can't crowd out the others, keeping at most `MAX_DISCOVERY`.
pub fn merge_discovery(by_seed: &Vec<Vec<DiscoveryArtistDto>>) -> (r: Vec<DiscoveryArtistDto>)
    ensures
        r@ == merged_discovery(groups_view(by_seed@)),
{
    let ghost gv = groups_view(by_seed@);
    let mut max: usize = 0;
    let mut g: usize = 0;
    while g < by_seed.len()
        invariant
            g <= by_seed@.len(),
            gv == groups_view(by_seed@),
            max == longest(gv.take(g as int)),
        decreases by_seed.len() - g,
    {
        assert(gv.take(g + 1).drop_last() == gv.take(g as int));
        assert(gv.take(g + 1).last() == by_seed@[g as int]@);
        if by_seed[g].len() > max {
            max = by_seed[g].len();
        }
        g += 1;
    }
    assert(gv.take(by_seed@.len() as int) == gv);
    let mut out: Vec<DiscoveryArtistDto> = Vec::new();
    let mut round: usize = 0;
    while round < max
        invariant
            round <= max,
            gv == groups_view(by_seed@),
            out@ == rounds(gv, round as nat),
        decreases max - round,
    {
        let ghost before = out@;
        let mut k: usize = 0;
        while k < by_seed.len()
            invariant
                k <= by_seed@.len(),
                gv == groups_view(by_seed@),
                out@ == before + round_items(gv.take(k as int), round as int),
            decreases by_seed.len() - k,
        {
            let ghost gk = gv.take(k + 1);
            assert(gk.drop_last() == gv.take(k as int));
            assert(gk.last() == by_seed@[k as int]@);
            if round < by_seed[k].len() {
                let item = by_seed[k][round].duplicate();
                out.push(item);
            }
            k += 1;
        }
        assert(gv.take(by_seed@.len() as int) == gv);
        round += 1;
    }
    if out.len() > MAX_DISCOVERY {
        out.truncate(MAX_DISCOVERY);
    }
    out
}

// ── Final shaping ─────────────────────────────────────────────────────────

/// How many tracks the "mix" row shows after the featured one.
pub const MIX_LEN: usize = 8;

/// How many tracks the "more" row shows after the mix.
pub const MORE_LEN: usize = 10;

/// The smaller of two naturals.
pub open spec fn min_nat(a: int, b: int) -> int {
    if a < b {
        a
    } else {
        b
    }
}

/// Split the ranked candidates into the featured track (falling back to the
/// favorite track when there are none), the "mix" row (the next `MIX_LEN`)
/// and the "more" row (the `MORE_LEN` after those).
pub fn split_suggestions(candidates: Vec<Track>, favorite: Option<Track>) -> (r: (Option<Track>, Vec<Track>, Vec<Track>))
    ensures
        r.0 == if candidates@.len() > 0 {
            Some(candidates@[0])
        } else {
            favorite
        },
        r.1@ == candidates@.subrange(
            min_nat(1, candidates@.len() as int),
            min_nat(1 + MIX_LEN, candidates@.len() as int),
        ),
        r.2@ == candidates@.subrange(
            min_nat(1 + MIX_LEN, candidates@.len() as int),
            min_nat(1 + MIX_LEN + MORE_LEN, candidates@.len() as int),
        ),
{
    let ghost c = candidates@;
    let n = candidates.len();
    let mut featured: Option<Track> = favorite;
    let mut mix: Vec<Track> = Vec::new();
    let mut more: Vec<Track> = Vec::new();
    let mix_end = if n < 1 + MIX_LEN { n } else { 1 + MIX_LEN };
    let more_end = if n < 1 + MIX_LEN + MORE_LEN { n } else { 1 + MIX_LEN + MORE_LEN };
    let mut i: usize = 0;
    for t in it: candidates
        invariant
            it.seq() == c,
            c.len() == n,
            i == it.index(),
            i <= n,
            mix_end == min_nat(1 + MIX_LEN, n as int),
            more_end == min_nat(1 + MIX_LEN + MORE_LEN, n as int),
            featured == if i > 0 {
                Some(c[0])
            } else {
                favorite
            },
            mix@ == c.subrange(min_nat(1, i as int), min_nat(mix_end as int, i as int)),
            more@ == c.subrange(min_nat(mix_end as int, i as int), min_nat(more_end as int, i as int)),
    {
        assert(i < n);
        assert(t == c[i as int]);
        if i == 0 {
            featured = Some(t);
        } else if i < mix_end {
            mix.push(t);
            assert(mix@ == c.subrange(1, (i + 1) as int));
        } else if i < more_end {
            more.push(t);
            assert(more@ == c.subrange(mix_end as int, (i + 1) as int));
        }
        i += 1;
    }
    (featured, mix, more)
}

// ── Seeded shuffle ────────────────────────────────────────────────────────

/// Multiplier of the shuffle's linear congruential generator.
pub const LCG_MUL: u64 = 6364136223846793005;

/// Mixing constant folded into the initial seed.
pub const SEED_MIX: u64 = 0x9E37_79B9_7F4A_7C15;

/// Next state of the generator.
pub open spec fn lcg_next(s: u64) -> u64 {
    vstd::wrapping::u64_specs::wrapping_add(vstd::wrapping::u64_specs::wrapping_mul(s, LCG_MUL), 1)
}

/// Initial generator state for shuffling `len` items at time `now`.
pub open spec fn initial_seed(now: i64, len: nat) -> u64 {
    (now as u64) ^ vstd::wrapping::u64_specs::wrapping_mul(len as u64, SEED_MIX)
}

/// `s` with positions `i` and `j` exchanged.
pub open spec fn swapped<T>(s: Seq<T>, i: int, j: int) -> Seq<T> {
    s.update(i, s[j]).update(j, s[i])
}

/// Fisher–Yates steps for positions `i` down to 1, starting from generator
/// state `seed`.
pub open spec fn shuffle_steps<T>(s: Seq<T>, i: nat, seed: u64) -> Seq<T>
    decreases i,
{
    if i == 0 {
        s
    } else {
        let next = lcg_next(seed);
        let j = ((next as usize) as nat) % (i + 1);
        shuffle_steps(swapped(s, i as int, j as int), (i - 1) as nat, next)
    }
}

/// `s` shuffled from generator state `seed`.
pub open spec fn shuffle_from<T>(s: Seq<T>, seed: u64) -> Seq<T> {
    if s.len() <= 1 {
        s
    } else {
        shuffle_steps(s, (s.len() - 1) as nat, seed)
    }
}

/// The shuffled order of `s` at time `now`.
pub open spec fn shuffled(s: Seq<Track>, now: i64) -> Seq<Track> {
    shuffle_from(s, initial_seed(now, s.len()))
}

/// Exchanging two positions keeps the same items.
proof fn lemma_swapped_multiset<T>(s: Seq<T>, i: int, j: int)
    requires
        0 <= i < s.len(),
        0 <= j < s.len(),
    ensures
        swapped(s, i, j).to_multiset() == s.to_multiset(),
        swapped(s, i, j).len() == s.len(),
{
    broadcast use vstd::seq_lib::to_multiset_update;
    broadcast use vstd::multiset::group_multiset_axioms;
    if i == j {
        assert(swapped(s, i, j) =~= s);
    } else {
        let s1 = s.update(i, s[j]);
        assert(s1[j] == s[j]);
        assert(s1.to_multiset() == s.to_multiset().insert(s[j]).remove(s[i]));
        assert(swapped(s, i, j).to_multiset() == s1.to_multiset().insert(s[i]).remove(s[j]));
        let m = s.to_multiset();
        assert(s.contains(s[i]) && s.contains(s[j]));
        vstd::seq_lib::to_multiset_contains(s, s[i]);
        vstd::seq_lib::to_multiset_contains(s, s[j]);
        assert(m.insert(s[j]).remove(s[i]).insert(s[i]).remove(s[j]) =~= m);
    }
}

/// The Fisher–Yates steps only reorder.
proof fn lemma_shuffle_steps_multiset<T>(s: Seq<T>, i: nat, seed: u64)
    requires
        i < s.len(),
    ensures
        shuffle_steps(s, i, seed).to_multiset() == s.to_multiset(),
        shuffle_steps(s, i, seed).len() == s.len(),
    decreases i,
{
    if i > 0 {
        let next = lcg_next(seed);
        let j = ((next as usize) as nat) % (i + 1);
        lemma_swapped_multiset(s, i as int, j as int);
        lemma_shuffle_steps_multiset(swapped(s, i as int, j as int), (i - 1) as nat, next);
    }
}

/// Shuffling from any generator state keeps every item, as often as it
/// occurs, and adds none.
pub proof fn lemma_shuffle_from_permutation<T>(s: Seq<T>, seed: u64)
    ensures
        shuffle_from(s, seed).to_multiset() == s.to_multiset(),
        shuffle_from(s, seed).len() == s.len(),
{
    if s.len() > 1 {
        lemma_shuffle_steps_multiset(s, (s.len() - 1) as nat, seed);
    }
}

/// Shuffling keeps every track, as often as it occurs, and adds none.
pub proof fn lemma_shuffled_permutation(s: Seq<Track>, now: i64)
    ensures
        shuffled(s, now).to_multiset() == s.to_multiset(),
        shuffled(s, now).len() == s.len(),
{
    lemma_shuffle_from_permutation(s, initial_seed(now, s.len()));
}

/// `<[T]>::swap`: exchanges the elements at `i` and `j`.
#[verifier::external_body]
fn swap_items<T>(v: &mut Vec<T>, i: usize, j: usize)
    requires
        i < old(v)@.len(),
        j < old(v)@.len(),
    ensures
        final(v)@ == swapped(old(v)@, i as int, j as int),
{
    v.swap(i, j);
}

/// Shuffle `items` in place (Fisher–Yates driven by a linear congruential
/// generator started at `seed`).
fn shuffle_in_place<T>(items: &mut Vec<T>, seed: u64)
    ensures
        final(items)@ == shuffle_from(old(items)@, seed),
{
    let n = items.len();
    if n <= 1 {
        return;
    }
    let mut state: u64 = seed;
    let mut i: usize = n - 1;
    while i >= 1
        invariant
            i < n == items@.len(),
            shuffle_steps(items@, i as nat, state) == shuffle_from(old(items)@, seed),
        decreases i,
    {
        let next = state.wrapping_mul(LCG_MUL).wrapping_add(1);
        let j = (next as usize) % (i + 1);
        swap_items(items, i, j);
        state = next;
        i -= 1;
    }
}

/// Shuffle the suggestion candidates in place, seeded from `now` (a Unix
/// timestamp) and their number.
pub fn shuffle_tracks(items: &mut Vec<Track>, now: i64)
    ensures
        final(items)@ == shuffled(old(items)@, now),
{
    let n = items.len();
    let seed: u64 = (now as u64) ^ (n as u64).wrapping_mul(SEED_MIX);
    shuffle_in_place(items, seed);
}

// ── Album suggestions ─────────────────────────────────────────────────────

/// Most album rows the album suggestions are picked from.
pub const ALBUM_SUGGESTION_POOL: usize = 40;

/// Initial generator state for shuffling `len` album rows at time `now`.
pub open spec fn album_seed(now: i64, len: nat) -> u64 {
    (now as u64) ^ (len as u64)
}

/// The albums among `rows` whose flag is `listened`, in order.
pub open spec fn album_tier(rows: Seq<(AlbumSummaryDto, bool)>, listened: bool) -> Seq<AlbumSummaryDto>
    decreases rows.len(),
{
    if rows.len() == 0 {
        Seq::empty()
    } else {
        let rest = album_tier(rows.drop_last(), listened);
        if rows.last().1 == listened {
            rest.push(rows.last().0)
        } else {
            rest
        }
    }
}

/// The album rows in suggestion order: the listened-to albums shuffled,
/// then the others shuffled, each tier from its own seed.
pub open spec fn album_tiers(rows: Seq<(AlbumSummaryDto, bool)>, now: i64) -> Seq<AlbumSummaryDto> {
    let hot = album_tier(rows, true);
    let cold = album_tier(rows, false);
    shuffle_from(hot, album_seed(now, hot.len())) + shuffle_from(cold, album_seed(now, cold.len()))
}

/// The identity of an album among suggestions: `name::album_artist`.
pub open spec fn album_key(a: AlbumSummaryDto) -> Seq<char> {
    a.name@ + "::"@ + match a.album_artist {
        Some(x) => x@,
        None => Seq::empty(),
    }
}

/// The albums picked after `out` (whose keys are `seen`) from `rest`: each
/// album whose key is new, until `limit` albums are out (checked after
/// each album of `rest` is considered).
pub open spec fn take_albums(
    out: Seq<AlbumSummaryDto>,
    seen: Set<Seq<char>>,
    rest: Seq<AlbumSummaryDto>,
    limit: nat,
) -> Seq<AlbumSummaryDto>
    decreases rest.len(),
{
    if rest.len() == 0 {
        out
    } else {
        let a = rest[0];
        let next = if seen.contains(album_key(a)) {
            out
        } else {
            out.push(a)
        };
        if next.len() >= limit {
            next
        } else {
            take_albums(next, seen.insert(album_key(a)), rest.drop_first(), limit)
        }
    }
}

/// The suggested albums: the favorite album first when there is one, then
/// albums in tier order whose key is new, up to `limit`.
pub open spec fn suggested_albums(
    rows: Seq<(AlbumSummaryDto, bool)>,
    favorite: Option<AlbumSummaryDto>,
    limit: nat,
    now: i64,
) -> Seq<AlbumSummaryDto> {
    match favorite {
        Some(f) => take_albums(seq![f], set![album_key(f)], album_tiers(rows, now), limit),
        None => take_albums(Seq::empty(), Set::empty(), album_tiers(rows, now), limit),
    }
}

/// The keys held by `seen`.
pub open spec fn key_set(seen: Seq<String>) -> Set<Seq<char>> {
    Set::new(|k: Seq<char>| exists|i: int| 0 <= i < seen.len() && #[trigger] seen[i]@ == k)
}

/// `format!("{}::{}", name, album_artist)`.
fn album_key_string(a: &AlbumSummaryDto) -> (r: String)
    ensures
        r@ == album_key(*a),
{
    let mut k = a.name.clone();
    push_str(&mut k, "::");
    match &a.album_artist {
        Some(x) => push_str(&mut k, x.as_str()),
        None => {},
    }
    k
}

/// Whether `seen` holds `k`.
fn seen_contains(seen: &Vec<String>, k: &str) -> (r: bool)
    ensures
        r == key_set(seen@).contains(k@),
{
    let mut i: usize = 0;
    while i < seen.len()
        invariant
            i <= seen@.len(),
            forall|j: int| 0 <= j < i ==> seen@[j]@ != k@,
        decreases seen.len() - i,
    {
        if str_eq(seen[i].as_str(), k) {
            assert(key_set(seen@).contains(k@));
            return true;
        }
        i += 1;
    }
    false
}

/// Split album rows into the listened-to tier and the rest, in order.
fn album_tier_split(rows: &[(AlbumSummaryDto, bool)]) -> (r: (Vec<AlbumSummaryDto>, Vec<AlbumSummaryDto>))
    ensures
        r.0@ == album_tier(rows@, true),
        r.1@ == album_tier(rows@, false),
{
    let mut hot: Vec<AlbumSummaryDto> = Vec::new();
    let mut cold: Vec<AlbumSummaryDto> = Vec::new();
    let mut i: usize = 0;
    while i < rows.len()
        invariant
            i <= rows@.len(),
            hot@ == album_tier(rows@.take(i as int), true),
            cold@ == album_tier(rows@.take(i as int), false),
        decreases rows.len() - i,
    {
        let row = &rows[i];
        proof {
            assert(rows@.take(i + 1).drop_last() == rows@.take(i as int));
            assert(rows@.take(i + 1).last() == *row);
        }
        if row.1 {
            hot.push(row.0.duplicate());
        } else {
            cold.push(row.0.duplicate());
        }
        i += 1;
    }
    assert(rows@.take(rows@.len() as int) == rows@);
    (hot, cold)
}

/// Pick the album suggestions from the library's top album rows (each
/// flagged with whether it has any listen time), `favorite` first, up to
/// `limit` albums; the tiers are shuffled with seeds taken from `now`, a
/// Unix timestamp.
pub fn pick_album_suggestions(
    rows: &[(AlbumSummaryDto, bool)],
    favorite: Option<AlbumSummaryDto>,
    limit: usize,
    now: i64,
) -> (r: Vec<AlbumSummaryDto>)
    ensures
        r@ == suggested_albums(rows@, favorite, limit as nat, now),
{
    let (mut hot, mut cold) = album_tier_split(rows);
    let hot_seed: u64 = (now as u64) ^ (hot.len() as u64);
    shuffle_in_place(&mut hot, hot_seed);
    let cold_seed: u64 = (now as u64) ^ (cold.len() as u64);
    shuffle_in_place(&mut cold, cold_seed);
    hot.append(&mut cold);
    let ranked = hot;
    assert(ranked@ == album_tiers(rows@, now));
    let mut out: Vec<AlbumSummaryDto> = Vec::new();
    let mut seen: Vec<String> = Vec::new();
    match favorite {
        Some(f) => {
            let k = album_key_string(&f);
            proof {
                lemma_key_set_push(seen@, k);
            }
            seen.push(k);
            out.push(f);
            assert(out@ == seq![f]);
            assert(key_set(seen@) =~= set![album_key(f)]);
        },
        None => {
            assert(key_set(seen@) =~= Set::<Seq<char>>::empty());
        },
    }
    take_new_albums(&mut out, &mut seen, ranked.as_slice(), limit);
    out
}

/// Adding a key to a list of keys adds it to their set.
proof fn lemma_key_set_push(seen: Seq<String>, s: String)
    ensures
        key_set(seen.push(s)) == key_set(seen).insert(s@),
{
    let longer = seen.push(s);
    assert forall|k: Seq<char>| #[trigger] key_set(longer).contains(k) implies key_set(seen).insert(s@).contains(k) by {
        let i = choose|i: int| 0 <= i < longer.len() && #[trigger] longer[i]@ == k;
        if i < seen.len() {
            assert(seen[i]@ == k);
        }
    }
    assert forall|k: Seq<char>| #[trigger] key_set(seen).insert(s@).contains(k) implies key_set(longer).contains(k) by {
        if k == s@ {
            assert(longer[seen.len() as int]@ == k);
        } else {
            let i = choose|i: int| 0 <= i < seen.len() && #[trigger] seen[i]@ == k;
            assert(longer[i]@ == k);
        }
    }
    assert(key_set(longer) =~= key_set(seen).insert(s@));
}

/// Continue picking albums from `ranked` after `out`, whose keys are
/// `seen`, as `take_albums` does.
fn take_new_albums(out: &mut Vec<AlbumSummaryDto>, seen: &mut Vec<String>, ranked: &[AlbumSummaryDto], limit: usize)
    ensures
        final(out)@ == take_albums(old(out)@, key_set(old(seen)@), ranked@, limit as nat),
{
    assert(ranked@.skip(0) == ranked@);
    let mut i: usize = 0;
    while i < ranked.len()
        invariant
            i <= ranked@.len(),
            take_albums(out@, key_set(seen@), ranked@.skip(i as int), limit as nat) == take_albums(
                old(out)@,
                key_set(old(seen)@),
                ranked@,
                limit as nat,
            ),
        decreases ranked.len() - i,
    {
        let a = &ranked[i];
        let key = album_key_string(a);
        let ghost rest = ranked@.skip(i as int);
        let ghost seen_before = key_set(seen@);
        let ghost out_before = out@;
        assert(rest[0] == *a);
        assert(rest.drop_first() == ranked@.skip(i + 1));
        if !seen_contains(seen, key.as_str()) {
            proof {
                lemma_key_set_push(seen@, key);
            }
            out.push(a.duplicate());
            seen.push(key);
        } else {
            assert(seen_before.insert(album_key(*a)) =~= seen_before);
        }
        assert(out@ == if seen_before.contains(album_key(*a)) {
            out_before
        } else {
            out_before.push(*a)
        });
        if out.len() >= limit {
            assert(take_albums(out_before, seen_before, rest, limit as nat) == out@);
            return;
        }
        i += 1;
    }
    assert(ranked@.skip(i as int) =~= Seq::<AlbumSummaryDto>::empty());
}

/// No two albums of `s` share a key.
pub open spec fn distinct_album_keys(s: Seq<AlbumSummaryDto>) -> bool {
    forall|i: int, j: int| 0 <= i < j < s.len() ==> album_key(#[trigger] s[i]) != album_key(#[trigger] s[j])
}

/// What picking keeps: `out` stays in front, keys stay distinct, and every
/// added album comes from `rest`.
proof fn lemma_take_albums(out: Seq<AlbumSummaryDto>, seen: Set<Seq<char>>, rest: Seq<AlbumSummaryDto>, limit: nat)
    requires
        forall|k: int| 0 <= k < out.len() ==> seen.contains(album_key(#[trigger] out[k])),
        distinct_album_keys(out),
    ensures
        ({
            let r = take_albums(out, seen, rest, limit);
            &&& out.len() <= r.len()
            &&& r.subrange(0, out.len() as int) == out
            &&& distinct_album_keys(r)
            &&& forall|k: int| out.len() <= k < r.len() ==> rest.contains(#[trigger] r[k])
        }),
    decreases rest.len(),
{
    if rest.len() > 0 {
        let a = rest[0];
        let next = if seen.contains(album_key(a)) {
            out
        } else {
            out.push(a)
        };
        let seen2 = seen.insert(album_key(a));
        assert(forall|k: int| 0 <= k < next.len() ==> seen2.contains(album_key(#[trigger] next[k])));
        assert(distinct_album_keys(next));
        assert(rest.contains(a));
        if next.len() < limit {
            lemma_take_albums(next, seen2, rest.drop_first(), limit);
            let r = take_albums(next, seen2, rest.drop_first(), limit);
            assert(r.subrange(0, out.len() as int) == r.subrange(0, next.len() as int).subrange(0, out.len() as int));
            assert forall|k: int| out.len() <= k < r.len() implies rest.contains(#[trigger] r[k]) by {
                if k < next.len() {
                    assert(r[k] == next[k]);
                } else {
                    let j = choose|j: int| 0 <= j < rest.drop_first().len() && rest.drop_first()[j] == r[k];
                    assert(rest[j + 1] == r[k]);
                }
            }
        } else {
            assert(next.subrange(0, out.len() as int) =~= out);
        }
    } else {
        assert(out.subrange(0, out.len() as int) =~= out);
    }
}

/// Every album of a tier is one of the rows' albums.
proof fn lemma_album_tier_from_rows(rows: Seq<(AlbumSummaryDto, bool)>, listened: bool, x: AlbumSummaryDto)
    requires
        album_tier(rows, listened).contains(x),
    ensures
        exists|i: int| 0 <= i < rows.len() && (#[trigger] rows[i]).0 == x,
    decreases rows.len(),
{
    let rest = album_tier(rows.drop_last(), listened);
    if rows.last().1 == listened && x == rows.last().0 {
        assert(rows[rows.len() - 1].0 == x);
    } else {
        if rows.last().1 == listened {
            let k = choose|k: int| 0 <= k < album_tier(rows, listened).len() && album_tier(rows, listened)[k] == x;
            assert(k < rest.len());
            assert(rest[k] == x);
        }
        assert(rest.contains(x));
        lemma_album_tier_from_rows(rows.drop_last(), listened, x);
        let i = choose|i: int| 0 <= i < rows.drop_last().len() && (#[trigger] rows.drop_last()[i]).0 == x;
        assert(rows[i].0 == x);
    }
}

/// Every album in suggestion order is one of the rows' albums.
proof fn lemma_album_tiers_from_rows(rows: Seq<(AlbumSummaryDto, bool)>, now: i64, x: AlbumSummaryDto)
    requires
        album_tiers(rows, now).contains(x),
    ensures
        exists|i: int| 0 <= i < rows.len() && (#[trigger] rows[i]).0 == x,
{
    broadcast use vstd::multiset::group_multiset_axioms;
    let hot = album_tier(rows, true);
    let cold = album_tier(rows, false);
    let sh = shuffle_from(hot, album_seed(now, hot.len()));
    let sc = shuffle_from(cold, album_seed(now, cold.len()));
    lemma_shuffle_from_permutation(hot, album_seed(now, hot.len()));
    lemma_shuffle_from_permutation(cold, album_seed(now, cold.len()));
    let k = choose|k: int| 0 <= k < (sh + sc).len() && (sh + sc)[k] == x;
    if k < sh.len() {
        assert(sh.contains(x));
        vstd::seq_lib::to_multiset_contains(sh, x);
        vstd::seq_lib::to_multiset_contains(hot, x);
        lemma_album_tier_from_rows(rows, true, x);
    } else {
        assert(sc[k - sh.len()] == x);
        assert(sc.contains(x));
        vstd::seq_lib::to_multiset_contains(sc, x);
        vstd::seq_lib::to_multiset_contains(cold, x);
        lemma_album_tier_from_rows(rows, false, x);
    }
}

/// The album suggestions put the favorite album first when there is one,
/// never hold two albums with the same `name::album_artist` key, and hold
/// nothing but the favorite and albums of the given rows.
pub proof fn lemma_album_suggestions(
    rows: Seq<(AlbumSummaryDto, bool)>,
    favorite: Option<AlbumSummaryDto>,
    limit: nat,
    now: i64,
)
    ensures
        ({
            let r = suggested_albums(rows, favorite, limit, now);
            &&& favorite matches Some(f) ==> r.len() >= 1 && r[0] == f
            &&& distinct_album_keys(r)
            &&& forall|k: int|
                0 <= k < r.len() && !(k == 0 && favorite is Some) ==> exists|i: int|
                    0 <= i < rows.len() && (#[trigger] rows[i]).0 == #[trigger] r[k]
        }),
{
    let tiers = album_tiers(rows, now);
    let (out, seen) = match favorite {
        Some(f) => (seq![f], set![album_key(f)]),
        None => (Seq::<AlbumSummaryDto>::empty(), Set::<Seq<char>>::empty()),
    };
    lemma_take_albums(out, seen, tiers, limit);
    let r = suggested_albums(rows, favorite, limit, now);
    assert(r == take_albums(out, seen, tiers, limit));
    if let Some(f) = favorite {
        assert(r[0] == r.subrange(0, 1)[0]);
    }
    assert forall|k: int| 0 <= k < r.len() && !(k == 0 && favorite is Some) implies exists|i: int|
        0 <= i < rows.len() && (#[trigger] rows[i]).0 == #[trigger] r[k] by {
        assert(tiers.contains(r[k]));
        lemma_album_tiers_from_rows(rows, now, r[k]);
    }
}

// ── Similar artists ───────────────────────────────────────────────────────

/// The candidate pool after offering each of `ts` in turn.
pub open spec fn added_all(pool: Seq<Track>, ts: Seq<Track>) -> Seq<Track>
    decreases ts.len(),
{
    if ts.len() == 0 {
        pool
    } else {
        let before = added_all(pool, ts.drop_last());
        if has_path(before, ts.last().path@) {
            before
        } else {
            before.push(ts.last())
        }
    }
}

/// The artist keys already turned into discovery hints, as values.
pub open spec fn keys_view(keys: Seq<String>) -> Seq<Seq<char>> {
    keys.map_values(|k: String| k@)
}

/// The discovery hint for a similar artist the library does not own.
pub open spec fn hint_ok(h: DiscoveryArtistDto, name: Seq<char>, seed: Seq<char>, mbid: Option<Seq<char>>) -> bool {
    &&& h.name@ == name
    &&& h.similar_to@ == seed
    &&& match mbid {
        Some(m) => h.cover_url matches Some(u) && u@ == cover_art_prefix() + m + cover_art_suffix(),
        None => h.cover_url is None,
    }
}

/// What the discovery hints gathered so far keep: the noted artist keys are
/// distinct, every hint's artist key is among them, and no two hints share
/// an artist key.
pub open spec fn discovery_keys_ok(seen: Seq<Seq<char>>, hints: Seq<DiscoveryArtistDto>) -> bool {
    &&& forall|i: int, j: int| 0 <= i < j < seen.len() ==> seen[i] != seen[j]
    &&& forall|k: int| 0 <= k < hints.len() ==> seen.contains(artist_key_of((#[trigger] hints[k]).name@))
    &&& forall|i: int, j: int|
        0 <= i < j < hints.len() ==> artist_key_of((#[trigger] hints[i]).name@) != artist_key_of(
            (#[trigger] hints[j]).name@,
        )
}

/// Noting a new key with its hint keeps the discovery keys distinct.
pub proof fn lemma_note_keeps_keys(seen: Seq<Seq<char>>, hints: Seq<DiscoveryArtistDto>, h: DiscoveryArtistDto)
    requires
        discovery_keys_ok(seen, hints),
        !seen.contains(artist_key_of(h.name@)),
    ensures
        discovery_keys_ok(seen.push(artist_key_of(h.name@)), hints.push(h)),
{
    let k = artist_key_of(h.name@);
    let s2 = seen.push(k);
    let h2 = hints.push(h);
    assert forall|i: int, j: int| 0 <= i < j < s2.len() implies s2[i] != s2[j] by {
        if j == seen.len() {
            assert(seen.contains(seen[i]));
        }
    }
    assert forall|m: int| 0 <= m < h2.len() implies s2.contains(artist_key_of((#[trigger] h2[m]).name@)) by {
        if m < hints.len() {
            assert(h2[m] == hints[m]);
            let w = choose|w: int| 0 <= w < seen.len() && seen[w] == artist_key_of(hints[m].name@);
            assert(s2[w] == seen[w]);
        } else {
            assert(s2[seen.len() as int] == k);
        }
    }
    assert forall|i: int, j: int| 0 <= i < j < h2.len() implies artist_key_of((#[trigger] h2[i]).name@)
        != artist_key_of((#[trigger] h2[j]).name@) by {
        if j == hints.len() {
            assert(h2[i] == hints[i]);
            assert(seen.contains(artist_key_of(hints[i].name@)));
        } else {
            assert(h2[i] == hints[i] && h2[j] == hints[j]);
        }
    }
}

/// Take in one similar artist of `seed`: when the library owns tracks by
/// it (`owned`), they join the candidate pool; otherwise it becomes a
/// discovery hint for this seed, unless an artist with the same key already
/// did (`seen` holds those keys).
pub fn note_similar_artist(
    candidates: &mut Vec<Track>,
    seen: &mut Vec<String>,
    seed_hints: &mut Vec<DiscoveryArtistDto>,
    seed: &str,
    similar_name: String,
    cover_release_group_mbid: Option<String>,
    owned: Vec<Track>,
)
    ensures
        owned@.len() > 0 ==> {
            &&& final(candidates)@ == added_all(old(candidates)@, owned@)
            &&& final(seen)@ == old(seen)@
            &&& final(seed_hints)@ == old(seed_hints)@
        },
        owned@.len() == 0 ==> {
            let key = artist_key_of(similar_name@);
            &&& final(candidates)@ == old(candidates)@
            &&& keys_view(old(seen)@).contains(key) ==> final(seen)@ == old(seen)@ && final(seed_hints)@
                == old(seed_hints)@
            &&& !keys_view(old(seen)@).contains(key) ==> {
                &&& keys_view(final(seen)@) == keys_view(old(seen)@).push(key)
                &&& final(seed_hints)@.len() == old(seed_hints)@.len() + 1
                &&& final(seed_hints)@.take(old(seed_hints)@.len() as int) == old(seed_hints)@
                &&& hint_ok(
                    final(seed_hints)@.last(),
                    similar_name@,
                    seed@,
                    match cover_release_group_mbid {
                        Some(m) => Some(m@),
                        None => None,
                    },
                )
            }
        },
        forall|earlier: Seq<DiscoveryArtistDto>|
            discovery_keys_ok(keys_view(old(seen)@), earlier + old(seed_hints)@) ==> discovery_keys_ok(
                keys_view(final(seen)@),
                earlier + final(seed_hints)@,
            ),
{
    if owned.len() > 0 {
        let ghost all = owned@;
        let ghost start = candidates@;
        let n = owned.len();
        let mut i: usize = 0;
        for t in it: owned
            invariant
                it.seq() == all,
                all.len() == n,
                i == it.index(),
                i <= n,
                candidates@ == added_all(start, all.take(i as int)),
        {
            assert(i < n);
            assert(all.take(i + 1).drop_last() == all.take(i as int));
            assert(all.take(i + 1).last() == t);
            add_candidate(candidates, t);
            i += 1;
        }
        assert(all.take(all.len() as int) == all);
        return;
    }
    let key = normalize_artist_key(similar_name.as_str());
    let mut found = false;
    let mut j: usize = 0;
    while j < seen.len()
        invariant
            j <= seen@.len(),
            found == exists|k: int| 0 <= k < j && seen@[k]@ == key@,
        decreases seen.len() - j,
    {
        if seen[j] == key {
            found = true;
        }
        j += 1;
    }
    proof {
        if found {
            let k = choose|k: int| 0 <= k < seen@.len() && seen@[k]@ == key@;
            assert(keys_view(seen@)[k] == key@);
        }
        if keys_view(seen@).contains(key@) {
            let k = choose|k: int| 0 <= k < keys_view(seen@).len() && keys_view(seen@)[k] == key@;
            assert(seen@[k]@ == key@);
        }
    }
    if found {
        return;
    }
    let ghost old_seen = seen@;
    seen.push(key);
    assert(keys_view(seen@) =~= keys_view(old_seen).push(artist_key_of(similar_name@)));
    let cover_url = match &cover_release_group_mbid {
        Some(m) => Some(cover_art_url(m.as_str())),
        None => None,
    };
    let ghost old_hints = seed_hints@;
    seed_hints.push(DiscoveryArtistDto { name: similar_name, similar_to: String::from_str(seed), cover_url });
    proof {
        assert forall|earlier: Seq<DiscoveryArtistDto>|
            discovery_keys_ok(keys_view(old_seen), earlier + old_hints) implies discovery_keys_ok(
            keys_view(seen@),
            earlier + seed_hints@,
        ) by {
            let h = seed_hints@.last();
            assert(!keys_view(old_seen).contains(artist_key_of(h.name@)));
            lemma_note_keeps_keys(keys_view(old_seen), earlier + old_hints, h);
            assert(earlier + seed_hints@ =~= (earlier + old_hints).push(h));
        }
    }
}

// ── Discovery law ─────────────────────────────────────────────────────────

/// All hints of all seeds, in seed order.
pub open spec fn flat_hints(groups: Seq<Seq<DiscoveryArtistDto>>) -> Seq<DiscoveryArtistDto>
    decreases groups.len(),
{
    if groups.len() == 0 {
        Seq::empty()
    } else {
        flat_hints(groups.drop_last()) + groups.last()
    }
}

/// Where group `g` starts among the flattened hints.
pub open spec fn hint_offset(groups: Seq<Seq<DiscoveryArtistDto>>, g: int) -> nat {
    flat_hints(groups.take(g)).len()
}

/// Hints at different positions of the groups have different artist keys.
pub open spec fn group_keys_distinct(groups: Seq<Seq<DiscoveryArtistDto>>) -> bool {
    forall|g1: int, r1: int, g2: int, r2: int|
        0 <= g1 < groups.len() && 0 <= g2 < groups.len() && 0 <= r1 < groups[g1].len() && 0 <= r2
            < groups[g2].len() && (g1 != g2 || r1 != r2) ==> artist_key_of((#[trigger] groups[g1][r1]).name@)
            != artist_key_of((#[trigger] groups[g2][r2]).name@)
}

/// No two hints of `s` share an artist key.
pub open spec fn hint_keys_distinct(s: Seq<DiscoveryArtistDto>) -> bool {
    forall|i: int, j: int|
        0 <= i < j < s.len() ==> artist_key_of((#[trigger] s[i]).name@) != artist_key_of((#[trigger] s[j]).name@)
}

/// Group `g` starts where the groups before it end.
proof fn lemma_hint_offset_step(groups: Seq<Seq<DiscoveryArtistDto>>, g: int)
    requires
        0 <= g < groups.len(),
    ensures
        hint_offset(groups, g + 1) == hint_offset(groups, g) + groups[g].len(),
        flat_hints(groups.take(g + 1)) == flat_hints(groups.take(g)) + groups[g],
{
    assert(groups.take(g + 1).drop_last() =~= groups.take(g));
    assert(groups.take(g + 1).last() == groups[g]);
}

/// Later groups start no earlier.
proof fn lemma_hint_offset_mono(groups: Seq<Seq<DiscoveryArtistDto>>, a: int, b: int)
    requires
        0 <= a < b <= groups.len(),
    ensures
        hint_offset(groups, a) + groups[a].len() <= hint_offset(groups, b),
    decreases b - a,
{
    lemma_hint_offset_step(groups, a);
    if a + 1 < b {
        lemma_hint_offset_mono(groups, a + 1, b);
        lemma_hint_offset_step(groups, a + 1);
    }
}

/// The hint at position `r` of group `g` sits at `hint_offset(g) + r`.
proof fn lemma_flat_index(groups: Seq<Seq<DiscoveryArtistDto>>, g: int, r: int)
    requires
        0 <= g < groups.len(),
        0 <= r < groups[g].len(),
    ensures
        hint_offset(groups, g) + r < flat_hints(groups).len(),
        flat_hints(groups)[hint_offset(groups, g) + r] == groups[g][r],
    decreases groups.len(),
{
    let d = groups.drop_last();
    if g == groups.len() - 1 {
        assert(groups.take(g) =~= d);
    } else {
        lemma_flat_index(d, g, r);
        assert(d.take(g) =~= groups.take(g));
        assert(d[g] == groups[g]);
    }
}

/// Flattened hints with distinct keys have distinct keys at distinct group
/// positions.
proof fn lemma_group_keys_distinct(groups: Seq<Seq<DiscoveryArtistDto>>)
    requires
        hint_keys_distinct(flat_hints(groups)),
    ensures
        group_keys_distinct(groups),
{
    let f = flat_hints(groups);
    assert forall|g1: int, r1: int, g2: int, r2: int|
        0 <= g1 < groups.len() && 0 <= g2 < groups.len() && 0 <= r1 < groups[g1].len() && 0 <= r2
            < groups[g2].len() && (g1 != g2 || r1 != r2) implies artist_key_of(
        (#[trigger] groups[g1][r1]).name@,
    ) != artist_key_of((#[trigger] groups[g2][r2]).name@) by {
        lemma_flat_index(groups, g1, r1);
        lemma_flat_index(groups, g2, r2);
        let i1 = hint_offset(groups, g1) + r1;
        let i2 = hint_offset(groups, g2) + r2;
        if g1 < g2 {
            lemma_hint_offset_mono(groups, g1, g2);
        } else if g2 < g1 {
            lemma_hint_offset_mono(groups, g2, g1);
        }
        assert(i1 != i2);
        if i1 < i2 {
            assert(artist_key_of(f[i1].name@) != artist_key_of(f[i2].name@));
        } else {
            assert(artist_key_of(f[i2].name@) != artist_key_of(f[i1].name@));
        }
    }
}

/// One round takes position `r` of distinct groups, so its keys differ.
proof fn lemma_round_keys(groups: Seq<Seq<DiscoveryArtistDto>>, r: int)
    requires
        group_keys_distinct(groups),
        0 <= r,
    ensures
        hint_keys_distinct(round_items(groups, r)),
        forall|k: int|
            0 <= k < round_items(groups, r).len() ==> exists|g: int|
                0 <= g < groups.len() && r < groups[g].len() && groups[g][r] == #[trigger] round_items(groups, r)[k],
    decreases groups.len(),
{
    if groups.len() > 0 {
        let d = groups.drop_last();
        assert(group_keys_distinct(d)) by {
            assert forall|g1: int, r1: int, g2: int, r2: int|
                0 <= g1 < d.len() && 0 <= g2 < d.len() && 0 <= r1 < d[g1].len() && 0 <= r2 < d[g2].len() && (g1
                    != g2 || r1 != r2) implies artist_key_of((#[trigger] d[g1][r1]).name@) != artist_key_of(
                (#[trigger] d[g2][r2]).name@,
            ) by {
                assert(d[g1] == groups[g1] && d[g2] == groups[g2]);
                assert(groups[g1][r1] == d[g1][r1] && groups[g2][r2] == d[g2][r2]);
            }
        }
        lemma_round_keys(d, r);
        let before = round_items(d, r);
        let ri = round_items(groups, r);
        let last = groups.len() - 1;
        assert forall|k: int| 0 <= k < before.len() implies exists|g: int|
            0 <= g < groups.len() && r < groups[g].len() && groups[g][r] == #[trigger] before[k] by {
            let g = choose|g: int| 0 <= g < d.len() && r < d[g].len() && d[g][r] == before[k];
            assert(groups[g] == d[g]);
        }
        if r < groups[last].len() {
            assert(ri == before.push(groups[last][r]));
            assert forall|k: int| 0 <= k < before.len() implies artist_key_of((#[trigger] before[k]).name@)
                != artist_key_of(groups[last][r].name@) by {
                let g = choose|g: int| 0 <= g < groups.len() && r < groups[g].len() && groups[g][r] == before[k];
                assert(g < d.len()) by {
                    let g2 = choose|g2: int| 0 <= g2 < d.len() && r < d[g2].len() && d[g2][r] == before[k];
                    assert(groups[g2][r] == before[k]);
                    if g == last {
                        assert(groups[g2][r] == groups[last][r]);
                        assert(artist_key_of(groups[g2][r].name@) != artist_key_of(groups[last][r].name@));
                    }
                }
            }
            assert forall|i: int, j: int| 0 <= i < j < ri.len() implies artist_key_of((#[trigger] ri[i]).name@)
                != artist_key_of((#[trigger] ri[j]).name@) by {
                if j == before.len() {
                    assert(ri[i] == before[i]);
                } else {
                    assert(ri[i] == before[i] && ri[j] == before[j]);
                }
            }
            assert forall|k: int| 0 <= k < ri.len() implies exists|g: int|
                0 <= g < groups.len() && r < groups[g].len() && groups[g][r] == #[trigger] ri[k] by {
                if k < before.len() {
                    assert(ri[k] == before[k]);
                } else {
                    assert(ri[k] == groups[last][r]);
                }
            }
        } else {
            assert(ri == before);
            assert forall|k: int| 0 <= k < ri.len() implies exists|g: int|
                0 <= g < groups.len() && r < groups[g].len() && groups[g][r] == #[trigger] ri[k] by {
                assert(ri[k] == before[k]);
            }
        }
    }
}

/// Rounds `0..n` hold hints at rows below `n`, with distinct keys.
proof fn lemma_rounds_keys(groups: Seq<Seq<DiscoveryArtistDto>>, n: nat)
    requires
        group_keys_distinct(groups),
    ensures
        hint_keys_distinct(rounds(groups, n)),
        forall|k: int|
            0 <= k < rounds(groups, n).len() ==> exists|g: int, r: int|
                0 <= g < groups.len() && 0 <= r < n && r < groups[g].len() && groups[g][r] == #[trigger] rounds(
                    groups,
                    n,
                )[k],
    decreases n,
{
    if n > 0 {
        let m = (n - 1) as nat;
        lemma_rounds_keys(groups, m);
        lemma_round_keys(groups, m as int);
        let a = rounds(groups, m);
        let b = round_items(groups, m as int);
        let all = rounds(groups, n);
        assert(all == a + b);
        assert forall|k: int| 0 <= k < all.len() implies exists|g: int, r: int|
            0 <= g < groups.len() && 0 <= r < n && r < groups[g].len() && groups[g][r] == #[trigger] all[k] by {
            if k < a.len() {
                assert(all[k] == a[k]);
                let (g, r) = choose|g: int, r: int|
                    0 <= g < groups.len() && 0 <= r < m && r < groups[g].len() && groups[g][r] == a[k];
            } else {
                assert(all[k] == b[k - a.len()]);
                let g = choose|g: int| 0 <= g < groups.len() && m < groups[g].len() && groups[g][m as int] == b[k - a.len()];
            }
        }
        assert forall|i: int, j: int| 0 <= i < j < all.len() implies artist_key_of((#[trigger] all[i]).name@)
            != artist_key_of((#[trigger] all[j]).name@) by {
            if j < a.len() {
                assert(all[i] == a[i] && all[j] == a[j]);
            } else if i >= a.len() {
                assert(all[i] == b[i - a.len()] && all[j] == b[j - a.len()]);
            } else {
                assert(all[i] == a[i] && all[j] == b[j - a.len()]);
                let (g1, r1) = choose|g: int, r: int|
                    0 <= g < groups.len() && 0 <= r < m && r < groups[g].len() && groups[g][r] == a[i];
                let g2 = choose|g: int| 0 <= g < groups.len() && m < groups[g].len() && groups[g][m as int] == b[j - a.len()];
                assert(artist_key_of(groups[g1][r1].name@) != artist_key_of(groups[g2][m as int].name@));
            }
        }
    }
}

/// Merging groups whose hints keep distinct keys keeps them distinct.
proof fn lemma_merged_keys_distinct(groups: Seq<Seq<DiscoveryArtistDto>>)
    requires
        group_keys_distinct(groups),
    ensures
        hint_keys_distinct(merged_discovery(groups)),
{
    let all = rounds(groups, longest(groups));
    lemma_rounds_keys(groups, longest(groups));
    let m = merged_discovery(groups);
    assert forall|i: int, j: int| 0 <= i < j < m.len() implies artist_key_of((#[trigger] m[i]).name@)
        != artist_key_of((#[trigger] m[j]).name@) by {
        assert(m[i] == all[i] && m[j] == all[j]);
    }
}

/// The discovery hints the Home page shows: at most `MAX_DISCOVERY`, each
/// from one seed's hints, with pairwise distinct artist keys — whenever the
/// per-seed hints together keep distinct keys, as `note_similar_artist`
/// guarantees for hints gathered across all seeds (`discovery_keys_ok`).
pub proof fn lemma_home_discovery(groups: Seq<Seq<DiscoveryArtistDto>>)
    requires
        hint_keys_distinct(flat_hints(groups)),
    ensures
        merged_discovery(groups).len() <= MAX_DISCOVERY,
        hint_keys_distinct(merged_discovery(groups)),
        forall|i: int|
            0 <= i < merged_discovery(groups).len() ==> exists|g: int|
                0 <= g < groups.len() && groups[g].contains(#[trigger] merged_discovery(groups)[i]),
{
    lemma_merged_discovery(groups);
    lemma_group_keys_distinct(groups);
    lemma_merged_keys_distinct(groups);
}

// ── Discovery from the cached similar artists ─────────────────────────────

/// A cached similar artist of a seed artist: its name, the release group
/// whose cover stands for it, and the library's tracks by it (what the
/// owned-artist query read).
pub struct SimilarArtistRow {
    pub name: String,
    pub cover_release_group_mbid: Option<String>,
    pub owned: Vec<Track>,
}

/// A seed artist with its cached similar artists, best first.
pub struct SeedSimilarRows {
    pub seed: String,
    pub rows: Vec<SimilarArtistRow>,
}

/// A discovery hint as values: artist name, seed artist, cover URL.
pub open spec fn hint_view(h: DiscoveryArtistDto) -> (Seq<char>, Seq<char>, Option<Seq<char>>) {
    (
        h.name@,
        h.similar_to@,
        match h.cover_url {
            Some(u) => Some(u@),
            None => None,
        },
    )
}

/// Groups of discovery hints as values.
pub open spec fn hint_groups_view(gs: Seq<Seq<DiscoveryArtistDto>>) -> Seq<
    Seq<(Seq<char>, Seq<char>, Option<Seq<char>>)>,
> {
    gs.map_values(|g: Seq<DiscoveryArtistDto>| g.map_values(|h: DiscoveryArtistDto| hint_view(h)))
}

/// The hint a similar-artist row of `seed` gives.
pub open spec fn row_hint(seed: Seq<char>, row: SimilarArtistRow) -> (Seq<char>, Seq<char>, Option<Seq<char>>) {
    (
        row.name@,
        seed,
        match row.cover_release_group_mbid {
            Some(m) => Some(cover_art_prefix() + m@ + cover_art_suffix()),
            None => None,
        },
    )
}

/// `h` is the hint of one of `rows` (of `seed`) whose artist the library
/// owns no tracks by.
pub open spec fn from_unowned_row(
    h: (Seq<char>, Seq<char>, Option<Seq<char>>),
    seed: Seq<char>,
    rows: Seq<SimilarArtistRow>,
) -> bool {
    exists|j: int| 0 <= j < rows.len() && rows[j].owned@.len() == 0 && h == #[trigger] row_hint(seed, rows[j])
}

/// `h` is the hint of a row of one of `seeds` whose artist the library owns
/// no tracks by.
pub open spec fn from_seed_rows(h: (Seq<char>, Seq<char>, Option<Seq<char>>), seeds: Seq<SeedSimilarRows>) -> bool {
    exists|g: int| 0 <= g < seeds.len() && #[trigger] from_unowned_row(h, seeds[g].seed@, seeds[g].rows@)
}

/// Walk one seed's rows: a row whose artist the library does not own gives
/// a hint unless its artist key was already noted; returns the noted keys
/// and this seed's hints.
pub open spec fn seed_discovery(seen: Seq<Seq<char>>, seed: Seq<char>, rows: Seq<SimilarArtistRow>) -> (
    Seq<Seq<char>>,
    Seq<(Seq<char>, Seq<char>, Option<Seq<char>>)>,
)
    decreases rows.len(),
{
    if rows.len() == 0 {
        (seen, Seq::empty())
    } else {
        let (s, hs) = seed_discovery(seen, seed, rows.drop_last());
        let row = rows.last();
        let k = artist_key_of(row.name@);
        if row.owned@.len() == 0 && !s.contains(k) {
            (s.push(k), hs.push(row_hint(seed, row)))
        } else {
            (s, hs)
        }
    }
}

/// Walk all seeds in order, one group of hints per seed.
pub open spec fn seeds_discovery(seen: Seq<Seq<char>>, seeds: Seq<SeedSimilarRows>) -> (
    Seq<Seq<char>>,
    Seq<Seq<(Seq<char>, Seq<char>, Option<Seq<char>>)>>,
)
    decreases seeds.len(),
{
    if seeds.len() == 0 {
        (seen, Seq::empty())
    } else {
        let (s, gs) = seeds_discovery(seen, seeds.drop_last());
        let (s2, hs) = seed_discovery(s, seeds.last().seed@, seeds.last().rows@);
        (s2, gs.push(hs))
    }
}

/// The pool after offering each row's owned tracks in turn.
pub open spec fn rows_owned(pool: Seq<Track>, rows: Seq<SimilarArtistRow>) -> Seq<Track>
    decreases rows.len(),
{
    if rows.len() == 0 {
        pool
    } else {
        added_all(rows_owned(pool, rows.drop_last()), rows.last().owned@)
    }
}

/// The pool after offering the owned tracks of every seed's rows.
pub open spec fn seeds_owned(pool: Seq<Track>, seeds: Seq<SeedSimilarRows>) -> Seq<Track>
    decreases seeds.len(),
{
    if seeds.len() == 0 {
        pool
    } else {
        rows_owned(seeds_owned(pool, seeds.drop_last()), seeds.last().rows@)
    }
}

/// Noted keys are distinct, every hint's key is noted, and hints at
/// different group positions have different keys.
pub open spec fn view_keys_ok(seen: Seq<Seq<char>>, gs: Seq<Seq<(Seq<char>, Seq<char>, Option<Seq<char>>)>>) -> bool {
    &&& forall|i: int, j: int| 0 <= i < j < seen.len() ==> seen[i] != seen[j]
    &&& forall|g: int, k: int|
        0 <= g < gs.len() && 0 <= k < gs[g].len() ==> seen.contains(artist_key_of((#[trigger] gs[g][k]).0))
    &&& forall|g1: int, k1: int, g2: int, k2: int|
        0 <= g1 < gs.len() && 0 <= g2 < gs.len() && 0 <= k1 < gs[g1].len() && 0 <= k2 < gs[g2].len() && (g1
            != g2 || k1 != k2) ==> artist_key_of((#[trigger] gs[g1][k1]).0) != artist_key_of(
            (#[trigger] gs[g2][k2]).0,
        )
}

/// One seed's walk keeps the keys distinct, and each of its hints is the
/// hint of one of its rows whose artist the library does not own.
proof fn lemma_seed_discovery(
    seen: Seq<Seq<char>>,
    gs: Seq<Seq<(Seq<char>, Seq<char>, Option<Seq<char>>)>>,
    seed: Seq<char>,
    rows: Seq<SimilarArtistRow>,
)
    requires
        view_keys_ok(seen, gs),
    ensures
        view_keys_ok(seed_discovery(seen, seed, rows).0, gs.push(seed_discovery(seen, seed, rows).1)),
        forall|k: int|
            0 <= k < seed_discovery(seen, seed, rows).1.len() ==> exists|j: int|
                0 <= j < rows.len() && rows[j].owned@.len() == 0 && #[trigger] seed_discovery(
                    seen,
                    seed,
                    rows,
                ).1[k] == row_hint(seed, rows[j]),
    decreases rows.len(),
{
    let (s2, hs2) = seed_discovery(seen, seed, rows);
    let out = gs.push(hs2);
    if rows.len() == 0 {
        assert forall|g: int, k: int| 0 <= g < out.len() && 0 <= k < out[g].len() implies seen.contains(
            artist_key_of((#[trigger] out[g][k]).0),
        ) by {
            assert(out[g] == gs[g]);
        }
        assert forall|g1: int, k1: int, g2: int, k2: int|
            0 <= g1 < out.len() && 0 <= g2 < out.len() && 0 <= k1 < out[g1].len() && 0 <= k2 < out[g2].len() && (g1
                != g2 || k1 != k2) implies artist_key_of((#[trigger] out[g1][k1]).0) != artist_key_of(
            (#[trigger] out[g2][k2]).0,
        ) by {
            assert(out[g1] == gs[g1] && out[g2] == gs[g2]);
        }
    } else {
        let d = rows.drop_last();
        lemma_seed_discovery(seen, gs, seed, d);
        let (s, hs) = seed_discovery(seen, seed, d);
        let row = rows.last();
        let key = artist_key_of(row.name@);
        assert forall|k: int| 0 <= k < hs.len() implies exists|j: int|
            0 <= j < rows.len() && rows[j].owned@.len() == 0 && #[trigger] hs[k] == row_hint(seed, rows[j]) by {
            let j = choose|j: int| 0 <= j < d.len() && d[j].owned@.len() == 0 && hs[k] == row_hint(seed, d[j]);
            assert(rows[j] == d[j]);
        }
        if row.owned@.len() == 0 && !s.contains(key) {
            let h = row_hint(seed, row);
            let before = gs.push(hs);
            assert(hs2 == hs.push(h));
            assert(s2 == s.push(key));
            assert forall|i: int, j: int| 0 <= i < j < s2.len() implies s2[i] != s2[j] by {
                if j == s.len() {
                    assert(s2[i] == s[i]);
                    assert(s.contains(s[i]));
                }
            }
            assert forall|g: int, k: int| 0 <= g < out.len() && 0 <= k < out[g].len() implies s2.contains(
                artist_key_of((#[trigger] out[g][k]).0),
            ) by {
                if g == gs.len() && k == hs.len() {
                    assert(out[g][k] == h);
                    assert(s2[s.len() as int] == key);
                } else {
                    assert(out[g][k] == before[g][k]);
                    let w = choose|w: int| 0 <= w < s.len() && s[w] == artist_key_of(before[g][k].0);
                    assert(s2[w] == s[w]);
                }
            }
            assert forall|g1: int, k1: int, g2: int, k2: int|
                0 <= g1 < out.len() && 0 <= g2 < out.len() && 0 <= k1 < out[g1].len() && 0 <= k2 < out[g2].len()
                    && (g1 != g2 || k1 != k2) implies artist_key_of((#[trigger] out[g1][k1]).0) != artist_key_of(
                (#[trigger] out[g2][k2]).0,
            ) by {
                let new1 = g1 == gs.len() && k1 == hs.len();
                let new2 = g2 == gs.len() && k2 == hs.len();
                if new1 {
                    assert(out[g1][k1] == h);
                    assert(out[g2][k2] == before[g2][k2]);
                    assert(s.contains(artist_key_of(before[g2][k2].0)));
                } else if new2 {
                    assert(out[g2][k2] == h);
                    assert(out[g1][k1] == before[g1][k1]);
                    assert(s.contains(artist_key_of(before[g1][k1].0)));
                } else {
                    assert(out[g1][k1] == before[g1][k1] && out[g2][k2] == before[g2][k2]);
                }
            }
            assert forall|k: int| 0 <= k < hs2.len() implies exists|j: int|
                0 <= j < rows.len() && rows[j].owned@.len() == 0 && #[trigger] hs2[k] == row_hint(seed, rows[j]) by {
                if k == hs.len() {
                    assert(hs2[k] == row_hint(seed, rows[rows.len() - 1]));
                } else {
                    assert(hs2[k] == hs[k]);
                }
            }
        } else {
            assert(s2 == s && hs2 == hs);
        }
    }
}

/// Walking all seeds keeps the keys distinct, gives one group per seed, and
/// each hint of group `g` is the hint of a row of seed `g` whose artist the
/// library does not own.
proof fn lemma_seeds_discovery(seeds: Seq<SeedSimilarRows>)
    ensures
        view_keys_ok(seeds_discovery(Seq::empty(), seeds).0, seeds_discovery(Seq::empty(), seeds).1),
        seeds_discovery(Seq::empty(), seeds).1.len() == seeds.len(),
        forall|g: int, k: int|
            0 <= g < seeds.len() && 0 <= k < seeds_discovery(Seq::empty(), seeds).1[g].len() ==> from_unowned_row(
                #[trigger] seeds_discovery(Seq::empty(), seeds).1[g][k],
                seeds[g].seed@,
                seeds[g].rows@,
            ),
    decreases seeds.len(),
{
    if seeds.len() > 0 {
        let d = seeds.drop_last();
        lemma_seeds_discovery(d);
        let (s, gs) = seeds_discovery(Seq::empty(), d);
        let last = seeds.last();
        lemma_seed_discovery(s, gs, last.seed@, last.rows@);
        let (s2, hs) = seed_discovery(s, last.seed@, last.rows@);
        let out = seeds_discovery(Seq::empty(), seeds).1;
        assert(out == gs.push(hs));
        assert forall|g: int, k: int| 0 <= g < seeds.len() && 0 <= k < out[g].len() implies from_unowned_row(
            #[trigger] out[g][k],
            seeds[g].seed@,
            seeds[g].rows@,
        ) by {
            if g == d.len() {
                assert(out[g] == hs);
                assert(seeds[g] == last);
                assert(out[g][k] == hs[k]);
                let j = choose|j: int|
                    0 <= j < last.rows@.len() && last.rows@[j].owned@.len() == 0 && hs[k] == row_hint(
                        last.seed@,
                        last.rows@[j],
                    );
                assert(seeds[g].rows@[j] == last.rows@[j]);
            } else {
                assert(out[g] == gs[g]);
                assert(seeds[g] == d[g]);
                assert(out[g][k] == gs[g][k]);
                assert(from_unowned_row(gs[g][k], d[g].seed@, d[g].rows@));
            }
        }
    }
}

/// The discovery hints the Home page shows, end to end from the cached
/// similar-artist rows of its seed artists: at most `MAX_DISCOVERY`, no two
/// with the same artist key, and each one the hint of a similar artist of
/// one of the seeds — named as the row names it, derived from that seed,
/// with the row's cover — that the library owns no tracks by.
pub proof fn lemma_home_discovery_from_rows(seeds: Seq<SeedSimilarRows>, groups: Seq<Seq<DiscoveryArtistDto>>)
    requires
        hint_groups_view(groups) == seeds_discovery(Seq::empty(), seeds).1,
    ensures
        merged_discovery(groups).len() <= MAX_DISCOVERY,
        hint_keys_distinct(merged_discovery(groups)),
        forall|i: int|
            0 <= i < merged_discovery(groups).len() ==> from_seed_rows(
                hint_view(#[trigger] merged_discovery(groups)[i]),
                seeds,
            ),
{
    lemma_seeds_discovery(seeds);
    let vs = seeds_discovery(Seq::empty(), seeds).1;
    let hv = hint_groups_view(groups);
    assert(groups.len() == seeds.len());
    assert forall|g1: int, r1: int, g2: int, r2: int|
        0 <= g1 < groups.len() && 0 <= g2 < groups.len() && 0 <= r1 < groups[g1].len() && 0 <= r2
            < groups[g2].len() && (g1 != g2 || r1 != r2) implies artist_key_of(
        (#[trigger] groups[g1][r1]).name@,
    ) != artist_key_of((#[trigger] groups[g2][r2]).name@) by {
        assert(hv[g1][r1] == hint_view(groups[g1][r1]));
        assert(hv[g2][r2] == hint_view(groups[g2][r2]));
        assert(artist_key_of(vs[g1][r1].0) != artist_key_of(vs[g2][r2].0));
    }
    lemma_merged_keys_distinct(groups);
    lemma_merged_discovery(groups);
    assert forall|i: int| 0 <= i < merged_discovery(groups).len() implies from_seed_rows(
        hint_view(#[trigger] merged_discovery(groups)[i]),
        seeds,
    ) by {
        let m = merged_discovery(groups);
        let g = choose|g: int| 0 <= g < groups.len() && groups[g].contains(m[i]);
        let k = choose|k: int| 0 <= k < groups[g].len() && groups[g][k] == m[i];
        assert(hv[g][k] == hint_view(groups[g][k]));
        assert(vs[g][k] == hv[g][k]);
        assert(from_unowned_row(vs[g][k], seeds[g].seed@, seeds[g].rows@));
    }
}

/// Walk one seed's similar-artist rows (see `seed_discovery`): owned
/// artists' tracks join the pool, the others become this seed's hints.
fn gather_seed_discovery(
    candidates: &mut Vec<Track>,
    seen: &mut Vec<String>,
    seed: &str,
    rows: Vec<SimilarArtistRow>,
) -> (r: Vec<DiscoveryArtistDto>)
    ensures
        final(candidates)@ == rows_owned(old(candidates)@, rows@),
        keys_view(final(seen)@) == seed_discovery(keys_view(old(seen)@), seed@, rows@).0,
        r@.map_values(|h: DiscoveryArtistDto| hint_view(h)) == seed_discovery(keys_view(old(seen)@), seed@, rows@).1,
{
    let ghost all = rows@;
    let ghost c0 = candidates@;
    let ghost s0 = keys_view(seen@);
    let n = rows.len();
    let mut hints: Vec<DiscoveryArtistDto> = Vec::new();
    let mut i: usize = 0;
    for row in it: rows
        invariant
            it.seq() == all,
            all.len() == n,
            i == it.index(),
            i <= n,
            candidates@ == rows_owned(c0, all.take(i as int)),
            keys_view(seen@) == seed_discovery(s0, seed@, all.take(i as int)).0,
            hints@.map_values(|h: DiscoveryArtistDto| hint_view(h)) == seed_discovery(s0, seed@, all.take(i as int)).1,
    {
        assert(i < n);
        assert(all.take(i + 1).drop_last() == all.take(i as int));
        assert(all.take(i + 1).last() == row);
        let ghost old_hints = hints@;
        let ghost old_keys = keys_view(seen@);
        let ghost c_before = candidates@;
        let ghost key = artist_key_of(row.name@);
        let ghost rv = all[i as int];
        let ghost unowned = row.owned@.len() == 0;
        let ghost h = row_hint(seed@, row);
        let SimilarArtistRow { name, cover_release_group_mbid, owned } = row;
        note_similar_artist(candidates, seen, &mut hints, seed, name, cover_release_group_mbid, owned);
        proof {
            if !unowned {
                assert(hints@ == old_hints);
            } else {
                assert(added_all(c_before, Seq::<Track>::empty()) == c_before);
                assert(rv.owned@ =~= Seq::<Track>::empty());
                if !old_keys.contains(key) {
                    assert(hints@ =~= old_hints.push(hints@.last()));
                    assert(hint_view(hints@.last()) == h);
                    assert(hints@.map_values(|x: DiscoveryArtistDto| hint_view(x)) =~= old_hints.map_values(
                        |x: DiscoveryArtistDto| hint_view(x),
                    ).push(h));
                } else {
                    assert(hints@ == old_hints);
                }
            }
        }
        i += 1;
    }
    assert(all.take(n as int) == all);
    hints
}

/// Gather the discovery hints of each seed artist, in seed order, from the
/// similar-artist rows the library cached for it (see `seeds_discovery`);
/// the tracks of similar artists the library owns join the candidate pool
/// (`seeds_owned`). Merged by `merge_discovery`, the hints obey
/// `lemma_home_discovery_from_rows`.
pub fn gather_discovery(candidates: &mut Vec<Track>, seeds: Vec<SeedSimilarRows>) -> (r: Vec<
    Vec<DiscoveryArtistDto>,
>)
    ensures
        final(candidates)@ == seeds_owned(old(candidates)@, seeds@),
        hint_groups_view(groups_view(r@)) == seeds_discovery(Seq::empty(), seeds@).1,
{
    let ghost all = seeds@;
    let ghost c0 = candidates@;
    let n = seeds.len();
    let mut seen: Vec<String> = Vec::new();
    let mut groups: Vec<Vec<DiscoveryArtistDto>> = Vec::new();
    let mut i: usize = 0;
    proof {
        assert(keys_view(seen@) =~= Seq::<Seq<char>>::empty());
    }
    for s in it: seeds
        invariant
            it.seq() == all,
            all.len() == n,
            i == it.index(),
            i <= n,
            candidates@ == seeds_owned(c0, all.take(i as int)),
            keys_view(seen@) == seeds_discovery(Seq::empty(), all.take(i as int)).0,
            hint_groups_view(groups_view(groups@)) == seeds_discovery(Seq::empty(), all.take(i as int)).1,
    {
        assert(i < n);
        assert(all.take(i + 1).drop_last() == all.take(i as int));
        assert(all.take(i + 1).last() == s);
        let ghost old_groups = groups@;
        let SeedSimilarRows { seed, rows } = s;
        let hs = gather_seed_discovery(candidates, &mut seen, seed.as_str(), rows);
        let ghost hv = hs@.map_values(|h: DiscoveryArtistDto| hint_view(h));
        groups.push(hs);
        proof {
            assert(groups_view(groups@) =~= groups_view(old_groups).push(groups@.last()@));
            assert(hint_groups_view(groups_view(groups@)) =~= hint_groups_view(groups_view(old_groups)).push(hv));
        }
        i += 1;
    }
    assert(all.take(n as int) == all);
    groups
}

/// The Home page's discovery step: gather each seed's hints from its
/// cached similar-artist rows (`gather_discovery`, which also pools the
/// owned artists' tracks) and merge them round-robin (`merge_discovery`).
/// At most `MAX_DISCOVERY` hints come back, no two with the same artist
/// key, each the hint of an unowned similar artist of one of the seeds.
pub fn home_discovery(candidates: &mut Vec<Track>, seeds: Vec<SeedSimilarRows>) -> (r: Vec<DiscoveryArtistDto>)
    ensures
        final(candidates)@ == seeds_owned(old(candidates)@, seeds@),
        exists|groups: Seq<Seq<DiscoveryArtistDto>>|
            hint_groups_view(groups) == seeds_discovery(Seq::empty(), seeds@).1 && r@ == merged_discovery(
                groups,
            ),
        r@.len() <= MAX_DISCOVERY,
        hint_keys_distinct(r@),
        forall|i: int| 0 <= i < r@.len() ==> from_seed_rows(hint_view(#[trigger] r@[i]), seeds@),
{
    let ghost sv = seeds@;
    let groups = gather_discovery(candidates, seeds);
    let r = merge_discovery(&groups);
    proof {
        lemma_home_discovery_from_rows(sv, groups_view(groups@));
    }
    r
}

// ── Gathering the candidate pool ──────────────────────────────────────────

/// How many tracks by the favorite track's artist join the pool.
pub const FAVORITE_ARTIST_TRACKS: usize = 20;

/// How many tracks of the favorite track's album join the pool.
pub const FAVORITE_ALBUM_TRACKS: usize = 16;

/// The first `n` items of `s` (all of them when it is shorter).
pub open spec fn first_n(s: Seq<Track>, n: nat) -> Seq<Track> {
    if s.len() <= n {
        s
    } else {
        s.take(n as int)
    }
}

/// The pool after offering each group of tracks in turn.
pub open spec fn added_groups(pool: Seq<Track>, groups: Seq<Seq<Track>>) -> Seq<Track>
    decreases groups.len(),
{
    if groups.len() == 0 {
        pool
    } else {
        added_all(added_groups(pool, groups.drop_last()), groups.last())
    }
}

/// The exec groups of tracks as values.
pub open spec fn track_groups_view(gs: Seq<Vec<Track>>) -> Seq<Seq<Track>> {
    gs.map_values(|g: Vec<Track>| g@)
}

/// The Home page's candidate pool before the similar-artist step, each
/// track offered once by path in this order: the transition neighbours of
/// each seed track, the most played, the recently played, up to 20 tracks
/// by the favorite track's artist, up to 16 of its album, and the tracks
/// sharing its genre.
pub open spec fn home_pool(
    transitions: Seq<Seq<Track>>,
    most: Seq<Track>,
    recent: Seq<Track>,
    by_artist: Seq<Track>,
    by_album: Seq<Track>,
    by_genre: Seq<Track>,
) -> Seq<Track> {
    let p0 = added_groups(Seq::empty(), transitions);
    let p1 = added_all(added_all(p0, most), recent);
    let p2 = added_all(p1, first_n(by_artist, FAVORITE_ARTIST_TRACKS as nat));
    let p3 = added_all(p2, first_n(by_album, FAVORITE_ALBUM_TRACKS as nat));
    added_all(p3, by_genre)
}

/// Offer the first `limit` tracks of `ts` to the pool.
fn add_tracks(candidates: &mut Vec<Track>, ts: &[Track], limit: usize)
    ensures
        final(candidates)@ == added_all(old(candidates)@, first_n(ts@, limit as nat)),
{
    let n = if ts.len() <= limit {
        ts.len()
    } else {
        limit
    };
    let ghost start = candidates@;
    let mut i: usize = 0;
    while i < n
        invariant
            i <= n <= ts@.len(),
            n == first_n(ts@, limit as nat).len(),
            first_n(ts@, limit as nat) == ts@.take(n as int),
            candidates@ == added_all(start, ts@.take(i as int)),
        decreases n - i,
    {
        assert(ts@.take(i + 1).drop_last() == ts@.take(i as int));
        assert(ts@.take(i + 1).last() == ts@[i as int]);
        add_candidate(candidates, ts[i].duplicate());
        i += 1;
    }
}

/// Gather the Home page's candidate pool from the rows the library read
/// (see `home_pool`); a list whose query was not run is empty.
pub fn gather_home_candidates(
    transitions: &Vec<Vec<Track>>,
    most: &[Track],
    recent: &[Track],
    by_artist: &[Track],
    by_album: &[Track],
    by_genre: &[Track],
) -> (r: Vec<Track>)
    ensures
        r@ == home_pool(track_groups_view(transitions@), most@, recent@, by_artist@, by_album@, by_genre@),
{
    let ghost gv = track_groups_view(transitions@);
    let mut pool: Vec<Track> = Vec::new();
    let mut g: usize = 0;
    while g < transitions.len()
        invariant
            g <= transitions@.len(),
            gv == track_groups_view(transitions@),
            pool@ == added_groups(Seq::empty(), gv.take(g as int)),
        decreases transitions.len() - g,
    {
        assert(gv.take(g + 1).drop_last() == gv.take(g as int));
        assert(gv.take(g + 1).last() == transitions@[g as int]@);
        let group = &transitions[g];
        add_tracks(&mut pool, group.as_slice(), group.len());
        assert(first_n(group@, group.len() as nat) == group@);
        g += 1;
    }
    assert(gv.take(gv.len() as int) == gv);
    add_tracks(&mut pool, most, most.len());
    assert(first_n(most@, most.len() as nat) == most@);
    add_tracks(&mut pool, recent, recent.len());
    assert(first_n(recent@, recent.len() as nat) == recent@);
    add_tracks(&mut pool, by_artist, FAVORITE_ARTIST_TRACKS);
    add_tracks(&mut pool, by_album, FAVORITE_ALBUM_TRACKS);
    add_tracks(&mut pool, by_genre, by_genre.len());
    assert(first_n(by_genre@, by_genre.len() as nat) == by_genre@);
    pool
}

/// Which of the favorite track's neighbours the Home page looks up: its
/// artist, its album with the album artist (the tag, or the track artist
/// when the tag is blank), and its genre, each only when not blank.
pub struct FavoriteLookups {
    pub artist: Option<String>,
    pub album: Option<(String, String)>,
    pub genre: Option<String>,
}

/// An optional tag that is not blank.
pub open spec fn non_blank(o: Option<String>) -> Option<Seq<char>> {
    match o {
        Some(s) => if trim(s@).len() > 0 {
            Some(s@)
        } else {
            None
        },
        None => None,
    }
}

/// Decide the favorite track's lookups (see `FavoriteLookups`); none
/// without a favorite track. The genre is looked up trimmed.
pub fn favorite_lookups(favorite: Option<&Track>) -> (r: FavoriteLookups)
    ensures
        match favorite {
            None => r.artist is None && r.album is None && r.genre is None,
            Some(t) => {
                &&& (r.artist matches Some(a) ==> a@ == t.artist@)
                &&& (r.artist is Some <==> trim(t.artist@).len() > 0)
                &&& (r.album is Some <==> trim(t.album@).len() > 0)
                &&& (r.album matches Some((al, aa)) ==> al@ == t.album@ && aa@ == match non_blank(t.album_artist) {
                    Some(x) => x,
                    None => t.artist@,
                })
                &&& match t.genre {
                    Some(g) if trim(g@).len() > 0 => r.genre matches Some(x) && x@ == trim(g@),
                    _ => r.genre is None,
                }
            },
        },
{
    let t = match favorite {
        None => {
            return FavoriteLookups { artist: None, album: None, genre: None };
        },
        Some(t) => t,
    };
    let artist = if is_blank(t.artist.as_str()) {
        None
    } else {
        Some(t.artist.clone())
    };
    let album = if is_blank(t.album.as_str()) {
        None
    } else {
        let aa = match &t.album_artist {
            Some(x) => if is_blank(x.as_str()) {
                t.artist.clone()
            } else {
                x.clone()
            },
            None => t.artist.clone(),
        };
        Some((t.album.clone(), aa))
    };
    let genre = match &t.genre {
        Some(g) => {
            let tg = trim_str(g.as_str());
            if tg.unicode_len() > 0 {
                Some(tg)
            } else {
                None
            }
        },
        None => None,
    };
    FavoriteLookups { artist, album, genre }
}

// ── Assembling the Home page ──────────────────────────────────────────────

/// The candidates in the order the Home page uses them: shuffled at `now`,
/// then capped per artist.
pub open spec fn ranked_candidates(candidates: Seq<Track>, now: i64) -> Seq<Track> {
    capped(shuffled(candidates, now), MAX_TRACKS_PER_ARTIST_IN_SUGGESTIONS as nat)
}

/// A copy of an optional track.
fn copy_track(t: &Option<Track>) -> (r: Option<Track>)
    ensures
        r == *t,
{
    match t {
        Some(x) => Some(x.duplicate()),
        None => None,
    }
}

/// Build the Home page from the candidate pool (shuffled at `now` and
/// capped per artist, then split into featured / mix / more), the
/// favorites, the suggested albums, whether listen history exists, and the
/// per-seed discovery hints (merged round-robin).
pub fn finish_home_suggestions(
    candidates: Vec<Track>,
    now: i64,
    favorite_track: Option<Track>,
    favorite_album: Option<AlbumSummaryDto>,
    favorite_artist: Option<ArtistSummaryDto>,
    albums: Vec<AlbumSummaryDto>,
    has_history: bool,
    discovery_by_seed: &Vec<Vec<DiscoveryArtistDto>>,
) -> (r: HomeSuggestionsDto)
    ensures
        ({
            let c = ranked_candidates(candidates@, now);
            &&& r.featured == if c.len() > 0 {
                Some(c[0])
            } else {
                favorite_track
            }
            &&& r.mix@ == c.subrange(min_nat(1, c.len() as int), min_nat(1 + MIX_LEN, c.len() as int))
            &&& r.more@ == c.subrange(
                min_nat(1 + MIX_LEN, c.len() as int),
                min_nat(1 + MIX_LEN + MORE_LEN, c.len() as int),
            )
        }),
        r.favorite_track == favorite_track,
        r.favorite_album == favorite_album,
        r.favorite_artist == favorite_artist,
        r.albums == albums,
        r.curated == has_history,
        r.discovery@ == merged_discovery(groups_view(discovery_by_seed@)),
{
    let mut pool = candidates;
    shuffle_tracks(&mut pool, now);
    let capped_pool = cap_tracks_per_artist(pool, MAX_TRACKS_PER_ARTIST_IN_SUGGESTIONS);
    let (featured, mix, more) = split_suggestions(capped_pool, copy_track(&favorite_track));
    let discovery = merge_discovery(discovery_by_seed);
    HomeSuggestionsDto {
        featured,
        mix,
        more,
        albums,
        favorite_track,
        favorite_album,
        favorite_artist,
        curated: has_history,
        discovery,
    }
}

} // verus!
