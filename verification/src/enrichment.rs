//! Artist enrichment helpers: Cover Art Archive URLs and the ranking of
//! MusicBrainz genre tags (most-used first).

use vstd::prelude::*;

use crate::suggestions::{artist_key_of, normalize_artist_key};
use crate::text::{push_str, trim, trim_str};

verus! {

/// `https://coverartarchive.org/release-group/`
pub open spec fn cover_art_prefix() -> Seq<char> {
    "https://coverartarchive.org/release-group/"@
}

/// `/front-250`
pub open spec fn cover_art_suffix() -> Seq<char> {
    "/front-250"@
}

/// Cover Art Archive URL for a release-group's front cover, sized for a Home
/// page card.
pub fn cover_art_url(release_group_mbid: &str) -> (r: String)
    ensures
        r@ == cover_art_prefix() + release_group_mbid@ + cover_art_suffix(),
{
    let mut out = String::from_str("https://coverartarchive.org/release-group/");
    push_str(&mut out, release_group_mbid);
    push_str(&mut out, "/front-250");
    out
}

/// A genre tag with its vote count, as MusicBrainz reports it.
pub struct GenreTag {
    pub name: String,
    pub count: i64,
}

/// Where a stable insertion puts a tag with `count` into `l`, which is
/// ordered by count, highest first: after every leading tag whose count is
/// not lower.
pub open spec fn count_insert_pos(l: Seq<GenreTag>, count: i64) -> nat
    decreases l.len(),
{
    if l.len() == 0 {
        0
    } else if l[0].count < count {
        0
    } else {
        1 + count_insert_pos(l.drop_first(), count)
    }
}

/// Stable insertion of `x` into `l`.
pub open spec fn insert_by_count(l: Seq<GenreTag>, x: GenreTag) -> Seq<GenreTag> {
    let p = count_insert_pos(l, x.count) as int;
    l.take(p) + seq![x] + l.skip(p)
}

/// The tags sorted by count, highest first; equal counts keep their order.
pub open spec fn by_count(tags: Seq<GenreTag>) -> Seq<GenreTag>
    decreases tags.len(),
{
    if tags.len() == 0 {
        Seq::empty()
    } else {
        insert_by_count(by_count(tags.drop_last()), tags.last())
    }
}

/// The names of tags, in order.
pub open spec fn tag_names(tags: Seq<GenreTag>) -> Seq<Seq<char>> {
    tags.map_values(|t: GenreTag| t.name@)
}

/// `count_insert_pos` counts the leading tags whose count is not lower.
proof fn lemma_count_insert_pos(l: Seq<GenreTag>, c: i64, p: int)
    requires
        0 <= p <= l.len(),
        forall|j: int| 0 <= j < p ==> !(#[trigger] l[j].count < c),
        p == l.len() || l[p].count < c,
    ensures
        count_insert_pos(l, c) == p,
    decreases p,
{
    if p > 0 {
        let t = l.drop_first();
        assert forall|j: int| 0 <= j < p - 1 implies !(#[trigger] t[j].count < c) by {
            assert(t[j] == l[j + 1]);
        }
        if p < l.len() {
            assert(t[p - 1] == l[p]);
        }
        lemma_count_insert_pos(t, c, p - 1);
    }
}

/// What `count_insert_pos` promises on a list ordered by count: every tag
/// before the position counts at least `c`, every tag from it on less.
proof fn lemma_count_insert_pos_bounds(l: Seq<GenreTag>, c: i64)
    requires
        forall|i: int, j: int| 0 <= i < j < l.len() ==> l[i].count >= l[j].count,
    ensures
        count_insert_pos(l, c) <= l.len(),
        forall|j: int| 0 <= j < count_insert_pos(l, c) ==> l[j].count >= c,
        forall|j: int| count_insert_pos(l, c) <= j < l.len() ==> l[j].count < c,
    decreases l.len(),
{
    if l.len() > 0 && l[0].count >= c {
        let t = l.drop_first();
        lemma_count_insert_pos_bounds(t, c);
        assert forall|j: int| 0 <= j < count_insert_pos(l, c) implies l[j].count >= c by {
            if j > 0 {
                assert(l[j] == t[j - 1]);
            }
        }
        assert forall|j: int| count_insert_pos(l, c) <= j < l.len() implies l[j].count < c by {
            assert(l[j] == t[j - 1]);
        }
    }
}

/// The ranking puts tags in order of count, highest first.
pub proof fn lemma_by_count_sorted(tags: Seq<GenreTag>)
    ensures
        forall|i: int, j: int|
            0 <= i < j < by_count(tags).len() ==> by_count(tags)[i].count >= by_count(tags)[j].count,
        by_count(tags).len() == tags.len(),
    decreases tags.len(),
{
    if tags.len() > 0 {
        let l = by_count(tags.drop_last());
        let x = tags.last();
        lemma_by_count_sorted(tags.drop_last());
        lemma_count_insert_pos_bounds(l, x.count);
        let p = count_insert_pos(l, x.count) as int;
        let r = by_count(tags);
        assert(r == l.take(p) + seq![x] + l.skip(p));
        assert forall|i: int, j: int| 0 <= i < j < r.len() implies r[i].count >= r[j].count by {
            if j < p {
                assert(r[i] == l[i] && r[j] == l[j]);
            } else if j == p {
                assert(r[i] == l[i]);
            } else if i < p {
                assert(r[i] == l[i] && r[j] == l[j - 1]);
            } else if i == p {
                assert(r[j] == l[j - 1]);
            } else {
                assert(r[i] == l[i - 1] && r[j] == l[j - 1]);
            }
        }
    }
}

/// The ranking keeps every tag, as often as it occurs, and adds none.
pub proof fn lemma_by_count_permutation(tags: Seq<GenreTag>)
    ensures
        by_count(tags).to_multiset() == tags.to_multiset(),
    decreases tags.len(),
{
    broadcast use vstd::seq_lib::to_multiset_insert, vstd::seq_lib::to_multiset_build;
    if tags.len() == 0 {
        assert(by_count(tags) =~= tags);
    } else {
        let l = by_count(tags.drop_last());
        let x = tags.last();
        lemma_by_count_permutation(tags.drop_last());
        lemma_by_count_sorted(tags.drop_last());
        lemma_count_insert_pos_bounds(l, x.count);
        let p = count_insert_pos(l, x.count) as int;
        assert(by_count(tags) =~= l.insert(p, x));
        assert(tags =~= tags.drop_last().push(x));
    }
}

/// The tags whose count is `c`, in order.
pub open spec fn with_count(tags: Seq<GenreTag>, c: i64) -> Seq<GenreTag> {
    tags.filter(|t: GenreTag| t.count == c)
}

/// Filtering keeps nothing from a list where no tag has count `c`.
proof fn lemma_with_count_none(l: Seq<GenreTag>, c: i64)
    requires
        forall|j: int| 0 <= j < l.len() ==> #[trigger] l[j].count != c,
    ensures
        with_count(l, c) == Seq::<GenreTag>::empty(),
    decreases l.len(),
{
    reveal(Seq::filter);
    if l.len() > 0 {
        lemma_with_count_none(l.drop_last(), c);
        assert(l.last() == l[l.len() - 1]);
    }
}

/// The ranking is stable: the tags of any one count come out in the order
/// they went in.
pub proof fn lemma_by_count_stable(tags: Seq<GenreTag>, c: i64)
    ensures
        with_count(by_count(tags), c) == with_count(tags, c),
    decreases tags.len(),
{
    reveal(Seq::filter);
    let pred = |t: GenreTag| t.count == c;
    if tags.len() > 0 {
        let l = by_count(tags.drop_last());
        let x = tags.last();
        lemma_by_count_stable(tags.drop_last(), c);
        lemma_by_count_sorted(tags.drop_last());
        lemma_count_insert_pos_bounds(l, x.count);
        let p = count_insert_pos(l, x.count) as int;
        let a = l.take(p);
        let b = l.skip(p);
        assert(by_count(tags) == a + seq![x] + b);
        assert(l =~= a + b);
        Seq::filter_distributes_over_add(a + seq![x], b, pred);
        Seq::filter_distributes_over_add(a, seq![x], pred);
        Seq::filter_distributes_over_add(a, b, pred);
        assert(seq![x] =~= Seq::<GenreTag>::empty().push(x));
        assert(Seq::<GenreTag>::empty().push(x).drop_last() =~= Seq::<GenreTag>::empty());
        if x.count == c {
            assert forall|j: int| 0 <= j < b.len() implies #[trigger] b[j].count != c by {
                assert(b[j] == l[p + j]);
            }
            lemma_with_count_none(b, c);
            assert(seq![x].filter(pred) =~= seq![x]);
            assert(with_count(tags, c) =~= with_count(tags.drop_last(), c).push(x));
            assert(with_count(by_count(tags), c) =~= a.filter(pred) + seq![x]);
        } else {
            assert(!pred(x));
            assert(seq![x].drop_last() =~= Seq::<GenreTag>::empty());
            assert(seq![x].last() == x);
            assert(Seq::<GenreTag>::empty().filter(pred) =~= Seq::<GenreTag>::empty());
            assert(seq![x].filter(pred) == seq![x].drop_last().filter(pred));
            assert(seq![x].filter(pred) =~= Seq::<GenreTag>::empty());
            assert(with_count(tags, c) == with_count(tags.drop_last(), c));
            assert(with_count(by_count(tags), c) =~= a.filter(pred) + b.filter(pred));
        }
    }
}

/// Genre names ordered by how many votes each tag has, most first; tags
/// with equal counts keep the order MusicBrainz gave them.
pub fn genres_by_count(tags: Vec<GenreTag>) -> (r: Vec<String>)
    ensures
        r@.map_values(|s: String| s@) == tag_names(by_count(tags@)),
{
    let ghost all = tags@;
    let n = tags.len();
    let mut sorted: Vec<GenreTag> = Vec::new();
    let mut done: usize = 0;
    for t in it: tags
        invariant
            it.seq() == all,
            all.len() == n,
            done == it.index(),
            done <= all.len(),
            sorted@ == by_count(all.take(done as int)),
    {
        assert(all.take(done + 1).drop_last() == all.take(done as int));
        assert(all.take(done + 1).last() == t);
        let mut p: usize = 0;
        while p < sorted.len() && !(sorted[p].count < t.count)
            invariant
                p <= sorted@.len(),
                forall|j: int| 0 <= j < p ==> !(#[trigger] sorted@[j].count < t.count),
            decreases sorted.len() - p,
        {
            p += 1;
        }
        proof {
            lemma_count_insert_pos(sorted@, t.count, p as int);
        }
        let ghost before = sorted@;
        sorted.insert(p, t);
        assert(sorted@ == before.take(p as int) + seq![t] + before.skip(p as int));
        done += 1;
    }
    assert(all.take(all.len() as int) == all);
    let ghost ordered = sorted@;
    let mut names: Vec<String> = Vec::new();
    for t in it: sorted
        invariant
            it.seq() == ordered,
            names@.len() == it.index(),
            forall|j: int| 0 <= j < names@.len() ==> #[trigger] names@[j]@ == ordered[j].name@,
    {
        names.push(t.name);
    }
    assert(names@.map_values(|s: String| s@) =~= tag_names(ordered));
    names
}

// ── Enrichment cache freshness ────────────────────────────────────────────

/// How long a cached enrichment stays fresh, in seconds (30 days).
pub const ARTIST_ENRICHMENT_TTL_SECS: i64 = 30 * 24 * 60 * 60;

/// The enrichment profile version current code saves; older rows are
/// refetched so newly captured data does not wait for the TTL.
pub const ARTIST_ENRICHMENT_PROFILE_VERSION: i64 = 2;

/// Whether a cache row `(fetched_at, profile_version)` needs refetching at
/// `now`: missing, older than the TTL, or saved by an older profile version.
pub open spec fn enrichment_stale(cached: Option<(i64, i64)>, now: i64) -> bool {
    match cached {
        Some((fetched_at, version)) => now - fetched_at > ARTIST_ENRICHMENT_TTL_SECS
            || version < ARTIST_ENRICHMENT_PROFILE_VERSION,
        None => true,
    }
}

/// Whether a cached enrichment needs refetching at `now`.
pub fn enrichment_is_stale(cached: Option<(i64, i64)>, now: i64) -> (r: bool)
    ensures
        r == enrichment_stale(cached, now),
{
    match cached {
        Some((fetched_at, version)) => {
            let age: i128 = now as i128 - fetched_at as i128;
            age > ARTIST_ENRICHMENT_TTL_SECS as i128 || version < ARTIST_ENRICHMENT_PROFILE_VERSION
        },
        None => true,
    }
}

/// The names worth looking up in the enrichment cache: each non-blank name,
/// trimmed, with its artist key.
pub open spec fn lookup_entries(names: Seq<Seq<char>>) -> Seq<(Seq<char>, Seq<char>)>
    decreases names.len(),
{
    if names.len() == 0 {
        Seq::empty()
    } else {
        let before = lookup_entries(names.drop_last());
        let t = trim(names.last());
        if t.len() == 0 {
            before
        } else {
            before.push((t, artist_key_of(t)))
        }
    }
}

/// For each non-blank artist name, the trimmed name and the key its cache
/// row is stored under.
pub fn enrichment_lookups(artist_names: &[String]) -> (r: Vec<(String, String)>)
    ensures
        r@.map_values(|e: (String, String)| (e.0@, e.1@)) == lookup_entries(
            artist_names@.map_values(|s: String| s@),
        ),
{
    let ghost names = artist_names@.map_values(|s: String| s@);
    let mut out: Vec<(String, String)> = Vec::new();
    let mut i: usize = 0;
    while i < artist_names.len()
        invariant
            i <= artist_names@.len(),
            names == artist_names@.map_values(|s: String| s@),
            out@.map_values(|e: (String, String)| (e.0@, e.1@)) == lookup_entries(names.take(i as int)),
        decreases artist_names.len() - i,
    {
        assert(names.take(i + 1).drop_last() == names.take(i as int));
        assert(names.take(i + 1).last() == artist_names@[i as int]@);
        let trimmed = trim_str(artist_names[i].as_str());
        if trimmed.unicode_len() > 0 {
            let key = normalize_artist_key(trimmed.as_str());
            let ghost before = out@;
            out.push((trimmed, key));
            proof {
                crate::text::lemma_trim_idempotent(artist_names@[i as int]@);
                assert(out@.map_values(|e: (String, String)| (e.0@, e.1@)) =~= before.map_values(
                    |e: (String, String)| (e.0@, e.1@),
                ).push((trim(artist_names@[i as int]@), artist_key_of(trim(artist_names@[i as int]@)))));
            }
        }
        i += 1;
    }
    assert(names.take(artist_names@.len() as int) == names);
    out
}

/// The names, among looked-up ones with their cache rows, that a background
/// enrichment pass should fetch at `now`, in order.
pub open spec fn needing(lookups: Seq<(Seq<char>, Option<(i64, i64)>)>, now: i64) -> Seq<Seq<char>>
    decreases lookups.len(),
{
    if lookups.len() == 0 {
        Seq::empty()
    } else {
        let before = needing(lookups.drop_last(), now);
        if enrichment_stale(lookups.last().1, now) {
            before.push(lookups.last().0)
        } else {
            before
        }
    }
}

/// Which looked-up artists have no cached enrichment, a cache older than the
/// TTL, or one from an older profile version.
pub fn artists_needing_enrichment(lookups: &[(String, Option<(i64, i64)>)], now: i64) -> (r: Vec<String>)
    ensures
        r@.map_values(|s: String| s@) == needing(
            lookups@.map_values(|e: (String, Option<(i64, i64)>)| (e.0@, e.1)),
            now,
        ),
{
    let ghost all = lookups@.map_values(|e: (String, Option<(i64, i64)>)| (e.0@, e.1));
    let mut out: Vec<String> = Vec::new();
    let mut i: usize = 0;
    while i < lookups.len()
        invariant
            i <= lookups@.len(),
            all == lookups@.map_values(|e: (String, Option<(i64, i64)>)| (e.0@, e.1)),
            out@.map_values(|s: String| s@) == needing(all.take(i as int), now),
        decreases lookups.len() - i,
    {
        assert(all.take(i + 1).drop_last() == all.take(i as int));
        assert(all.take(i + 1).last() == (lookups@[i as int].0@, lookups@[i as int].1));
        if enrichment_is_stale(lookups[i].1, now) {
            let ghost before = out@;
            out.push(lookups[i].0.clone());
            assert(out@.map_values(|s: String| s@) =~= before.map_values(|s: String| s@).push(
                lookups@[i as int].0@,
            ));
        }
        i += 1;
    }
    assert(all.take(lookups@.len() as int) == all);
    out
}

} // verus!
