//! Library search helpers: LIKE / full-text query construction, per-field
//! match detection and result ranking.

use vstd::prelude::*;

use crate::dto::SearchHitDto;
use crate::snippet::{lyrics_snippet, snippet_of};
use crate::text::{
    chars_eq, chars_of, contains, contains_chars, push_char, push_str, runs, sep_of, split_runs,
    split_words, string_of, to_lowercase, trim, trim_str, unicode_alphanumeric, unicode_lower, words,
    Separator, run_len, lemma_run_len,
};
use crate::track::Track;

verus! {

/// Default virtual playlist that mirrors the full track table.
pub const LIBRARY_PLAYLIST_NAME: &'static str = "Library";

/// Name the default playlist had in earlier versions.
pub const LEGACY_LIBRARY_PLAYLIST_NAME: &'static str = "All Local Files";

/// Most whitespace tokens an album/artist search ANDs together.
pub const MAX_SEARCH_TOKENS: usize = 6;

/// Whether `name` is the default Library playlist's name (current or legacy).
pub fn is_library_playlist_name(name: &str) -> (r: bool)
    ensures
        r == (name@ == LIBRARY_PLAYLIST_NAME@ || name@ == LEGACY_LIBRARY_PLAYLIST_NAME@),
{
    let n = chars_of(name);
    let a = chars_of(LIBRARY_PLAYLIST_NAME);
    let b = chars_of(LEGACY_LIBRARY_PLAYLIST_NAME);
    chars_eq(n.as_slice(), a.as_slice()) || chars_eq(n.as_slice(), b.as_slice())
}

// ── LIKE patterns ─────────────────────────────────────────────────────────

/// A character of a LIKE pattern that must be escaped with `\`.
pub open spec fn is_like_meta(c: char) -> bool {
    c == '\\' || c == '%' || c == '_'
}

/// `s` with `\`, `%` and `_` each preceded by a `\`.
pub open spec fn like_escape(s: Seq<char>) -> Seq<char>
    decreases s.len(),
{
    if s.len() == 0 {
        Seq::empty()
    } else if is_like_meta(s.last()) {
        like_escape(s.drop_last()) + seq!['\\', s.last()]
    } else {
        like_escape(s.drop_last()).push(s.last())
    }
}

/// Escape SQL LIKE metacharacters (`%`, `_`, and the escape char itself) so a
/// user's search term is matched literally (with `ESCAPE '\'`).
pub fn escape_like_pattern(s: &str) -> (r: String)
    ensures
        r@ == like_escape(s@),
{
    let cs = chars_of(s);
    let mut out = String::new();
    let mut i: usize = 0;
    while i < cs.len()
        invariant
            i <= cs@.len(),
            cs@ == s@,
            out@ == like_escape(cs@.take(i as int)),
        decreases cs.len() - i,
    {
        let c = cs[i];
        assert(cs@.take((i + 1) as int).drop_last() == cs@.take(i as int));
        if c == '\\' || c == '%' || c == '_' {
            push_char(&mut out, '\\');
            push_char(&mut out, c);
            assert(out@ == like_escape(cs@.take(i as int)) + seq!['\\', c]);
        } else {
            push_char(&mut out, c);
        }
        i += 1;
    }
    assert(cs@.take(cs@.len() as int) == cs@);
    out
}

/// LIKE pattern matching `s` (trimmed) anywhere in a column.
pub fn contains_pattern(s: &str) -> (r: String)
    ensures
        r@ == seq!['%'] + like_escape(trim(s@)) + seq!['%'],
{
    let t = trim_str(s);
    let e = escape_like_pattern(t.as_str());
    let mut out = String::new();
    push_char(&mut out, '%');
    push_str(&mut out, e.as_str());
    push_char(&mut out, '%');
    out
}

/// LIKE pattern matching a column that starts with `s` (trimmed).
pub fn prefix_pattern(s: &str) -> (r: String)
    ensures
        r@ == like_escape(trim(s@)) + seq!['%'],
{
    let t = trim_str(s);
    let mut out = escape_like_pattern(t.as_str());
    push_char(&mut out, '%');
    out
}

// ── Tokens ────────────────────────────────────────────────────────────────

/// The tokens an album/artist search ANDs together: the first
/// `MAX_SEARCH_TOKENS` whitespace-separated words, or the trimmed query when
/// it has none.
pub open spec fn search_tokens_spec(q: Seq<char>) -> Seq<Seq<char>> {
    let ws = words(q);
    if ws.len() == 0 {
        seq![trim(q)]
    } else if ws.len() <= MAX_SEARCH_TOKENS {
        ws
    } else {
        ws.take(MAX_SEARCH_TOKENS as int)
    }
}

/// Split a query into the whitespace tokens an album/artist search ANDs
/// together, so word order doesn't matter. Capped at `MAX_SEARCH_TOKENS`.
pub fn search_tokens(query: &str) -> (r: Vec<String>)
    ensures
        r@.map_values(|s: String| s@) == search_tokens_spec(query@),
{
    let cs = chars_of(query);
    let ws = split_words(cs.as_slice());
    let ghost wv = ws@.map_values(|w: Vec<char>| w@);
    let mut out: Vec<String> = Vec::new();
    if ws.len() == 0 {
        out.push(trim_str(query));
        assert(out@.map_values(|s: String| s@) == seq![trim(query@)]);
        return out;
    }
    let n = if ws.len() < MAX_SEARCH_TOKENS {
        ws.len()
    } else {
        MAX_SEARCH_TOKENS
    };
    let mut i: usize = 0;
    while i < n
        invariant
            n <= ws@.len(),
            wv == ws@.map_values(|w: Vec<char>| w@),
            i <= n,
            out@.map_values(|s: String| s@) == wv.take(i as int),
        decreases n - i,
    {
        let s = string_of(ws[i].as_slice());
        let ghost prev = out@;
        out.push(s);
        assert(wv[i as int] == ws@[i as int]@);
        assert(out@.map_values(|s: String| s@) =~= prev.map_values(|s: String| s@).push(wv[i as int]));
        assert(wv.take((i + 1) as int) =~= wv.take(i as int).push(wv[i as int]));
        i += 1;
    }
    assert(wv.take(n as int) == search_tokens_spec(query@));
    out
}

/// `tok` with every `"` doubled.
pub open spec fn double_quotes(s: Seq<char>) -> Seq<char>
    decreases s.len(),
{
    if s.len() == 0 {
        Seq::empty()
    } else if s.last() == '"' {
        double_quotes(s.drop_last()) + seq!['"', '"']
    } else {
        double_quotes(s.drop_last()).push(s.last())
    }
}

/// One FTS5 prefix term: `"tok"*`, with quotes inside doubled.
pub open spec fn fts_term(tok: Seq<char>) -> Seq<char> {
    seq!['"'] + double_quotes(tok) + seq!['"', '*']
}

/// `parts` joined by single spaces.
pub open spec fn join_spaced(parts: Seq<Seq<char>>) -> Seq<char>
    decreases parts.len(),
{
    if parts.len() == 0 {
        Seq::empty()
    } else if parts.len() == 1 {
        parts[0]
    } else {
        join_spaced(parts.drop_last()) + seq![' '] + parts.last()
    }
}

/// The FTS5 MATCH query for `raw`: every word (runs of alphanumerics, `'`
/// and `-`) becomes a quoted prefix term; `None` when there are no words.
pub open spec fn fts_query_spec(raw: Seq<char>) -> Option<Seq<char>> {
    let toks = runs(raw, sep_of(Separator::NonWordChar));
    if toks.len() == 0 {
        None
    } else {
        Some(join_spaced(toks.map_values(|t: Seq<char>| fts_term(t))))
    }
}

/// A character that stays inside an FTS term: alphanumeric, `'` or `-`.
pub open spec fn fts_word_char(c: char) -> bool {
    unicode_alphanumeric(c) || c == '\'' || c == '-'
}

/// The FTS terms are the maximal runs of alphanumerics, `'` and `-`: those
/// characters never separate terms (a hyphen stays inside its token), every
/// other character does, and a query made only of them is one single term.
pub proof fn lemma_fts_terms_keep_hyphens(raw: Seq<char>)
    ensures
        !(sep_of(Separator::NonWordChar))('-'),
        !(sep_of(Separator::NonWordChar))('\''),
        forall|c: char| #[trigger] (sep_of(Separator::NonWordChar))(c) <==> !fts_word_char(c),
        raw.len() > 0 && (forall|i: int| 0 <= i < raw.len() ==> fts_word_char(#[trigger] raw[i]))
            ==> fts_query_spec(raw) == Some(fts_term(raw)),
{
    let sep = sep_of(Separator::NonWordChar);
    if raw.len() > 0 && (forall|i: int| 0 <= i < raw.len() ==> fts_word_char(#[trigger] raw[i])) {
        assert forall|k: int| 0 <= k < raw.len() implies !sep(#[trigger] raw[k]) by {
            assert(fts_word_char(raw[k]));
        }
        lemma_run_len(raw, sep, raw.len() as int);
        assert(!sep(raw[0]));
        assert(raw.take(raw.len() as int) == raw);
        assert(raw.skip(raw.len() as int) =~= Seq::<char>::empty());
        assert(runs(raw.skip(raw.len() as int), sep) == Seq::<Seq<char>>::empty());
        let toks = runs(raw, sep);
        assert(toks =~= seq![raw]);
        let terms = toks.map_values(|t: Seq<char>| fts_term(t));
        assert(terms =~= seq![fts_term(raw)]);
    }
}

/// Build an FTS5 MATCH query: each token becomes a prefix term (`"foo"*`).
pub fn build_fts_match_query(raw: &str) -> (r: Option<String>)
    ensures
        r matches Some(q) ==> fts_query_spec(raw@) == Some(q@),
        r is None ==> fts_query_spec(raw@) is None,
{
    let cs = chars_of(raw);
    let toks = split_runs(cs.as_slice(), &Separator::NonWordChar);
    let ghost tv = toks@.map_values(|w: Vec<char>| w@);
    let ghost terms = tv.map_values(|t: Seq<char>| fts_term(t));
    if toks.len() == 0 {
        return None;
    }
    let mut out = String::new();
    let mut i: usize = 0;
    while i < toks.len()
        invariant
            i <= toks@.len(),
            tv == toks@.map_values(|w: Vec<char>| w@),
            terms == tv.map_values(|t: Seq<char>| fts_term(t)),
            out@ == join_spaced(terms.take(i as int)),
        decreases toks.len() - i,
    {
        if i > 0 {
            push_char(&mut out, ' ');
        }
        let term = fts_term_of(toks[i].as_slice());
        let ghost before = out@;
        push_str(&mut out, term.as_str());
        proof {
            assert(tv[i as int] == toks@[i as int]@);
            assert(terms.take((i + 1) as int).drop_last() == terms.take(i as int));
            assert(terms.take((i + 1) as int).last() == fts_term(tv[i as int]));
            if i == 0 {
                assert(terms.take(1)[0] == terms[0]);
            }
        }
        i += 1;
    }
    assert(terms.take(toks@.len() as int) == terms);
    Some(out)
}

/// The FTS5 prefix term for one token.
fn fts_term_of(tok: &[char]) -> (r: String)
    ensures
        r@ == fts_term(tok@),
{
    let mut out = String::new();
    push_char(&mut out, '"');
    let mut i: usize = 0;
    while i < tok.len()
        invariant
            i <= tok@.len(),
            out@ == seq!['"'] + double_quotes(tok@.take(i as int)),
        decreases tok.len() - i,
    {
        let c = tok[i];
        assert(tok@.take((i + 1) as int).drop_last() == tok@.take(i as int));
        if c == '"' {
            push_char(&mut out, '"');
            push_char(&mut out, '"');
        } else {
            push_char(&mut out, c);
        }
        i += 1;
    }
    assert(tok@.take(tok@.len() as int) == tok@);
    push_char(&mut out, '"');
    push_char(&mut out, '*');
    out
}

// ── Field matching ────────────────────────────────────────────────────────

/// Case-insensitive substring test used for per-field match reporting.
pub open spec fn field_contains_spec(haystack: Seq<char>, needle: Seq<char>) -> bool {
    contains(unicode_lower(haystack), unicode_lower(needle))
}

/// Whether `needle` occurs in `haystack`, both lower-cased.
pub fn field_contains(haystack: &str, needle: &str) -> (r: bool)
    ensures
        r == field_contains_spec(haystack@, needle@),
{
    let h = to_lowercase(haystack);
    let n = to_lowercase(needle);
    let hc = chars_of(h.as_str());
    let nc = chars_of(n.as_str());
    contains_chars(hc.as_slice(), nc.as_slice())
}

/// Whether a field value matches the query: any whitespace token of the
/// trimmed query occurs in it (or the whole trimmed query when it has none).
pub open spec fn field_hit(value: Seq<char>, q: Seq<char>) -> bool {
    let toks = words(q);
    if toks.len() == 0 {
        field_contains_spec(value, q)
    } else {
        exists|i: int| 0 <= i < toks.len() && field_contains_spec(value, #[trigger] toks[i])
    }
}

/// The names of the fields that matched, in the order they are reported.
pub open spec fn matched_fields_spec(t: Track, query: Seq<char>) -> Seq<Seq<char>> {
    let q = trim(query);
    if q.len() == 0 {
        Seq::empty()
    } else {
        let f1: Seq<Seq<char>> = if field_hit(t.title@, q) {
            seq!["title"@]
        } else {
            Seq::empty()
        };
        let f2 = if field_hit(t.artist@, q) {
            f1.push("artist"@)
        } else {
            f1
        };
        let f3 = if field_hit(t.album@, q) {
            f2.push("album"@)
        } else {
            f2
        };
        let f4 = if field_hit(t.name@, q) && !field_hit(t.title@, q) {
            f3.push("name"@)
        } else {
            f3
        };
        let f5 = match t.lyrics {
            Some(l) => if field_hit(l@, q) {
                f4.push("lyrics"@)
            } else {
                f4
            },
            None => f4,
        };
        if f5.len() == 0 {
            seq!["title"@]
        } else {
            f5
        }
    }
}

/// Whether `value` matches any of `toks` (or `q` itself when there are none).
fn check_field(value: &str, toks: &Vec<String>, q: &str, Ghost(qv): Ghost<Seq<char>>) -> (r: bool)
    requires
        q@ == qv,
        toks@.map_values(|s: String| s@) == words(qv),
    ensures
        r == field_hit(value@, qv),
{
    let ghost tv = toks@.map_values(|s: String| s@);
    if toks.len() == 0 {
        return field_contains(value, q);
    }
    let mut i: usize = 0;
    while i < toks.len()
        invariant
            i <= toks@.len(),
            tv == toks@.map_values(|s: String| s@),
            tv == words(qv),
            tv.len() > 0,
            forall|j: int| 0 <= j < i ==> !field_contains_spec(value@, #[trigger] tv[j]),
        decreases toks.len() - i,
    {
        if field_contains(value, toks[i].as_str()) {
            assert(tv[i as int] == toks@[i as int]@);
            assert(field_contains_spec(value@, tv[i as int]));
            return true;
        }
        assert(tv[i as int] == toks@[i as int]@);
        i += 1;
    }
    false
}

/// Which of a track's fields contain the query (per whitespace token):
/// `title`, `artist`, `album`, `name` (only when the title did not match)
/// and `lyrics`. When nothing matched, `title` is reported as a soft hit.
pub fn matched_fields_for(track: &Track, query: &str) -> (r: Vec<String>)
    ensures
        r@.map_values(|s: String| s@) == matched_fields_spec(*track, query@),
{
    let q = trim_str(query);
    let qc = chars_of(q.as_str());
    if qc.len() == 0 {
        let out: Vec<String> = Vec::new();
        assert(out@.map_values(|s: String| s@) =~= Seq::<Seq<char>>::empty());
        return out;
    }
    let wv = split_words(qc.as_slice());
    let mut toks: Vec<String> = Vec::new();
    let mut i: usize = 0;
    while i < wv.len()
        invariant
            i <= wv@.len(),
            toks@.map_values(|s: String| s@) == wv@.map_values(|w: Vec<char>| w@).take(i as int),
        decreases wv.len() - i,
    {
        let ghost prev = toks@;
        let ghost full = wv@.map_values(|w: Vec<char>| w@);
        toks.push(string_of(wv[i].as_slice()));
        assert(full[i as int] == wv@[i as int]@);
        assert(toks@.map_values(|s: String| s@) =~= prev.map_values(|s: String| s@).push(full[i as int]));
        assert(full.take((i + 1) as int) =~= full.take(i as int).push(full[i as int]));
        i += 1;
    }
    assert(wv@.map_values(|w: Vec<char>| w@).take(wv@.len() as int) == wv@.map_values(
        |w: Vec<char>| w@,
    ));
    let ghost qv = trim(query@);
    let title_hit = check_field(track.title.as_str(), &toks, q.as_str(), Ghost(qv));
    let artist_hit = check_field(track.artist.as_str(), &toks, q.as_str(), Ghost(qv));
    let album_hit = check_field(track.album.as_str(), &toks, q.as_str(), Ghost(qv));
    let name_hit = check_field(track.name.as_str(), &toks, q.as_str(), Ghost(qv));
    let lyrics_hit = match &track.lyrics {
        Some(l) => check_field(l.as_str(), &toks, q.as_str(), Ghost(qv)),
        None => false,
    };
    let mut fields: Vec<String> = Vec::new();
    if title_hit {
        fields.push(String::from_str("title"));
    }
    if artist_hit {
        fields.push(String::from_str("artist"));
    }
    if album_hit {
        fields.push(String::from_str("album"));
    }
    if name_hit && !title_hit {
        fields.push(String::from_str("name"));
    }
    if lyrics_hit {
        fields.push(String::from_str("lyrics"));
    }
    if fields.len() == 0 {
        fields.push(String::from_str("title"));
    }
    fields
}

/// Rank of a field set: lower is better, title/name → artist → album → lyrics.
pub open spec fn field_priority(fields: Seq<Seq<char>>) -> u8 {
    if fields.contains("title"@) || fields.contains("name"@) {
        0
    } else if fields.contains("artist"@) {
        1
    } else if fields.contains("album"@) {
        2
    } else if fields.contains("lyrics"@) {
        3
    } else {
        4
    }
}

/// Whether `fields` holds a string equal to `word`.
pub fn has_field(fields: &[String], word: &str) -> (r: bool)
    ensures
        r == fields@.map_values(|s: String| s@).contains(word@),
{
    let ghost fv = fields@.map_values(|s: String| s@);
    let w = String::from_str(word);
    let mut i: usize = 0;
    while i < fields.len()
        invariant
            i <= fields@.len(),
            fv == fields@.map_values(|s: String| s@),
            w@ == word@,
            forall|j: int| 0 <= j < i ==> fv[j] != word@,
        decreases fields.len() - i,
    {
        if fields[i] == w {
            assert(fv[i as int] == word@);
            return true;
        }
        assert(fv[i as int] == fields@[i as int]@);
        i += 1;
    }
    false
}

/// Lower is better: title/name → artist → album → lyrics.
pub fn match_field_priority(fields: &[String]) -> (r: u8)
    ensures
        r == field_priority(fields@.map_values(|s: String| s@)),
{
    if has_field(fields, "title") || has_field(fields, "name") {
        0
    } else if has_field(fields, "artist") {
        1
    } else if has_field(fields, "album") {
        2
    } else if has_field(fields, "lyrics") {
        3
    } else {
        4
    }
}

/// The rank of one matched field: title or name 0, artist 1, album 2,
/// lyrics 3, anything else 4.
pub open spec fn field_rank(f: Seq<char>) -> u8 {
    if f == "title"@ || f == "name"@ {
        0
    } else if f == "artist"@ {
        1
    } else if f == "album"@ {
        2
    } else if f == "lyrics"@ {
        3
    } else {
        4
    }
}

/// A hit's field priority is the best (lowest) rank among its matched
/// fields, and 4 when none of them has a rank below 4: no matched field
/// ranks better than the priority, and one of them ranks exactly at it. So
/// a hit on the artist and the album ranks with artist hits (1), and any
/// hit on the artist without the title or name ranks 1.
pub proof fn lemma_field_priority_is_best_rank(fields: Seq<Seq<char>>)
    ensures
        forall|i: int| 0 <= i < fields.len() ==> field_priority(fields) <= field_rank(#[trigger] fields[i]),
        field_priority(fields) == 4 || exists|i: int|
            0 <= i < fields.len() && field_rank(#[trigger] fields[i]) == field_priority(fields),
        fields.contains("artist"@) && !fields.contains("title"@) && !fields.contains("name"@) ==> field_priority(
            fields,
        ) == 1,
{
    reveal_strlit("title");
    reveal_strlit("name");
    reveal_strlit("artist");
    reveal_strlit("album");
    reveal_strlit("lyrics");
    let p = field_priority(fields);
    assert forall|i: int| 0 <= i < fields.len() implies p <= field_rank(#[trigger] fields[i]) by {
        let f = fields[i];
        assert(fields.contains(f));
    }
    if p < 4 {
        let w: Seq<char> = if p == 0 {
            if fields.contains("title"@) {
                "title"@
            } else {
                "name"@
            }
        } else if p == 1 {
            "artist"@
        } else if p == 2 {
            "album"@
        } else {
            "lyrics"@
        };
        assert(fields.contains(w));
        let i = choose|i: int| 0 <= i < fields.len() && fields[i] == w;
        assert(field_rank(fields[i]) == p);
    }
}

// ── Ranking ───────────────────────────────────────────────────────────────

/// Lexicographic order on character sequences (the order of `String`).
pub open spec fn seq_lt(a: Seq<char>, b: Seq<char>) -> bool
    decreases a.len(),
{
    if a.len() == 0 {
        b.len() > 0
    } else if b.len() == 0 {
        false
    } else if a[0] != b[0] {
        a[0] < b[0]
    } else {
        seq_lt(a.drop_first(), b.drop_first())
    }
}

/// The sort key of a search hit: field priority, then lower-cased artist,
/// album and title.
pub struct HitKey {
    pub priority: u8,
    pub artist: Vec<char>,
    pub album: Vec<char>,
    pub title: Vec<char>,
}

/// The key of a hit, as values.
pub open spec fn hit_key(h: SearchHitDto) -> (u8, Seq<char>, Seq<char>, Seq<char>) {
    (
        field_priority(h.matched_fields@.map_values(|s: String| s@)),
        unicode_lower(h.track.artist@),
        unicode_lower(h.track.album@),
        unicode_lower(h.track.title@),
    )
}

/// Strict order on hit keys.
pub open spec fn key_lt(a: (u8, Seq<char>, Seq<char>, Seq<char>), b: (u8, Seq<char>, Seq<char>, Seq<char>)) -> bool {
    ||| a.0 < b.0
    ||| a.0 == b.0 && seq_lt(a.1, b.1)
    ||| a.0 == b.0 && a.1 == b.1 && seq_lt(a.2, b.2)
    ||| a.0 == b.0 && a.1 == b.1 && a.2 == b.2 && seq_lt(a.3, b.3)
}

/// Number of leading entries of `l` whose key is not greater than `k`: where
/// a stable insertion puts an element with key `k`.
pub open spec fn insert_pos(l: Seq<SearchHitDto>, k: (u8, Seq<char>, Seq<char>, Seq<char>)) -> nat
    decreases l.len(),
{
    if l.len() == 0 {
        0
    } else if key_lt(k, hit_key(l[0])) {
        0
    } else {
        1 + insert_pos(l.drop_first(), k)
    }
}

/// Stable insertion of `x` into `l`.
pub open spec fn insert_hit(l: Seq<SearchHitDto>, x: SearchHitDto) -> Seq<SearchHitDto> {
    let p = insert_pos(l, hit_key(x)) as int;
    l.take(p) + seq![x] + l.skip(p)
}

/// Hits in ranking order: a stable sort by `hit_key`.
pub open spec fn ranked(hits: Seq<SearchHitDto>) -> Seq<SearchHitDto>
    decreases hits.len(),
{
    if hits.len() == 0 {
        Seq::empty()
    } else {
        insert_hit(ranked(hits.drop_last()), hits.last())
    }
}

/// `a < b` in lexicographic order.
pub fn chars_lt(a: &[char], b: &[char]) -> (r: bool)
    ensures
        r == seq_lt(a@, b@),
{
    let mut i: usize = 0;
    assert(a@.skip(0) == a@);
    assert(b@.skip(0) == b@);
    while i < a.len() && i < b.len() && a[i] == b[i]
        invariant
            i <= a@.len(),
            i <= b@.len(),
            forall|k: int| 0 <= k < i ==> a@[k] == b@[k],
            seq_lt(a@, b@) == seq_lt(a@.skip(i as int), b@.skip(i as int)),
        decreases a.len() - i,
    {
        proof {
            let sa = a@.skip(i as int);
            let sb = b@.skip(i as int);
            assert(sa[0] == a@[i as int]);
            assert(sb[0] == b@[i as int]);
            assert(sa.drop_first() == a@.skip(i + 1));
            assert(sb.drop_first() == b@.skip(i + 1));
        }
        i += 1;
    }
    proof {
        let sa = a@.skip(i as int);
        let sb = b@.skip(i as int);
        if i < a.len() && i < b.len() {
            assert(sa[0] == a@[i as int]);
            assert(sb[0] == b@[i as int]);
        }
    }
    if i == a.len() {
        i < b.len()
    } else if i == b.len() {
        false
    } else {
        a[i] < b[i]
    }
}

/// The sort key of a hit.
pub fn key_of_hit(h: &SearchHitDto) -> (r: HitKey)
    ensures
        (r.priority, r.artist@, r.album@, r.title@) == hit_key(*h),
{
    let priority = match_field_priority(h.matched_fields.as_slice());
    let artist = chars_of(to_lowercase(h.track.artist.as_str()).as_str());
    let album = chars_of(to_lowercase(h.track.album.as_str()).as_str());
    let title = chars_of(to_lowercase(h.track.title.as_str()).as_str());
    HitKey { priority, artist, album, title }
}

/// No sequence is below itself.
pub proof fn lemma_seq_lt_irreflexive(a: Seq<char>)
    ensures
        !seq_lt(a, a),
    decreases a.len(),
{
    if a.len() > 0 {
        lemma_seq_lt_irreflexive(a.drop_first());
    }
}

/// `a < b` on hit keys.
pub fn hit_key_lt(a: &HitKey, b: &HitKey) -> (r: bool)
    ensures
        r == key_lt((a.priority, a.artist@, a.album@, a.title@), (b.priority, b.artist@, b.album@, b.title@)),
{
    proof {
        lemma_seq_lt_irreflexive(a.artist@);
        lemma_seq_lt_irreflexive(a.album@);
    }
    if a.priority != b.priority {
        return a.priority < b.priority;
    }
    if !chars_eq(a.artist.as_slice(), b.artist.as_slice()) {
        return chars_lt(a.artist.as_slice(), b.artist.as_slice());
    }
    if !chars_eq(a.album.as_slice(), b.album.as_slice()) {
        return chars_lt(a.album.as_slice(), b.album.as_slice());
    }
    chars_lt(a.title.as_slice(), b.title.as_slice())
}

/// `insert_pos` is found by scanning until the first greater key.
proof fn lemma_insert_pos(l: Seq<SearchHitDto>, k: (u8, Seq<char>, Seq<char>, Seq<char>), p: int)
    requires
        0 <= p <= l.len(),
        forall|j: int| 0 <= j < p ==> !key_lt(k, #[trigger] hit_key(l[j])),
        p == l.len() || key_lt(k, hit_key(l[p])),
    ensures
        insert_pos(l, k) == p,
    decreases p,
{
    if p > 0 {
        let t = l.drop_first();
        assert forall|j: int| 0 <= j < p - 1 implies !key_lt(k, #[trigger] hit_key(t[j])) by {
            assert(t[j] == l[j + 1]);
        }
        if p - 1 < t.len() {
            assert(t[p - 1] == l[p]);
        }
        lemma_insert_pos(t, k, p - 1);
    }
}

/// Lexicographic order on character sequences is transitive.
pub proof fn lemma_seq_lt_transitive(a: Seq<char>, b: Seq<char>, c: Seq<char>)
    requires
        seq_lt(a, b),
        seq_lt(b, c),
    ensures
        seq_lt(a, c),
    decreases a.len(),
{
    if a.len() > 0 && b.len() > 0 && c.len() > 0 && a[0] == b[0] && b[0] == c[0] {
        lemma_seq_lt_transitive(a.drop_first(), b.drop_first(), c.drop_first());
    }
}

/// The order on hit keys is transitive and irreflexive.
pub proof fn lemma_key_lt_order(
    a: (u8, Seq<char>, Seq<char>, Seq<char>),
    b: (u8, Seq<char>, Seq<char>, Seq<char>),
    c: (u8, Seq<char>, Seq<char>, Seq<char>),
)
    ensures
        key_lt(a, b) && key_lt(b, c) ==> key_lt(a, c),
        !key_lt(a, a),
{
    lemma_seq_lt_irreflexive(a.1);
    lemma_seq_lt_irreflexive(a.2);
    lemma_seq_lt_irreflexive(a.3);
    if key_lt(a, b) && key_lt(b, c) {
        if a.0 == b.0 && b.0 == c.0 {
            if seq_lt(a.1, b.1) && seq_lt(b.1, c.1) {
                lemma_seq_lt_transitive(a.1, b.1, c.1);
            } else if a.1 == b.1 && b.1 == c.1 {
                if seq_lt(a.2, b.2) && seq_lt(b.2, c.2) {
                    lemma_seq_lt_transitive(a.2, b.2, c.2);
                } else if a.2 == b.2 && b.2 == c.2 {
                    lemma_seq_lt_transitive(a.3, b.3, c.3);
                }
            }
        }
    }
}

/// Lexicographic order on character sequences is total.
#[verifier::spinoff_prover]
pub proof fn lemma_seq_lt_total(a: Seq<char>, b: Seq<char>)
    ensures
        seq_lt(a, b) || a == b || seq_lt(b, a),
    decreases a.len(),
{
    if a.len() > 0 && b.len() > 0 && a[0] == b[0] {
        lemma_seq_lt_total(a.drop_first(), b.drop_first());
        if a.drop_first() == b.drop_first() {
            assert(a =~= seq![a[0]] + a.drop_first());
            assert(b =~= seq![b[0]] + b.drop_first());
        }
    } else if a.len() == 0 && b.len() == 0 {
        assert(a =~= b);
    }
}

/// Any two hit keys are equal or one is below the other.
pub proof fn lemma_key_lt_total(
    a: (u8, Seq<char>, Seq<char>, Seq<char>),
    b: (u8, Seq<char>, Seq<char>, Seq<char>),
)
    ensures
        key_lt(a, b) || a == b || key_lt(b, a),
{
    lemma_seq_lt_total(a.1, b.1);
    lemma_seq_lt_total(a.2, b.2);
    lemma_seq_lt_total(a.3, b.3);
}

/// Hits in a list ordered by key: no hit's key is below an earlier one's.
pub open spec fn hits_sorted(l: Seq<SearchHitDto>) -> bool {
    forall|i: int, j: int| 0 <= i < j < l.len() ==> !key_lt(hit_key(l[j]), hit_key(l[i]))
}

/// What `insert_pos` promises on a sorted list: no key before the position
/// is above `k`, and every key from it on is above `k`.
proof fn lemma_insert_pos_bounds(l: Seq<SearchHitDto>, k: (u8, Seq<char>, Seq<char>, Seq<char>))
    requires
        hits_sorted(l),
    ensures
        insert_pos(l, k) <= l.len(),
        forall|j: int| 0 <= j < insert_pos(l, k) ==> !key_lt(k, hit_key(l[j])),
        forall|j: int| insert_pos(l, k) <= j < l.len() ==> key_lt(k, hit_key(l[j])),
    decreases l.len(),
{
    if l.len() > 0 {
        if key_lt(k, hit_key(l[0])) {
            assert forall|j: int| 0 <= j < l.len() implies key_lt(k, hit_key(l[j])) by {
                if j > 0 {
                    lemma_key_lt_total(hit_key(l[0]), hit_key(l[j]));
                    lemma_key_lt_order(k, hit_key(l[0]), hit_key(l[j]));
                }
            }
        } else {
            let t = l.drop_first();
            assert(hits_sorted(t)) by {
                assert forall|i: int, j: int| 0 <= i < j < t.len() implies !key_lt(hit_key(t[j]), hit_key(t[i])) by {
                    assert(t[i] == l[i + 1] && t[j] == l[j + 1]);
                }
            }
            lemma_insert_pos_bounds(t, k);
            assert forall|j: int| 0 <= j < insert_pos(l, k) implies !key_lt(k, hit_key(l[j])) by {
                if j > 0 {
                    assert(l[j] == t[j - 1]);
                }
            }
            assert forall|j: int| insert_pos(l, k) <= j < l.len() implies key_lt(k, hit_key(l[j])) by {
                assert(l[j] == t[j - 1]);
            }
        }
    }
}

/// Ranked hits are in key order.
pub proof fn lemma_ranked_sorted(hits: Seq<SearchHitDto>)
    ensures
        hits_sorted(ranked(hits)),
        ranked(hits).len() == hits.len(),
    decreases hits.len(),
{
    if hits.len() > 0 {
        let l = ranked(hits.drop_last());
        let x = hits.last();
        let k = hit_key(x);
        lemma_ranked_sorted(hits.drop_last());
        lemma_insert_pos_bounds(l, k);
        let p = insert_pos(l, k) as int;
        let r = ranked(hits);
        assert(r == l.take(p) + seq![x] + l.skip(p));
        assert forall|i: int, j: int| 0 <= i < j < r.len() implies !key_lt(hit_key(r[j]), hit_key(r[i])) by {
            if j < p {
                assert(r[i] == l[i] && r[j] == l[j]);
            } else if j == p {
                assert(r[i] == l[i]);
            } else if i < p {
                assert(r[i] == l[i] && r[j] == l[j - 1]);
            } else if i == p {
                assert(r[j] == l[j - 1]);
                lemma_key_lt_order(hit_key(l[j - 1]), k, hit_key(l[j - 1]));
            } else {
                assert(r[i] == l[i - 1] && r[j] == l[j - 1]);
            }
        }
    }
}

/// Ranking keeps every hit, as often as it occurs, and adds none.
pub proof fn lemma_ranked_permutation(hits: Seq<SearchHitDto>)
    ensures
        ranked(hits).to_multiset() == hits.to_multiset(),
    decreases hits.len(),
{
    broadcast use vstd::seq_lib::to_multiset_insert, vstd::seq_lib::to_multiset_build;
    if hits.len() == 0 {
        assert(ranked(hits) =~= hits);
    } else {
        let l = ranked(hits.drop_last());
        let x = hits.last();
        lemma_ranked_permutation(hits.drop_last());
        lemma_ranked_sorted(hits.drop_last());
        lemma_insert_pos_bounds(l, hit_key(x));
        let p = insert_pos(l, hit_key(x)) as int;
        assert(ranked(hits) =~= l.insert(p, x));
        assert(hits =~= hits.drop_last().push(x));
    }
}

/// The hits whose key is `k`, in order.
pub open spec fn with_key(hits: Seq<SearchHitDto>, k: (u8, Seq<char>, Seq<char>, Seq<char>)) -> Seq<SearchHitDto> {
    hits.filter(|h: SearchHitDto| hit_key(h) == k)
}

/// Filtering keeps nothing from a list where no hit has key `k`.
proof fn lemma_with_key_none(l: Seq<SearchHitDto>, k: (u8, Seq<char>, Seq<char>, Seq<char>))
    requires
        forall|j: int| 0 <= j < l.len() ==> #[trigger] hit_key(l[j]) != k,
    ensures
        with_key(l, k) == Seq::<SearchHitDto>::empty(),
    decreases l.len(),
{
    reveal(Seq::filter);
    if l.len() > 0 {
        lemma_with_key_none(l.drop_last(), k);
        assert(l.last() == l[l.len() - 1]);
    }
}

/// Ranking is stable: hits with equal keys keep their relative order.
pub proof fn lemma_ranked_stable(hits: Seq<SearchHitDto>, k: (u8, Seq<char>, Seq<char>, Seq<char>))
    ensures
        with_key(ranked(hits), k) == with_key(hits, k),
    decreases hits.len(),
{
    reveal(Seq::filter);
    let pred = |h: SearchHitDto| hit_key(h) == k;
    if hits.len() > 0 {
        let l = ranked(hits.drop_last());
        let x = hits.last();
        lemma_ranked_stable(hits.drop_last(), k);
        lemma_ranked_sorted(hits.drop_last());
        lemma_insert_pos_bounds(l, hit_key(x));
        let p = insert_pos(l, hit_key(x)) as int;
        let a = l.take(p);
        let b = l.skip(p);
        assert(ranked(hits) == a + seq![x] + b);
        assert(l =~= a + b);
        Seq::filter_distributes_over_add(a + seq![x], b, pred);
        Seq::filter_distributes_over_add(a, seq![x], pred);
        Seq::filter_distributes_over_add(a, b, pred);
        assert(seq![x].drop_last() =~= Seq::<SearchHitDto>::empty());
        assert(seq![x].last() == x);
        assert(Seq::<SearchHitDto>::empty().filter(pred) =~= Seq::<SearchHitDto>::empty());
        assert(seq![x].filter(pred) == seq![x].drop_last().filter(pred) || seq![x].filter(pred)
            == seq![x].drop_last().filter(pred).push(x));
        if hit_key(x) == k {
            assert forall|j: int| 0 <= j < b.len() implies #[trigger] hit_key(b[j]) != k by {
                assert(b[j] == l[p + j]);
                lemma_key_lt_order(k, k, k);
            }
            lemma_with_key_none(b, k);
            assert(seq![x].filter(pred) =~= seq![x]);
            assert(with_key(hits, k) =~= with_key(hits.drop_last(), k).push(x));
            assert(with_key(ranked(hits), k) =~= a.filter(pred) + seq![x]);
        } else {
            assert(!pred(x));
            assert(seq![x].filter(pred) =~= Seq::<SearchHitDto>::empty());
            assert(with_key(hits, k) == with_key(hits.drop_last(), k));
            assert(with_key(ranked(hits), k) =~= a.filter(pred) + b.filter(pred));
        }
    }
}

/// Rank search hits: best field priority first, then artist, album and title
/// (case-insensitive); equal keys keep their input order.
pub fn sort_search_hits(hits: &mut Vec<SearchHitDto>)
    ensures
        final(hits)@ == ranked(old(hits)@),
{
    let mut input: Vec<SearchHitDto> = Vec::new();
    std::mem::swap(&mut input, hits);
    let ghost all = input@;
    let n = input.len();
    let mut out: Vec<SearchHitDto> = Vec::new();
    let mut keys: Vec<HitKey> = Vec::new();
    let mut done: usize = 0;
    for h in it: input
        invariant
            it.seq() == all,
            all.len() == n,
            done == it.index(),
            done <= all.len(),
            out@ == ranked(all.take(done as int)),
            keys@.len() == out@.len(),
            forall|j: int|
                0 <= j < keys@.len() ==> (keys@[j].priority, keys@[j].artist@, keys@[j].album@, keys@[j].title@)
                    == hit_key(#[trigger] out@[j]),
    {
        let ghost prefix = all.take(done as int);
        assert(done < n);
        assert(all.take(done + 1).drop_last() == prefix);
        assert(all.take(done + 1).last() == h);
        let k = key_of_hit(&h);
        let mut p: usize = 0;
        while p < keys.len() && !hit_key_lt(&k, &keys[p])
            invariant
                p <= keys@.len(),
                keys@.len() == out@.len(),
                forall|j: int|
                    0 <= j < keys@.len() ==> (keys@[j].priority, keys@[j].artist@, keys@[j].album@, keys@[j].title@)
                        == hit_key(#[trigger] out@[j]),
                (k.priority, k.artist@, k.album@, k.title@) == hit_key(h),
                forall|j: int| 0 <= j < p ==> !key_lt(hit_key(h), #[trigger] hit_key(out@[j])),
            decreases keys.len() - p,
        {
            p += 1;
        }
        proof {
            lemma_insert_pos(out@, hit_key(h), p as int);
        }
        let ghost before = out@;
        let ghost before_keys = keys@;
        out.insert(p, h);
        keys.insert(p, k);
        proof {
            assert(out@ == before.take(p as int) + seq![h] + before.skip(p as int));
            assert forall|j: int|
                0 <= j < keys@.len() implies (keys@[j].priority, keys@[j].artist@, keys@[j].album@, keys@[j].title@)
                == hit_key(#[trigger] out@[j]) by {
                if j < p {
                    assert(keys@[j] == before_keys[j]);
                    assert(out@[j] == before[j]);
                } else if j > p {
                    assert(keys@[j] == before_keys[j - 1]);
                    assert(out@[j] == before[j - 1]);
                }
            }
        }
        done += 1;
    }
    proof {
        assert(all.take(all.len() as int) == all);
    }
    *hits = out;
}

// ── Building hits ─────────────────────────────────────────────────────────

/// A non-blank fallback snippet, if any.
pub open spec fn usable_snippet(s: Option<String>) -> Option<String> {
    match s {
        Some(t) => if trim(t@).len() == 0 {
            None
        } else {
            Some(t)
        },
        None => None,
    }
}

/// The snippet a hit shows: when the lyrics matched, the snippet cut from
/// the lyrics, else the fallback the full-text index gave (if not blank);
/// nothing when the lyrics did not match.
pub open spec fn hit_snippet_ok(t: Track, query: Seq<char>, fallback: Option<String>, r: Option<String>) -> bool {
    if matched_fields_spec(t, query).contains("lyrics"@) {
        match t.lyrics {
            Some(l) => match snippet_of(l@, query) {
                Some(sn) => r matches Some(x) && x@ == sn,
                None => r == usable_snippet(fallback),
            },
            None => r == usable_snippet(fallback),
        }
    } else {
        r is None
    }
}

/// The search hit for `track`: which fields matched `query` and, when the
/// lyrics did, the snippet to show (`fallback` is the full-text index's own
/// snippet, used when none can be cut from the lyrics).
pub fn search_hit(track: Track, query: &str, fallback: Option<String>) -> (r: SearchHitDto)
    ensures
        r.track == track,
        r.matched_fields@.map_values(|s: String| s@) == matched_fields_spec(track, query@),
        hit_snippet_ok(track, query@, fallback, r.lyrics_snippet),
{
    let matched_fields = matched_fields_for(&track, query);
    let lyrics_matched = has_field(matched_fields.as_slice(), "lyrics");
    let usable = match fallback {
        Some(t) => if crate::text::is_blank(t.as_str()) {
            None
        } else {
            Some(t)
        },
        None => None,
    };
    let lyrics_snippet = if lyrics_matched {
        match &track.lyrics {
            Some(l) => match lyrics_snippet(l.as_str(), query) {
                Some(sn) => Some(sn),
                None => usable,
            },
            None => usable,
        }
    } else {
        None
    };
    SearchHitDto { track, matched_fields, lyrics_snippet }
}

/// The snippet a search hit carries: none unless the lyrics matched; when
/// they did, the snippet cut from the lyrics if one can be cut, else the
/// full-text index's snippet exactly when that is present and not blank.
pub proof fn lemma_hit_snippet(t: Track, query: Seq<char>, fallback: Option<String>, r: Option<String>)
    requires
        hit_snippet_ok(t, query, fallback, r),
    ensures
        !matched_fields_spec(t, query).contains("lyrics"@) ==> r is None,
        matched_fields_spec(t, query).contains("lyrics"@) ==> match t.lyrics {
            Some(l) if snippet_of(l@, query) is Some => r matches Some(x) && Some(x@) == snippet_of(l@, query),
            _ => match fallback {
                Some(f) => if trim(f@).len() > 0 {
                    r == Some(f)
                } else {
                    r is None
                },
                None => r is None,
            },
        },
{
}

/// How many hits a search returns: the requested number (80 when not
/// given), at most 200.
pub fn search_limit(limit: Option<u32>) -> (r: u32)
    ensures
        r == match limit {
            Some(l) => if l < 200 {
                l
            } else {
                200
            },
            None => 80,
        },
{
    match limit {
        Some(l) => if l < 200 {
            l
        } else {
            200
        },
        None => 80,
    }
}

/// Rank hits and keep the first `limit` of them.
pub fn rank_hits(hits: &mut Vec<SearchHitDto>, limit: usize)
    ensures
        final(hits)@ == if ranked(old(hits)@).len() <= limit {
            ranked(old(hits)@)
        } else {
            ranked(old(hits)@).take(limit as int)
        },
{
    sort_search_hits(hits);
    hits.truncate(limit);
}

} // verus!
