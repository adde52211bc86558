//! The lyrics snippet shown under a search hit: the line around the first
//! match of the query's first word, cut on UTF-8 character boundaries.

use vstd::prelude::*;

use crate::text::{
    chars_of, find_chars, index_of, last_char_before, last_index_of, occurs_at, push_char, push_chars, split_words,
    string_of, to_lowercase, trim, trim_bounds, unicode_lower, words,
};

verus! {

/// Bytes in the UTF-8 encoding of `c`.
pub open spec fn utf8_width(c: char) -> nat {
    if (c as u32) < 0x80 {
        1
    } else if (c as u32) < 0x800 {
        2
    } else if (c as u32) < 0x10000 {
        3
    } else {
        4
    }
}

/// Bytes in the UTF-8 encoding of `s`.
pub open spec fn byte_len(s: Seq<char>) -> nat
    decreases s.len(),
{
    if s.len() == 0 {
        0
    } else {
        byte_len(s.drop_last()) + utf8_width(s.last())
    }
}

/// Byte offset of character index `k` of `s`.
pub open spec fn byte_at(s: Seq<char>, k: int) -> nat {
    byte_len(s.take(k))
}

/// Scanning down from `k`: the first character index whose byte offset is
/// at most `b`.
pub open spec fn floor_from(s: Seq<char>, b: int, k: nat) -> nat
    decreases k,
{
    if k == 0 || byte_at(s, k as int) <= b {
        k
    } else {
        floor_from(s, b, (k - 1) as nat)
    }
}

/// The character boundary at or before byte `b` (the end of `s` when `b`
/// is past it), as a character index.
pub open spec fn floor_boundary(s: Seq<char>, b: int) -> nat {
    floor_from(s, b, s.len())
}

/// Scanning up from `k`: the first character index whose byte offset is at
/// least `b`, or the end.
pub open spec fn ceil_from(s: Seq<char>, b: int, k: nat) -> nat
    decreases s.len() - k,
{
    if k >= s.len() || byte_at(s, k as int) >= b {
        k
    } else {
        ceil_from(s, b, k + 1)
    }
}

/// The character boundary at or after byte `b`, as a character index.
pub open spec fn ceil_boundary(s: Seq<char>, b: int) -> nat {
    ceil_from(s, b, 0)
}

/// Scanning up from `i`: the first index where `needle` occurs in `hay`.
pub open spec fn first_occurrence_from(hay: Seq<char>, needle: Seq<char>, i: nat) -> Option<nat>
    decreases hay.len() + 1 - i,
{
    if i + needle.len() > hay.len() {
        None
    } else if occurs_at(hay, needle, i as int) {
        Some(i)
    } else {
        first_occurrence_from(hay, needle, i + 1)
    }
}

/// The word of the query that is looked for: its first word, or the whole
/// query when it has none; lower-cased.
pub open spec fn snippet_needle(query: Seq<char>) -> Seq<char> {
    let ws = words(query);
    unicode_lower(
        if ws.len() > 0 {
            ws[0]
        } else {
            query
        },
    )
}

/// The snippet for `lyrics` and `query`: find the first match of the
/// needle in the lower-cased lyrics, snap its byte offset to a character
/// boundary of the lyrics, and take the line around it (or 40 bytes before
/// and the needle plus 60 bytes after, where there is no line break),
/// trimmed, with `…` marking cut ends.
pub open spec fn snippet_of(lyrics: Seq<char>, query: Seq<char>) -> Option<Seq<char>> {
    let lower = unicode_lower(lyrics);
    let needle = snippet_needle(query);
    if needle.len() == 0 {
        None
    } else {
        match first_occurrence_from(lower, needle, 0) {
            None => None,
            Some(p) => {
                let k = floor_boundary(lyrics, byte_at(lower, p as int) as int);
                let bk = byte_at(lyrics, k as int);
                let start = match last_index_of(lyrics.take(k as int), '\n') {
                    Some(j) => j + 1,
                    None => floor_boundary(lyrics, if bk >= 40 { bk - 40 } else { 0 }),
                };
                let limit = (bk + byte_len(needle) + 60) as int;
                let end = match index_of(lyrics.skip(k as int), '\n') {
                    Some(j) => k + j,
                    None => ceil_boundary(
                        lyrics,
                        if limit <= byte_len(lyrics) {
                            limit
                        } else {
                            byte_len(lyrics) as int
                        },
                    ),
                };
                let core = trim(lyrics.subrange(start as int, end as int));
                Some(
                    (if start > 0 {
                        seq!['…']
                    } else {
                        Seq::empty()
                    }) + core + (if end < lyrics.len() {
                        seq!['…']
                    } else {
                        Seq::empty()
                    }),
                )
            },
        }
    }
}

// ── Lemmas ────────────────────────────────────────────────────────────────

/// Taking one more character adds its width.
proof fn lemma_byte_at_step(s: Seq<char>, k: int)
    requires
        0 <= k < s.len(),
    ensures
        byte_at(s, k + 1) == byte_at(s, k) + utf8_width(s[k]),
{
    assert(s.take(k + 1).drop_last() == s.take(k));
    assert(s.take(k + 1).last() == s[k]);
}

/// Byte offsets grow with the character index.
proof fn lemma_byte_at_mono(s: Seq<char>, i: int, j: int)
    requires
        0 <= i <= j <= s.len(),
    ensures
        byte_at(s, i) <= byte_at(s, j),
    decreases j - i,
{
    if i < j {
        lemma_byte_at_step(s, j - 1);
        lemma_byte_at_mono(s, i, j - 1);
    }
}

/// `floor_from` stays within `0..=k`.
proof fn lemma_floor_from_le(s: Seq<char>, b: int, k: nat)
    ensures
        floor_from(s, b, k) <= k,
    decreases k,
{
    if !(k == 0 || byte_at(s, k as int) <= b) {
        lemma_floor_from_le(s, b, (k - 1) as nat);
    }
}

/// `ceil_from` stays within `k..=len` for `k <= len`.
proof fn lemma_ceil_from_bounds(s: Seq<char>, b: int, k: nat)
    requires
        k <= s.len(),
    ensures
        k <= ceil_from(s, b, k) <= s.len(),
    decreases s.len() - k,
{
    if !(k >= s.len() || byte_at(s, k as int) >= b) {
        lemma_ceil_from_bounds(s, b, k + 1);
    }
}

/// The first occurrence found by scanning is the one `find_chars` reports.
proof fn lemma_first_occurrence(hay: Seq<char>, needle: Seq<char>, i: nat, p: Option<nat>)
    requires
        i <= hay.len() + 1,
        forall|j: int| i <= j < hay.len() + 1 && (p matches Some(q) ==> j < q) ==> !occurs_at(hay, needle, j),
        p matches Some(q) ==> i <= q && occurs_at(hay, needle, q as int),
    ensures
        first_occurrence_from(hay, needle, i) == p,
    decreases hay.len() + 1 - i,
{
    if i + needle.len() > hay.len() {
        if let Some(q) = p {
            assert(false);
        }
    } else if occurs_at(hay, needle, i as int) {
        if let Some(q) = p {
            if i < q {
                assert(!occurs_at(hay, needle, i as int));
            }
        }
    } else {
        if let Some(q) = p {
            assert(i != q);
        }
        lemma_first_occurrence(hay, needle, i + 1, p);
    }
}

// ── Exec helpers ──────────────────────────────────────────────────────────

/// The UTF-8 width of `c`.
fn width_of(c: char) -> (r: u128)
    ensures
        r == utf8_width(c),
{
    let v = c as u32;
    if v < 0x80 {
        1
    } else if v < 0x800 {
        2
    } else if v < 0x10000 {
        3
    } else {
        4
    }
}

/// Byte offsets of every character index of `cs`, `0..=len`.
fn byte_offsets(cs: &[char]) -> (r: Vec<u128>)
    ensures
        r@.len() == cs@.len() + 1,
        forall|k: int| 0 <= k <= cs@.len() ==> #[trigger] r@[k] == byte_at(cs@, k),
        forall|k: int| 0 <= k <= cs@.len() ==> r@[k] <= 4 * k,
{
    let mut out: Vec<u128> = Vec::new();
    out.push(0);
    assert(cs@.take(0) =~= Seq::<char>::empty());
    let mut i: usize = 0;
    let mut acc: u128 = 0;
    while i < cs.len()
        invariant
            i <= cs@.len(),
            out@.len() == i + 1,
            acc == out@[i as int],
            forall|k: int| 0 <= k <= i ==> #[trigger] out@[k] == byte_at(cs@, k),
            forall|k: int| 0 <= k <= i ==> out@[k] <= 4 * k,
        decreases cs.len() - i,
    {
        proof {
            lemma_byte_at_step(cs@, i as int);
        }
        acc = acc + width_of(cs[i]);
        out.push(acc);
        i += 1;
    }
    out
}

/// `floor_boundary` over precomputed offsets.
fn floor_index(cs: &[char], offs: &Vec<u128>, b: u128) -> (r: usize)
    requires
        offs@.len() == cs@.len() + 1,
        forall|k: int| 0 <= k <= cs@.len() ==> #[trigger] offs@[k] == byte_at(cs@, k),
    ensures
        r == floor_boundary(cs@, b as int),
        r <= cs@.len(),
{
    let mut k: usize = cs.len();
    while k > 0 && offs[k] > b
        invariant
            k <= cs@.len(),
            offs@.len() == cs@.len() + 1,
            forall|j: int| 0 <= j <= cs@.len() ==> #[trigger] offs@[j] == byte_at(cs@, j),
            floor_boundary(cs@, b as int) == floor_from(cs@, b as int, k as nat),
        decreases k,
    {
        k -= 1;
    }
    k
}

/// `ceil_boundary` over precomputed offsets.
fn ceil_index(cs: &[char], offs: &Vec<u128>, b: u128) -> (r: usize)
    requires
        offs@.len() == cs@.len() + 1,
        forall|k: int| 0 <= k <= cs@.len() ==> #[trigger] offs@[k] == byte_at(cs@, k),
    ensures
        r == ceil_boundary(cs@, b as int),
        r <= cs@.len(),
{
    let mut k: usize = 0;
    while k < cs.len() && offs[k] < b
        invariant
            k <= cs@.len(),
            offs@.len() == cs@.len() + 1,
            forall|j: int| 0 <= j <= cs@.len() ==> #[trigger] offs@[j] == byte_at(cs@, j),
            ceil_boundary(cs@, b as int) == ceil_from(cs@, b as int, k as nat),
        decreases cs.len() - k,
    {
        k += 1;
    }
    k
}

/// Index of the first `c` in `cs[from..]`, relative to `from`, if any.
fn first_char_from(cs: &[char], c: char, from: usize) -> (r: Option<usize>)
    requires
        from <= cs@.len(),
    ensures
        match index_of(cs@.skip(from as int), c) {
            Some(j) => r == Some(j as usize) && from + j < cs@.len(),
            None => r is None,
        },
{
    let rest = vstd::slice::slice_subrange(cs, from, cs.len());
    assert(rest@ == cs@.skip(from as int));
    crate::text::find_char(rest, c)
}

/// The snippet of `lyrics` shown for a search `query`, if the query's first
/// word occurs in them (case-insensitively).
pub fn lyrics_snippet(lyrics: &str, query: &str) -> (r: Option<String>)
    ensures
        match snippet_of(lyrics@, query@) {
            Some(s) => r matches Some(t) && t@ == s,
            None => r is None,
        },
{
    let lower = to_lowercase(lyrics);
    let lc = chars_of(lower.as_str());
    let qc = chars_of(query);
    let ws = split_words(qc.as_slice());
    proof {
        assert(ws@.len() == words(query@).len());
    }
    let needle_src = if ws.len() > 0 {
        assert(ws@[0]@ == words(query@)[0]);
        string_of(ws[0].as_slice())
    } else {
        String::from_str(query)
    };
    let needle = to_lowercase(needle_src.as_str());
    let nc = chars_of(needle.as_str());
    assert(nc@ == snippet_needle(query@));
    if nc.len() == 0 {
        return None;
    }
    let found = find_chars(lc.as_slice(), nc.as_slice());
    proof {
        lemma_first_occurrence(
            lc@,
            nc@,
            0,
            match found {
                Some(i) => Some(i as nat),
                None => None,
            },
        );
    }
    let p = match found {
        Some(p) => p,
        None => {
            return None;
        },
    };
    let cs = chars_of(lyrics);
    let n = cs.len();
    let lower_offs = byte_offsets(lc.as_slice());
    let offs = byte_offsets(cs.as_slice());
    let needle_offs = byte_offsets(nc.as_slice());
    assert(nc@.take(nc@.len() as int) == nc@);
    let k = floor_index(cs.as_slice(), &offs, lower_offs[p]);
    let bk = offs[k];
    let start = match last_char_before(cs.as_slice(), '\n', k) {
        Some(j) => j + 1,
        None => floor_index(cs.as_slice(), &offs, if bk >= 40 { bk - 40 } else { 0 }),
    };
    let total = offs[n];
    assert(cs@.take(n as int) == cs@);
    let limit = bk + needle_offs[nc.len()] + 60;
    let end = match first_char_from(cs.as_slice(), '\n', k) {
        Some(j) => k + j,
        None => ceil_index(cs.as_slice(), &offs, if limit <= total { limit } else { total }),
    };
    proof {
        lemma_floor_from_le(cs@, lower_offs[p as int] as int, n as nat);
        lemma_byte_at_mono(cs@, k as int, n as int);
        if last_index_of(cs@.take(k as int), '\n') is None {
            lemma_floor_not_after(cs@, (if bk >= 40 { bk - 40 } else { 0 }) as int, k as nat, n as nat);
        }
        if index_of(cs@.skip(k as int), '\n') is None {
            lemma_ceil_from_bounds(cs@, (if limit <= total { limit } else { total }) as int, 0);
            lemma_ceil_not_before(cs@, (if limit <= total { limit } else { total }) as int, k as nat, 0);
        }
    }
    assert(start <= k <= end <= n);
    let piece = vstd::slice::slice_subrange(cs.as_slice(), start, end);
    let (a, b) = trim_bounds(piece);
    let mut out = String::new();
    if start > 0 {
        push_char(&mut out, '…');
    }
    push_chars(&mut out, vstd::slice::slice_subrange(piece, a, b));
    if end < n {
        push_char(&mut out, '…');
    }
    Some(out)
}

/// With a byte bound not past `k`'s offset, the floor found scanning down
/// from `m >= k` is not after `k`.
proof fn lemma_floor_not_after(s: Seq<char>, b: int, k: nat, m: nat)
    requires
        k <= m <= s.len(),
        b <= byte_at(s, k as int),
    ensures
        floor_from(s, b, m) <= k,
    decreases m,
{
    if m == k {
        lemma_floor_from_le(s, b, m);
    } else {
        lemma_byte_at_step(s, k as int);
        lemma_byte_at_mono(s, k + 1 as int, m as int);
        lemma_floor_not_after(s, b, k, (m - 1) as nat);
    }
}

/// With a byte bound not before `k`'s offset, the ceiling found scanning up
/// from `m <= k` is not before `k`.
proof fn lemma_ceil_not_before(s: Seq<char>, b: int, k: nat, m: nat)
    requires
        m <= k <= s.len(),
        b >= byte_at(s, k as int),
    ensures
        ceil_from(s, b, m) >= k,
    decreases k - m,
{
    if m == k {
        lemma_ceil_from_bounds(s, b, m);
    } else {
        lemma_byte_at_step(s, k - 1);
        lemma_byte_at_mono(s, m as int, k - 1);
        lemma_ceil_not_before(s, b, k, m + 1);
    }
}

} // verus!
