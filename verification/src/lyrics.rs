//! Lyrics text helpers: the timing kind of a sheet, TTML detection and
//! whitespace normalisation of TTML text.

use vstd::prelude::*;

use crate::search::join_spaced;
use crate::text::{
    ascii_lower, ascii_lower_chars, chars_of, contains, contains_chars, push_char, push_chars, split_words,
    words,
};

verus! {

/// How a lyrics sheet is timed.
#[derive(Clone, Copy, PartialEq, Eq, Structural, Debug)]
pub enum LyricsKind {
    /// No timings — render as text.
    Plain,
    /// Line timings only — highlight the active line.
    Line,
    /// Word timings present — karaoke rendering is possible.
    Word,
}

/// How many leading characters are inspected for TTML markers.
pub const TTML_SNIFF_CHARS: usize = 600;

/// Whether the start of `raw` looks like a TTML document: within its first
/// `TTML_SNIFF_CHARS` characters (ASCII case-insensitive) there is `<tt`,
/// and `ttml` or `<body`.
pub open spec fn is_ttml_head(raw: Seq<char>) -> bool {
    let head = ascii_lower(
        if raw.len() <= TTML_SNIFF_CHARS {
            raw
        } else {
            raw.take(TTML_SNIFF_CHARS as int)
        },
    );
    contains(head, "<tt"@) && (contains(head, "ttml"@) || contains(head, "<body"@))
}

/// Decide whether raw lyrics are TTML rather than LRC or plain text.
pub fn looks_like_ttml(raw: &str) -> (r: bool)
    ensures
        r == is_ttml_head(raw@),
{
    let cs = chars_of(raw);
    let n = if cs.len() <= TTML_SNIFF_CHARS { cs.len() } else { TTML_SNIFF_CHARS };
    let head = ascii_lower_chars(vstd::slice::slice_subrange(cs.as_slice(), 0, n));
    proof {
        if cs@.len() <= TTML_SNIFF_CHARS {
            assert(cs@.subrange(0, n as int) =~= cs@);
        }
    }
    let tt = chars_of("<tt");
    let ttml = chars_of("ttml");
    let body = chars_of("<body");
    contains_chars(head.as_slice(), tt.as_slice()) && (contains_chars(head.as_slice(), ttml.as_slice())
        || contains_chars(head.as_slice(), body.as_slice()))
}

/// Collapse whitespace runs to single spaces and drop leading and trailing
/// whitespace (TTML text carries the document's indentation).
pub fn normalize_ws(raw: &str) -> (r: String)
    ensures
        r@ == join_spaced(words(raw@)),
{
    let cs = chars_of(raw);
    let parts = split_words(cs.as_slice());
    let ghost ps = parts@.map_values(|w: Vec<char>| w@);
    let mut out = String::new();
    let mut i: usize = 0;
    while i < parts.len()
        invariant
            i <= parts@.len(),
            ps == parts@.map_values(|w: Vec<char>| w@),
            out@ == join_spaced(ps.take(i as int)),
        decreases parts.len() - i,
    {
        assert(ps.take(i + 1).drop_last() == ps.take(i as int));
        assert(ps.take(i + 1).last() == parts@[i as int]@);
        if i > 0 {
            push_char(&mut out, ' ');
        } else {
            assert(ps.take(1) == seq![ps[0]]);
        }
        push_chars(&mut out, parts[i].as_slice());
        i += 1;
    }
    assert(ps.take(parts@.len() as int) == ps);
    out
}

} // verus!
