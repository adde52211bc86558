//! M3U playlists: the paths a playlist file lists, and the file written for
//! a playlist's tracks.

use vstd::prelude::*;

use crate::text::{
    chars_of, decimal, digit_char, index_of, is_space, lemma_index_of, lemma_ws_prefix_len,
    lemma_ws_suffix_bounds, lemma_ws_suffix_len, push_char, push_chars, push_str, signed_decimal,
    signed_decimal_string, trim, trim_bounds, ws_suffix_len,
};

verus! {

/// A line without its trailing carriage return, if any.
pub open spec fn strip_cr(l: Seq<char>) -> Seq<char> {
    if l.len() > 0 && l.last() == '\r' {
        l.drop_last()
    } else {
        l
    }
}

/// `str::lines`: the text split at each `\n`, without a trailing `\r`; a
/// final `\n` does not start another line.
pub open spec fn text_lines(s: Seq<char>) -> Seq<Seq<char>>
    decreases s.len(),
{
    if s.len() == 0 {
        Seq::empty()
    } else {
        proof {
            crate::text::lemma_index_of_bound(s, '\n');
        }
        match index_of(s, '\n') {
            None => seq![strip_cr(s)],
            Some(i) => seq![strip_cr(s.take(i as int))] + text_lines(s.skip(i as int + 1)),
        }
    }
}

/// The entries of an M3U playlist among its lines: each trimmed line that
/// is neither empty nor a `#` directive or comment.
pub open spec fn entries_of(lines: Seq<Seq<char>>) -> Seq<Seq<char>>
    decreases lines.len(),
{
    if lines.len() == 0 {
        Seq::empty()
    } else {
        let rest = entries_of(lines.drop_first());
        let t = trim(lines[0]);
        if t.len() == 0 || t[0] == '#' {
            rest
        } else {
            seq![t] + rest
        }
    }
}

/// `index_of` on a suffix, as a position in the whole.
proof fn lemma_index_of_from(s: Seq<char>, from: int, c: char, j: int)
    requires
        0 <= from <= j <= s.len(),
        forall|k: int| from <= k < j ==> s[k] != c,
        j == s.len() || s[j] == c,
    ensures
        index_of(s.skip(from), c) == if j == s.len() {
            None::<nat>
        } else {
            Some((j - from) as nat)
        },
{
    let t = s.skip(from);
    assert forall|k: int| 0 <= k < j - from implies #[trigger] t[k] != c by {
        assert(t[k] == s[from + k]);
    }
    if j < s.len() {
        assert(t[j - from] == s[j]);
    }
    crate::text::lemma_index_of(t, c, j - from);
}

/// The paths an M3U playlist lists, in order.
pub fn m3u_entries(content: &str) -> (r: Vec<String>)
    ensures
        r@.map_values(|s: String| s@) == entries_of(text_lines(content@)),
{
    let cs = chars_of(content);
    let n = cs.len();
    let mut out: Vec<String> = Vec::new();
    let mut start: usize = 0;
    let ghost mut seen: Seq<Seq<char>> = Seq::empty();
    assert(cs@.skip(0) =~= cs@);
    assert(seen + text_lines(cs@) =~= text_lines(cs@));
    assert(entries_of(seen) =~= Seq::<Seq<char>>::empty());
    assert(out@.map_values(|s: String| s@) =~= Seq::<Seq<char>>::empty());
    while start < n
        invariant
            start <= n == cs@.len(),
            cs@ == content@,
            text_lines(content@) == seen + text_lines(cs@.skip(start as int)),
            out@.map_values(|s: String| s@) == entries_of(seen),
        decreases n - start,
    {
        let mut end = start;
        while end < n && cs[end] != '\n'
            invariant
                start <= end <= n == cs@.len(),
                forall|k: int| start <= k < end ==> cs@[k] != '\n',
            decreases n - end,
        {
            end += 1;
        }
        proof {
            lemma_index_of_from(cs@, start as int, '\n', end as int);
        }
        let mut stop = end;
        if stop > start && cs[stop - 1] == '\r' {
            stop -= 1;
        }
        let line = vstd::slice::slice_subrange(cs.as_slice(), start, stop);
        let ghost rest = cs@.skip(start as int);
        proof {
            assert(rest.len() > 0);
            if end < n {
                assert(rest.take(end - start) =~= cs@.subrange(start as int, end as int));
                assert(rest.skip(end - start + 1) =~= cs@.skip(end + 1));
            } else {
                assert(rest =~= cs@.subrange(start as int, end as int));
            }
            let raw = cs@.subrange(start as int, end as int);
            if end > start && cs@[end - 1] == '\r' {
                assert(raw.last() == '\r');
                assert(strip_cr(raw) =~= line@);
            } else {
                assert(strip_cr(raw) =~= line@);
            }
        }
        let (a, b) = trim_bounds(line);
        let ghost before = out@;
        proof {
            let one = seq![line@];
            assert(one.drop_first() =~= Seq::<Seq<char>>::empty());
            assert(entries_of(Seq::<Seq<char>>::empty()) =~= Seq::<Seq<char>>::empty());
            assert(one[0] == line@);
        }
        if a < b && line[a] != '#' {
            let mut entry = String::new();
            push_chars(&mut entry, vstd::slice::slice_subrange(line, a, b));
            out.push(entry);
            proof {
                assert(trim(line@)[0] == line@[a as int]);
            }
        }
        proof {
            lemma_entries_append(seen, line@);
            assert(out@.map_values(|s: String| s@) =~= entries_of(seen.push(line@)));
            seen = seen.push(line@);
        }
        start = if end < n { end + 1 } else { n };
        proof {
            if end >= n {
                assert(cs@.skip(n as int) =~= Seq::<char>::empty());
            }
            assert(text_lines(content@) == seen + text_lines(cs@.skip(start as int)));
        }
    }
    proof {
        assert(cs@.skip(n as int) =~= Seq::<char>::empty());
        assert(seen + Seq::<Seq<char>>::empty() =~= seen);
    }
    out
}

/// Entries of lines followed by one more line.
proof fn lemma_entries_append(lines: Seq<Seq<char>>, l: Seq<char>)
    ensures
        entries_of(lines.push(l)) == entries_of(lines) + entries_of(seq![l]),
    decreases lines.len(),
{
    if lines.len() == 0 {
        assert(lines.push(l) =~= seq![l]);
        assert(entries_of(lines) =~= Seq::<Seq<char>>::empty());
    } else {
        assert(lines.push(l).drop_first() =~= lines.drop_first().push(l));
        lemma_entries_append(lines.drop_first(), l);
    }
}

/// A track as an M3U file lists it: duration in whole seconds (`-1` when
/// unknown), artist, title and path.
pub struct M3uEntry {
    pub duration: i64,
    pub artist: String,
    pub title: String,
    pub path: String,
}

/// The two lines an entry becomes.
pub open spec fn entry_text(e: M3uEntry) -> Seq<char> {
    "#EXTINF:"@ + signed_decimal(e.duration as int) + seq![','] + e.artist@ + " - "@ + e.title@ + seq!['\n']
        + e.path@ + seq!['\n']
}

/// The body of an M3U file after the header.
pub open spec fn entries_text(es: Seq<M3uEntry>) -> Seq<char>
    decreases es.len(),
{
    if es.len() == 0 {
        Seq::empty()
    } else {
        entries_text(es.drop_last()) + entry_text(es.last())
    }
}

/// The text of an M3U file listing `entries`: the `#EXTM3U` header, then
/// an `#EXTINF:{duration},{artist} - {title}` line and the path for each.
pub fn m3u_document(entries: &[M3uEntry]) -> (r: String)
    ensures
        r@ == "#EXTM3U\n"@ + entries_text(entries@),
{
    let mut out = String::from_str("#EXTM3U\n");
    let ghost head = out@;
    let mut i: usize = 0;
    while i < entries.len()
        invariant
            i <= entries@.len(),
            head == "#EXTM3U\n"@,
            out@ == head + entries_text(entries@.take(i as int)),
        decreases entries.len() - i,
    {
        let e = &entries[i];
        push_str(&mut out, "#EXTINF:");
        push_str(&mut out, signed_decimal_string(e.duration).as_str());
        push_char(&mut out, ',');
        push_str(&mut out, e.artist.as_str());
        push_str(&mut out, " - ");
        push_str(&mut out, e.title.as_str());
        push_char(&mut out, '\n');
        push_str(&mut out, e.path.as_str());
        push_char(&mut out, '\n');
        proof {
            assert(entries@.take(i + 1).drop_last() == entries@.take(i as int));
            assert(entries@.take(i + 1).last() == *e);
            assert(out@ =~= head + entries_text(entries@.take(i + 1)));
        }
        i += 1;
    }
    assert(entries@.take(entries@.len() as int) == entries@);
    out
}

// ── Reading back a written playlist ───────────────────────────────────────

/// Text without a line break.
pub open spec fn one_line(s: Seq<char>) -> bool {
    !s.contains('\n')
}

/// A path an M3U file lists and reads back as it is: not empty, on one
/// line, without whitespace at either end, and not starting with `#`.
pub open spec fn m3u_safe_path(p: Seq<char>) -> bool {
    &&& p.len() > 0
    &&& one_line(p)
    &&& !is_space(p[0])
    &&& !is_space(p.last())
    &&& p[0] != '#'
}

/// `index_of` finds the first of the positions holding `c`.
proof fn lemma_index_of_found(s: Seq<char>, c: char, j: int)
    requires
        0 <= j < s.len(),
        s[j] == c,
    ensures
        index_of(s, c) matches Some(i) && i <= j && s[i as int] == c && forall|k: int|
            0 <= k < i ==> #[trigger] s[k] != c,
    decreases s.len(),
{
    if s[0] != c {
        let t = s.drop_first();
        assert(t[j - 1] == c);
        lemma_index_of_found(t, c, j - 1);
        let i = index_of(t, c)->0;
        assert forall|k: int| 0 <= k < i + 1 implies #[trigger] s[k] != c by {
            if k > 0 {
                assert(s[k] == t[k - 1]);
            }
        }
    }
}

/// Lines of text that ends a line, followed by more text.
proof fn lemma_text_lines_append(x: Seq<char>, y: Seq<char>)
    requires
        x.len() == 0 || x.last() == '\n',
    ensures
        text_lines(x + y) == text_lines(x) + text_lines(y),
    decreases x.len(),
{
    if x.len() == 0 {
        assert(x + y =~= y);
        assert(text_lines(x) =~= Seq::<Seq<char>>::empty());
        assert(text_lines(x) + text_lines(y) =~= text_lines(y));
    } else {
        lemma_index_of_found(x, '\n', x.len() - 1);
        let i = index_of(x, '\n')->0 as int;
        let xy = x + y;
        assert forall|k: int| 0 <= k < i implies #[trigger] xy[k] != '\n' by {
            assert(xy[k] == x[k]);
        }
        assert(xy[i] == x[i]);
        lemma_index_of(xy, '\n', i);
        assert(xy.take(i) =~= x.take(i));
        let rest = x.skip(i + 1);
        assert(xy.skip(i + 1) =~= rest + y);
        if rest.len() > 0 {
            assert(rest.last() == x.last());
        }
        lemma_text_lines_append(rest, y);
        assert(text_lines(xy) == seq![strip_cr(x.take(i))] + text_lines(rest + y));
        assert(text_lines(x) == seq![strip_cr(x.take(i))] + text_lines(rest));
        assert(text_lines(xy) =~= text_lines(x) + text_lines(y));
    }
}

/// One line of text, ended.
proof fn lemma_text_lines_one(a: Seq<char>)
    requires
        one_line(a),
    ensures
        text_lines(a + seq!['\n']) == seq![strip_cr(a)],
{
    let s = a + seq!['\n'];
    assert forall|k: int| 0 <= k < a.len() implies #[trigger] s[k] != '\n' by {
        assert(s[k] == a[k]);
        if a[k] == '\n' {
            assert(a.contains('\n'));
        }
    }
    lemma_index_of(s, '\n', a.len() as int);
    assert(s.take(a.len() as int) =~= a);
    let e = s.skip(a.len() as int + 1);
    assert(e =~= Seq::<char>::empty());
    assert(text_lines(e) == Seq::<Seq<char>>::empty());
    assert(text_lines(s) == seq![strip_cr(a)] + text_lines(e));
    assert(seq![strip_cr(a)] + Seq::<Seq<char>>::empty() =~= seq![strip_cr(a)]);
}

/// Entries of two runs of lines.
proof fn lemma_entries_concat(a: Seq<Seq<char>>, b: Seq<Seq<char>>)
    ensures
        entries_of(a + b) == entries_of(a) + entries_of(b),
    decreases a.len(),
{
    if a.len() == 0 {
        assert(a + b =~= b);
        assert(entries_of(a) + entries_of(b) =~= entries_of(b));
    } else {
        assert((a + b).drop_first() =~= a.drop_first() + b);
        assert((a + b)[0] == a[0]);
        lemma_entries_concat(a.drop_first(), b);
        let t = trim(a[0]);
        if !(t.len() == 0 || t[0] == '#') {
            assert(seq![t] + (entries_of(a.drop_first()) + entries_of(b)) =~= (seq![t] + entries_of(
                a.drop_first(),
            )) + entries_of(b));
        }
    }
}

/// Trimming keeps a first character that is not whitespace.
proof fn lemma_trim_keeps_first(x: Seq<char>)
    requires
        x.len() > 0,
        !is_space(x[0]),
    ensures
        trim(x).len() > 0,
        trim(x)[0] == x[0],
{
    lemma_ws_prefix_len(x, 0);
    assert(x.skip(0) =~= x);
    lemma_ws_suffix_bounds(x);
    if ws_suffix_len(x) == x.len() {
        assert(is_space(x[0]));
    }
}

/// A `#` line is no entry.
proof fn lemma_comment_line(a: Seq<char>)
    requires
        a.len() >= 2,
        a[0] == '#',
    ensures
        entries_of(seq![strip_cr(a)]) == Seq::<Seq<char>>::empty(),
{
    let x = strip_cr(a);
    assert(x[0] == '#');
    lemma_trim_keeps_first(x);
    let one = seq![x];
    assert(one.drop_first() =~= Seq::<Seq<char>>::empty());
    assert(entries_of(Seq::<Seq<char>>::empty()) == Seq::<Seq<char>>::empty());
    assert(one[0] == x);
    assert(trim(one[0])[0] == '#');
}

/// A safe path line is the entry it holds.
proof fn lemma_path_line(p: Seq<char>)
    requires
        m3u_safe_path(p),
    ensures
        entries_of(seq![strip_cr(p)]) == seq![p],
{
    assert(is_space('\r'));
    assert(strip_cr(p) == p);
    lemma_ws_prefix_len(p, 0);
    assert(p.skip(0) =~= p);
    lemma_ws_suffix_len(p, 0);
    assert(trim(p) =~= p);
    let one = seq![strip_cr(p)];
    assert(one.drop_first() =~= Seq::<Seq<char>>::empty());
    assert(entries_of(Seq::<Seq<char>>::empty()) == Seq::<Seq<char>>::empty());
    assert(one[0] == p);
    assert(trim(one[0]) == p);
    assert(seq![p] + Seq::<Seq<char>>::empty() =~= seq![p]);
}

/// Two texts without line breaks make one without.
proof fn lemma_one_line_concat(a: Seq<char>, b: Seq<char>)
    requires
        one_line(a),
        one_line(b),
    ensures
        one_line(a + b),
{
    if (a + b).contains('\n') {
        let k = choose|k: int| 0 <= k < (a + b).len() && (a + b)[k] == '\n';
        if k < a.len() {
            assert(a[k] == '\n');
            assert(a.contains('\n'));
        } else {
            assert(b[k - a.len()] == '\n');
            assert(b.contains('\n'));
        }
    }
}

/// Decimal digits are on one line.
proof fn lemma_decimal_one_line(n: nat)
    ensures
        one_line(decimal(n)),
    decreases n,
{
    if n < 10 {
        assert(decimal(n) =~= seq![digit_char(n)]);
        assert(digit_char(n) != '\n');
        lemma_char_one_line(digit_char(n));
    } else {
        lemma_decimal_one_line(n / 10);
        assert(digit_char(n % 10) != '\n');
        lemma_char_one_line(digit_char(n % 10));
        assert(decimal(n) =~= decimal(n / 10) + seq![digit_char(n % 10)]);
        lemma_one_line_concat(decimal(n / 10), seq![digit_char(n % 10)]);
    }
}

/// A literal-free character on one line.
proof fn lemma_char_one_line(c: char)
    requires
        c != '\n',
    ensures
        one_line(seq![c]),
{
    let s = seq![c];
    if s.contains('\n') {
        let k = choose|k: int| 0 <= k < s.len() && s[k] == '\n';
        assert(k == 0);
    }
}

/// The `#EXTINF` line of an entry.
pub open spec fn extinf_line(e: M3uEntry) -> Seq<char> {
    "#EXTINF:"@ + signed_decimal(e.duration as int) + seq![','] + e.artist@ + " - "@ + e.title@
}

/// The entry text is its `#EXTINF` line and its path, each ended.
proof fn lemma_entry_lines(e: M3uEntry)
    requires
        one_line(e.artist@),
        one_line(e.title@),
        m3u_safe_path(e.path@),
    ensures
        entries_of(text_lines(entry_text(e))) == seq![e.path@],
{
    reveal_strlit("#EXTINF:");
    reveal_strlit(" - ");
    let a = extinf_line(e);
    assert(entry_text(e) =~= (a + seq!['\n']) + (e.path@ + seq!['\n']));
    // the #EXTINF line is on one line
    lemma_char_one_line('#');
    assert(one_line("#EXTINF:"@)) by {
        if "#EXTINF:"@.contains('\n') {
            let k = choose|k: int| 0 <= k < 8 && "#EXTINF:"@[k] == '\n';
        }
    }
    if e.duration < 0 {
        lemma_decimal_one_line((-(e.duration as int)) as nat);
        lemma_char_one_line('-');
        lemma_one_line_concat(seq!['-'], decimal((-(e.duration as int)) as nat));
    } else {
        lemma_decimal_one_line(e.duration as nat);
    }
    lemma_char_one_line(',');
    assert(one_line(" - "@)) by {
        if " - "@.contains('\n') {
            let k = choose|k: int| 0 <= k < 3 && " - "@[k] == '\n';
        }
    }
    let p1 = "#EXTINF:"@ + signed_decimal(e.duration as int);
    lemma_one_line_concat("#EXTINF:"@, signed_decimal(e.duration as int));
    lemma_one_line_concat(p1, seq![',']);
    lemma_one_line_concat(p1 + seq![','], e.artist@);
    lemma_one_line_concat(p1 + seq![','] + e.artist@, " - "@);
    lemma_one_line_concat(p1 + seq![','] + e.artist@ + " - "@, e.title@);
    assert(one_line(a));
    lemma_text_lines_append(a + seq!['\n'], e.path@ + seq!['\n']);
    lemma_text_lines_one(a);
    lemma_text_lines_one(e.path@);
    lemma_entries_concat(seq![strip_cr(a)], seq![strip_cr(e.path@)]);
    assert(seq![strip_cr(a)] + seq![strip_cr(e.path@)] =~= text_lines(entry_text(e)));
    assert(a[0] == '#');
    lemma_comment_line(a);
    lemma_path_line(e.path@);
    assert(Seq::<Seq<char>>::empty() + seq![e.path@] =~= seq![e.path@]);
}

/// The paths of a playlist's entries.
pub open spec fn entry_paths(es: Seq<M3uEntry>) -> Seq<Seq<char>> {
    es.map_values(|e: M3uEntry| e.path@)
}

/// Entries whose text can be written and read back unchanged.
pub open spec fn m3u_safe_entries(es: Seq<M3uEntry>) -> bool {
    forall|k: int|
        0 <= k < es.len() ==> one_line((#[trigger] es[k]).artist@) && one_line(es[k].title@) && m3u_safe_path(
            es[k].path@,
        )
}

/// The body of a written playlist reads back as its paths.
proof fn lemma_entries_text_lines(es: Seq<M3uEntry>)
    requires
        m3u_safe_entries(es),
    ensures
        entries_of(text_lines(entries_text(es))) == entry_paths(es),
        entries_text(es).len() == 0 || entries_text(es).last() == '\n',
    decreases es.len(),
{
    if es.len() == 0 {
        assert(entries_text(es) =~= Seq::<char>::empty());
        assert(entry_paths(es) =~= Seq::<Seq<char>>::empty());
    } else {
        let init = es.drop_last();
        let l = es.last();
        assert(m3u_safe_entries(init)) by {
            assert forall|k: int| 0 <= k < init.len() implies one_line((#[trigger] init[k]).artist@) && one_line(
                init[k].title@,
            ) && m3u_safe_path(init[k].path@) by {
                assert(init[k] == es[k]);
            }
        }
        lemma_entries_text_lines(init);
        assert(es[es.len() - 1] == l);
        lemma_entry_lines(l);
        lemma_text_lines_append(entries_text(init), entry_text(l));
        lemma_entries_concat(text_lines(entries_text(init)), text_lines(entry_text(l)));
        assert(entry_paths(es) =~= entry_paths(init) + seq![l.path@]);
        let et = entry_text(l);
        assert(et.last() == '\n');
        assert((entries_text(init) + et).last() == et.last());
    }
}

/// A playlist written by `m3u_document` reads back, through `m3u_entries`,
/// as the paths of its entries, in order — when every path is non-empty, on
/// one line, without whitespace at either end and not starting with `#`,
/// and artists and titles are on one line.
pub proof fn lemma_m3u_roundtrip(es: Seq<M3uEntry>)
    requires
        m3u_safe_entries(es),
    ensures
        entries_of(text_lines("#EXTM3U\n"@ + entries_text(es))) == entry_paths(es),
{
    reveal_strlit("#EXTM3U\n");
    let head = "#EXTM3U\n"@;
    let line = "#EXTM3U"@;
    reveal_strlit("#EXTM3U");
    assert(head =~= line + seq!['\n']);
    lemma_entries_text_lines(es);
    lemma_text_lines_append(head, entries_text(es));
    assert(one_line(line)) by {
        if line.contains('\n') {
            let k = choose|k: int| 0 <= k < 7 && line[k] == '\n';
        }
    }
    lemma_text_lines_one(line);
    lemma_comment_line(line);
    lemma_entries_concat(text_lines(head), text_lines(entries_text(es)));
    assert(Seq::<Seq<char>>::empty() + entry_paths(es) =~= entry_paths(es));
}

} // verus!
