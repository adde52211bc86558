//! Cover-art URLs for the OS media controls: which covers can be handed over
//! as they are, which local files need a `file://` URL, and which inline
//! images are written out to a temporary file first.

use vstd::prelude::*;

use crate::b64::{b64_encode, decode_standard};
use crate::text::{
    before_char, chars_of, find_char, index_of, last_index_of, push_char, push_str, starts_with,
    starts_with_chars, string_of_range, trim, trim_str,
};

verus! {

/// Where a cover URL points.
pub enum CoverSource {
    /// No usable cover: absent, blank, or a relative path.
    Missing,
    /// A URL the media controls take as it is (`http(s)://`, `data:`,
    /// `file://`), trimmed.
    Direct(String),
    /// An absolute local path, trimmed; it needs a `file://` URL once the
    /// file is known to exist.
    LocalPath(String),
}

/// The schemes handed over unchanged.
pub open spec fn is_direct_url(u: Seq<char>) -> bool {
    starts_with(u, "http://"@) || starts_with(u, "https://"@) || starts_with(u, "data:"@) || starts_with(
        u,
        "file://"@,
    )
}

/// An absolute path (Unix: it starts at the root).
pub open spec fn is_absolute_path(u: Seq<char>) -> bool {
    u.len() > 0 && u[0] == '/'
}

/// The view of an optional string.
pub open spec fn opt_view(s: Option<&str>) -> Option<Seq<char>> {
    match s {
        Some(x) => Some(x@),
        None => None,
    }
}

/// Classify a cover URL.
pub fn classify_cover_url(cover_url: Option<&str>) -> (r: CoverSource)
    ensures
        match opt_view(cover_url) {
            None => r is Missing,
            Some(u) => {
                let t = trim(u);
                if t.len() == 0 {
                    r is Missing
                } else if is_direct_url(t) {
                    r matches CoverSource::Direct(d) && d@ == t
                } else if is_absolute_path(t) {
                    r matches CoverSource::LocalPath(p) && p@ == t
                } else {
                    r is Missing
                }
            },
        },
{
    let url = match cover_url {
        Some(u) => u,
        None => {
            return CoverSource::Missing;
        },
    };
    let t = trim_str(url);
    let cs = chars_of(t.as_str());
    if cs.len() == 0 {
        return CoverSource::Missing;
    }
    let http = chars_of("http://");
    let https = chars_of("https://");
    let data = chars_of("data:");
    let file = chars_of("file://");
    proof {
        reveal_strlit("http://");
        reveal_strlit("https://");
        reveal_strlit("data:");
        reveal_strlit("file://");
    }
    if starts_with_chars(cs.as_slice(), http.as_slice()) || starts_with_chars(cs.as_slice(), https.as_slice())
        || starts_with_chars(cs.as_slice(), data.as_slice()) || starts_with_chars(
        cs.as_slice(),
        file.as_slice(),
    ) {
        return CoverSource::Direct(t);
    }
    if cs[0] == '/' {
        CoverSource::LocalPath(t)
    } else {
        CoverSource::Missing
    }
}

/// A path with exactly one leading `/`.
pub open spec fn single_root(p: Seq<char>) -> bool {
    p.len() > 0 && p[0] == '/' && !(p.len() > 1 && p[1] == '/')
}

// ── `file:` URL paths ─────────────────────────────────────────────────────

/// Whether the URL crate percent-encodes byte `b` in a path segment
/// (`SPECIAL_PATH_SEGMENT`): non-ASCII bytes, C0 controls and DEL, space,
/// `"` `<` `>` `` ` `` `#` `?` `{` `}` `/` `%` `\`.
pub open spec fn url_encodes_byte(b: u8) -> bool {
    b >= 0x80 || b < 0x20 || b == 0x7F || b == 0x20 || b == 0x22 || b == 0x3C || b == 0x3E || b == 0x60
        || b == 0x23 || b == 0x3F || b == 0x7B || b == 0x7D || b == 0x2F || b == 0x25 || b == 0x5C
}

/// Upper-case hexadecimal digit for `d < 16`.
pub open spec fn hex_upper(d: int) -> char {
    if d < 10 {
        (48 + d) as char
    } else {
        (55 + d) as char
    }
}

/// `%XX` for byte `b`, upper-case hex.
pub open spec fn percent_byte(b: int) -> Seq<char> {
    seq!['%', hex_upper(b / 16), hex_upper(b % 16)]
}

/// A character as the URL crate writes it in a path segment: itself when
/// it is an ASCII character the crate leaves alone, else each byte of its
/// UTF-8 form percent-encoded.
pub open spec fn url_char_text(c: char) -> Seq<char> {
    let v = c as u32 as int;
    if v < 0x80 {
        if url_encodes_byte(v as u8) {
            percent_byte(v)
        } else {
            seq![c]
        }
    } else if v < 0x800 {
        percent_byte(0xC0 + v / 64) + percent_byte(0x80 + v % 64)
    } else if v < 0x10000 {
        percent_byte(0xE0 + v / 4096) + percent_byte(0x80 + (v / 64) % 64) + percent_byte(0x80 + v % 64)
    } else {
        percent_byte(0xF0 + v / 262144) + percent_byte(0x80 + (v / 4096) % 64) + percent_byte(0x80 + (v / 64) % 64)
            + percent_byte(0x80 + v % 64)
    }
}

/// A path segment as the URL crate writes it.
pub open spec fn url_segment_text(s: Seq<char>) -> Seq<char>
    decreases s.len(),
{
    if s.len() == 0 {
        Seq::empty()
    } else {
        url_segment_text(s.drop_last()) + url_char_text(s.last())
    }
}

/// One component of a path in a `file:` URL: `/` and the encoded segment;
/// nothing for an empty or `.` component, which `Path::components` skips.
pub open spec fn url_component(c: Seq<char>) -> Seq<char> {
    if c.len() == 0 || c == seq!['.'] {
        Seq::empty()
    } else {
        seq!['/'] + url_segment_text(c)
    }
}

/// The components of `s` (split at each `/`) as they appear in a `file:`
/// URL, in order.
pub open spec fn url_components(s: Seq<char>) -> Seq<char>
    decreases s.len(),
{
    proof {
        crate::text::lemma_last_index_of_bound(s, '/');
    }
    match last_index_of(s, '/') {
        None => url_component(s),
        Some(i) => url_components(s.take(i as int)) + url_component(s.skip(i as int + 1)),
    }
}

/// The path of the `file:` URL the URL crate builds for an absolute Unix
/// path `p`: each component after the root as `/` and its encoded text, or
/// `/` alone when there is none.
pub open spec fn url_path_of(p: Seq<char>) -> Seq<char> {
    let b = url_components(p.skip(1));
    if b.len() == 0 {
        seq!['/']
    } else {
        b
    }
}

/// `url::Url::from_file_path` on `path`, as text. The crate refuses paths it
/// does not take as absolute on the platform (`None`). Every URL it builds
/// starts with `file://`. A path with one leading `/` is absolute only on
/// Unix-like platforms (elsewhere the crate refuses it); there the URL is
/// `file://` followed by each component after the root, `/` and its
/// percent-encoded UTF-8 (`url_path_of`), or `/` for the root alone. How
/// other paths are written is not stated.
#[verifier::external_body]
fn url_from_file_path(path: &str) -> (r: Option<String>)
    ensures
        r matches Some(u) ==> "file://"@.is_prefix_of(u@),
        single_root(path@) ==> (r matches Some(u) ==> u@ == "file://"@ + url_path_of(path@)),
{
    match url::Url::from_file_path(path) {
        Ok(u) => Some(u.into()),
        Err(()) => None,
    }
}

/// Upper-case hex digit (exec).
fn hex_upper_of(d: u32) -> (r: char)
    requires
        d < 16,
    ensures
        r == hex_upper(d as int),
{
    if d < 10 {
        let b: u8 = (48 + d) as u8;
        b as char
    } else {
        let b: u8 = (55 + d) as u8;
        b as char
    }
}

/// Append `%XX` for byte `b`.
fn push_percent(out: &mut String, b: u32)
    requires
        b < 256,
    ensures
        final(out)@ == old(out)@ + percent_byte(b as int),
{
    push_char(out, '%');
    push_char(out, hex_upper_of(b / 16));
    push_char(out, hex_upper_of(b % 16));
    assert(final(out)@ =~= old(out)@ + percent_byte(b as int));
}

/// Append the URL text of one character.
fn push_url_char(out: &mut String, c: char)
    ensures
        final(out)@ == old(out)@ + url_char_text(c),
{
    let v = c as u32;
    if v < 0x80 {
        let b = v as u8;
        if b >= 0x80 || b < 0x20 || b == 0x7F || b == 0x20 || b == 0x22 || b == 0x3C || b == 0x3E || b == 0x60
            || b == 0x23 || b == 0x3F || b == 0x7B || b == 0x7D || b == 0x2F || b == 0x25 || b == 0x5C {
            push_percent(out, v);
        } else {
            push_char(out, c);
        }
    } else if v < 0x800 {
        push_percent(out, 0xC0 + v / 64);
        push_percent(out, 0x80 + v % 64);
    } else if v < 0x10000 {
        push_percent(out, 0xE0 + v / 4096);
        push_percent(out, 0x80 + (v / 64) % 64);
        push_percent(out, 0x80 + v % 64);
    } else {
        push_percent(out, 0xF0 + v / 262144);
        push_percent(out, 0x80 + (v / 4096) % 64);
        push_percent(out, 0x80 + (v / 64) % 64);
        push_percent(out, 0x80 + v % 64);
    }
    assert(final(out)@ =~= old(out)@ + url_char_text(c));
}

/// Append the URL text of the component `cs[a..b]`.
fn push_url_component(out: &mut String, cs: &[char], a: usize, b: usize)
    requires
        a <= b <= cs@.len(),
    ensures
        final(out)@ == old(out)@ + url_component(cs@.subrange(a as int, b as int)),
{
    let ghost comp = cs@.subrange(a as int, b as int);
    if a == b || (b == a + 1 && cs[a] == '.') {
        assert(url_component(comp) == Seq::<char>::empty()) by {
            if b == a + 1 {
                assert(comp =~= seq!['.']);
            }
        }
        assert(final(out)@ =~= old(out)@ + url_component(comp));
        return;
    }
    assert(comp != seq!['.']) by {
        assert(comp.len() == b - a);
        if b == a + 1 {
            assert(comp[0] == cs@[a as int]);
        }
    }
    push_char(out, '/');
    let ghost start = out@;
    let mut k = a;
    while k < b
        invariant
            a <= k <= b <= cs@.len(),
            out@ == start + url_segment_text(cs@.subrange(a as int, k as int)),
        decreases b - k,
    {
        assert(cs@.subrange(a as int, k + 1).drop_last() =~= cs@.subrange(a as int, k as int));
        assert(cs@.subrange(a as int, k + 1).last() == cs@[k as int]);
        push_url_char(out, cs[k]);
        k += 1;
        assert(out@ =~= start + url_segment_text(cs@.subrange(a as int, k as int)));
    }
    assert(final(out)@ =~= old(out)@ + url_component(comp));
}

/// `url_components` of a prefix ending in a `/` and a component.
proof fn lemma_url_components_step(s: Seq<char>, j: int, e: int)
    requires
        0 < j <= e <= s.len(),
        s[j - 1] == '/',
        forall|k: int| j <= k < e ==> s[k] != '/',
    ensures
        url_components(s.take(e)) == url_components(s.take(j - 1)) + url_component(s.subrange(j, e)),
{
    let t = s.take(e);
    assert forall|k: int| j - 1 < k < t.len() implies #[trigger] t[k] != '/' by {
        assert(t[k] == s[k]);
    }
    crate::text::lemma_last_index_of(t, '/', j - 1);
    assert(t.take(j - 1) =~= s.take(j - 1));
    assert(t.skip(j) =~= s.subrange(j, e));
}

/// `url_components` of a first component.
proof fn lemma_url_components_first(s: Seq<char>, e: int)
    requires
        0 <= e <= s.len(),
        forall|k: int| 0 <= k < e ==> s[k] != '/',
    ensures
        url_components(s.take(e)) == url_component(s.subrange(0, e)),
{
    let t = s.take(e);
    assert forall|k: int| 0 <= k < t.len() implies #[trigger] t[k] != '/' by {
        assert(t[k] == s[k]);
    }
    crate::text::lemma_last_index_of_none(t, '/');
    assert(t =~= s.subrange(0, e));
}

/// The `file:` URL path of an absolute Unix path (see `url_path_of`).
pub fn url_path_string(path: &str) -> (r: String)
    requires
        path@.len() > 0,
    ensures
        r@ == url_path_of(path@),
{
    let cs = chars_of(path);
    let n = cs.len();
    let ghost s = cs@.skip(1);
    let mut out = String::new();
    let mut j: usize = 1;
    loop
        invariant_except_break
            j == 1 ==> out@.len() == 0,
            j >= 2 ==> cs@[j - 1] == '/' && out@ == url_components(s.take(j - 2)),
        invariant
            1 <= j <= n,
            n == cs@.len(),
            cs@ == path@,
            s == cs@.skip(1),
        ensures
            out@ == url_components(s),
        decreases n - j,
    {
        let mut e = j;
        while e < n && cs[e] != '/'
            invariant
                j <= e <= n,
                n == cs@.len(),
                forall|k: int| j <= k < e ==> cs@[k] != '/',
            decreases n - e,
        {
            e += 1;
        }
        let ghost before = out@;
        push_url_component(&mut out, cs.as_slice(), j, e);
        proof {
            assert(cs@.subrange(j as int, e as int) =~= s.subrange(j - 1, e - 1));
            assert forall|k: int| j - 1 <= k < e - 1 implies s[k] != '/' by {
                assert(s[k] == cs@[k + 1]);
            }
            if j == 1 {
                lemma_url_components_first(s, e - 1);
                assert(before =~= Seq::<char>::empty());
                assert(s.subrange(0, e - 1) =~= s.subrange(j - 1, e - 1));
            } else {
                assert(s[j - 2] == cs@[j - 1]);
                lemma_url_components_step(s, j - 1, e - 1);
            }
        }
        if e == n {
            assert(s.take(n - 1) =~= s);
            break;
        }
        j = e + 1;
    }
    if out.unicode_len() == 0 {
        let mut root = String::new();
        push_char(&mut root, '/');
        root
    } else {
        out
    }
}

/// The view of an optional owned string.
pub open spec fn opt_string_view(s: Option<String>) -> Option<Seq<char>> {
    match s {
        Some(x) => Some(x@),
        None => None,
    }
}

/// The `file://` URL for `path` given the URL crate's answer: that URL; for
/// a path it refuses, `file://` and `url_path_of` the path when it has one
/// leading `/` (the URL the crate builds for it where such paths are
/// absolute), else `file://` followed by the path.
pub open spec fn file_url_text(crate_url: Option<Seq<char>>, path: Seq<char>) -> Seq<char> {
    match crate_url {
        Some(u) => u,
        None => if single_root(path) {
            "file://"@ + url_path_of(path)
        } else {
            "file://"@ + path
        },
    }
}

/// Build the `file://` URL for `path` from the URL crate's answer.
pub fn file_url_from(crate_url: Option<String>, path: &str) -> (r: String)
    ensures
        r@ == file_url_text(opt_string_view(crate_url), path@),
{
    match crate_url {
        Some(u) => u,
        None => {
            let mut out = String::from_str("file://");
            let n = path.unicode_len();
            if n > 0 && path.get_char(0) == '/' && !(n > 1 && path.get_char(1) == '/') {
                push_str(&mut out, url_path_string(path).as_str());
            } else {
                push_str(&mut out, path);
            }
            out
        },
    }
}

/// What the `file://` URL of `path` is: it starts with `file://`, and for a
/// path with one leading `/` it is exactly `file://` followed by
/// `url_path_of` the path.
pub open spec fn file_url_ok(r: Seq<char>, path: Seq<char>) -> bool {
    &&& "file://"@.is_prefix_of(r)
    &&& single_root(path) ==> r == "file://"@ + url_path_of(path)
}

/// A `file://` URL for an existing local file: the URL crate's, or, for a
/// path it refuses, the one of `file_url_text`.
pub fn file_url_for(path: &str) -> (r: String)
    ensures
        file_url_ok(r@, path@),
{
    let crate_url = url_from_file_path(path);
    let r = file_url_from(crate_url, path);
    proof {
        reveal_strlit("file://");
        if crate_url is None {
            let tail = if single_root(path@) {
                url_path_of(path@)
            } else {
                path@
            };
            assert(("file://"@ + tail).take(7) =~= "file://"@);
        }
    }
    r
}

/// Where a cover URL leads, given the canonical local file an absolute path
/// names (`None`: no such file) and the URL crate's answer for that file.
pub open spec fn cover_url_outcome(
    cover_url: Option<Seq<char>>,
    local_file: Option<Seq<char>>,
    crate_url: Option<Seq<char>>,
) -> Option<Seq<char>> {
    match cover_url {
        None => None,
        Some(u) => {
            let t = trim(u);
            if t.len() == 0 {
                None
            } else if is_direct_url(t) {
                Some(t)
            } else if is_absolute_path(t) {
                match local_file {
                    Some(f) => Some(file_url_text(crate_url, f)),
                    None => None,
                }
            } else {
                None
            }
        },
    }
}

/// Resolve a cover URL for the media controls from the URL crate's answer
/// for the local file (see `cover_url_outcome`).
pub fn resolve_cover_url(cover_url: Option<&str>, local_file: Option<&str>, crate_url: Option<String>) -> (r:
    Option<String>)
    ensures
        opt_string_view(r) == cover_url_outcome(opt_view(cover_url), opt_view(local_file), opt_string_view(crate_url)),
{
    match classify_cover_url(cover_url) {
        CoverSource::Missing => None,
        CoverSource::Direct(u) => Some(u),
        CoverSource::LocalPath(_) => match local_file {
            Some(f) => Some(file_url_from(crate_url, f)),
            None => None,
        },
    }
}

/// What the media controls get for `cover_url`: direct URLs trimmed, the
/// `file://` URL of the canonical local file for an absolute path that
/// names one (`local_file`), and nothing otherwise.
pub open spec fn resolved_url_ok(r: Option<String>, cover_url: Option<&str>, local_file: Option<&str>) -> bool {
    match opt_view(cover_url) {
        None => r is None,
        Some(u) => {
            let t = trim(u);
            if t.len() == 0 {
                r is None
            } else if is_direct_url(t) {
                r matches Some(d) && d@ == t
            } else if is_absolute_path(t) {
                match local_file {
                    Some(f) => r matches Some(v) && file_url_ok(v@, f@),
                    None => r is None,
                }
            } else {
                r is None
            }
        },
    }
}

/// Two resolutions of the same cover URL and local file agree — so
/// `Cache::resolve_url` and `Cache::resolve_artwork_url` give the same
/// URL — whenever the local file, if any, has one leading `/` (as a
/// canonical Unix path does). For other local files only the `file://`
/// prefix is known.
pub proof fn lemma_resolutions_agree(
    a: Option<String>,
    b: Option<String>,
    cover_url: Option<&str>,
    local_file: Option<&str>,
)
    requires
        resolved_url_ok(a, cover_url, local_file),
        resolved_url_ok(b, cover_url, local_file),
        local_file matches Some(f) ==> single_root(f@),
    ensures
        opt_string_view(a) == opt_string_view(b),
{
}

/// Resolve a cover URL, asking the URL crate for the local file's URL.
fn resolve_with_crate(cover_url: Option<&str>, local_file: Option<&str>) -> (r: Option<String>)
    ensures
        resolved_url_ok(r, cover_url, local_file),
{
    let local = match classify_cover_url(cover_url) {
        CoverSource::LocalPath(_) => local_file,
        _ => None,
    };
    match local {
        Some(f) => Some(file_url_for(f)),
        None => resolve_cover_url(cover_url, local_file, None),
    }
}

/// Cover art handed to the OS media controls, with the temporary file (if
/// any) written for the current cover.
pub struct Cache {
    pub temp_file: Option<String>,
}

impl Cache {
    /// A cache holding no temporary file.
    pub fn new() -> (r: Self)
        ensures
            r.temp_file is None,
    {
        Cache { temp_file: None }
    }

    /// The URL the media controls get for `cover_url` (see
    /// `resolved_url_ok`): direct URLs as they are; for an absolute path,
    /// the `file://` URL of `local_file`, the path's canonical form when it
    /// names an existing file (`None` when it does not); nothing otherwise.
    pub fn resolve_url(&mut self, cover_url: Option<&str>, local_file: Option<&str>) -> (r: Option<String>)
        ensures
            final(self).temp_file == old(self).temp_file,
            resolved_url_ok(r, cover_url, local_file),
    {
        resolve_with_crate(cover_url, local_file)
    }

    /// Android's artwork URL: the same resolution as [`Cache::resolve_url`]
    /// (both go through `resolve_with_crate`), so embedded art stays a
    /// `data:` URL the native plugin can decode.
    pub fn resolve_artwork_url(&mut self, cover_url: Option<&str>, local_file: Option<&str>) -> (r: Option<
        String,
    >)
        ensures
            final(self).temp_file == old(self).temp_file,
            resolved_url_ok(r, cover_url, local_file),
    {
        resolve_with_crate(cover_url, local_file)
    }

    /// Remember `path` as the current temporary cover file and hand back the
    /// previous one, which the caller deletes.
    pub fn replace_temp_file(&mut self, path: String) -> (r: Option<String>)
        ensures
            r == old(self).temp_file,
            final(self).temp_file == Some(path),
    {
        let previous = self.temp_file.take();
        self.temp_file = Some(path);
        previous
    }
}

/// The file extension for an inline cover image's MIME type.
pub open spec fn image_extension(mime: Seq<char>) -> Option<Seq<char>> {
    if mime == "image/jpeg"@ || mime == "image/jpg"@ {
        Some("jpg"@)
    } else if mime == "image/png"@ {
        Some("png"@)
    } else if mime == "image/gif"@ {
        Some("gif"@)
    } else if mime == "image/webp"@ {
        Some("webp"@)
    } else if mime == "image/bmp"@ {
        Some("bmp"@)
    } else {
        None
    }
}

/// The MIME type of a `data:` URL: its header after `data:`, up to the
/// first `;`.
pub open spec fn inline_mime(url: Seq<char>) -> Seq<char> {
    match index_of(url, ',') {
        Some(i) => before_char(url.take(i as int).skip(5), ';'),
        None => Seq::empty(),
    }
}

/// Extension for a known MIME type (exec).
fn extension_for(mime: &[char]) -> (r: Option<String>)
    ensures
        match image_extension(mime@) {
            Some(e) => r matches Some(s) && s@ == e,
            None => r is None,
        },
{
    let jpeg = chars_of("image/jpeg");
    let jpg = chars_of("image/jpg");
    let png = chars_of("image/png");
    let gif = chars_of("image/gif");
    let webp = chars_of("image/webp");
    let bmp = chars_of("image/bmp");
    proof {
        reveal_strlit("image/jpeg");
        reveal_strlit("image/jpg");
        reveal_strlit("image/png");
        reveal_strlit("image/gif");
        reveal_strlit("image/webp");
        reveal_strlit("image/bmp");
    }
    if crate::text::chars_eq(mime, jpeg.as_slice()) || crate::text::chars_eq(mime, jpg.as_slice()) {
        Some(String::from_str("jpg"))
    } else if crate::text::chars_eq(mime, png.as_slice()) {
        Some(String::from_str("png"))
    } else if crate::text::chars_eq(mime, gif.as_slice()) {
        Some(String::from_str("gif"))
    } else if crate::text::chars_eq(mime, webp.as_slice()) {
        Some(String::from_str("webp"))
    } else if crate::text::chars_eq(mime, bmp.as_slice()) {
        Some(String::from_str("bmp"))
    } else {
        None
    }
}

/// An inline (`data:`) cover image to write out: its file extension and
/// bytes. `None` unless `url` is a `data:` URL with a `,`, an image MIME
/// type the media controls take, and a base64 payload that decodes.
pub fn inline_cover_image(url: &str) -> (r: Option<(String, Vec<u8>)>)
    ensures
        r matches Some((ext, bytes)) ==> {
            &&& starts_with(url@, "data:"@)
            &&& index_of(url@, ',') matches Some(i)
            &&& image_extension(inline_mime(url@)) == Some(ext@)
            &&& b64_encode(bytes@) == url@.skip(i as int + 1)
        },
        r is None ==> {
            ||| !starts_with(url@, "data:"@)
            ||| index_of(url@, ',') is None
            ||| image_extension(inline_mime(url@)) is None
            ||| (index_of(url@, ',') matches Some(i) && forall|b: Seq<u8>| b64_encode(b) != url@.skip(i as int + 1))
        },
{
    let cs = chars_of(url);
    let data = chars_of("data:");
    proof {
        reveal_strlit("data:");
    }
    if !starts_with_chars(cs.as_slice(), data.as_slice()) {
        return None;
    }
    let comma = match find_char(cs.as_slice(), ',') {
        Some(i) => i,
        None => {
            return None;
        },
    };
    assert(comma >= 5) by {
        assert(cs@.take(5) == "data:"@);
        if comma < 5 {
            assert(cs@[comma as int] == cs@.take(5)[comma as int]);
        }
    }
    let header = vstd::slice::slice_subrange(cs.as_slice(), 5, comma);
    assert(header@ == url@.take(comma as int).skip(5));
    let mime = match find_char(header, ';') {
        Some(j) => vstd::slice::slice_subrange(header, 0, j),
        None => header,
    };
    assert(mime@ == inline_mime(url@));
    let ext = match extension_for(mime) {
        Some(e) => e,
        None => {
            return None;
        },
    };
    let payload = string_of_range(cs.as_slice(), comma + 1, cs.len());
    assert(payload@ == url@.skip(comma + 1));
    match decode_standard(payload.as_str()) {
        Ok(bytes) => Some((ext, bytes)),
        Err(_) => None,
    }
}

} // verus!
