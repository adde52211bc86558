//! Decisions behind the Android bridges: the media-action queue, the crash
//! report hand-off, the sources and URIs they accept, and naming imported
//! files.

use vstd::prelude::*;

use crate::b64::{b64_encode, decode_standard};
use crate::text::{
    last_index_of, all_space, chars_of, is_blank, lemma_trim_empty_iff, push_str, starts_with, starts_with_chars,
    string_of_range, to_lowercase, trim, trim_str, unicode_lower,
};

verus! {

// ── Media-action queue ────────────────────────────────────────────────────

/// How close together (in milliseconds) two identical transport presses are
/// merged into one.
pub const COALESCE_WINDOW_MS: u64 = 50;

/// Media actions waiting for the worker, each with the time it was queued
/// (milliseconds on a monotonic clock).
pub struct PendingQueue {
    pub actions: Vec<(String, u64)>,
}

/// The queue as values.
pub open spec fn queue_view(q: PendingQueue) -> Seq<(Seq<char>, u64)> {
    q.actions@.map_values(|e: (String, u64)| (e.0@, e.1))
}

/// Transport presses that are safe to merge (toggles are not).
pub open spec fn is_transport(a: Seq<char>) -> bool {
    a == "play"@ || a == "pause"@ || a == "stop"@
}

/// Time from `at` to `now`, zero when `now` is earlier (as
/// `Instant::duration_since` saturates).
pub open spec fn elapsed(at: u64, now: u64) -> int {
    if now >= at {
        now - at
    } else {
        0
    }
}

/// Whether queuing `a` at `now` repeats the last queued press.
pub open spec fn repeats_last(q: Seq<(Seq<char>, u64)>, a: Seq<char>, now: u64) -> bool {
    &&& q.len() > 0
    &&& q.last().0 == a
    &&& elapsed(q.last().1, now) < COALESCE_WINDOW_MS
    &&& is_transport(a)
}

/// The queue after a press of `action` at `now`: the trimmed action is
/// appended unless it is blank or repeats the last transport press within
/// the window.
pub open spec fn after_push(q: Seq<(Seq<char>, u64)>, action: Seq<char>, now: u64) -> Seq<(Seq<char>, u64)> {
    let a = trim(action);
    if a.len() == 0 {
        q
    } else if repeats_last(q, a, now) {
        q
    } else {
        q.push((a, now))
    }
}

impl PendingQueue {
    /// An empty queue.
    pub fn new() -> (r: Self)
        ensures
            queue_view(r).len() == 0,
    {
        PendingQueue { actions: Vec::new() }
    }

    /// Take the oldest queued action.
    pub fn pop_action(&mut self) -> (r: Option<String>)
        ensures
            queue_view(*old(self)).len() == 0 ==> r is None && queue_view(*final(self)).len() == 0,
            queue_view(*old(self)).len() > 0 ==> (r matches Some(a) && a@ == queue_view(*old(self))[0].0)
                && queue_view(*final(self)) == queue_view(*old(self)).drop_first(),
    {
        if self.actions.len() == 0 {
            return None;
        }
        let (a, _) = self.actions.remove(0);
        proof {
            assert(queue_view(*self) =~= queue_view(*old(self)).drop_first());
        }
        Some(a)
    }

    /// Take every queued action, oldest first.
    pub fn drain_actions(&mut self) -> (r: Vec<String>)
        ensures
            r@.map_values(|s: String| s@) == queue_view(*old(self)).map_values(|e: (Seq<char>, u64)| e.0),
            queue_view(*final(self)).len() == 0,
    {
        let mut taken: Vec<(String, u64)> = Vec::new();
        std::mem::swap(&mut taken, &mut self.actions);
        let ghost all = taken@;
        let mut out: Vec<String> = Vec::new();
        for e in it: taken
            invariant
                it.seq() == all,
                out@.len() == it.index(),
                forall|j: int| 0 <= j < out@.len() ==> #[trigger] out@[j]@ == all[j].0@,
        {
            out.push(e.0);
        }
        assert(out@.map_values(|s: String| s@) =~= queue_view(*old(self)).map_values(
            |e: (Seq<char>, u64)| e.0,
        ));
        out
    }
}

/// Queue a media action pressed at `now_ms` and report whether it was
/// queued. Identical transport presses (`play`, `pause`, `stop`) within
/// `COALESCE_WINDOW_MS` of the last queued one are merged; blank actions are
/// ignored.
pub fn push_action(queue: &mut PendingQueue, action: &str, now_ms: u64) -> (r: bool)
    ensures
        queue_view(*final(queue)) == after_push(queue_view(*old(queue)), action@, now_ms),
        r == (queue_view(*final(queue)) != queue_view(*old(queue))),
{
    let a = trim_str(action);
    let ghost before = queue_view(*queue);
    let n = queue.actions.len();
    let mut repeat = false;
    if n > 0 {
        let last_at = queue.actions[n - 1].1;
        let since = if now_ms >= last_at { now_ms - last_at } else { 0 };
        let play = String::from_str("play");
        let pause = String::from_str("pause");
        let stop = String::from_str("stop");
        proof {
            reveal_strlit("play");
            reveal_strlit("pause");
            reveal_strlit("stop");
        }
        let transport = a == play || a == pause || a == stop;
        assert(before.last() == (queue.actions@[n - 1].0@, queue.actions@[n - 1].1));
        repeat = queue.actions[n - 1].0 == a && since < COALESCE_WINDOW_MS && transport;
    }
    assert(repeat == repeats_last(before, trim(action@), now_ms));
    if a.unicode_len() == 0 || repeat {
        false
    } else {
        queue.actions.push((a, now_ms));
        proof {
            assert(queue_view(*queue) =~= before.push((trim(action@), now_ms)));
            assert(queue_view(*queue).len() == before.len() + 1);
        }
        true
    }
}

/// A transport press repeated within the window after it was queued is
/// merged into the queued one.
pub proof fn lemma_repeated_press_merges(q: Seq<(Seq<char>, u64)>, action: Seq<char>, t1: u64, t2: u64)
    requires
        after_push(q, action, t1) != q,
        is_transport(trim(action)),
        t1 <= t2,
        t2 - t1 < COALESCE_WINDOW_MS,
    ensures
        after_push(after_push(q, action, t1), action, t2) == after_push(q, action, t1),
{
    let q1 = after_push(q, action, t1);
    assert(q1 == q.push((trim(action), t1)));
    assert(q1.last() == (trim(action), t1));
}

// ── Crash report hand-off ─────────────────────────────────────────────────

/// The crash report to show, from what the reporter handed over: nothing
/// when there is none or it is blank; otherwise the report as written.
pub fn take_last(reported: Option<String>) -> (r: Option<String>)
    ensures
        r == match reported {
            Some(t) => if all_space(t@) {
                None
            } else {
                Some(t)
            },
            None => None,
        },
{
    match reported {
        Some(text) => {
            let blank = is_blank(text.as_str());
            proof {
                lemma_trim_empty_iff(text@);
            }
            if blank {
                None
            } else {
                Some(text)
            }
        },
        None => None,
    }
}

// ── Imported file names ───────────────────────────────────────────────────

/// Whether `c` ends a path segment for naming purposes (`/`, `\\`, `?`).
pub open spec fn is_segment_break(c: char) -> bool {
    c == '/' || c == '\\' || c == '?'
}

/// Index of the last segment break of `s`, if any.
pub open spec fn last_break(s: Seq<char>) -> Option<nat>
    decreases s.len(),
{
    if s.len() == 0 {
        None
    } else if is_segment_break(s.last()) {
        Some((s.len() - 1) as nat)
    } else {
        last_break(s.drop_last())
    }
}

/// The last segment of a path or URI.
pub open spec fn last_segment(path: Seq<char>) -> Seq<char> {
    match last_break(path) {
        Some(i) => path.skip(i as int + 1),
        None => path,
    }
}

/// The text after the last `.` of a segment, or nothing without a `.`.
pub open spec fn raw_extension(seg: Seq<char>) -> Seq<char> {
    match last_index_of(seg, '.') {
        Some(i) => seg.skip(i as int + 1),
        None => Seq::empty(),
    }
}

/// ASCII letter or digit.
pub open spec fn is_ascii_alnum(c: char) -> bool {
    ('0' <= c && c <= '9') || ('a' <= c && c <= 'z') || ('A' <= c && c <= 'Z')
}

/// Whether a lower-cased candidate looks like a real file extension: one to
/// eight ASCII letters or digits, not `bin`, not all digits.
pub open spec fn plausible_extension(e: Seq<char>) -> bool {
    &&& 0 < e.len() <= 8
    &&& forall|i: int| 0 <= i < e.len() ==> #[trigger] is_ascii_alnum(e[i])
    &&& e != "bin"@
    &&& !(forall|i: int| 0 <= i < e.len() ==> '0' <= #[trigger] e[i] && e[i] <= '9')
}

/// The extension chosen for an imported file named by `path`.
pub open spec fn guessed_extension(path: Seq<char>) -> Seq<char> {
    let e = unicode_lower(raw_extension(last_segment(path)));
    if plausible_extension(e) {
        e
    } else {
        "bin"@
    }
}

/// Position just after the last segment break in `cs`, or 0.
fn segment_start(cs: &[char]) -> (r: usize)
    ensures
        r == match last_break(cs@) {
            Some(i) => i + 1,
            None => 0,
        },
        r <= cs@.len(),
{
    let mut i: usize = cs.len();
    assert(cs@.take(cs@.len() as int) =~= cs@);
    while i > 0
        invariant
            i <= cs@.len(),
            last_break(cs@) == last_break(cs@.take(i as int)),
        decreases i,
    {
        let c = cs[i - 1];
        assert(cs@.take(i as int).last() == c);
        assert(cs@.take(i as int).drop_last() == cs@.take(i - 1));
        if c == '/' || c == '\\' || c == '?' {
            return i;
        }
        i -= 1;
    }
    assert(cs@.take(0) =~= Seq::<char>::empty());
    0
}

/// Index of the last `.` in `cs`, if any.
fn last_dot(cs: &[char]) -> (r: Option<usize>)
    ensures
        match last_index_of(cs@, '.') {
            Some(i) => i < cs@.len() && r == Some(i as usize),
            None => r is None,
        },
{
    let mut i: usize = cs.len();
    assert(cs@.take(cs@.len() as int) =~= cs@);
    while i > 0
        invariant
            i <= cs@.len(),
            last_index_of(cs@, '.') == last_index_of(cs@.take(i as int), '.'),
        decreases i,
    {
        assert(cs@.take(i as int).last() == cs@[i - 1]);
        assert(cs@.take(i as int).drop_last() == cs@.take(i - 1));
        if cs[i - 1] == '.' {
            return Some(i - 1);
        }
        i -= 1;
    }
    assert(cs@.take(0) =~= Seq::<char>::empty());
    None
}

/// Guess a file extension for an imported file from its path or URI; `bin`
/// when the name carries no plausible one (content URIs often end in
/// `…/audio%3A1234`).
pub fn guess_extension(path: &str) -> (r: String)
    ensures
        r@ == guessed_extension(path@),
{
    let cs = chars_of(path);
    let start = segment_start(cs.as_slice());
    let seg = vstd::slice::slice_subrange(cs.as_slice(), start, cs.len());
    assert(seg@ == last_segment(path@));
    let raw = match last_dot(seg) {
        Some(d) => {
            let t = string_of_range(seg, d + 1, seg.len());
            assert(seg@.subrange(d + 1, seg@.len() as int) =~= seg@.skip(d + 1));
            t
        },
        None => String::new(),
    };
    assert(raw@ == raw_extension(seg@));
    let lowered = to_lowercase(raw.as_str());
    let e = chars_of(lowered.as_str());
    let n = e.len();
    let mut alnum = true;
    let mut digits = true;
    let mut i: usize = 0;
    while i < n
        invariant
            n == e@.len(),
            i <= n,
            alnum == forall|j: int| 0 <= j < i ==> #[trigger] is_ascii_alnum(e@[j]),
            digits == forall|j: int| 0 <= j < i ==> '0' <= #[trigger] e@[j] && e@[j] <= '9',
        decreases n - i,
    {
        let c = e[i];
        let is_digit = '0' <= c && c <= '9';
        let is_alnum = is_digit || ('a' <= c && c <= 'z') || ('A' <= c && c <= 'Z');
        assert(is_alnum == is_ascii_alnum(e@[i as int]));
        alnum = alnum && is_alnum;
        digits = digits && is_digit;
        i += 1;
    }
    let bin = chars_of("bin");
    proof {
        reveal_strlit("bin");
    }
    let is_bin = crate::text::chars_eq(e.as_slice(), bin.as_slice());
    if n > 0 && n <= 8 && alnum && !is_bin && !digits {
        lowered
    } else {
        String::from_str("bin")
    }
}

/// The container a file's first bytes announce, as a file extension; `bin`
/// when unreadable (`None`) or unrecognised.
pub open spec fn sniffed_extension(bytes: Option<Seq<u8>>) -> Seq<char> {
    match bytes {
        None => "bin"@,
        Some(b) => if (b.len() >= 3 && b.take(3) == seq![0x49u8, 0x44u8, 0x33u8]) || (b.len() > 0
            && b[0] == 0xFFu8) {
            "mp3"@
        } else if b.len() >= 4 && b.take(4) == seq![0x66u8, 0x4Cu8, 0x61u8, 0x43u8] {
            "flac"@
        } else if b.len() >= 4 && b.take(4) == seq![0x4Fu8, 0x67u8, 0x67u8, 0x53u8] {
            "ogg"@
        } else if b.len() >= 12 && b.take(4) == seq![0x52u8, 0x49u8, 0x46u8, 0x46u8] && b.subrange(8, 12)
            == seq![0x57u8, 0x41u8, 0x56u8, 0x45u8] {
            "wav"@
        } else if b.len() >= 8 && b.subrange(4, 8) == seq![0x66u8, 0x74u8, 0x79u8, 0x70u8] {
            "m4a"@
        } else if b.len() >= 4 && b.take(4) == seq![0x1Au8, 0x45u8, 0xDFu8, 0xA3u8] {
            "mka"@
        } else {
            "bin"@
        },
    }
}

/// Whether `b[at..at + 4]` is `tag`.
fn tag_at(b: &[u8], at: usize, tag: [u8; 4]) -> (r: bool)
    requires
        at + 4 <= b@.len(),
    ensures
        r == (b@.subrange(at as int, at + 4) == seq![tag[0], tag[1], tag[2], tag[3]]),
{
    let r = b[at] == tag[0] && b[at + 1] == tag[1] && b[at + 2] == tag[2] && b[at + 3] == tag[3];
    proof {
        if r {
            assert(b@.subrange(at as int, at + 4) =~= seq![tag[0], tag[1], tag[2], tag[3]]);
        } else {
            let s = b@.subrange(at as int, at + 4);
            assert(s[0] == b@[at as int] && s[1] == b@[at + 1] && s[2] == b@[at + 2] && s[3] == b@[at + 3]);
        }
    }
    r
}

/// Identify an imported file's container from its bytes (`None` when it
/// could not be read).
pub fn sniff_extension(bytes: Option<&[u8]>) -> (r: String)
    ensures
        r@ == sniffed_extension(
            match bytes {
                Some(b) => Some(b@),
                None => None,
            },
        ),
{
    let b = match bytes {
        Some(b) => b,
        None => {
            return String::from_str("bin");
        },
    };
    let n = b.len();
    let id3 = n >= 3 && b[0] == 0x49 && b[1] == 0x44 && b[2] == 0x33;
    proof {
        if n >= 3 {
            if id3 {
                assert(b@.take(3) =~= seq![0x49u8, 0x44u8, 0x33u8]);
            } else {
                let t = b@.take(3);
                assert(t[0] == b@[0] && t[1] == b@[1] && t[2] == b@[2]);
            }
        }
    }
    if id3 || (n > 0 && b[0] == 0xFF) {
        return String::from_str("mp3");
    }
    if n >= 4 {
        assert(b@.take(4) == b@.subrange(0, 4));
    }
    if n >= 4 && tag_at(b, 0, [0x66, 0x4C, 0x61, 0x43]) {
        return String::from_str("flac");
    }
    if n >= 4 && tag_at(b, 0, [0x4F, 0x67, 0x67, 0x53]) {
        return String::from_str("ogg");
    }
    if n >= 12 && tag_at(b, 0, [0x52, 0x49, 0x46, 0x46]) && tag_at(b, 8, [0x57, 0x41, 0x56, 0x45]) {
        return String::from_str("wav");
    }
    if n >= 8 && tag_at(b, 4, [0x66, 0x74, 0x79, 0x70]) {
        return String::from_str("m4a");
    }
    if n >= 4 && tag_at(b, 0, [0x1A, 0x45, 0xDF, 0xA3]) {
        return String::from_str("mka");
    }
    String::from_str("bin")
}

// ── Records handed over by the Android side ──────────────────────────────

/// The folder the Storage Access Framework picker returned.
pub struct FolderPickerResult {
    pub uri: String,
    pub display_name: Option<String>,
}

/// A string read from Java: absent when null or empty.
pub open spec fn java_text(o: Option<String>) -> Option<Seq<char>> {
    match o {
        Some(s) => if s@.len() > 0 {
            Some(s@)
        } else {
            None
        },
        None => None,
    }
}

/// What the folder picker's answer means: `None` when the user cancelled,
/// else the `String[]` it returned (`None` entries for Java nulls), whose
/// first entry is the tree URI and second, if any, the display name.
pub open spec fn picker_outcome(answer: Option<Seq<Option<String>>>) -> Result<
    (Seq<char>, Option<Seq<char>>),
    Seq<char>,
> {
    match answer {
        None => Err("Folder picker cancelled"@),
        Some(items) => if items.len() < 1 {
            Err("Folder picker returned an empty result"@)
        } else {
            match items[0] {
                None => Err("Folder picker returned null URI"@),
                Some(u) => if u@.len() == 0 {
                    Err("Folder picker returned empty URI"@)
                } else {
                    Ok(
                        (
                            u@,
                            if items.len() >= 2 {
                                java_text(items[1])
                            } else {
                                None
                            },
                        ),
                    )
                },
            }
        },
    }
}

/// The view of a picker result.
pub open spec fn picked_view(r: Result<FolderPickerResult, String>) -> Result<(Seq<char>, Option<Seq<char>>), Seq<char>> {
    match r {
        Ok(p) => Ok(
            (
                p.uri@,
                match p.display_name {
                    Some(n) => Some(n@),
                    None => None,
                },
            ),
        ),
        Err(e) => Err(e@),
    }
}

/// The picker's answer as a sequence.
pub open spec fn answer_view(answer: Option<Vec<Option<String>>>) -> Option<Seq<Option<String>>> {
    match answer {
        Some(v) => Some(v@),
        None => None,
    }
}

/// Interpret the folder picker's answer (see `picker_outcome`).
pub fn folder_picker_result(answer: Option<Vec<Option<String>>>) -> (r: Result<FolderPickerResult, String>)
    ensures
        picked_view(r) == picker_outcome(answer_view(answer)),
{
    let items = match answer {
        None => {
            return Err(String::from_str("Folder picker cancelled"));
        },
        Some(v) => v,
    };
    if items.len() < 1 {
        return Err(String::from_str("Folder picker returned an empty result"));
    }
    let uri = match &items[0] {
        None => {
            return Err(String::from_str("Folder picker returned null URI"));
        },
        Some(u) => u,
    };
    if uri.unicode_len() == 0 {
        return Err(String::from_str("Folder picker returned empty URI"));
    }
    let display_name = if items.len() >= 2 {
        match &items[1] {
            Some(n) => if n.unicode_len() > 0 {
                Some(n.clone())
            } else {
                None
            },
            None => None,
        }
    } else {
        None
    };
    let r = FolderPickerResult { uri: uri.clone(), display_name };
    assert(picked_view(Ok(r)) == picker_outcome(Some(items@)));
    Ok(r)
}

/// What probing a `content://` URI found.
pub struct UriProbeResult {
    pub title: Option<String>,
    pub artist: Option<String>,
    pub album: Option<String>,
    pub album_artist: Option<String>,
    pub genre: Option<String>,
    pub year: Option<i32>,
    pub track_number: Option<i32>,
    pub duration_ms: Option<i64>,
    pub mime: Option<String>,
    pub display_name: Option<String>,
    pub file_size: i64,
    pub cover_jpeg: Option<Vec<u8>>,
}

/// The cover a metadata probe sends (standard base64, padded): its bytes
/// when it decodes to at least one byte; none when it is missing, does not
/// decode, or is empty.
pub fn probe_cover_bytes(cover_base64: Option<&str>) -> (r: Option<Vec<u8>>)
    ensures
        match cover_base64 {
            None => r is None,
            Some(s) => match r {
                Some(b) => b64_encode(b@) == s@ && b@.len() > 0,
                None => forall|b: Seq<u8>| b64_encode(b) == s@ ==> b.len() == 0,
            },
        },
{
    match cover_base64 {
        None => None,
        Some(s) => match decode_standard(s) {
            Ok(bytes) => {
                if bytes.len() > 0 {
                    Some(bytes)
                } else {
                    proof {
                        assert forall|b: Seq<u8>| b64_encode(b) == s@ implies b.len() == 0 by {
                            crate::b64::lemma_b64_encode_injective(b, bytes@);
                        }
                    }
                    None
                }
            },
            Err(_) => None,
        },
    }
}

/// The extension an imported file is stored under: the guessed one, unless
/// the staged copy is not a supported audio file and its bytes name a
/// container; and when that still says `bin`, what the bytes say, or `mp3`
/// as the last resort (the copy was already found playable).
pub open spec fn imported_extension_of(guessed: Seq<char>, supported: bool, sniffed: Seq<char>) -> Seq<char> {
    let ext = if !supported && sniffed != "bin"@ {
        sniffed
    } else {
        guessed
    };
    if ext == "bin"@ {
        if sniffed != "bin"@ {
            sniffed
        } else {
            "mp3"@
        }
    } else {
        ext
    }
}

/// Choose the extension of an imported audio file from the one guessed from
/// its name, whether the staged copy is a supported audio file, and what
/// its bytes were sniffed as.
pub fn imported_extension(guessed: String, supported: bool, sniffed: String) -> (r: String)
    ensures
        r@ == imported_extension_of(guessed@, supported, sniffed@),
{
    let bin = String::from_str("bin");
    proof {
        reveal_strlit("bin");
    }
    let sniffed_known = !(sniffed == bin);
    let ext = if !supported && sniffed_known {
        sniffed.clone()
    } else {
        guessed
    };
    if ext == bin {
        if sniffed_known {
            sniffed
        } else {
            String::from_str("mp3")
        }
    } else {
        ext
    }
}

// ── Sources and URIs ──────────────────────────────────────────────────────

/// What a URI check answers for `uri`: the trimmed URI when it is a
/// `content://` URI; `empty` when it is blank; otherwise `label`, then
/// `: expected content:// URI, got: ` and the trimmed URI.
pub open spec fn content_uri_outcome(uri: Seq<char>, empty: Seq<char>, label: Seq<char>) -> Result<
    Seq<char>,
    Seq<char>,
> {
    let t = trim(uri);
    if t.len() == 0 {
        Err(empty)
    } else if starts_with(t, "content://"@) {
        Ok(t)
    } else {
        Err(label + ": expected content:// URI, got: "@ + t)
    }
}

/// The exec form of a `Result` of strings, as views.
pub open spec fn result_view(r: Result<String, String>) -> Result<Seq<char>, Seq<char>> {
    match r {
        Ok(s) => Ok(s@),
        Err(e) => Err(e@),
    }
}

/// Check a URI handed to a JNI helper (see `content_uri_outcome`).
fn checked_content_uri(uri: &str, empty: &str, label: &str) -> (r: Result<String, String>)
    ensures
        result_view(r) == content_uri_outcome(uri@, empty@, label@),
{
    let t = trim_str(uri);
    if t.unicode_len() == 0 {
        return Err(String::from_str(empty));
    }
    let cs = chars_of(t.as_str());
    let scheme = chars_of("content://");
    if starts_with_chars(cs.as_slice(), scheme.as_slice()) {
        Ok(t)
    } else {
        let mut msg = String::from_str(label);
        push_str(&mut msg, ": expected content:// URI, got: ");
        push_str(&mut msg, t.as_str());
        Err(msg)
    }
}

/// The tree URI a folder scan walks: trimmed, and a `content://` URI.
pub fn saf_tree_uri(uri: &str) -> (r: Result<String, String>)
    ensures
        result_view(r) == content_uri_outcome(uri@, "SAF scan: tree URI is empty"@, "SAF scan"@),
{
    checked_content_uri(uri, "SAF scan: tree URI is empty", "SAF scan")
}

/// The URI a metadata probe reads: trimmed, and a `content://` URI.
pub fn probe_uri(uri: &str) -> (r: Result<String, String>)
    ensures
        result_view(r) == content_uri_outcome(uri@, "MediaMetadataProbe: URI is empty"@, "MediaMetadataProbe"@),
{
    checked_content_uri(uri, "MediaMetadataProbe: URI is empty", "MediaMetadataProbe")
}

/// An audio source to play or index: the path or URI trimmed; an error when
/// that is empty.
pub fn audio_source_text(source: &str) -> (r: Result<String, String>)
    ensures
        result_view(r) == if trim(source@).len() == 0 {
            Err::<Seq<char>, Seq<char>>("Audio path is empty"@)
        } else {
            Ok(trim(source@))
        },
{
    let t = trim_str(source);
    if t.unicode_len() == 0 {
        Err(String::from_str("Audio path is empty"))
    } else {
        Ok(t)
    }
}

} // verus!
