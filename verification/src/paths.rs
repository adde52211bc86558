//! Where the application keeps its files, below a platform data root that
//! the caller looked up.

use vstd::prelude::*;

use crate::text::{chars_eq, chars_of, last_char_before, last_index_of, push_char, push_str};

verus! {

/// Name of the application's directory under the data root.
pub const APP_DIR_NAME: &'static str = "app.bmdarklight.wave";

/// `PathBuf::join` of a relative name onto `base` (Unix separators): the
/// name alone on an empty base, else the two with one `/` between them.
pub open spec fn joined(base: Seq<char>, name: Seq<char>) -> Seq<char> {
    if base.len() == 0 {
        name
    } else if base.last() == '/' {
        base + name
    } else {
        base + seq!['/'] + name
    }
}

/// Join a relative `name` onto `base`.
pub fn join_path(base: &str, name: &str) -> (r: String)
    ensures
        r@ == joined(base@, name@),
{
    let mut out = String::from_str(base);
    let n = base.unicode_len();
    if n > 0 && base.get_char(n - 1) != '/' {
        push_char(&mut out, '/');
    }
    push_str(&mut out, name);
    proof {
        if n > 0 {
            assert(base@.last() == base@[n - 1]);
        }
    }
    out
}

/// The application data directory for a data root, or `.` without one.
pub open spec fn data_dir_of(root: Option<Seq<char>>) -> Seq<char> {
    match root {
        Some(base) => joined(base, APP_DIR_NAME@),
        None => "."@,
    }
}

/// Application data directory (`app.bmdarklight.wave` under the platform
/// data root `root`, or `.` when there is none).
pub fn data_dir(root: Option<&str>) -> (r: String)
    ensures
        r@ == data_dir_of(
            match root {
                Some(b) => Some(b@),
                None => None,
            },
        ),
{
    match root {
        Some(base) => join_path(base, APP_DIR_NAME),
        None => String::from_str("."),
    }
}

/// A file directly in the data directory.
pub open spec fn in_data_dir(root: Option<Seq<char>>, name: Seq<char>) -> Seq<char> {
    joined(data_dir_of(root), name)
}

/// The view of an optional root.
pub open spec fn root_view(root: Option<&str>) -> Option<Seq<char>> {
    match root {
        Some(b) => Some(b@),
        None => None,
    }
}

/// Default library database path: `db_override` when given, else
/// `wave-library.sqlite` in the data directory.
pub fn library_db_path(db_override: Option<&str>, root: Option<&str>) -> (r: String)
    ensures
        r@ == match db_override {
            Some(p) => p@,
            None => in_data_dir(root_view(root), "wave-library.sqlite"@),
        },
{
    match db_override {
        Some(p) => String::from_str(p),
        None => {
            let dir = data_dir(root);
            join_path(dir.as_str(), "wave-library.sqlite")
        },
    }
}

/// Path to the playback daemon state file (pid + port).
pub fn daemon_state_path(root: Option<&str>) -> (r: String)
    ensures
        r@ == in_data_dir(root_view(root), "playback-daemon.json"@),
{
    let dir = data_dir(root);
    join_path(dir.as_str(), "playback-daemon.json")
}

/// Cache for audio streamed from a remote source.
pub fn source_cache_dir(root: Option<&str>) -> (r: String)
    ensures
        r@ == in_data_dir(root_view(root), "source-cache"@),
{
    let dir = data_dir(root);
    join_path(dir.as_str(), "source-cache")
}

/// Where downloads land on desktop.
pub fn downloads_dir(root: Option<&str>) -> (r: String)
    ensures
        r@ == in_data_dir(root_view(root), "Downloads"@),
{
    let dir = data_dir(root);
    join_path(dir.as_str(), "Downloads")
}

/// Path to the primary-instance lock file.
pub fn instance_lock_path(root: Option<&str>) -> (r: String)
    ensures
        r@ == in_data_dir(root_view(root), "wave-instance.lock"@),
{
    let dir = data_dir(root);
    join_path(dir.as_str(), "wave-instance.lock")
}

// ── Path components ───────────────────────────────────────────────────────

/// Length of `s[..n]` once trailing separators and `.` components are
/// dropped, as `Path` does before it reads the last component; a lone root
/// `/` and a leading `.` stay.
pub open spec fn tail_len(s: Seq<char>, n: nat) -> nat
    decreases n,
{
    if n == 0 {
        0
    } else if s[n - 1] == '/' {
        if n == 1 {
            1
        } else {
            tail_len(s, (n - 1) as nat)
        }
    } else if s[n - 1] == '.' && n >= 2 && s[n - 2] == '/' {
        tail_len(s, (n - 1) as nat)
    } else {
        n
    }
}

/// Whether the trimmed `s[..t]` has no component after the root: it is
/// empty or the root alone.
pub open spec fn no_components(s: Seq<char>, t: nat) -> bool {
    t == 0 || (t == 1 && s[0] == '/')
}

/// Where the last component of `s[..t]` starts.
pub open spec fn comp_start(s: Seq<char>, t: nat) -> nat {
    match last_index_of(s.take(t as int), '/') {
        Some(i) => i + 1,
        None => 0,
    }
}

/// `Path::file_name` of `s[..n]` (Unix): its last component unless that is
/// the root, `.` or `..`.
pub open spec fn path_file_name(s: Seq<char>, n: nat) -> Option<Seq<char>> {
    let t = tail_len(s, n);
    if no_components(s, t) {
        None
    } else {
        let c = s.subrange(comp_start(s, t) as int, t as int);
        if c == "."@ || c == ".."@ {
            None
        } else {
            Some(c)
        }
    }
}

/// `Path::parent` of `s[..n]` (Unix), as the length of the prefix of `s`
/// it is: the path before the last component, trimmed; `None` for the root
/// alone or an empty path.
pub open spec fn path_parent_len(s: Seq<char>, n: nat) -> Option<nat> {
    let t = tail_len(s, n);
    if no_components(s, t) {
        None
    } else {
        match last_index_of(s.take(t as int), '/') {
            Some(i) => Some(tail_len(s, i + 1)),
            None => Some(0),
        }
    }
}

/// Trimming never lengthens a path.
pub proof fn lemma_tail_len_bound(s: Seq<char>, n: nat)
    ensures
        tail_len(s, n) <= n,
    decreases n,
{
    if n > 0 {
        lemma_tail_len_bound(s, (n - 1) as nat);
    }
}

/// `tail_len` (exec).
pub fn path_tail_len(cs: &[char], n: usize) -> (r: usize)
    requires
        n <= cs@.len(),
    ensures
        r == tail_len(cs@, n as nat),
        r <= n,
{
    let mut m = n;
    proof {
        lemma_tail_len_bound(cs@, n as nat);
    }
    while m > 0
        invariant
            m <= n <= cs@.len(),
            tail_len(cs@, m as nat) == tail_len(cs@, n as nat),
        ensures
            tail_len(cs@, m as nat) == m,
        decreases m,
    {
        if cs[m - 1] == '/' {
            if m == 1 {
                break;
            }
            m -= 1;
        } else if cs[m - 1] == '.' && m >= 2 && cs[m - 2] == '/' {
            m -= 1;
        } else {
            break;
        }
    }
    m
}

/// `Path::file_name` of `cs[..n]`, as the range of `cs` it is.
pub fn path_file_name_range(cs: &[char], n: usize) -> (r: Option<(usize, usize)>)
    requires
        n <= cs@.len(),
    ensures
        match path_file_name(cs@, n as nat) {
            Some(c) => r matches Some((a, b)) && a <= b <= cs@.len() && cs@.subrange(a as int, b as int) == c,
            None => r is None,
        },
{
    let t = path_tail_len(cs, n);
    if t == 0 || (t == 1 && cs[0] == '/') {
        return None;
    }
    let a = match last_char_before(cs, '/', t) {
        Some(i) => i + 1,
        None => 0,
    };
    assert(a == comp_start(cs@, t as nat));
    let comp = vstd::slice::slice_subrange(cs, a, t);
    let dot = chars_of(".");
    let dots = chars_of("..");
    if chars_eq(comp, dot.as_slice()) || chars_eq(comp, dots.as_slice()) {
        None
    } else {
        Some((a, t))
    }
}

/// `Path::parent` of `cs[..n]`, as a prefix length.
pub fn path_parent_prefix(cs: &[char], n: usize) -> (r: Option<usize>)
    requires
        n <= cs@.len(),
    ensures
        match path_parent_len(cs@, n as nat) {
            Some(l) => r == Some(l as usize) && l <= n,
            None => r is None,
        },
{
    let t = path_tail_len(cs, n);
    if t == 0 || (t == 1 && cs[0] == '/') {
        return None;
    }
    match last_char_before(cs, '/', t) {
        Some(i) => {
            let l = path_tail_len(cs, i + 1);
            Some(l)
        },
        None => Some(0),
    }
}

} // verus!
