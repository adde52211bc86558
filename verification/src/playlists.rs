//! Playlist maintenance decisions: folder-sync diffs, naming, and which
//! playlists may be renamed, deleted or cleared.

use vstd::prelude::*;

use crate::search::{is_library_playlist_name, LEGACY_LIBRARY_PLAYLIST_NAME, LIBRARY_PLAYLIST_NAME};
use crate::text::{
    chars_of, decimal, decimal_string, push_char, push_str, starts_with, starts_with_chars, str_eq, trim,
    trim_str,
};

verus! {

/// A playlist as the library lists it.
pub struct PlaylistInfo {
    pub id: String,
    pub profile_id: String,
    pub name: String,
    pub track_count: i64,
    pub created_at: i64,
    pub updated_at: i64,
    /// Folder path or URI this playlist stays synced with.
    pub sync_folder: Option<String>,
}

// ── Folder sync diff ──────────────────────────────────────────────────────

/// A path as `(normalized key, raw path)`.
pub type KeyedPath = (Seq<char>, Seq<char>);

/// The values of keyed exec paths.
pub open spec fn keyed_view(ps: Seq<(String, String)>) -> Seq<KeyedPath> {
    ps.map_values(|p: (String, String)| (p.0@, p.1@))
}

/// Whether some entry of `ps` has key `k`.
pub open spec fn has_key(ps: Seq<KeyedPath>, k: Seq<char>) -> bool
    decreases ps.len(),
{
    ps.len() > 0 && (ps.last().0 == k || has_key(ps.drop_last(), k))
}

/// `has_key` is membership of the key among the entries.
pub proof fn lemma_has_key_index(ps: Seq<KeyedPath>, k: Seq<char>)
    ensures
        has_key(ps, k) <==> exists|i: int| 0 <= i < ps.len() && (#[trigger] ps[i]).0 == k,
    decreases ps.len(),
{
    if ps.len() > 0 {
        let pre = ps.drop_last();
        lemma_has_key_index(pre, k);
        if has_key(pre, k) {
            let i = choose|i: int| 0 <= i < pre.len() && (#[trigger] pre[i]).0 == k;
            assert(ps[i] == pre[i]);
        }
        if exists|i: int| 0 <= i < ps.len() && (#[trigger] ps[i]).0 == k {
            let i = choose|i: int| 0 <= i < ps.len() && (#[trigger] ps[i]).0 == k;
            if i < pre.len() {
                assert(pre[i] == ps[i]);
            }
        }
    }
}

/// `ps` keeping only the first entry of each key, in order.
pub open spec fn first_per_key(ps: Seq<KeyedPath>) -> Seq<KeyedPath>
    decreases ps.len(),
{
    if ps.len() == 0 {
        Seq::empty()
    } else {
        let before = first_per_key(ps.drop_last());
        if has_key(ps.drop_last(), ps.last().0) {
            before
        } else {
            before.push(ps.last())
        }
    }
}

/// The entries of `ps` whose key does not occur in `other`.
pub open spec fn without_keys_of(ps: Seq<KeyedPath>, other: Seq<KeyedPath>) -> Seq<KeyedPath>
    decreases ps.len(),
{
    if ps.len() == 0 {
        Seq::empty()
    } else {
        let before = without_keys_of(ps.drop_last(), other);
        if has_key(other, ps.last().0) {
            before
        } else {
            before.push(ps.last())
        }
    }
}

/// Playlist entries to remove: the first path of each current key that is
/// no longer desired.
pub open spec fn sync_removals(current: Seq<KeyedPath>, desired: Seq<KeyedPath>) -> Seq<KeyedPath> {
    without_keys_of(first_per_key(current), desired)
}

/// Paths to add: the first path of each desired key the playlist lacks, in
/// desired order.
pub open spec fn sync_additions(current: Seq<KeyedPath>, desired: Seq<KeyedPath>) -> Seq<KeyedPath> {
    without_keys_of(first_per_key(desired), current)
}

/// The raw paths of keyed paths.
pub open spec fn raws(ps: Seq<KeyedPath>) -> Seq<Seq<char>> {
    ps.map_values(|p: KeyedPath| p.1)
}

/// Whether `ks` holds key `k` (exec).
fn holds_key(ps: &Vec<(String, String)>, k: &String) -> (r: bool)
    ensures
        r == has_key(keyed_view(ps@), k@),
{
    let ghost v = keyed_view(ps@);
    let mut i: usize = 0;
    while i < ps.len()
        invariant
            i <= ps@.len(),
            v == keyed_view(ps@),
            forall|j: int| 0 <= j < i ==> v[j].0 != k@,
        decreases ps.len() - i,
    {
        if ps[i].0 == *k {
            assert(v[i as int].0 == k@);
            proof {
                lemma_has_key_index(v, k@);
            }
            return true;
        }
        assert(v[i as int] == (ps@[i as int].0@, ps@[i as int].1@));
        i += 1;
    }
    proof {
        lemma_has_key_index(v, k@);
    }
    false
}

/// A copy of a keyed path.
fn copy_pair(p: &(String, String)) -> (r: (String, String))
    ensures
        r == *p,
{
    (p.0.clone(), p.1.clone())
}

/// `first_per_key` over exec pairs.
fn dedup_keys(ps: &[(String, String)]) -> (r: Vec<(String, String)>)
    ensures
        keyed_view(r@) == first_per_key(keyed_view(ps@)),
{
    let ghost all = keyed_view(ps@);
    let mut out: Vec<(String, String)> = Vec::new();
    let mut i: usize = 0;
    while i < ps.len()
        invariant
            i <= ps@.len(),
            all == keyed_view(ps@),
            keyed_view(out@) == first_per_key(all.take(i as int)),
            forall|k: Seq<char>| has_key(keyed_view(out@), k) <==> has_key(all.take(i as int), k),
        decreases ps.len() - i,
    {
        let ghost pre = all.take(i as int);
        let ghost next = all.take(i + 1);
        assert(next.drop_last() == pre);
        assert(next.last() == all[i as int]);
        assert(all[i as int] == (ps@[i as int].0@, ps@[i as int].1@));
        let ghost before = out@;
        if !holds_key(&out, &ps[i].0) {
            out.push(copy_pair(&ps[i]));
            assert(keyed_view(out@) == keyed_view(before).push(all[i as int]));
        }
        proof {
            assert(keyed_view(out@).len() > 0 ==> keyed_view(out@).drop_last() == keyed_view(before)
                || keyed_view(out@) == keyed_view(before));
            let ov = keyed_view(out@);
            let bv = keyed_view(before);
            assert forall|k: Seq<char>| has_key(ov, k) <==> has_key(next, k) by {
                assert(has_key(bv, k) <==> has_key(pre, k));
                assert(has_key(next, k) <==> (all[i as int].0 == k || has_key(pre, k)));
                if has_key(bv, all[i as int].0) {
                    assert(ov == bv);
                    if all[i as int].0 == k {
                        assert(has_key(pre, k));
                    }
                } else {
                    assert(ov == bv.push(all[i as int]));
                    assert(ov.drop_last() == bv);
                    assert(ov.last() == all[i as int]);
                    assert(has_key(ov, k) <==> (all[i as int].0 == k || has_key(bv, k)));
                }
            }
        }
        i += 1;
    }
    assert(all.take(ps@.len() as int) == all);
    out
}

/// The raw paths of the entries of `ps` whose key is not in `other`.
fn raws_without_keys(ps: &Vec<(String, String)>, other: &Vec<(String, String)>) -> (r: Vec<String>)
    ensures
        r@.map_values(|s: String| s@) == raws(without_keys_of(keyed_view(ps@), keyed_view(other@))),
{
    let ghost all = keyed_view(ps@);
    let ghost ov = keyed_view(other@);
    let mut out: Vec<String> = Vec::new();
    let mut i: usize = 0;
    while i < ps.len()
        invariant
            i <= ps@.len(),
            all == keyed_view(ps@),
            ov == keyed_view(other@),
            out@.map_values(|s: String| s@) == raws(without_keys_of(all.take(i as int), ov)),
        decreases ps.len() - i,
    {
        let ghost next = all.take(i + 1);
        assert(next.drop_last() == all.take(i as int));
        assert(next.last() == all[i as int]);
        assert(all[i as int] == (ps@[i as int].0@, ps@[i as int].1@));
        let ghost before = out@;
        if !holds_key(other, &ps[i].0) {
            out.push(ps[i].1.clone());
            assert(out@.map_values(|s: String| s@) =~= before.map_values(|s: String| s@).push(
                all[i as int].1,
            ));
            assert(raws(without_keys_of(next, ov)) =~= raws(without_keys_of(all.take(i as int), ov)).push(
                all[i as int].1,
            ));
        }
        i += 1;
    }
    assert(all.take(ps@.len() as int) == all);
    out
}

/// Diff a playlist's current paths against the desired ones. Both lists hold
/// `(normalized key, raw path)` pairs; keys decide identity. Returns the raw
/// paths to remove (first path of each current key that is not desired) and
/// to add (first path of each desired key that is not current, in desired
/// order).
pub fn diff_playlist_paths(current: &[(String, String)], desired: &[(String, String)]) -> (r: (
    Vec<String>,
    Vec<String>,
))
    ensures
        r.0@.map_values(|s: String| s@) == raws(
            sync_removals(keyed_view(current@), keyed_view(desired@)),
        ),
        r.1@.map_values(|s: String| s@) == raws(
            sync_additions(keyed_view(current@), keyed_view(desired@)),
        ),
{
    let cur = dedup_keys(current);
    let des = dedup_keys(desired);
    proof {
        lemma_has_key_first_per_key(keyed_view(current@));
        lemma_has_key_first_per_key(keyed_view(desired@));
        lemma_without_keys_same_keys(first_per_key(keyed_view(current@)), keyed_view(desired@), keyed_view(des@));
        lemma_without_keys_same_keys(first_per_key(keyed_view(desired@)), keyed_view(current@), keyed_view(cur@));
    }
    let removals = raws_without_keys(&cur, &des);
    let additions = raws_without_keys(&des, &cur);
    (removals, additions)
}

/// Deduplicating by key keeps exactly the same set of keys.
pub proof fn lemma_has_key_first_per_key(ps: Seq<KeyedPath>)
    ensures
        forall|k: Seq<char>| has_key(first_per_key(ps), k) <==> has_key(ps, k),
    decreases ps.len(),
{
    if ps.len() > 0 {
        let pre = ps.drop_last();
        lemma_has_key_first_per_key(pre);
        let f = first_per_key(ps);
        let fp = first_per_key(pre);
        assert forall|k: Seq<char>| has_key(f, k) <==> has_key(ps, k) by {
            assert(has_key(fp, k) <==> has_key(pre, k));
            assert(has_key(ps, k) <==> (ps.last().0 == k || has_key(pre, k)));
            if has_key(pre, ps.last().0) {
                assert(f == fp);
                if ps.last().0 == k {
                    assert(has_key(pre, k));
                }
            } else {
                assert(f == fp.push(ps.last()));
                assert(f.drop_last() == fp);
                assert(f.last() == ps.last());
                assert(has_key(f, k) <==> (ps.last().0 == k || has_key(fp, k)));
            }
        }
    }
}

/// Filtering against two lists with the same keys gives the same result.
pub proof fn lemma_without_keys_same_keys(ps: Seq<KeyedPath>, a: Seq<KeyedPath>, b: Seq<KeyedPath>)
    requires
        forall|k: Seq<char>| has_key(a, k) <==> has_key(b, k),
    ensures
        without_keys_of(ps, a) == without_keys_of(ps, b),
    decreases ps.len(),
{
    if ps.len() > 0 {
        lemma_without_keys_same_keys(ps.drop_last(), a, b);
    }
}

/// The keys left after filtering against `other` are those of `ps` that
/// `other` lacks.
pub proof fn lemma_has_key_without(ps: Seq<KeyedPath>, other: Seq<KeyedPath>, k: Seq<char>)
    ensures
        has_key(without_keys_of(ps, other), k) <==> has_key(ps, k) && !has_key(other, k),
    decreases ps.len(),
{
    if ps.len() > 0 {
        lemma_has_key_without(ps.drop_last(), other, k);
        let before = without_keys_of(ps.drop_last(), other);
        if !has_key(other, ps.last().0) {
            assert(without_keys_of(ps, other).drop_last() == before);
            assert(without_keys_of(ps, other).last() == ps.last());
        }
    }
}

/// A list in which no key occurs is empty.
proof fn lemma_no_keys_empty(ps: Seq<KeyedPath>)
    requires
        forall|k: Seq<char>| !#[trigger] has_key(ps, k),
    ensures
        ps.len() == 0,
{
    if ps.len() > 0 {
        assert(has_key(ps, ps.last().0));
    }
}

/// Folder sync brings a playlist to the desired set of paths: removals are
/// exactly the current keys that are not desired, additions exactly the
/// desired keys that are not current, so applying both leaves the desired
/// keys and nothing else; and a playlist that already matches gets no
/// changes.
pub proof fn lemma_sync_reaches_desired(current: Seq<KeyedPath>, desired: Seq<KeyedPath>)
    ensures
        forall|k: Seq<char>|
            #[trigger] has_key(sync_removals(current, desired), k) <==> has_key(current, k) && !has_key(
                desired,
                k,
            ),
        forall|k: Seq<char>|
            #[trigger] has_key(sync_additions(current, desired), k) <==> has_key(desired, k) && !has_key(
                current,
                k,
            ),
        forall|k: Seq<char>|
            (has_key(current, k) && !has_key(sync_removals(current, desired), k)) || has_key(
                sync_additions(current, desired),
                k,
            ) <==> #[trigger] has_key(desired, k),
        (forall|k: Seq<char>| has_key(current, k) <==> has_key(desired, k)) ==> sync_removals(
            current,
            desired,
        ).len() == 0 && sync_additions(current, desired).len() == 0,
{
    lemma_has_key_first_per_key(current);
    lemma_has_key_first_per_key(desired);
    assert forall|k: Seq<char>|
        #[trigger] has_key(sync_removals(current, desired), k) <==> has_key(current, k) && !has_key(
            desired,
            k,
        ) by {
        lemma_has_key_without(first_per_key(current), desired, k);
    }
    assert forall|k: Seq<char>|
        #[trigger] has_key(sync_additions(current, desired), k) <==> has_key(desired, k) && !has_key(
            current,
            k,
        ) by {
        lemma_has_key_without(first_per_key(desired), current, k);
    }
    if forall|k: Seq<char>| has_key(current, k) <==> has_key(desired, k) {
        lemma_no_keys_empty(sync_removals(current, desired));
        lemma_no_keys_empty(sync_additions(current, desired));
    }
}

/// The key a playlist path is compared by: a trimmed `content://` URI as it
/// is; another path by its canonical form (`canonical`, which the caller
/// resolved on disk for the trimmed path), or trimmed when it has none.
pub open spec fn path_key_of(path: Seq<char>, canonical: Option<Seq<char>>) -> Seq<char> {
    let t = trim(path);
    if starts_with(t, "content://"@) {
        t
    } else {
        match canonical {
            Some(c) => c,
            None => t,
        }
    }
}

/// Stable key for playlist membership diffs.
pub fn normalize_path_key(path: &str, canonical: Option<&str>) -> (r: String)
    ensures
        r@ == path_key_of(
            path@,
            match canonical {
                Some(c) => Some(c@),
                None => None,
            },
        ),
{
    let t = trim_str(path);
    let cs = chars_of(t.as_str());
    let scheme = chars_of("content://");
    proof {
        reveal_strlit("content://");
    }
    if starts_with_chars(cs.as_slice(), scheme.as_slice()) {
        return t;
    }
    match canonical {
        Some(c) => String::from_str(c),
        None => t,
    }
}

// ── Unique names ──────────────────────────────────────────────────────────

/// The `i`-th candidate name for a new playlist: `base` itself for `i == 1`,
/// otherwise `base (i)`.
pub open spec fn name_candidate(base: Seq<char>, i: nat) -> Seq<char> {
    if i <= 1 {
        base
    } else {
        base + seq![' ', '('] + decimal(i) + seq![')']
    }
}

/// Highest numbered candidate tried.
pub const MAX_NAME_SUFFIX: u64 = 999;

/// Whether `names` holds `n`.
pub open spec fn name_taken(names: Seq<String>, n: Seq<char>) -> bool {
    exists|i: int| 0 <= i < names.len() && (#[trigger] names[i])@ == n
}

/// Whether `names` holds a string equal to `n` (exec).
fn is_taken(names: &[String], n: &String) -> (r: bool)
    ensures
        r == name_taken(names@, n@),
{
    let mut i: usize = 0;
    while i < names.len()
        invariant
            i <= names@.len(),
            forall|j: int| 0 <= j < i ==> names@[j]@ != n@,
        decreases names.len() - i,
    {
        if names[i] == *n {
            return true;
        }
        i += 1;
    }
    false
}

/// The candidate name `base (i)`.
fn numbered_name(base: &str, i: u64) -> (r: String)
    requires
        i >= 2,
    ensures
        r@ == name_candidate(base@, i as nat),
{
    let mut s = String::from_str(base);
    push_char(&mut s, ' ');
    push_char(&mut s, '(');
    push_str(&mut s, decimal_string(i).as_str());
    push_char(&mut s, ')');
    s
}

/// The first of `base`, `base (2)`, …, `base (999)` that `existing` does not
/// already hold; an error when all of them are taken.
pub fn resolve_unique_playlist_name(base: &str, existing: &[String]) -> (r: Result<String, String>)
    ensures
        r matches Ok(n) ==> !name_taken(existing@, n@) && exists|i: nat|
            1 <= i <= MAX_NAME_SUFFIX && n@ == name_candidate(base@, i) && forall|j: nat|
                1 <= j < i ==> name_taken(existing@, #[trigger] name_candidate(base@, j)),
        r is Err <==> forall|j: nat|
            1 <= j <= MAX_NAME_SUFFIX ==> name_taken(existing@, #[trigger] name_candidate(base@, j)),
        r matches Err(msg) ==> msg@ == "Could not find a unique name for playlist \""@ + base@ + "\""@,
{
    let first = String::from_str(base);
    if !is_taken(existing, &first) {
        assert(first@ == name_candidate(base@, 1));
        return Ok(first);
    }
    let mut i: u64 = 2;
    while i <= MAX_NAME_SUFFIX
        invariant
            2 <= i <= MAX_NAME_SUFFIX + 1,
            forall|j: nat| 1 <= j < i ==> name_taken(existing@, #[trigger] name_candidate(base@, j)),
        decreases MAX_NAME_SUFFIX + 1 - i,
    {
        let candidate = numbered_name(base, i);
        if !is_taken(existing, &candidate) {
            assert(candidate@ == name_candidate(base@, i as nat));
            return Ok(candidate);
        }
        i += 1;
    }
    let mut msg = String::from_str("Could not find a unique name for playlist \"");
    push_str(&mut msg, base);
    push_str(&mut msg, "\"");
    Err(msg)
}

// ── Create, rename, delete, clear ─────────────────────────────────────────

/// Whether `name` is the default Library playlist's name (current or legacy).
pub open spec fn is_library_name(name: Seq<char>) -> bool {
    name == LIBRARY_PLAYLIST_NAME@ || name == LEGACY_LIBRARY_PLAYLIST_NAME@
}

/// The error for a playlist name another playlist already has.
pub open spec fn name_taken_text(name: Seq<char>) -> Seq<char> {
    "A playlist named \""@ + name + "\" already exists"@
}

/// The name a new playlist is created under: `name` trimmed; an error when
/// that is empty.
pub fn new_playlist_name(name: &str) -> (r: Result<String, String>)
    ensures
        match r {
            Ok(n) => trim(name@).len() > 0 && n@ == trim(name@),
            Err(e) => trim(name@).len() == 0 && e@ == "Playlist name cannot be empty"@,
        },
{
    let t = trim_str(name);
    if t.unicode_len() == 0 {
        Err(String::from_str("Playlist name cannot be empty"))
    } else {
        Ok(t)
    }
}

/// The error for creating or renaming a playlist to a name that another
/// playlist already has.
pub fn name_taken_error(name: &str) -> (r: String)
    ensures
        r@ == name_taken_text(name@),
{
    let mut msg = String::from_str("A playlist named \"");
    push_str(&mut msg, name);
    push_str(&mut msg, "\" already exists");
    msg
}

/// The folder a playlist is bound to: the given folder trimmed, or none
/// when it is missing or blank.
pub fn sync_folder_value(folder: Option<&str>) -> (r: Option<String>)
    ensures
        match folder {
            None => r is None,
            Some(f) => match r {
                None => trim(f@).len() == 0,
                Some(v) => trim(f@).len() > 0 && v@ == trim(f@),
            },
        },
{
    match folder {
        None => None,
        Some(f) => {
            let t = trim_str(f);
            if t.unicode_len() == 0 {
                None
            } else {
                Some(t)
            }
        },
    }
}

/// Whether the playlist called `name` (`None`: no such playlist) may be
/// deleted: Library and Favorites may not.
pub fn check_playlist_delete(name: Option<&str>) -> (r: Result<(), String>)
    ensures
        match name {
            None => r matches Err(e) && e@ == "Playlist not found"@,
            Some(n) => if is_library_name(n@) {
                r matches Err(e) && e@ == "The default Library playlist cannot be deleted"@
            } else if n@ == "Favorites"@ {
                r matches Err(e) && e@ == "The \"Favorites\" playlist cannot be deleted"@
            } else {
                r is Ok
            },
        },
{
    match name {
        None => Err(String::from_str("Playlist not found")),
        Some(n) => {
            if is_library_playlist_name(n) {
                Err(String::from_str("The default Library playlist cannot be deleted"))
            } else if str_eq(n, "Favorites") {
                Err(String::from_str("The \"Favorites\" playlist cannot be deleted"))
            } else {
                Ok(())
            }
        },
    }
}

/// Whether the playlist called `current` (`None`: no such playlist) may be
/// renamed to `new_name`, and the name it gets: `new_name` trimmed. It may
/// not be renamed to a blank name, nor be Library or Favorites, nor take a
/// different name that another playlist has (`taken`: some playlist of the
/// same profile is called the trimmed new name).
pub fn check_playlist_rename(new_name: &str, current: Option<&str>, taken: bool) -> (r: Result<String, String>)
    ensures
        ({
            let n = trim(new_name@);
            if n.len() == 0 {
                r matches Err(e) && e@ == "Playlist name cannot be empty"@
            } else {
                match current {
                    None => r matches Err(e) && e@ == "Playlist not found"@,
                    Some(c) => if is_library_name(c@) {
                        r matches Err(e) && e@ == "The default Library playlist cannot be renamed"@
                    } else if c@ == "Favorites"@ {
                        r matches Err(e) && e@ == "The \"Favorites\" playlist cannot be renamed"@
                    } else if n != c@ && taken {
                        r matches Err(e) && e@ == name_taken_text(n)
                    } else {
                        r matches Ok(v) && v@ == n
                    },
                }
            }
        }),
{
    let n = match new_playlist_name(new_name) {
        Ok(n) => n,
        Err(e) => {
            return Err(e);
        },
    };
    match current {
        None => Err(String::from_str("Playlist not found")),
        Some(c) => {
            if is_library_playlist_name(c) {
                Err(String::from_str("The default Library playlist cannot be renamed"))
            } else if str_eq(c, "Favorites") {
                Err(String::from_str("The \"Favorites\" playlist cannot be renamed"))
            } else if !str_eq(n.as_str(), c) && taken {
                Err(name_taken_error(n.as_str()))
            } else {
                Ok(n)
            }
        },
    }
}

/// Whether a playlist may be cleared: not Favorites, and not one bound to a
/// (non-blank) sync folder.
pub fn check_playlist_clear(is_favorites: bool, sync_folder: Option<&str>) -> (r: Result<(), String>)
    ensures
        is_favorites ==> (r matches Err(e) && e@ == "Favorites cannot be cleared with clear playlist"@),
        !is_favorites && (sync_folder matches Some(f) && trim(f@).len() > 0) ==> (r matches Err(e) && e@
            == "Synced playlists cannot be cleared. Unlink the sync folder first."@),
        !is_favorites && !(sync_folder matches Some(f) && trim(f@).len() > 0) ==> r is Ok,
{
    if is_favorites {
        return Err(String::from_str("Favorites cannot be cleared with clear playlist"));
    }
    match sync_folder {
        Some(f) => {
            if trim_str(f).unicode_len() > 0 {
                Err(String::from_str("Synced playlists cannot be cleared. Unlink the sync folder first."))
            } else {
                Ok(())
            }
        },
        None => Ok(()),
    }
}

/// The playlists a library reset deletes: every listed id but Library's and
/// Favorites', in order.
pub open spec fn reset_deletions(ids: Seq<String>, library_id: Seq<char>, favorites_id: Seq<char>) -> Seq<String> {
    ids.filter(deleted_on_reset(library_id, favorites_id))
}

/// Whether a reset deletes the playlist with id `id`.
pub open spec fn deleted_on_reset(library_id: Seq<char>, favorites_id: Seq<char>) -> spec_fn(String) -> bool {
    |id: String| id@ != library_id && id@ != favorites_id
}

/// The ids of the playlists a library reset deletes.
pub fn playlists_to_reset(ids: &[String], library_id: &str, favorites_id: &str) -> (r: Vec<String>)
    ensures
        r@ == reset_deletions(ids@, library_id@, favorites_id@),
{
    let mut out: Vec<String> = Vec::new();
    let mut i: usize = 0;
    while i < ids.len()
        invariant
            i <= ids@.len(),
            out@ == reset_deletions(ids@.take(i as int), library_id@, favorites_id@),
        decreases ids.len() - i,
    {
        let id = &ids[i];
        proof {
            reveal(Seq::filter);
            assert(ids@.take(i + 1).drop_last() == ids@.take(i as int));
        }
        if !str_eq(id.as_str(), library_id) && !str_eq(id.as_str(), favorites_id) {
            out.push(id.clone());
        }
        i += 1;
    }
    assert(ids@.take(ids@.len() as int) == ids@);
    out
}

/// A library reset never deletes Library or Favorites, and deletes every
/// other listed playlist.
pub proof fn lemma_reset_keeps_defaults(ids: Seq<String>, library_id: Seq<char>, favorites_id: Seq<char>)
    ensures
        forall|k: int|
            0 <= k < reset_deletions(ids, library_id, favorites_id).len() ==> {
                let id = #[trigger] reset_deletions(ids, library_id, favorites_id)[k];
                id@ != library_id && id@ != favorites_id
            },
        forall|k: int|
            0 <= k < ids.len() && ids[k]@ != library_id && ids[k]@ != favorites_id ==> reset_deletions(
                ids,
                library_id,
                favorites_id,
            ).contains(#[trigger] ids[k]),
{
    let f = deleted_on_reset(library_id, favorites_id);
    assert forall|k: int| 0 <= k < reset_deletions(ids, library_id, favorites_id).len() implies {
        let id = #[trigger] reset_deletions(ids, library_id, favorites_id)[k];
        id@ != library_id && id@ != favorites_id
    } by {
        ids.lemma_filter_pred(f, k);
    }
    assert forall|k: int| 0 <= k < ids.len() && ids[k]@ != library_id && ids[k]@ != favorites_id implies reset_deletions(
        ids,
        library_id,
        favorites_id,
    ).contains(#[trigger] ids[k]) by {
        ids.lemma_filter_contains(f, k);
    }
}

// ── Applying a folder sync ────────────────────────────────────────────────

/// Whether a precomputed sync has nothing to apply: no path to remove, no
/// new track and no existing track to link.
pub fn sync_has_nothing_to_apply(removals: usize, extracted: usize, links: usize) -> (r: bool)
    ensures
        r == (removals == 0 && extracted == 0 && links == 0),
{
    removals == 0 && extracted == 0 && links == 0
}

/// What applying a sync does with one path it removes.
#[derive(Clone, Copy, PartialEq, Eq, Structural, Debug)]
pub enum SyncRemoval {
    /// Nothing: the path names no track, or a track the sync kept.
    Skip,
    /// Delete the track from the library (and every playlist): syncing
    /// Library itself.
    DeleteTrack,
    /// Drop the track from this playlist only.
    DropMembership,
}

/// The ids as values.
pub open spec fn ids_view(ids: Seq<String>) -> Seq<Seq<char>> {
    ids.map_values(|s: String| s@)
}

/// Decide what to do with a path the sync removes, given the track id it
/// resolves to (`None`: no track) and the ids of the tracks the sync just
/// added or linked, which are kept whatever their path.
pub fn sync_removal_action(is_default: bool, resolved_id: Option<&str>, kept_ids: &[String]) -> (r: SyncRemoval)
    ensures
        r == match resolved_id {
            None => SyncRemoval::Skip,
            Some(id) => if ids_view(kept_ids@).contains(id@) {
                SyncRemoval::Skip
            } else if is_default {
                SyncRemoval::DeleteTrack
            } else {
                SyncRemoval::DropMembership
            },
        },
{
    let id = match resolved_id {
        None => {
            return SyncRemoval::Skip;
        },
        Some(id) => id,
    };
    let mut i: usize = 0;
    while i < kept_ids.len()
        invariant
            i <= kept_ids@.len(),
            resolved_id == Some(id),
            forall|k: int| 0 <= k < i ==> kept_ids@[k]@ != id@,
        decreases kept_ids.len() - i,
    {
        if str_eq(kept_ids[i].as_str(), id) {
            assert(ids_view(kept_ids@)[i as int] == id@);
            assert(ids_view(kept_ids@).contains(id@));
            return SyncRemoval::Skip;
        }
        i += 1;
    }
    proof {
        if ids_view(kept_ids@).contains(id@) {
            let k = choose|k: int| 0 <= k < ids_view(kept_ids@).len() && ids_view(kept_ids@)[k] == id@;
            assert(kept_ids@[k]@ == id@);
        }
    }
    if is_default {
        SyncRemoval::DeleteTrack
    } else {
        SyncRemoval::DropMembership
    }
}

/// Whether one track a sync takes in counts as added: for Library every
/// new track counts and linked ones (already in the library) do not; for
/// another playlist a track counts when its membership row was inserted
/// (it was not already in the playlist).
pub open spec fn sync_counts_addition(is_default: bool, linked: bool, inserted: bool) -> bool {
    if is_default {
        !linked
    } else {
        inserted
    }
}

/// The added count after one track a sync takes in (`linked`: an existing
/// track rather than a new one; `inserted`: a membership row was written,
/// which happens only for playlists other than Library).
pub fn sync_added_count(is_default: bool, linked: bool, inserted: bool, added: u32) -> (r: u32)
    requires
        added < u32::MAX,
    ensures
        r == if sync_counts_addition(is_default, linked, inserted) {
            added + 1
        } else {
            added as int
        },
{
    let counts = if is_default {
        !linked
    } else {
        inserted
    };
    if counts {
        added + 1
    } else {
        added
    }
}

} // verus!
