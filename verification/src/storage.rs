//! Storage rules: ranged reads, the local notes directory and which paths
//! inside it may be read.
use vstd::prelude::*;
use crate::chars::{contains, ends_with, find_exec, push_str, starts_with, str_chars, string_of_all};
use crate::error::{StorageError, join_message};
use crate::cache::{str_writes, write_str};
use crate::order::{
    insert_pos, lemma_ascending_unique_by, lemma_insert_by, lemma_lex_irreflexive,
    lemma_lex_total, lemma_lex_transitive, lemma_sort_ascending_by, lemma_sort_by_contains, lex_lt,
    lex_lt_str, sort_by_spec, strict_total_on,
};
use std::collections::hash_map::DefaultHasher;
use std::hash::Hasher;
use vstd::bytes::{spec_u64_to_le_bytes, u64_to_le_bytes};
use vstd::std_specs::hash::DefaultHasherAdditionalSpecFns;

verus! {

broadcast use vstd::string::group_string_axioms;

/// A partial read of a file: the requested byte window and the file's size.
pub struct RangeRead {
    pub bytes: Vec<u8>,
    pub total_size: u64,
}

pub open spec fn min_u64(a: int, b: int) -> int {
    if a < b {
        a
    } else {
        b
    }
}

/// The window of a ranged read: from `start` (at most the size) for at
/// most `max_len` bytes (the end saturating), within the file.
pub open spec fn window_spec(total: int, start: int, max_len: int) -> (int, int) {
    let s = min_u64(start, total);
    let e = min_u64(min_u64(s + max_len, u64::MAX as int), total);
    (s, e)
}

pub fn range_window(total: u64, start: u64, max_len: u64) -> (r: (u64, u64))
    ensures
        (r.0 as int, r.1 as int) == window_spec(total as int, start as int, max_len as int),
{
    let s = if start < total {
        start
    } else {
        total
    };
    let e0 = s.saturating_add(max_len);
    let e = if e0 < total {
        e0
    } else {
        total
    };
    (s, e)
}

/// Cuts a ranged read out of a file's bytes; the window is empty when it
/// starts at or past the end.
pub fn read_range(bytes: Vec<u8>, start: u64, max_len: u64) -> (r: RangeRead)
    ensures
        r.total_size == bytes@.len(),
        ({
            let (s, e) = window_spec(bytes@.len() as int, start as int, max_len as int);
            r.bytes@ == bytes@.subrange(s, e)
        }),
{
    let total = bytes.len() as u64;
    let (s, e) = range_window(total, start, max_len);
    let mut out: Vec<u8> = Vec::new();
    let mut i: usize = s as usize;
    while i < e as usize
        invariant
            s <= i <= e <= total == bytes@.len(),
            out@ == bytes@.subrange(s as int, i as int),
        decreases e - i,
    {
        out.push(bytes[i]);
        proof {
            assert(bytes@.subrange(s as int, i + 1) =~= bytes@.subrange(s as int, i as int).push(
                bytes@[i as int],
            ));
        }
        i = i + 1;
    }
    RangeRead { bytes: out, total_size: total }
}

/// What probing the configured notes directory found.
pub struct RootProbe {
    pub exists: bool,
    pub is_dir: bool,
    /// The canonical path, or the message of the error canonicalizing gave.
    pub canonical: Result<String, String>,
}

/// Notes stored as files under a root directory.
pub struct LocalStorageBackend {
    root: String,
}

/// `Path::join` of a relative path onto a root: an absolute path replaces
/// the root; else the two are joined with one `/`.
pub open spec fn join_spec(root: Seq<char>, rel: Seq<char>) -> Seq<char> {
    if starts_with(rel, "/"@) {
        rel
    } else if root.len() == 0 || ends_with(root, "/"@) {
        root + rel
    } else {
        root + "/"@ + rel
    }
}

/// A canonical path lies under the root: the root's components begin it.
pub open spec fn under_root(path: Seq<char>, root: Seq<char>) -> bool {
    starts_with(path, root) && (path.len() == root.len() || ends_with(root, "/"@) || path[
        root.len() as int
    ] == '/')
}

impl LocalStorageBackend {
    pub closed spec fn root_view(&self) -> Seq<char> {
        self.root@
    }

    /// Opens the notes directory: it must exist and be a directory; the
    /// backend keeps its canonical path.
    pub fn new(root: &str, probe: RootProbe) -> (r: Result<LocalStorageBackend, StorageError>)
        ensures
            !probe.exists ==> (r matches Err(StorageError::NotFound(m)) && m@
                == "directory does not exist: "@ + root@),
            probe.exists && !probe.is_dir ==> (r matches Err(StorageError::InvalidPath(m)) && m@
                == "not a directory: "@ + root@),
            probe.exists && probe.is_dir ==> match probe.canonical {
                Ok(c) => r matches Ok(b) && b.root_view() == c@,
                Err(e) => r matches Err(StorageError::Io(m)) && m@ == "canonicalize failed: "@ + e@,
            },
    {
        if !probe.exists {
            return Err(StorageError::NotFound(join_message("directory does not exist: ", root)));
        }
        if !probe.is_dir {
            return Err(StorageError::InvalidPath(join_message("not a directory: ", root)));
        }
        match probe.canonical {
            Ok(c) => Ok(LocalStorageBackend { root: c }),
            Err(e) => Err(StorageError::Io(join_message("canonicalize failed: ", e.as_str()))),
        }
    }

    pub fn root(&self) -> (r: &str)
        ensures
            r@ == self.root_view(),
    {
        self.root.as_str()
    }

    /// The absolute path of a path relative to the root.
    pub fn absolute(&self, relative: &str) -> (r: String)
        ensures
            r@ == join_spec(self.root_view(), relative@),
    {
        proof {
            reveal_strlit("/");
        }
        let rv = str_chars(relative);
        if crate::chars::starts_with_str(&rv, "/") {
            return relative.to_owned();
        }
        let root = str_chars(self.root.as_str());
        let slash = str_chars("/");
        let mut out: Vec<char> = Vec::new();
        push_str(&mut out, self.root.as_str());
        if !(root.len() == 0 || crate::chars::ends_with_exec(&root, &slash)) {
            push_str(&mut out, "/");
        }
        push_str(&mut out, relative);
        string_of_all(&out)
    }

    /// Whether a path may be read: it holds no `..`, and what it resolves
    /// to (the path itself, else its parent directory; `None` where neither
    /// resolves) lies under the root.
    pub fn path_safe_given(&self, path: &str, resolved: Option<&str>) -> (r: bool)
        ensures
            r == (!contains(path@, ".."@) && match resolved {
                Some(c) => under_root(c@, self.root_view()),
                None => false,
            }),
    {
        proof {
            reveal_strlit("/");
        }
        let dots = str_chars("..");
        if find_exec(&str_chars(path), &dots).is_some() {
            return false;
        }
        match resolved {
            Some(c) => {
                let cv = str_chars(c);
                let root = str_chars(self.root.as_str());
                let slash = str_chars("/");
                crate::chars::starts_with_exec(&cv, &root) && (cv.len() == root.len()
                    || crate::chars::ends_with_exec(&root, &slash) || cv[root.len()] == '/')
            },
            None => false,
        }
    }
}

// ---------------------------------------------------------------------------
// The listing hash of the local directory
// ---------------------------------------------------------------------------

/// A listed file: its path below the root and its modification time in
/// seconds since the epoch.
pub open spec fn entry_views(v: Seq<(String, u64)>) -> Seq<(Seq<char>, u64)> {
    v.map_values(|e: (String, u64)| (e.0@, e.1))
}

pub open spec fn entry_before(a: (Seq<char>, u64), b: (Seq<char>, u64)) -> bool {
    lex_lt(a.0, b.0)
}

/// What hashing the entries writes: each path as a string, then its time
/// as eight little-endian bytes.
pub open spec fn entries_writes(s: Seq<(Seq<char>, u64)>) -> Seq<Seq<u8>>
    decreases s.len(),
{
    if s.len() == 0 {
        Seq::empty()
    } else {
        entries_writes(s.drop_last()) + str_writes(s.last().0) + seq![spec_u64_to_le_bytes(s.last().1)]
    }
}

pub open spec fn listing_hash_spec(s: Seq<(Seq<char>, u64)>) -> u64 {
    DefaultHasher::spec_finish(
        entries_writes(sort_by_spec(s, |a: (Seq<char>, u64), b: (Seq<char>, u64)| entry_before(a, b))),
    )
}

/// Sorts entries by ascending path, keeping equal paths in order.
fn sort_entries(v: &Vec<(String, u64)>) -> (r: Vec<(String, u64)>)
    ensures
        entry_views(r@) == sort_by_spec(
            entry_views(v@),
            |a: (Seq<char>, u64), b: (Seq<char>, u64)| entry_before(a, b),
        ),
{
    let ghost before = |a: (Seq<char>, u64), b: (Seq<char>, u64)| entry_before(a, b);
    let ghost s = entry_views(v@);
    let mut out: Vec<(String, u64)> = Vec::new();
    let mut i: usize = 0;
    proof {
        assert(s.take(0) =~= Seq::<(Seq<char>, u64)>::empty());
        assert(entry_views(out@) =~= Seq::<(Seq<char>, u64)>::empty());
    }
    while i < v.len()
        invariant
            i <= v@.len(),
            s == entry_views(v@),
            before == (|a: (Seq<char>, u64), b: (Seq<char>, u64)| entry_before(a, b)),
            entry_views(out@) == sort_by_spec(s.take(i as int), before),
        decreases v@.len() - i,
    {
        let x = &v[i];
        let ghost xv = (x.0@, x.1);
        let mut p: usize = 0;
        while p < out.len() && !lex_lt_str(x.0.as_str(), out[p].0.as_str())
            invariant
                p <= out@.len(),
                xv == (x.0@, x.1),
                before == (|a: (Seq<char>, u64), b: (Seq<char>, u64)| entry_before(a, b)),
                forall|j: int| 0 <= j < p ==> !before(xv, #[trigger] entry_views(out@)[j]),
            decreases out@.len() - p,
        {
            proof {
                assert(entry_views(out@)[p as int] == (out@[p as int].0@, out@[p as int].1));
            }
            p = p + 1;
        }
        let ghost o = entry_views(out@);
        proof {
            if p < out@.len() {
                assert(o[p as int] == (out@[p as int].0@, out@[p as int].1));
            }
            assert(insert_pos(o, xv, before, p as int));
            lemma_insert_by(o, xv, before, p as int);
            assert(s.take(i + 1).drop_last() =~= s.take(i as int));
            assert(s.take(i + 1).last() == xv);
        }
        out.insert(p, (x.0.clone(), x.1));
        proof {
            assert(entry_views(out@) =~= o.take(p as int) + seq![xv] + o.skip(p as int));
        }
        i = i + 1;
    }
    proof {
        assert(s.take(v@.len() as int) =~= s);
    }
    out
}

impl LocalStorageBackend {
    /// A hash of a listing of the directory (the notes' paths with their
    /// modification times), taken in ascending path order, for telling
    /// whether any note was added, removed or changed.
    pub fn listing_hash(entries: &Vec<(String, u64)>) -> (r: u64)
        ensures
            r == listing_hash_spec(entry_views(entries@)),
    {
        let sorted = sort_entries(entries);
        let ghost ss = entry_views(sorted@);
        let mut hasher = DefaultHasher::new();
        let mut i: usize = 0;
        proof {
            assert(ss.take(0) =~= Seq::<(Seq<char>, u64)>::empty());
        }
        while i < sorted.len()
            invariant
                i <= sorted@.len(),
                ss == entry_views(sorted@),
                hasher@ == entries_writes(ss.take(i as int)),
            decreases sorted@.len() - i,
        {
            write_str(&mut hasher, sorted[i].0.as_str());
            let time = u64_to_le_bytes(sorted[i].1);
            hasher.write(time.as_slice());
            proof {
                assert(ss.take(i as int + 1).drop_last() =~= ss.take(i as int));
                assert(ss[i as int] == (sorted@[i as int].0@, sorted@[i as int].1));
            }
            i = i + 1;
        }
        proof {
            assert(ss.take(sorted@.len() as int) =~= ss);
        }
        hasher.finish()
    }
}

/// A listing with no path twice.
pub open spec fn distinct_entry_paths(s: Seq<(Seq<char>, u64)>) -> bool {
    forall|i: int, j: int| 0 <= i < s.len() && 0 <= j < s.len() && i != j ==> (#[trigger] s[i]).0
        != (#[trigger] s[j]).0
}

/// The listing hash depends on which files there are and their times, not
/// on the order the directory was walked in.
pub proof fn lemma_local_listing_hash_ignores_order(s: Seq<(Seq<char>, u64)>, t: Seq<(Seq<char>, u64)>)
    requires
        distinct_entry_paths(s),
        distinct_entry_paths(t),
        forall|e: (Seq<char>, u64)| s.contains(e) <==> t.contains(e),
    ensures
        listing_hash_spec(s) == listing_hash_spec(t),
{
    let before = |a: (Seq<char>, u64), b: (Seq<char>, u64)| entry_before(a, b);
    lemma_entry_order(s);
    lemma_entry_order(t);
    lemma_sort_ascending_by(s, before);
    lemma_sort_ascending_by(t, before);
    assert forall|e: (Seq<char>, u64)| sort_by_spec(s, before).contains(e) <==> sort_by_spec(
        t,
        before,
    ).contains(e) by {
        lemma_sort_by_contains(s, before, e);
        lemma_sort_by_contains(t, before, e);
    }
    lemma_ascending_unique_by(sort_by_spec(s, before), sort_by_spec(t, before), before);
}

/// Entries with distinct paths are distinct, and path order is a strict
/// total order on them.
proof fn lemma_entry_order(s: Seq<(Seq<char>, u64)>)
    requires
        distinct_entry_paths(s),
    ensures
        s.no_duplicates(),
        strict_total_on(|a: (Seq<char>, u64), b: (Seq<char>, u64)| entry_before(a, b), s),
{
    let before = |a: (Seq<char>, u64), b: (Seq<char>, u64)| entry_before(a, b);
    assert forall|a: (Seq<char>, u64)| !#[trigger] before(a, a) by {
        lemma_lex_irreflexive(a.0);
    }
    assert forall|a: (Seq<char>, u64), b: (Seq<char>, u64), c: (Seq<char>, u64)| #[trigger] before(a, b)
        && #[trigger] before(b, c) implies before(a, c) by {
        lemma_lex_transitive(a.0, b.0, c.0);
    }
    assert forall|a: (Seq<char>, u64), b: (Seq<char>, u64)| #[trigger] s.contains(a) && #[trigger] s.contains(
        b,
    ) && a != b implies before(a, b) || before(b, a) by {
        let i = choose|i: int| 0 <= i < s.len() && s[i] == a;
        let j = choose|j: int| 0 <= j < s.len() && s[j] == b;
        assert(i != j);
        lemma_lex_total(a.0, b.0);
    }
}

} // verus!
