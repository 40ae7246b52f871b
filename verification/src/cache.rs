//! The in-memory note cache: the notes last loaded, one per path, and a
//! hash of their paths and bodies for change detection.
use std::collections::hash_map::DefaultHasher;
use std::hash::Hasher;
use vstd::std_specs::hash::DefaultHasherAdditionalSpecFns;
use vstd::utf8::encode_utf8;
use vstd::prelude::*;
use crate::chars::{eq_exec, str_chars};
use crate::models::{Note, NoteView, note_views};
use crate::order::{
    insert_pos, lemma_ascending_unique_by, lemma_insert_by, lemma_lex_irreflexive,
    lemma_lex_total, lemma_lex_transitive, lemma_sort_ascending_by, lemma_sort_by_contains, lex_lt,
    lex_lt_str, sort_by_spec, strict_total_on,
};

verus! {

broadcast use vstd::string::group_string_axioms;

/// The last note in `s` with path `p`.
pub open spec fn path_lookup(s: Seq<NoteView>, p: Seq<char>) -> Option<NoteView>
    decreases s.len(),
{
    if s.len() == 0 {
        None
    } else if s.last().path == p {
        Some(s.last())
    } else {
        path_lookup(s.drop_last(), p)
    }
}

pub open spec fn distinct_paths(s: Seq<NoteView>) -> bool {
    forall|i: int, j: int| 0 <= i < j < s.len() ==> (#[trigger] s[i]).path != (#[trigger] s[j]).path
}

pub open spec fn has_path(s: Seq<NoteView>, p: Seq<char>) -> bool {
    exists|i: int| 0 <= i < s.len() && (#[trigger] s[i]).path == p
}

/// Stores a note: it replaces the note with its path where there is one,
/// in place, and else goes last.
pub open spec fn put_note(s: Seq<NoteView>, n: NoteView) -> Seq<NoteView> {
    if has_path(s, n.path) {
        let i = choose|i: int| 0 <= i < s.len() && (#[trigger] s[i]).path == n.path;
        s.update(i, n)
    } else {
        s.push(n)
    }
}

/// The entries of a cache filled with `s`, a later note replacing an
/// earlier one with its path.
pub open spec fn cache_entries(s: Seq<NoteView>) -> Seq<NoteView>
    decreases s.len(),
{
    if s.len() == 0 {
        Seq::empty()
    } else {
        put_note(cache_entries(s.drop_last()), s.last())
    }
}

pub proof fn lemma_lookup_at(s: Seq<NoteView>, i: int)
    requires
        distinct_paths(s),
        0 <= i < s.len(),
    ensures
        path_lookup(s, s[i].path) == Some(s[i]),
    decreases s.len(),
{
    if i < s.len() - 1 {
        let t = s.drop_last();
        assert(t[i] == s[i]);
        assert(distinct_paths(t)) by {
            assert forall|a: int, b: int| 0 <= a < b < t.len() implies (#[trigger] t[a]).path != (
            #[trigger] t[b]).path by {
                assert(t[a] == s[a] && t[b] == s[b]);
            }
        }
        assert(s.last().path != s[i].path);
        lemma_lookup_at(t, i);
    }
}

pub proof fn lemma_lookup_absent(s: Seq<NoteView>, p: Seq<char>)
    requires
        !has_path(s, p),
    ensures
        path_lookup(s, p) is None,
    decreases s.len(),
{
    if s.len() > 0 {
        let t = s.drop_last();
        assert(!has_path(t, p)) by {
            if has_path(t, p) {
                let i = choose|i: int| 0 <= i < t.len() && (#[trigger] t[i]).path == p;
                assert(s[i] == t[i]);
            }
        }
        assert(s[s.len() - 1].path != p);
        lemma_lookup_absent(t, p);
    }
}

/// What a lookup finds after a note is stored.
pub proof fn lemma_put_note(s: Seq<NoteView>, n: NoteView, p: Seq<char>)
    requires
        distinct_paths(s),
    ensures
        distinct_paths(put_note(s, n)),
        has_path(put_note(s, n), n.path),
        path_lookup(put_note(s, n), p) == if n.path == p {
            Some(n)
        } else {
            path_lookup(s, p)
        },
{
    let u = put_note(s, n);
    if has_path(s, n.path) {
        let i = choose|i: int| 0 <= i < s.len() && (#[trigger] s[i]).path == n.path;
        assert(u == s.update(i, n));
        assert(distinct_paths(u)) by {
            assert forall|a: int, b: int| 0 <= a < b < u.len() implies (#[trigger] u[a]).path != (
            #[trigger] u[b]).path by {
                assert(u[a].path == s[a].path && u[b].path == s[b].path);
            }
        }
        assert(u[i] == n);
        if n.path == p {
            lemma_lookup_at(u, i);
        } else if has_path(s, p) {
            let j = choose|j: int| 0 <= j < s.len() && (#[trigger] s[j]).path == p;
            lemma_lookup_at(s, j);
            assert(u[j] == s[j]);
            lemma_lookup_at(u, j);
        } else {
            lemma_lookup_absent(s, p);
            assert(!has_path(u, p)) by {
                if has_path(u, p) {
                    let j = choose|j: int| 0 <= j < u.len() && (#[trigger] u[j]).path == p;
                    assert(j != i);
                    assert(u[j] == s[j]);
                }
            }
            lemma_lookup_absent(u, p);
        }
    } else {
        assert(u == s.push(n));
        assert(u.drop_last() =~= s);
        assert(distinct_paths(u)) by {
            assert forall|a: int, b: int| 0 <= a < b < u.len() implies (#[trigger] u[a]).path != (
            #[trigger] u[b]).path by {
                if b == u.len() - 1 {
                    assert(u[a] == s[a]);
                    assert(u[b] == n);
                } else {
                    assert(u[a] == s[a] && u[b] == s[b]);
                }
            }
        }
        assert(u[u.len() - 1] == n);
    }
}

/// A filled cache has one entry per path, and the entry for a path is the
/// last note given with that path.
pub proof fn lemma_cache_entries(s: Seq<NoteView>, p: Seq<char>)
    ensures
        distinct_paths(cache_entries(s)),
        path_lookup(cache_entries(s), p) == path_lookup(s, p),
    decreases s.len(),
{
    if s.len() > 0 {
        lemma_cache_entries(s.drop_last(), p);
        lemma_put_note(cache_entries(s.drop_last()), s.last(), p);
    }
}

/// Paths in ascending order.
pub open spec fn path_before(a: NoteView, b: NoteView) -> bool {
    lex_lt(a.path, b.path)
}

/// What the change hash is taken over: for each note by ascending path,
/// its path and then its body if it has one.
pub open spec fn hash_items(s: Seq<NoteView>) -> Seq<Seq<char>>
    decreases s.len(),
{
    if s.len() == 0 {
        Seq::empty()
    } else {
        let n = s.last();
        hash_items(s.drop_last()) + match n.content {
            Some(c) => seq![n.path, c],
            None => seq![n.path],
        }
    }
}

/// What hashing a string writes to a hasher: its UTF-8 bytes, then the
/// byte `0xff` (which no UTF-8 text holds), so that strings hashed one
/// after the other cannot run together.
pub open spec fn str_writes(s: Seq<char>) -> Seq<Seq<u8>> {
    seq![encode_utf8(s), seq![0xffu8]]
}

/// The writes of hashing each string in turn.
pub open spec fn strs_writes(items: Seq<Seq<char>>) -> Seq<Seq<u8>>
    decreases items.len(),
{
    if items.len() == 0 {
        Seq::empty()
    } else {
        strs_writes(items.drop_last()) + str_writes(items.last())
    }
}

/// The value std's `DefaultHasher` gives after hashing each string in turn.
pub open spec fn default_hash_of_strs(items: Seq<Seq<char>>) -> u64 {
    DefaultHasher::spec_finish(strs_writes(items))
}

/// Hashes one string into the hasher, as `Hash for str` does.
pub(crate) fn write_str(h: &mut DefaultHasher, s: &str)
    ensures
        final(h)@ == old(h)@ + str_writes(s@),
{
    let ghost before = h@;
    h.write(s.as_bytes());
    let end: Vec<u8> = vec![0xffu8];
    h.write(end.as_slice());
    proof {
        assert(end@ =~= seq![0xffu8]);
        assert(h@ =~= before + str_writes(s@));
    }
}

/// Hashes the strings in order with a fresh `DefaultHasher`.
pub(crate) fn hash_strs(items: &Vec<String>) -> (r: u64)
    ensures
        r == default_hash_of_strs(items@.map_values(|s: String| s@)),
{
    let ghost ss = items@.map_values(|s: String| s@);
    let mut hasher = DefaultHasher::new();
    let mut i: usize = 0;
    proof {
        assert(ss.take(0) =~= Seq::<Seq<char>>::empty());
    }
    while i < items.len()
        invariant
            i <= items@.len(),
            ss == items@.map_values(|s: String| s@),
            hasher@ == strs_writes(ss.take(i as int)),
        decreases items@.len() - i,
    {
        write_str(&mut hasher, items[i].as_str());
        proof {
            assert(ss.take(i as int + 1).drop_last() =~= ss.take(i as int));
        }
        i = i + 1;
    }
    proof {
        assert(ss.take(items@.len() as int) =~= ss);
    }
    hasher.finish()
}

/// The notes last loaded, one per path; `None` until first filled.
pub struct NotesCache {
    notes: Option<Vec<Note>>,
}

impl View for NotesCache {
    type V = Option<Seq<NoteView>>;

    closed spec fn view(&self) -> Option<Seq<NoteView>> {
        match self.notes {
            Some(v) => Some(note_views(v@)),
            None => None,
        }
    }
}

impl Default for NotesCache {
    /// An empty, unfilled cache.
    fn default() -> (r: NotesCache)
        ensures
            r@ is None,
    {
        NotesCache { notes: None }
    }
}

impl NotesCache {
    #[verifier::type_invariant]
    spec fn inv(self) -> bool {
        match self.notes {
            Some(v) => distinct_paths(note_views(v@)),
            None => true,
        }
    }


    /// Every cached note, in the order they were first stored; `None` when
    /// the cache was never filled.
    pub fn get_all(&self) -> (r: Option<Vec<Note>>)
        ensures
            match (r, self@) {
                (Some(v), Some(s)) => note_views(v@) == s,
                (None, None) => true,
                _ => false,
            },
    {
        match &self.notes {
            Some(v) => {
                let mut out: Vec<Note> = Vec::new();
                let mut i: usize = 0;
                while i < v.len()
                    invariant
                        i <= v@.len(),
                        out@.len() == i,
                        forall|k: int| 0 <= k < i ==> (#[trigger] out@[k])@ == v@[k]@,
                    decreases v@.len() - i,
                {
                    out.push(v[i].duplicate());
                    i = i + 1;
                }
                proof {
                    assert(note_views(out@) =~= note_views(v@));
                }
                Some(out)
            },
            None => None,
        }
    }

    /// The cached note with this path.
    pub fn get(&self, path: &str) -> (r: Option<Note>)
        ensures
            match self@ {
                Some(s) => match r {
                    Some(n) => path_lookup(s, path@) == Some(n@),
                    None => path_lookup(s, path@) is None,
                },
                None => r is None,
            },
    {
        proof {
            use_type_invariant(self);
        }
        match &self.notes {
            Some(v) => {
                let ghost s = note_views(v@);
                match find_path(v, path) {
                    Some(i) => {
                        proof {
                            lemma_lookup_at(s, i as int);
                        }
                        Some(v[i].duplicate())
                    },
                    None => {
                        proof {
                            lemma_lookup_absent(s, path@);
                        }
                        None
                    },
                }
            },
            None => None,
        }
    }

    /// The number of cached notes.
    pub fn len(&self) -> (r: usize)
        ensures
            match self@ {
                Some(s) => r == s.len(),
                None => r == 0,
            },
    {
        match &self.notes {
            Some(v) => v.len(),
            None => 0,
        }
    }

    /// Replaces the cache's contents: one entry per path, a later note
    /// replacing an earlier one with its path.
    pub fn set_all(&mut self, notes: Vec<Note>)
        ensures
            final(self)@ == Some(cache_entries(note_views(notes@))),
    {
        let ghost s = note_views(notes@);
        let mut entries: Vec<Note> = Vec::new();
        let mut i: usize = 0;
        proof {
            assert(s.take(0) =~= Seq::<NoteView>::empty());
            assert(note_views(entries@) =~= Seq::<NoteView>::empty());
        }
        while i < notes.len()
            invariant
                i <= notes@.len(),
                s == note_views(notes@),
                note_views(entries@) == cache_entries(s.take(i as int)),
                distinct_paths(note_views(entries@)),
            decreases notes@.len() - i,
        {
            let n = &notes[i];
            let ghost e = note_views(entries@);
            proof {
                assert(s.take(i + 1).drop_last() =~= s.take(i as int));
                assert(s.take(i + 1).last() == n@);
                lemma_put_note(e, n@, n@.path);
            }
            match find_path(&entries, n.path.as_str()) {
                Some(k) => {
                    proof {
                        let j = choose|j: int| 0 <= j < e.len() && (#[trigger] e[j]).path == n@.path;
                        if j != k {
                            if j < k {
                                assert(e[j].path != e[k as int].path);
                            } else {
                                assert(e[k as int].path != e[j].path);
                            }
                        }
                        assert(put_note(e, n@) == e.update(k as int, n@));
                    }
                    entries.set(k, n.duplicate());
                    proof {
                        assert(note_views(entries@) =~= e.update(k as int, n@));
                    }
                },
                None => {
                    proof {
                        assert(!has_path(e, n@.path));
                    }
                    entries.push(n.duplicate());
                    proof {
                        assert(note_views(entries@) =~= e.push(n@));
                    }
                },
            }
            i = i + 1;
        }
        proof {
            assert(s.take(notes@.len() as int) =~= s);
        }
        self.notes = Some(entries);
    }

    /// A hash of every cached path and body, taken in ascending path order
    /// so that it does not depend on the order notes were stored in.
    pub fn compute_hash(&self) -> (r: u64)
        ensures
            r == default_hash_of_strs(
                match self@ {
                    Some(s) => hash_items(sort_by_spec(s, |a: NoteView, b: NoteView| path_before(a, b))),
                    None => Seq::empty(),
                },
            ),
    {
        match &self.notes {
            Some(v) => {
                let sorted = sort_notes_by_path(v);
                hash_listing(&sorted)
            },
            None => {
                let items: Vec<String> = Vec::new();
                proof {
                    assert(items@.map_values(|s: String| s@) =~= Seq::<Seq<char>>::empty());
                }
                hash_strs(&items)
            },
        }
    }
}

/// The change hash of notes in the order given: each path, then each body.
pub fn hash_listing(notes: &Vec<Note>) -> (r: u64)
    ensures
        r == default_hash_of_strs(hash_items(note_views(notes@))),
{
    let ghost ss = note_views(notes@);
    let mut items: Vec<String> = Vec::new();
    let mut i: usize = 0;
    proof {
        assert(items@.map_values(|s: String| s@) =~= hash_items(ss.take(0)));
    }
    while i < notes.len()
        invariant
            i <= notes@.len(),
            ss == note_views(notes@),
            items@.map_values(|s: String| s@) == hash_items(ss.take(i as int)),
        decreases notes@.len() - i,
    {
        let ghost before = items@.map_values(|s: String| s@);
        let n = &notes[i];
        proof {
            assert(ss.take(i + 1).drop_last() =~= ss.take(i as int));
            assert(ss.take(i + 1).last() == n@);
        }
        items.push(n.path.clone());
        match &n.content {
            Some(c) => {
                items.push(c.clone());
                proof {
                    assert(items@.map_values(|s: String| s@) =~= before + seq![n.path@, c@]);
                }
            },
            None => {
                proof {
                    assert(items@.map_values(|s: String| s@) =~= before + seq![n.path@]);
                }
            },
        }
        i = i + 1;
    }
    proof {
        assert(ss.take(notes@.len() as int) =~= ss);
    }
    hash_strs(&items)
}


/// The index of the note with this path.
fn find_path(v: &Vec<Note>, path: &str) -> (r: Option<usize>)
    ensures
        r matches Some(i) ==> i < v@.len() && v@[i as int]@.path == path@,
        r is None ==> !has_path(note_views(v@), path@),
{
    let pv = str_chars(path);
    let mut i: usize = 0;
    while i < v.len()
        invariant
            i <= v@.len(),
            pv@ == path@,
            forall|j: int| 0 <= j < i ==> note_views(v@)[j].path != path@,
        decreases v@.len() - i,
    {
        let cv = str_chars(v[i].path.as_str());
        if eq_exec(&cv, &pv) {
            return Some(i);
        }
        i = i + 1;
    }
    None
}

/// Sorts notes by ascending path, keeping equal paths in order.
pub fn sort_notes_by_path(v: &Vec<Note>) -> (r: Vec<Note>)
    ensures
        note_views(r@) == sort_by_spec(note_views(v@), |a: NoteView, b: NoteView| path_before(a, b)),
{
    let ghost before = |a: NoteView, b: NoteView| path_before(a, b);
    let ghost s = note_views(v@);
    let mut out: Vec<Note> = Vec::new();
    let mut i: usize = 0;
    proof {
        assert(s.take(0) =~= Seq::<NoteView>::empty());
        assert(note_views(out@) =~= Seq::<NoteView>::empty());
    }
    while i < v.len()
        invariant
            i <= v@.len(),
            s == note_views(v@),
            before == (|a: NoteView, b: NoteView| path_before(a, b)),
            note_views(out@) == sort_by_spec(s.take(i as int), before),
        decreases v@.len() - i,
    {
        let x = &v[i];
        let mut p: usize = 0;
        while p < out.len() && !lex_lt_str(x.path.as_str(), out[p].path.as_str())
            invariant
                p <= out@.len(),
                before == (|a: NoteView, b: NoteView| path_before(a, b)),
                forall|j: int| 0 <= j < p ==> !before(x@, #[trigger] note_views(out@)[j]),
            decreases out@.len() - p,
        {
            proof {
                assert(note_views(out@)[p as int] == out@[p as int]@);
            }
            p = p + 1;
        }
        proof {
            if p < out@.len() {
                assert(note_views(out@)[p as int] == out@[p as int]@);
            }
        }
        let ghost o = note_views(out@);
        proof {
            assert(insert_pos(o, x@, before, p as int));
            lemma_insert_by(o, x@, before, p as int);
            assert(s.take(i + 1).drop_last() =~= s.take(i as int));
            assert(s.take(i + 1).last() == x@);
        }
        out.insert(p, x.duplicate());
        proof {
            assert(note_views(out@) =~= o.take(p as int) + seq![x@] + o.skip(p as int));
        }
        i = i + 1;
    }
    proof {
        assert(s.take(v@.len() as int) =~= s);
    }
    out
}

/// Notes with distinct paths are distinct, and path order is a strict
/// total order on them.
pub proof fn lemma_path_order(s: Seq<NoteView>)
    requires
        distinct_paths(s),
    ensures
        s.no_duplicates(),
        strict_total_on(|a: NoteView, b: NoteView| path_before(a, b), s),
{
    let before = |a: NoteView, b: NoteView| path_before(a, b);
    assert forall|a: NoteView| !#[trigger] before(a, a) by {
        lemma_lex_irreflexive(a.path);
    }
    assert forall|a: NoteView, b: NoteView, c: NoteView| #[trigger] before(a, b) && #[trigger] before(b, c) implies before(
        a,
        c,
    ) by {
        lemma_lex_transitive(a.path, b.path, c.path);
    }
    assert forall|a: NoteView, b: NoteView| #[trigger] s.contains(a) && #[trigger] s.contains(b) && a != b implies before(
        a,
        b,
    ) || before(b, a) by {
        let i = choose|i: int| 0 <= i < s.len() && s[i] == a;
        let j = choose|j: int| 0 <= j < s.len() && s[j] == b;
        if i < j {
            assert(a.path != b.path);
        } else {
            assert(b.path != a.path);
        }
        lemma_lex_total(a.path, b.path);
    }
    assert forall|i: int, j: int| 0 <= i < s.len() && 0 <= j < s.len() && i != j implies s[i] != s[j] by {
        if i < j {
            assert(s[i].path != s[j].path);
        } else {
            assert(s[j].path != s[i].path);
        }
    }
}

/// Two listings of the same notes, one per path, sort to the same list.
pub proof fn lemma_sorted_notes_unique(s: Seq<NoteView>, t: Seq<NoteView>)
    requires
        distinct_paths(s),
        distinct_paths(t),
        forall|x: NoteView| s.contains(x) <==> t.contains(x),
    ensures
        sort_by_spec(s, |a: NoteView, b: NoteView| path_before(a, b)) == sort_by_spec(
            t,
            |a: NoteView, b: NoteView| path_before(a, b),
        ),
{
    let before = |a: NoteView, b: NoteView| path_before(a, b);
    lemma_path_order(s);
    lemma_path_order(t);
    lemma_sort_ascending_by(s, before);
    lemma_sort_ascending_by(t, before);
    assert forall|x: NoteView| sort_by_spec(s, before).contains(x) <==> sort_by_spec(t, before).contains(x) by {
        lemma_sort_by_contains(s, before, x);
        lemma_sort_by_contains(t, before, x);
    }
    lemma_ascending_unique_by(sort_by_spec(s, before), sort_by_spec(t, before), before);
}

/// Notes with distinct paths fill the cache as given.
proof fn lemma_cache_entries_distinct(s: Seq<NoteView>)
    requires
        distinct_paths(s),
    ensures
        cache_entries(s) == s,
    decreases s.len(),
{
    if s.len() > 0 {
        let t = s.drop_last();
        assert(distinct_paths(t)) by {
            assert forall|a: int, b: int| 0 <= a < b < t.len() implies (#[trigger] t[a]).path != (
            #[trigger] t[b]).path by {
                assert(t[a] == s[a] && t[b] == s[b]);
            }
        }
        lemma_cache_entries_distinct(t);
        assert(!has_path(t, s.last().path)) by {
            if has_path(t, s.last().path) {
                let i = choose|i: int| 0 <= i < t.len() && (#[trigger] t[i]).path == s.last().path;
                assert(s[i] == t[i]);
            }
        }
        assert(t.push(s.last()) =~= s);
    }
}

/// The change hash depends on which notes the cache holds, not on the
/// order storage listed them in: two fillings with the same notes, one per
/// path, hash alike.
pub proof fn lemma_hash_ignores_order(s: Seq<NoteView>, t: Seq<NoteView>)
    requires
        distinct_paths(s),
        distinct_paths(t),
        forall|x: NoteView| s.contains(x) <==> t.contains(x),
    ensures
        hash_items(sort_by_spec(cache_entries(s), |a: NoteView, b: NoteView| path_before(a, b)))
            == hash_items(sort_by_spec(cache_entries(t), |a: NoteView, b: NoteView| path_before(a, b))),
{
    lemma_cache_entries_distinct(s);
    lemma_cache_entries_distinct(t);
    lemma_sorted_notes_unique(s, t);
}

} // verus!
