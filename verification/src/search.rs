//! Full-text search over notes and the snippets shown for hits.
use vstd::prelude::*;
use vstd::utf8::encode_utf8;
use crate::chars::{eq_str, byte_len_le, contains, copy_range, find, find_exec, is_whitespace, is_ws, opt_view, push_str, str_chars, string_of_all, trim, trim_bounds, push_all};
use crate::models::{clone_opt, Note, NoteView, NotesConfig, SearchResult, SearchResultView, note_views};
use crate::order::{insert_pos, lemma_insert_by, lex_lt, lex_lt_str, sort_by_spec};
use crate::unicode::{lowercase, to_lowercase};

verus! {

broadcast use vstd::string::group_string_axioms;

/// Index of the first whitespace character.
pub open spec fn first_ws(s: Seq<char>) -> Option<int>
    decreases s.len(),
{
    if s.len() == 0 {
        None
    } else if is_ws(s[0]) {
        Some(0)
    } else {
        match first_ws(s.drop_first()) {
            Some(i) => Some(i + 1),
            None => None,
        }
    }
}

/// Index of the last whitespace character.
pub open spec fn last_ws(s: Seq<char>) -> Option<int>
    decreases s.len(),
{
    if s.len() == 0 {
        None
    } else if is_ws(s.last()) {
        Some(s.len() - 1)
    } else {
        last_ws(s.drop_last())
    }
}

fn first_ws_exec(v: &Vec<char>, a: usize, b: usize) -> (r: Option<usize>)
    requires
        a <= b <= v.len(),
    ensures
        r matches Some(i) ==> first_ws(v@.subrange(a as int, b as int)) == Some(i as int) && a + i
            < b,
        r is None ==> first_ws(v@.subrange(a as int, b as int)) is None,
{
    let mut k: usize = a;
    while k < b && !is_whitespace(v[k])
        invariant
            a <= k <= b <= v.len(),
            first_ws(v@.subrange(a as int, b as int)) == match first_ws(
                v@.subrange(k as int, b as int),
            ) {
                Some(i) => Some(i + (k - a)),
                None => None,
            },
        decreases b - k,
    {
        assert(v@.subrange(k as int, b as int).drop_first() =~= v@.subrange(k + 1, b as int));
        k = k + 1;
    }
    if k < b {
        Some(k - a)
    } else {
        None
    }
}

fn last_ws_exec(v: &Vec<char>, a: usize, b: usize) -> (r: Option<usize>)
    requires
        a <= b <= v.len(),
    ensures
        r matches Some(j) ==> last_ws(v@.subrange(a as int, b as int)) == Some(j as int) && a + j
            < b,
        r is None ==> last_ws(v@.subrange(a as int, b as int)) is None,
{
    let mut k: usize = b;
    while k > a && !is_whitespace(v[k - 1])
        invariant
            a <= k <= b <= v.len(),
            last_ws(v@.subrange(a as int, b as int)) == last_ws(v@.subrange(a as int, k as int)),
        decreases k,
    {
        assert(v@.subrange(a as int, k as int).drop_last() =~= v@.subrange(a as int, k - 1));
        k = k - 1;
    }
    if k > a {
        Some(k - 1 - a)
    } else {
        None
    }
}

/// The note's body contains `pattern_lower` once lower-cased.
pub open spec fn content_contains_spec(n: NoteView, pattern_lower: Seq<char>) -> bool {
    match n.content {
        Some(c) => contains(lowercase(c), pattern_lower),
        None => false,
    }
}

/// Where the snippet window around a match at `cp` starts and where its
/// match position falls, as character indices of the body (`total`
/// characters long); an index past the end counts as the start, as the
/// byte-offset lookup of the body does.
pub open spec fn window_start(cp: int, total: int) -> int {
    let sc = if cp >= 40 {
        cp - 40
    } else {
        0
    };
    if sc < total {
        sc
    } else {
        0
    }
}

pub open spec fn window_pos(cp: int, total: int) -> int {
    if cp < total {
        cp
    } else {
        0
    }
}

pub open spec fn window_end(cp: int, qlen: int, total: int) -> int {
    if cp + qlen + 40 < total {
        cp + qlen + 40
    } else {
        total
    }
}

pub open spec fn dots() -> Seq<char> {
    "..."@
}

/// What `snippet_around` gives for a body and a query.
pub open spec fn snippet_spec(c: Seq<char>, q: Seq<char>) -> Seq<char> {
    let total = c.len() as int;
    match find(lowercase(c), lowercase(q)) {
        Some(cp) => {
            let start = window_start(cp, total);
            let pos = window_pos(cp, total);
            let end = window_end(cp, q.len() as int, total);
            let ss = match last_ws(c.subrange(start, pos)) {
                Some(j) => start + j + 1,
                None => start,
            };
            let se = match first_ws(c.subrange(pos, end)) {
                Some(i) => pos + i,
                None => end,
            };
            (if ss > 0 {
                dots()
            } else {
                Seq::empty()
            }) + trim(c.subrange(ss, se)) + (if se < total {
                dots()
            } else {
                Seq::empty()
            })
        },
        None => {
            let e = if 80 < total {
                80
            } else {
                total
            };
            let se = match last_ws(c.take(e)) {
                Some(j) => j,
                None => e,
            };
            trim(c.take(se)) + dots()
        },
    }
}

/// Bodies and queries on which `snippet_around` does not panic: the window
/// must not start after the match position (which happens when
/// lower-casing lengthens the text before the match).
pub open spec fn snippet_safe(c: Seq<char>, q: Seq<char>) -> bool {
    match find(lowercase(c), lowercase(q)) {
        Some(cp) => window_start(cp, c.len() as int) <= window_pos(cp, c.len() as int),
        None => true,
    }
}

pub open spec fn snippet_note_spec(n: NoteView, q: Seq<char>) -> Seq<char> {
    match n.content {
        Some(c) => snippet_spec(c, q),
        None => "No content available"@,
    }
}

pub open spec fn snippet_note_safe(n: NoteView, q: Seq<char>) -> bool {
    match n.content {
        Some(c) => snippet_safe(c, q),
        None => true,
    }
}

fn snippet_chars(c: &Vec<char>, query: &str) -> (r: Option<Vec<char>>)
    ensures
        r matches Some(v) ==> snippet_safe(c@, query@) && v@ == snippet_spec(c@, query@),
        r is None ==> !snippet_safe(c@, query@),
{
    let cs = string_of_all(c);
    let cl = str_chars(to_lowercase(cs.as_str()).as_str());
    let ql = str_chars(to_lowercase(query).as_str());
    let total: usize = c.len();
    let mut out: Vec<char> = Vec::new();
    match find_exec(&cl, &ql) {
        Some(cp) => {
            let sc: usize = if cp >= 40 {
                cp - 40
            } else {
                0
            };
            let start: usize = if sc < total {
                sc
            } else {
                0
            };
            let pos: usize = if cp < total {
                cp
            } else {
                0
            };
            if start > pos {
                return None;
            }
            let qn: usize = str_chars(query).len();
            let end: usize = if cp < total && qn < total - cp && 40 < total - cp - qn {
                cp + qn + 40
            } else {
                total
            };
            let ss: usize = match last_ws_exec(c, start, pos) {
                Some(j) => start + j + 1,
                None => start,
            };
            let se: usize = match first_ws_exec(c, pos, end) {
                Some(i) => pos + i,
                None => end,
            };
            if ss > 0 {
                push_str(&mut out, "...");
            }
            let (x, y) = trim_bounds(c, ss, se);
            let mid = copy_range(c, x, y);
            push_all(&mut out, &mid);
            if se < total {
                push_str(&mut out, "...");
            }
            proof {
                assert(out@ =~= snippet_spec(c@, query@));
            }
            Some(out)
        },
        None => {
            let e: usize = if 80 < total {
                80
            } else {
                total
            };
            let se: usize = match last_ws_exec(c, 0, e) {
                Some(j) => j,
                None => e,
            };
            let (x, y) = trim_bounds(c, 0, se);
            let mid = copy_range(c, x, y);
            push_all(&mut out, &mid);
            push_str(&mut out, "...");
            proof {
                assert(c@.subrange(0, e as int) =~= c@.take(e as int));
                assert(c@.subrange(0, se as int) =~= c@.take(se as int));
                assert(out@ =~= snippet_spec(c@, query@));
            }
            Some(out)
        },
    }
}

impl Note {
    /// The body contains `pattern_lower` once lower-cased.
    pub fn content_contains_lowercase(&self, pattern_lower: &str) -> (r: bool)
        ensures
            r == content_contains_spec(self@, pattern_lower@),
    {
        match &self.content {
            Some(c) => {
                let cl = str_chars(to_lowercase(c.as_str()).as_str());
                let p = str_chars(pattern_lower);
                find_exec(&cl, &p).is_some()
            },
            None => false,
        }
    }

    /// The text around the first case-insensitive match of `query`, cut
    /// at word boundaries, with `...` where it was cut; the start of the
    /// body when nothing matches.
    pub fn snippet_around(&self, query: &str) -> (r: String)
        requires
            snippet_note_safe(self@, query@),
        ensures
            r@ == snippet_note_spec(self@, query@),
    {
        match &self.content {
            Some(c) => {
                let cv = str_chars(c.as_str());
                match snippet_chars(&cv, query) {
                    Some(v) => string_of_all(&v),
                    None => String::new(),
                }
            },
            None => "No content available".to_owned(),
        }
    }

    /// `snippet_around` where it does not panic; `None` on the bodies and
    /// queries where it would.
    pub fn checked_snippet_around(&self, query: &str) -> (r: Option<String>)
        ensures
            r matches Some(s) ==> snippet_note_safe(self@, query@) && s@ == snippet_note_spec(
                self@,
                query@,
            ),
            r is None ==> !snippet_note_safe(self@, query@),
    {
        match &self.content {
            Some(c) => {
                let cv = str_chars(c.as_str());
                match snippet_chars(&cv, query) {
                    Some(v) => Some(string_of_all(&v)),
                    None => None,
                }
            },
            None => Some("No content available".to_owned()),
        }
    }
}

// ---------------------------------------------------------------------------
// Search
// ---------------------------------------------------------------------------

pub open spec fn lower_contains(s: Option<Seq<char>>, ql: Seq<char>) -> bool {
    match s {
        Some(t) => contains(lowercase(t), ql),
        None => false,
    }
}

pub open spec fn title_match(n: NoteView, ql: Seq<char>) -> bool {
    lower_contains(n.metadata.title, ql)
}

/// Body match, or, for a note without body, excerpt match.
pub open spec fn content_match(n: NoteView, ql: Seq<char>) -> bool {
    content_contains_spec(n, ql) || (n.content is None && lower_contains(n.excerpt, ql))
}

pub open spec fn is_hit(n: NoteView, ql: Seq<char>) -> bool {
    title_match(n, ql) || content_match(n, ql)
}

/// The result for a hit: a snippet of the body, or the excerpt.
pub open spec fn hit_result(n: NoteView, q: Seq<char>) -> SearchResultView {
    SearchResultView {
        path: n.path,
        title: n.metadata.title,
        snippet: if n.content is Some {
            snippet_note_spec(n, q)
        } else {
            match n.excerpt {
                Some(e) => e,
                None => Seq::empty(),
            }
        },
    }
}

/// Title matches first, then paths in descending order.
pub open spec fn hit_before(a: (bool, SearchResultView), b: (bool, SearchResultView)) -> bool {
    (a.0 && !b.0) || (a.0 == b.0 && lex_lt(b.1.path, a.1.path))
}

/// The hits, each with whether its title matched, in note order.
pub open spec fn hits(notes: Seq<NoteView>, q: Seq<char>) -> Seq<(bool, SearchResultView)>
    decreases notes.len(),
{
    if notes.len() == 0 {
        Seq::empty()
    } else {
        let n = notes.last();
        let rest = hits(notes.drop_last(), q);
        let ql = lowercase(q);
        if is_hit(n, ql) {
            rest.push((title_match(n, ql), hit_result(n, q)))
        } else {
            rest
        }
    }
}

/// What `search_notes` gives: nothing for a query under two bytes once
/// trimmed; else the hits, title matches first, then by descending path,
/// at most twenty.
pub open spec fn search_spec(notes: Seq<NoteView>, q: Seq<char>) -> Seq<SearchResultView> {
    if encode_utf8(trim(q)).len() < 2 {
        Seq::empty()
    } else {
        let sorted = sort_by_spec(
            hits(notes, q),
            |a: (bool, SearchResultView), b: (bool, SearchResultView)| hit_before(a, b),
        );
        let n = if sorted.len() < 20 {
            sorted.len() as int
        } else {
            20
        };
        sorted.take(n).map_values(|h: (bool, SearchResultView)| h.1)
    }
}

/// Notes and queries on which `search_notes` does not panic: every hit
/// with a body can be snippeted.
pub open spec fn search_safe(notes: Seq<NoteView>, q: Seq<char>) -> bool {
    encode_utf8(trim(q)).len() >= 2 ==> forall|i: int|
        0 <= i < notes.len() && is_hit(#[trigger] notes[i], lowercase(q)) ==> snippet_note_safe(
            notes[i],
            q,
        )
}

pub open spec fn result_views(v: Seq<SearchResult>) -> Seq<SearchResultView> {
    v.map_values(|r: SearchResult| r@)
}

pub open spec fn hit_views(v: Seq<(bool, SearchResult)>) -> Seq<(bool, SearchResultView)> {
    v.map_values(|h: (bool, SearchResult)| (h.0, h.1@))
}

fn lower_contains_exec(s: &Option<String>, ql: &Vec<char>) -> (r: bool)
    ensures
        r == lower_contains(opt_view(*s), ql@),
{
    match s {
        Some(t) => {
            let tl = str_chars(to_lowercase(t.as_str()).as_str());
            find_exec(&tl, ql).is_some()
        },
        None => false,
    }
}

/// The outcome of a search that may hit a body it cannot snippet.
enum Scan {
    Done(Vec<(bool, SearchResult)>),
    Unsafe,
}

fn collect_hits(notes: &Vec<Note>, query: &str) -> (r: Scan)
    ensures
        r matches Scan::Done(v) ==> hit_views(v@) == hits(note_views(notes@), query@)
            && forall|i: int|
            0 <= i < notes@.len() && is_hit(#[trigger] note_views(notes@)[i], lowercase(query@))
                ==> snippet_note_safe(note_views(notes@)[i], query@),
        r is Unsafe ==> exists|i: int|
            0 <= i < notes@.len() && is_hit(#[trigger] note_views(notes@)[i], lowercase(query@))
                && !snippet_note_safe(note_views(notes@)[i], query@),
{
    let ghost s = note_views(notes@);
    let ql_s = to_lowercase(query);
    let ql = str_chars(ql_s.as_str());
    let mut out: Vec<(bool, SearchResult)> = Vec::new();
    let mut i: usize = 0;
    proof {
        assert(hit_views(out@) =~= hits(s.take(0), query@));
    }
    while i < notes.len()
        invariant
            i <= notes@.len(),
            s == note_views(notes@),
            ql@ == lowercase(query@),
            ql_s@ == lowercase(query@),
            hit_views(out@) == hits(s.take(i as int), query@),
            forall|j: int|
                0 <= j < i && is_hit(#[trigger] s[j], lowercase(query@)) ==> snippet_note_safe(
                    s[j],
                    query@,
                ),
        decreases notes@.len() - i,
    {
        let n = &notes[i];
        proof {
            assert(s.take(i + 1).drop_last() =~= s.take(i as int));
            assert(s.take(i + 1).last() == n@);
            assert(s[i as int] == n@);
        }
        let tm = lower_contains_exec(&n.metadata.title, &ql);
        let body_hit = n.content_contains_lowercase(ql_s.as_str());
        let excerpt_hit = n.content.is_none() && lower_contains_exec(&n.excerpt, &ql);
        let cm = body_hit || excerpt_hit;
        proof {
            assert(tm == title_match(n@, ql@));
            assert(cm == content_match(n@, ql@));
            assert((tm || cm) == is_hit(s[i as int], lowercase(query@)));
        }
        if tm || cm {
            let snippet = if n.content.is_some() {
                match n.checked_snippet_around(query) {
                    Some(sn) => sn,
                    None => {
                        return Scan::Unsafe;
                    },
                }
            } else {
                match &n.excerpt {
                    Some(e) => e.clone(),
                    None => String::new(),
                }
            };
            let ghost old_out = hit_views(out@);
            out.push((tm, SearchResult { path: n.path.clone(), title: clone_opt(&n.metadata.title), snippet }));
            proof {
                assert(hit_views(out@) =~= old_out.push((title_match(n@, ql@), hit_result(n@, query@))));
            }
        }
        i = i + 1;
    }
    proof {
        assert(s.take(notes@.len() as int) =~= s);
    }
    Scan::Done(out)
}

impl SearchResult {
    pub fn duplicate(&self) -> (r: SearchResult)
        ensures
            r@ == self@,
    {
        SearchResult {
            path: self.path.clone(),
            title: clone_opt(&self.title),
            snippet: self.snippet.clone(),
        }
    }
}

fn sort_hits(v: &Vec<(bool, SearchResult)>) -> (r: Vec<(bool, SearchResult)>)
    ensures
        hit_views(r@) == sort_by_spec(
            hit_views(v@),
            |a: (bool, SearchResultView), b: (bool, SearchResultView)| hit_before(a, b),
        ),
{
    let ghost before = |a: (bool, SearchResultView), b: (bool, SearchResultView)| hit_before(a, b);
    let ghost s = hit_views(v@);
    let mut out: Vec<(bool, SearchResult)> = Vec::new();
    let mut i: usize = 0;
    proof {
        assert(s.take(0) =~= Seq::<(bool, SearchResultView)>::empty());
        assert(hit_views(out@) =~= Seq::<(bool, SearchResultView)>::empty());
    }
    while i < v.len()
        invariant
            i <= v@.len(),
            s == hit_views(v@),
            before == (|a: (bool, SearchResultView), b: (bool, SearchResultView)| hit_before(a, b)),
            hit_views(out@) == sort_by_spec(s.take(i as int), before),
        decreases v@.len() - i,
    {
        let x = &v[i];
        let ghost xv = (x.0, x.1@);
        proof {
            assert(xv == s[i as int]);
        }
        let mut p: usize = 0;
        while p < out.len() && !((x.0 && !out[p].0) || (x.0 == out[p].0 && lex_lt_str(
            out[p].1.path.as_str(),
            x.1.path.as_str(),
        )))
            invariant
                p <= out@.len(),
                before == (|a: (bool, SearchResultView), b: (bool, SearchResultView)| hit_before(a, b)),
                xv == (x.0, x.1@),
                forall|j: int| 0 <= j < p ==> !before(xv, #[trigger] hit_views(out@)[j]),
            decreases out@.len() - p,
        {
            proof {
                assert(hit_views(out@)[p as int] == (out@[p as int].0, out@[p as int].1@));
            }
            p = p + 1;
        }
        let ghost o = hit_views(out@);
        proof {
            if p < out@.len() {
                assert(hit_views(out@)[p as int] == (out@[p as int].0, out@[p as int].1@));
            }
            assert(insert_pos(o, xv, before, p as int));
            lemma_insert_by(o, xv, before, p as int);
            assert(s.take(i + 1).drop_last() =~= s.take(i as int));
            assert(s.take(i + 1).last() == xv);
        }
        out.insert(p, (x.0, x.1.duplicate()));
        proof {
            assert(hit_views(out@) =~= o.take(p as int) + seq![xv] + o.skip(p as int));
        }
        i = i + 1;
    }
    proof {
        assert(s.take(v@.len() as int) =~= s);
    }
    out
}

/// Searches titles and bodies (excerpts for notes without body) for a
/// query, case-insensitively; title matches first, then by descending path,
/// at most twenty results.
pub fn search_notes(notes: &Vec<Note>, query: &str) -> (r: Vec<SearchResult>)
    requires
        search_safe(note_views(notes@), query@),
    ensures
        result_views(r@) == search_spec(note_views(notes@), query@),
{
    match checked_search_notes(notes, query) {
        Some(r) => r,
        None => Vec::new(),
    }
}

/// `search_notes` where it does not panic; `None` where it would.
pub fn checked_search_notes(notes: &Vec<Note>, query: &str) -> (r: Option<Vec<SearchResult>>)
    ensures
        r matches Some(v) ==> search_safe(note_views(notes@), query@) && result_views(v@)
            == search_spec(note_views(notes@), query@),
        r is None ==> !search_safe(note_views(notes@), query@),
{
    let qv = str_chars(query);
    let n: usize = qv.len();
    let (a, b) = trim_bounds(&qv, 0, n);
    let t = copy_range(&qv, a, b);
    proof {
        assert(qv@.subrange(0, n as int) =~= qv@);
    }
    if byte_len_le(&t, 1) {
        proof {
            crate::chars::lemma_byte_len_encode(t@);
        }
        return Some(Vec::new());
    }
    proof {
        crate::chars::lemma_byte_len_encode(t@);
    }
    let found = match collect_hits(notes, query) {
        Scan::Done(v) => v,
        Scan::Unsafe => {
            return None;
        },
    };
    let sorted = sort_hits(&found);
    let ghost sv = hit_views(sorted@);
    let mut out: Vec<SearchResult> = Vec::new();
    let mut i: usize = 0;
    let limit: usize = if sorted.len() < 20 {
        sorted.len()
    } else {
        20
    };
    while i < limit
        invariant
            i <= limit <= sorted@.len(),
            sv == hit_views(sorted@),
            out@.len() == i,
            forall|k: int| 0 <= k < i ==> (#[trigger] out@[k])@ == sv[k].1,
        decreases limit - i,
    {
        out.push(sorted[i].1.duplicate());
        i = i + 1;
    }
    proof {
        assert(result_views(out@) =~= sv.take(limit as int).map_values(
            |h: (bool, SearchResultView)| h.1,
        ));
    }
    proof {
        crate::order::lemma_sort_by_len(
            hits(note_views(notes@), query@),
            |a: (bool, SearchResultView), b: (bool, SearchResultView)| hit_before(a, b),
        );
    }
    Some(out)
}

// ---------------------------------------------------------------------------
// The search box
// ---------------------------------------------------------------------------

/// The results for what is typed: none under two bytes, else the search.
pub open spec fn typed_results(notes: Seq<NoteView>, q: Seq<char>) -> Seq<SearchResultView> {
    if encode_utf8(q).len() < 2 {
        Seq::empty()
    } else {
        search_spec(notes, q)
    }
}

/// What is typed in the search box, its results, and which result is
/// selected.
pub struct SearchState {
    query: String,
    results: Vec<SearchResult>,
    selected_index: usize,
}

impl SearchState {
    #[verifier::type_invariant]
    spec fn selection_in_range(self) -> bool {
        self.selected_index == 0 || self.selected_index < self.results@.len()
    }

    pub closed spec fn query_view(&self) -> Seq<char> {
        self.query@
    }

    pub closed spec fn results_view(&self) -> Seq<SearchResultView> {
        result_views(self.results@)
    }

    pub closed spec fn selected(&self) -> nat {
        self.selected_index as nat
    }

    /// An empty search box.
    pub fn new() -> (r: SearchState)
        ensures
            r.query_view() == Seq::<char>::empty(),
            r.results_view() == Seq::<SearchResultView>::empty(),
            r.selected() == 0,
    {
        let results: Vec<SearchResult> = Vec::new();
        proof {
            assert(result_views(results@) =~= Seq::<SearchResultView>::empty());
        }
        SearchState { query: String::new(), results, selected_index: 0 }
    }

    /// Types a query: the results follow it and the selection returns to
    /// the first result.
    pub fn set_query(&mut self, notes: &Vec<Note>, query: String)
        requires
            encode_utf8(query@).len() >= 2 ==> search_safe(note_views(notes@), query@),
        ensures
            final(self).query_view() == query@,
            final(self).results_view() == typed_results(note_views(notes@), query@),
            final(self).selected() == 0,
    {
        let qv = str_chars(query.as_str());
        proof {
            crate::chars::lemma_byte_len_encode(qv@);
        }
        let results = if byte_len_le(&qv, 1) {
            let v: Vec<SearchResult> = Vec::new();
            proof {
                assert(result_views(v@) =~= Seq::<SearchResultView>::empty());
            }
            v
        } else {
            search_notes(notes, query.as_str())
        };
        *self = SearchState { query, results, selected_index: 0 };
    }

    /// Moves the selection down, stopping at the last result.
    pub fn select_next(&mut self)
        ensures
            final(self).query_view() == old(self).query_view(),
            final(self).results_view() == old(self).results_view(),
            final(self).selected() == if old(self).selected() + 1 < old(self).results_view().len() {
                old(self).selected() + 1
            } else {
                old(self).selected()
            },
            final(self).selected() == 0 || final(self).selected() < final(self).results_view().len(),
    {
        proof {
            use_type_invariant(&*self);
        }
        let n = self.results.len();
        let max: usize = if n > 0 {
            n - 1
        } else {
            0
        };
        if self.selected_index < max {
            self.selected_index = self.selected_index + 1;
        }
    }

    /// Moves the selection up, stopping at the first result.
    pub fn select_prev(&mut self)
        ensures
            final(self).query_view() == old(self).query_view(),
            final(self).results_view() == old(self).results_view(),
            final(self).selected() == if old(self).selected() > 0 {
                (old(self).selected() - 1) as nat
            } else {
                0
            },
            final(self).selected() == 0 || final(self).selected() < final(self).results_view().len(),
    {
        proof {
            use_type_invariant(&*self);
        }
        if self.selected_index > 0 {
            self.selected_index = self.selected_index - 1;
        }
    }

    /// The selected result, when there is one: there is one whenever there
    /// are results, the selection never passing the last of them.
    pub fn selected_result(&self) -> (r: Option<SearchResult>)
        ensures
            self.results_view().len() > 0 ==> r is Some,
            match r {
                Some(x) => self.selected() < self.results_view().len() && x@
                    == self.results_view()[self.selected() as int],
                None => self.selected() >= self.results_view().len(),
            },
    {
        proof {
            use_type_invariant(self);
        }
        if self.selected_index < self.results.len() {
            Some(self.results[self.selected_index].duplicate())
        } else {
            None
        }
    }

    /// Empties the search box.
    pub fn clear(&mut self)
        ensures
            final(self).query_view() == Seq::<char>::empty(),
            final(self).results_view() == Seq::<SearchResultView>::empty(),
            final(self).selected() == 0,
    {
        *self = SearchState::new();
    }

    pub fn has_results(&self) -> (r: bool)
        ensures
            r == (self.results_view().len() > 0),
    {
        self.results.len() > 0
    }
}

/// What the page does after a key press in the search box.
pub enum ModalAction {
    /// Nothing: the key is left to the browser.
    Ignore,
    /// The key was used: the browser must not handle it too.
    Handled,
    /// The box was emptied and is closed.
    Close,
    /// The box was emptied and closed; the page goes to this address.
    Navigate(String),
}

pub enum ModalActionView {
    Ignore,
    Handled,
    Close,
    Navigate(Seq<char>),
}

impl View for ModalAction {
    type V = ModalActionView;

    open spec fn view(&self) -> ModalActionView {
        match self {
            ModalAction::Ignore => ModalActionView::Ignore,
            ModalAction::Handled => ModalActionView::Handled,
            ModalAction::Close => ModalActionView::Close,
            ModalAction::Navigate(u) => ModalActionView::Navigate(u@),
        }
    }
}

impl SearchState {
    pub open spec fn is_cleared(&self) -> bool {
        &&& self.query_view() == Seq::<char>::empty()
        &&& self.results_view() == Seq::<SearchResultView>::empty()
        &&& self.selected() == 0
    }

    /// A key pressed in the search box: `Escape` closes it, the arrows move
    /// the selection, `Enter` goes to the selected note (the box closes),
    /// and other keys are left alone.
    pub fn on_key(&mut self, key: &str, notes: &NotesConfig) -> (r: ModalAction)
        ensures
            key@ == "Escape"@ ==> r@ == ModalActionView::Close && final(self).is_cleared(),
            key@ == "ArrowDown"@ ==> r@ == ModalActionView::Handled
                && final(self).query_view() == old(self).query_view()
                && final(self).results_view() == old(self).results_view()
                && final(self).selected() == if old(self).selected() + 1 < old(
                    self,
                ).results_view().len() {
                    old(self).selected() + 1
                } else {
                    old(self).selected()
                },
            key@ == "ArrowUp"@ ==> r@ == ModalActionView::Handled
                && final(self).query_view() == old(self).query_view()
                && final(self).results_view() == old(self).results_view()
                && final(self).selected() == if old(self).selected() > 0 {
                    (old(self).selected() - 1) as nat
                } else {
                    0
                },
            key@ == "Enter"@ ==> if old(self).selected() < old(self).results_view().len() {
                r@ == ModalActionView::Navigate(
                    notes.prefix@ + seq!['/'] + old(self).results_view()[old(
                        self,
                    ).selected() as int].path,
                ) && final(self).is_cleared()
            } else {
                r@ == ModalActionView::Handled && final(self).query_view() == old(self).query_view()
                    && final(self).results_view() == old(self).results_view()
                    && final(self).selected() == old(self).selected()
            },
            key@ != "Escape"@ && key@ != "ArrowDown"@ && key@ != "ArrowUp"@ && key@ != "Enter"@
                ==> r@ == ModalActionView::Ignore && final(self).query_view() == old(
                self,
            ).query_view() && final(self).results_view() == old(self).results_view()
                && final(self).selected() == old(self).selected(),
    {
        proof {
            reveal_strlit("Escape");
            reveal_strlit("ArrowDown");
            reveal_strlit("ArrowUp");
            reveal_strlit("Enter");
            // the four keys have four lengths
            assert("Escape"@.len() == 6 && "ArrowDown"@.len() == 9);
            assert("ArrowUp"@.len() == 7 && "Enter"@.len() == 5);
        }
        let k = str_chars(key);
        if eq_str(&k, "Escape") {
            self.clear();
            ModalAction::Close
        } else if eq_str(&k, "ArrowDown") {
            self.select_next();
            ModalAction::Handled
        } else if eq_str(&k, "ArrowUp") {
            self.select_prev();
            ModalAction::Handled
        } else if eq_str(&k, "Enter") {
            match self.selected_result() {
                Some(result) => {
                    let url = notes.note_url(result.path.as_str());
                    self.clear();
                    ModalAction::Navigate(url)
                },
                None => ModalAction::Handled,
            }
        } else {
            ModalAction::Ignore
        }
    }
}

/// Whether a key press opens or closes the search box: `k` with Control
/// or Meta held.
pub fn shortcut_toggles(ctrl: bool, meta: bool, key: &str) -> (r: bool)
    ensures
        r == ((ctrl || meta) && key@ == "k"@),
{
    let k = str_chars(key);
    (ctrl || meta) && eq_str(&k, "k")
}

proof fn lemma_hits_keep_every_hit(notes: Seq<NoteView>, q: Seq<char>, j: int)
    requires
        0 <= j < notes.len(),
        is_hit(notes[j], lowercase(q)),
    ensures
        hits(notes, q).contains((title_match(notes[j], lowercase(q)), hit_result(notes[j], q))),
    decreases notes.len(),
{
    let t = notes.drop_last();
    let h = (title_match(notes[j], lowercase(q)), hit_result(notes[j], q));
    if j == notes.len() - 1 {
        let r = hits(notes, q);
        assert(r == hits(t, q).push(h));
        assert(r[r.len() - 1] == h);
    } else {
        assert(t[j] == notes[j]);
        lemma_hits_keep_every_hit(t, q, j);
        let r0 = hits(t, q);
        let i = choose|i: int| 0 <= i < r0.len() && r0[i] == h;
        if is_hit(notes.last(), lowercase(q)) {
            assert(hits(notes, q)[i] == h);
        }
    }
}

/// Search finds every note it matches, so long as fewer than twenty results
/// come back: a note whose title, body, or (when it has no body) excerpt
/// contains the query once both are lower-cased is among the results, with
/// its path and title.
pub proof fn lemma_search_finds_every_match(notes: Seq<NoteView>, q: Seq<char>, j: int)
    requires
        encode_utf8(trim(q)).len() >= 2,
        0 <= j < notes.len(),
        ({
            let n = notes[j];
            let ql = lowercase(q);
            ||| (n.metadata.title matches Some(t) && contains(lowercase(t), ql))
            ||| (n.content matches Some(c) && contains(lowercase(c), ql))
            ||| (n.content is None && (n.excerpt matches Some(e) && contains(lowercase(e), ql)))
        }),
        search_spec(notes, q).len() < 20,
    ensures
        exists|i: int|
            0 <= i < search_spec(notes, q).len() && (#[trigger] search_spec(notes, q)[i]).path
                == notes[j].path && search_spec(notes, q)[i].title == notes[j].metadata.title,
{
    let before = |a: (bool, SearchResultView), b: (bool, SearchResultView)| hit_before(a, b);
    let hs = hits(notes, q);
    let h = (title_match(notes[j], lowercase(q)), hit_result(notes[j], q));
    lemma_hits_keep_every_hit(notes, q, j);
    crate::order::lemma_sort_by_contains(hs, before, h);
    crate::order::lemma_sort_by_len(hs, before);
    let sorted = sort_by_spec(hs, before);
    assert(sorted.len() < 20);
    assert(sorted.take(sorted.len() as int) =~= sorted);
    let k = choose|k: int| 0 <= k < sorted.len() && sorted[k] == h;
    let r = search_spec(notes, q);
    assert(r == sorted.map_values(|x: (bool, SearchResultView)| x.1));
    assert(r[k] == h.1);
}

} // verus!
