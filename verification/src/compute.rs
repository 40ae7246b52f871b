//! Computations over the note corpus: links between notes, backlinks,
//! filtering, grouping by year and identifier maps.
use vstd::prelude::*;
use crate::chars::{copy_range, eq_str, find_in_suffix, lemma_find_from_spec, matches_at, starts_with, str_chars, eq_exec};
use crate::denote::{id_parse_safe, parse_id_spec, DenoteId};
use crate::models::{asset_views, id_views, note_views, summary_spec, Asset, Note, NoteId, NoteView};
use crate::order::{insert_pos, lemma_insert_by, lex_lt, lex_lt_str, sort_by_spec};
use crate::strmap::{StrMap, put_pair};

verus! {

broadcast use vstd::string::group_string_axioms;

// ---------------------------------------------------------------------------
// Links
// ---------------------------------------------------------------------------

/// `[[denote:`
pub open spec fn denote_link_pat() -> Seq<char> {
    seq!['[', '[', 'd', 'e', 'n', 'o', 't', 'e', ':']
}

/// `id` follows some `[[denote:` of the text.
pub open spec fn is_link_id(s: Seq<char>, id: Seq<char>) -> bool {
    exists|k: int| matches_at(s, denote_link_pat(), k) && parse_id_spec(s.skip(k + 9)) == Some(id)
}

/// Texts on which `extract_denote_link_ids` does not panic: after each
/// `[[denote:` it cuts fifteen bytes, which must end between characters.
pub open spec fn links_safe(s: Seq<char>) -> bool {
    forall|k: int| matches_at(s, denote_link_pat(), k) ==> id_parse_safe(#[trigger] s.skip(k + 9))
}

proof fn lemma_parse_id_window(s: Seq<char>)
    ensures
        parse_id_spec(s) == parse_id_spec(s.take(if s.len() < 15 { s.len() as int } else { 15 })),
{
    let w = s.take(if s.len() < 15 { s.len() as int } else { 15 });
    if s.len() >= 15 {
        assert(w.take(15) =~= s.take(15));
    }
}

fn contains_id(ids: &Vec<NoteId>, id: &str) -> (r: bool)
    ensures
        r == id_views(ids@).contains(id@),
{
    let iv = str_chars(id);
    let mut i: usize = 0;
    while i < ids.len()
        invariant
            i <= ids@.len(),
            iv@ == id@,
            forall|j: int| 0 <= j < i ==> ids@[j]@ != id@,
        decreases ids@.len() - i,
    {
        let cur = str_chars(ids[i].as_str());
        if eq_exec(&cur, &iv) {
            proof {
                assert(id_views(ids@)[i as int] == id@);
            }
            return true;
        }
        i = i + 1;
    }
    proof {
        if id_views(ids@).contains(id@) {
            let j = choose|j: int| 0 <= j < id_views(ids@).len() && id_views(ids@)[j] == id@;
            assert(ids@[j]@ == id@);
        }
    }
    false
}

/// The ids of the notes a text links to with `[[denote:ID`, each once, in
/// order of first appearance.
pub fn extract_denote_link_ids(content: &str) -> (r: Vec<NoteId>)
    requires
        links_safe(content@),
    ensures
        id_views(r@).no_duplicates(),
        forall|id: Seq<char>| id_views(r@).contains(id) <==> is_link_id(content@, id),
{
    let v = str_chars(content);
    let pat = vec!['[', '[', 'd', 'e', 'n', 'o', 't', 'e', ':'];
    proof {
        assert(pat@ =~= denote_link_pat());
    }
    let n: usize = v.len();
    let mut out: Vec<NoteId> = Vec::new();
    let mut i: usize = 0;
    while i < n
        invariant
            i <= n,
            n == v@.len(),
            v@ == content@,
            pat@ == denote_link_pat(),
            id_views(out@).no_duplicates(),
            forall|id: Seq<char>|
                id_views(out@).contains(id) <==> exists|k: int|
                    0 <= k < i && matches_at(v@, denote_link_pat(), k) && parse_id_spec(
                        #[trigger] v@.skip(k + 9),
                    ) == Some(id),
        decreases n - i,
    {
        let ghost old_out = out@;
        match find_in_suffix(&v, &pat, i) {
            Some(k) => {
                let at = i + k;
                proof {
                    lemma_find_from_spec(v@.skip(i as int), denote_link_pat(), 0);
                    assert forall|j: int| i <= j < at implies !matches_at(
                        v@,
                        denote_link_pat(),
                        j,
                    ) by {
                        crate::chars::lemma_matches_skip(v@, denote_link_pat(), i as int, j - i);
                    }
                }
                let end: usize = if n - (at + 9) < 15 {
                    n
                } else {
                    at + 24
                };
                let window = copy_range(&v, at + 9, end);
                proof {
                    lemma_parse_id_window(v@.skip(at + 9));
                    assert(window@ =~= v@.skip(at + 9).take(
                        if v@.skip(at + 9).len() < 15 {
                            v@.skip(at + 9).len() as int
                        } else {
                            15
                        },
                    ));
                }
                let ghost pid = parse_id_spec(v@.skip(at + 9));
                match DenoteId::parse_chars(&window) {
                    Some(id) => {
                        if !contains_id(&out, id.as_str()) {
                            out.push(NoteId::new(id.as_str()));
                            proof {
                                assert(id_views(out@) =~= id_views(old_out).push(id@));
                            }
                        }
                    },
                    None => {},
                }
                proof {
                    assert forall|id: Seq<char>| id_views(out@).contains(id) implies exists|kk: int|
                        0 <= kk < at + 1 && matches_at(v@, denote_link_pat(), kk) && parse_id_spec(
                            #[trigger] v@.skip(kk + 9),
                        ) == Some(id) by {
                        let j = choose|j: int| 0 <= j < id_views(out@).len() && id_views(out@)[j] == id;
                        if j < old_out.len() {
                            assert(id_views(old_out)[j] == id_views(out@)[j]);
                            assert(id_views(old_out).contains(id));
                        } else {
                            assert(pid == Some(id));
                            assert(matches_at(v@, denote_link_pat(), at as int));
                        }
                    }
                    assert forall|id: Seq<char>| (exists|kk: int|
                        0 <= kk < at + 1 && matches_at(v@, denote_link_pat(), kk) && parse_id_spec(
                            #[trigger] v@.skip(kk + 9),
                        ) == Some(id)) implies id_views(out@).contains(id) by {
                        let kk = choose|kk: int|
                            0 <= kk < at + 1 && matches_at(v@, denote_link_pat(), kk)
                                && parse_id_spec(#[trigger] v@.skip(kk + 9)) == Some(id);
                        if kk < i {
                            assert(id_views(old_out).contains(id));
                            let j = choose|j: int|
                                0 <= j < id_views(old_out).len() && id_views(old_out)[j] == id;
                            assert(id_views(out@)[j] == id);
                        } else {
                            assert(kk == at);
                            assert(pid == Some(id));
                            if id_views(old_out).contains(id) {
                                let j = choose|j: int|
                                    0 <= j < id_views(old_out).len() && id_views(old_out)[j] == id;
                                assert(id_views(out@)[j] == id);
                            } else {
                                assert(id_views(out@)[old_out.len() as int] == id);
                            }
                        }
                    }
                }
                i = at + 1;
            },
            None => {
                proof {
                    lemma_find_from_spec(v@.skip(i as int), denote_link_pat(), 0);
                    assert forall|j: int| i <= j implies !matches_at(v@, denote_link_pat(), j) by {
                        crate::chars::lemma_matches_skip(v@, denote_link_pat(), i as int, j - i);
                    }
                    assert forall|id: Seq<char>| id_views(out@).contains(id) <==> exists|kk: int|
                        0 <= kk < n && matches_at(v@, denote_link_pat(), kk) && parse_id_spec(
                            #[trigger] v@.skip(kk + 9),
                        ) == Some(id) by {}
                }
                i = n;
            },
        }
    }
    proof {
        assert forall|id: Seq<char>| id_views(out@).contains(id) <==> is_link_id(content@, id) by {
            if is_link_id(content@, id) {
                let k = choose|k: int|
                    matches_at(v@, denote_link_pat(), k) && parse_id_spec(v@.skip(k + 9)) == Some(
                        id,
                    );
                assert(0 <= k < n);
            }
        }
    }
    out
}

// ---------------------------------------------------------------------------
// Identifier maps
// ---------------------------------------------------------------------------

/// Id → path of the notes that have an id; a later note wins.
pub open spec fn id_map_spec(s: Seq<NoteView>) -> Map<Seq<char>, Seq<char>>
    decreases s.len(),
{
    if s.len() == 0 {
        Map::empty()
    } else {
        let m = id_map_spec(s.drop_last());
        match s.last().metadata.id {
            Some(id) => m.insert(id, s.last().path),
            None => m,
        }
    }
}

/// The (id, path) pairs of the id map in the order their ids first appear.
pub open spec fn id_pairs(s: Seq<NoteView>) -> Seq<(Seq<char>, Seq<char>)>
    decreases s.len(),
{
    if s.len() == 0 {
        Seq::empty()
    } else {
        let m = id_pairs(s.drop_last());
        match s.last().metadata.id {
            Some(id) => put_pair(m, (id, s.last().path)),
            None => m,
        }
    }
}

/// Map from note id to note path.
pub fn compute_id_map(notes: &Vec<Note>) -> (r: StrMap)
    ensures
        r@ == id_map_spec(note_views(notes@)),
        r.pairs() == id_pairs(note_views(notes@)),
{
    let mut m = StrMap::new();
    let mut i: usize = 0;
    while i < notes.len()
        invariant
            i <= notes@.len(),
            m@ == id_map_spec(note_views(notes@).take(i as int)),
            m.pairs() == id_pairs(note_views(notes@).take(i as int)),
        decreases notes@.len() - i,
    {
        proof {
            assert(note_views(notes@).take(i + 1).drop_last() =~= note_views(notes@).take(
                i as int,
            ));
        }
        match &notes[i].metadata.id {
            Some(id) => {
                m.insert(id.as_str().to_owned(), notes[i].path.clone());
            },
            None => {},
        }
        i = i + 1;
    }
    proof {
        assert(note_views(notes@).take(notes@.len() as int) =~= note_views(notes@));
    }
    m
}

/// Denote id → file name of the assets; a later asset wins.
pub open spec fn asset_map_spec(s: Seq<crate::models::AssetView>) -> Map<Seq<char>, Seq<char>>
    decreases s.len(),
{
    if s.len() == 0 {
        Map::empty()
    } else {
        asset_map_spec(s.drop_last()).insert(s.last().denote_id, s.last().filename)
    }
}

/// Map from asset denote id to asset file name.
pub fn compute_asset_map(assets: &Vec<Asset>) -> (r: StrMap)
    ensures
        r@ == asset_map_spec(asset_views(assets@)),
{
    let mut m = StrMap::new();
    let mut i: usize = 0;
    while i < assets.len()
        invariant
            i <= assets@.len(),
            m@ == asset_map_spec(asset_views(assets@).take(i as int)),
        decreases assets@.len() - i,
    {
        proof {
            assert(asset_views(assets@).take(i + 1).drop_last() =~= asset_views(assets@).take(
                i as int,
            ));
        }
        m.insert(assets[i].denote_id.clone(), assets[i].filename.clone());
        i = i + 1;
    }
    proof {
        assert(asset_views(assets@).take(assets@.len() as int) =~= asset_views(assets@));
    }
    m
}

// ---------------------------------------------------------------------------
// Filtering and grouping
// ---------------------------------------------------------------------------

pub open spec fn has_type(n: NoteView, t: Seq<char>) -> bool {
    n.metadata.note_type == Some(t)
}

/// The notes of one type, in order.
pub fn filter_by_type(notes: &Vec<Note>, note_type: &str) -> (r: Vec<Note>)
    ensures
        note_views(r@) == note_views(notes@).filter(|n: NoteView| has_type(n, note_type@)),
{
    let mut r: Vec<Note> = Vec::new();
    let mut i: usize = 0;
    let tv = str_chars(note_type);
    while i < notes.len()
        invariant
            i <= notes@.len(),
            tv@ == note_type@,
            note_views(r@) == note_views(notes@).take(i as int).filter(
                |n: NoteView| has_type(n, note_type@),
            ),
        decreases notes@.len() - i,
    {
        let ghost pred = |n: NoteView| has_type(n, note_type@);
        proof {
            assert(note_views(notes@).take(i + 1) =~= note_views(notes@).take(i as int).push(
                notes@[i as int]@,
            ));
            note_views(notes@).take(i as int).lemma_filter_push(notes@[i as int]@, pred);
        }
        let matches = match &notes[i].metadata.note_type {
            Some(t) => eq_str(&tv, t.as_str()),
            None => false,
        };
        if matches {
            let ghost old_r = r@;
            r.push(notes[i].duplicate());
            proof {
                assert(note_views(r@) =~= note_views(old_r).push(notes@[i as int]@));
            }
        }
        i = i + 1;
    }
    proof {
        assert(note_views(notes@).take(notes@.len() as int) =~= note_views(notes@));
    }
    r
}

pub open spec fn group_views(v: Seq<(String, Vec<Note>)>) -> Seq<(Seq<char>, Seq<NoteView>)> {
    v.map_values(|g: (String, Vec<Note>)| (g.0@, note_views(g.1@)))
}

/// The notes of the groups, one group after the other.
pub open spec fn flat_groups(g: Seq<(Seq<char>, Seq<NoteView>)>) -> Seq<NoteView>
    decreases g.len(),
{
    if g.len() == 0 {
        Seq::empty()
    } else {
        flat_groups(g.drop_last()) + g.last().1
    }
}

/// `k` labels the note: a result the year extractor may give for the
/// note's date, or `Unknown` for a note without a date.
pub open spec fn year_label<F: Fn(&str) -> String>(f: F, n: NoteView, k: Seq<char>) -> bool {
    match n.metadata.date {
        Some(d) => exists|x: &str, y: String| x@ == d && #[trigger] call_ensures(f, (x,), y) && y@ == k,
        None => k == "Unknown"@,
    }
}

/// Groups cut from the notes: every group holds a note, two groups in a row
/// have different labels, and every note carries its group's label.
pub open spec fn grouped_by<F: Fn(&str) -> String>(f: F, g: Seq<(Seq<char>, Seq<NoteView>)>) -> bool {
    &&& forall|i: int| 0 <= i < g.len() ==> (#[trigger] g[i]).1.len() > 0
    &&& forall|i: int| 0 <= i < g.len() - 1 ==> (#[trigger] g[i]).0 != g[i + 1].0
    &&& forall|i: int, j: int|
        0 <= i < g.len() && 0 <= j < g[i].1.len() ==> year_label(f, #[trigger] g[i].1[j], g[i].0)
}

/// Groups notes by year, keeping runs of notes with the same label together
/// in order (the input is expected sorted by date): the label of a note is
/// what `extract_year` gives for its date, or `Unknown` without a date.
pub fn group_by_year<F: Fn(&str) -> String>(notes: Vec<Note>, extract_year: F) -> (r: Vec<(String, Vec<Note>)>)
    requires
        forall|x: &str| extract_year.requires((x,)),
    ensures
        flat_groups(group_views(r@)) == note_views(notes@),
        grouped_by(extract_year, group_views(r@)),
{
    let ghost all = note_views(notes@);
    let mut groups: Vec<(String, Vec<Note>)> = Vec::new();
    let mut i: usize = 0;
    proof {
        assert(group_views(groups@) =~= Seq::<(Seq<char>, Seq<NoteView>)>::empty());
        assert(all.take(0) =~= Seq::<NoteView>::empty());
    }
    while i < notes.len()
        invariant
            i <= notes@.len(),
            all == note_views(notes@),
            forall|x: &str| extract_year.requires((x,)),
            flat_groups(group_views(groups@)) == all.take(i as int),
            grouped_by(extract_year, group_views(groups@)),
        decreases notes@.len() - i,
    {
        let note = notes[i].duplicate();
        proof {
            reveal_strlit("Unknown");
        }
        let year = match &note.metadata.date {
            Some(d) => {
                let ds = d.as_str();
                let y = extract_year(ds);
                proof {
                    assert(ds@ == d@);
                    assert(call_ensures(extract_year, (ds,), y));
                }
                y
            },
            None => "Unknown".to_owned(),
        };
        proof {
            assert(all.take(i + 1) =~= all.take(i as int).push(note@));
            assert(year_label(extract_year, note@, year@));
        }
        let ghost old_g = group_views(groups@);
        let n: usize = groups.len();
        let same = if n > 0 {
            let yv = str_chars(year.as_str());
            eq_str(&yv, groups[n - 1].0.as_str())
        } else {
            false
        };
        if same {
            let mut last = groups.pop().unwrap();
            let ghost lv = note_views(last.1@);
            last.1.push(note);
            proof {
                assert(note_views(last.1@) =~= lv.push(all[i as int]));
            }
            groups.push(last);
            proof {
                let g = group_views(groups@);
                assert(g =~= old_g.drop_last().push((old_g.last().0, old_g.last().1.push(all[i as int]))));
                assert(g.drop_last() =~= old_g.drop_last());
                assert(flat_groups(g) =~= flat_groups(old_g.drop_last()) + old_g.last().1 + seq![all[i as int]]);
                assert forall|a: int, j: int|
                    0 <= a < g.len() && 0 <= j < g[a].1.len() implies year_label(extract_year, #[trigger] g[a].1[j], g[a].0) by {
                    if a < g.len() - 1 {
                        assert(g[a] == old_g[a]);
                    } else if j < g[a].1.len() - 1 {
                        assert(g[a].1[j] == old_g[a].1[j]);
                    }
                }
                assert forall|a: int| 0 <= a < g.len() - 1 implies (#[trigger] g[a]).0 != g[a + 1].0 by {
                    assert(g[a].0 == old_g[a].0 && g[a + 1].0 == old_g[a + 1].0);
                }
            }
        } else {
            let mut v: Vec<Note> = Vec::new();
            v.push(note);
            proof {
                assert(note_views(v@) =~= seq![all[i as int]]);
            }
            groups.push((year, v));
            proof {
                let g = group_views(groups@);
                assert(g =~= old_g.push((g.last().0, seq![all[i as int]])));
                assert(g.drop_last() =~= old_g);
                assert forall|a: int, j: int|
                    0 <= a < g.len() && 0 <= j < g[a].1.len() implies year_label(extract_year, #[trigger] g[a].1[j], g[a].0) by {
                    if a < g.len() - 1 {
                        assert(g[a] == old_g[a]);
                    }
                }
                assert forall|a: int| 0 <= a < g.len() - 1 implies (#[trigger] g[a]).0 != g[a + 1].0 by {
                    if a < g.len() - 2 {
                        assert(g[a] == old_g[a] && g[a + 1] == old_g[a + 1]);
                    }
                }
            }
        }
        i = i + 1;
    }
    proof {
        assert(all.take(notes@.len() as int) =~= all);
    }
    groups
}

// ---------------------------------------------------------------------------
// Backlinks
// ---------------------------------------------------------------------------

pub open spec fn content_text(n: NoteView) -> Seq<char> {
    match n.content {
        Some(c) => c,
        None => Seq::empty(),
    }
}

/// The note links to `target`: by its precomputed link ids, or else by its
/// body.
pub open spec fn links_to(n: NoteView, target: Seq<char>) -> bool {
    match n.link_ids {
        Some(ids) => ids.contains(target),
        None => is_link_id(content_text(n), target),
    }
}

/// A backlink of `target`: a note other than `target`'s own files and the
/// index that links to it.
pub open spec fn is_backlink(n: NoteView, target: Seq<char>) -> bool {
    !starts_with(n.filename, target) && n.filename != "index.org"@ && links_to(n, target)
}

/// Newer file names (Denote names start with their timestamp) go first.
pub open spec fn newer_first(a: NoteView, b: NoteView) -> bool {
    lex_lt(b.filename, a.filename)
}

/// What `compute_backlinks` gives: the summaries of the backlinks of
/// `target`, newest file name first.
pub open spec fn backlinks_spec(notes: Seq<NoteView>, target: Seq<char>) -> Seq<NoteView> {
    if target.len() == 0 {
        Seq::empty()
    } else {
        sort_by_spec(
            notes.filter(|n: NoteView| is_backlink(n, target)).map_values(
                |n: NoteView| summary_spec(n),
            ),
            |a: NoteView, b: NoteView| newer_first(a, b),
        )
    }
}

/// Notes whose links `compute_backlinks` reads from their bodies can be
/// scanned without panicking.
pub open spec fn backlinks_safe(notes: Seq<NoteView>) -> bool {
    forall|i: int|
        0 <= i < notes.len() && (#[trigger] notes[i]).link_ids is None ==> links_safe(
            content_text(notes[i]),
        )
}

fn links_to_exec(n: &Note, target: &str) -> (r: bool)
    requires
        n@.link_ids is None ==> links_safe(content_text(n@)),
    ensures
        r == links_to(n@, target@),
{
    match &n.link_ids {
        Some(ids) => contains_id(ids, target),
        None => {
            let ids = match &n.content {
                Some(c) => extract_denote_link_ids(c.as_str()),
                None => {
                    proof {
                        assert(links_safe(""@)) by {
                            reveal_strlit("");
                        }
                    }
                    extract_denote_link_ids("")
                },
            };
            proof {
                if n@.content is None {
                    reveal_strlit("");
                    assert(""@ =~= Seq::<char>::empty());
                }
            }
            contains_id(&ids, target)
        },
    }
}

/// Sorts notes by file name, newest (greatest) first, keeping equal names
/// in order.
pub fn sort_newest_first(v: &Vec<Note>) -> (r: Vec<Note>)
    ensures
        note_views(r@) == sort_by_spec(
            note_views(v@),
            |a: NoteView, b: NoteView| newer_first(a, b),
        ),
{
    let ghost before = |a: NoteView, b: NoteView| newer_first(a, b);
    let ghost s = note_views(v@);
    let mut out: Vec<Note> = Vec::new();
    let mut i: usize = 0;
    proof {
        assert(s.take(0) =~= Seq::<NoteView>::empty());
        assert(note_views(out@) =~= Seq::<NoteView>::empty());
    }
    while i < v.len()
        invariant
            i <= v@.len(),
            s == note_views(v@),
            before == (|a: NoteView, b: NoteView| newer_first(a, b)),
            note_views(out@) == sort_by_spec(s.take(i as int), before),
        decreases v@.len() - i,
    {
        let x = &v[i];
        let mut p: usize = 0;
        while p < out.len() && !lex_lt_str(out[p].filename.as_str(), x.filename.as_str())
            invariant
                p <= out@.len(),
                before == (|a: NoteView, b: NoteView| newer_first(a, b)),
                forall|j: int| 0 <= j < p ==> !before(x@, #[trigger] note_views(out@)[j]),
            decreases out@.len() - p,
        {
            proof {
                assert(note_views(out@)[p as int] == out@[p as int]@);
                assert(!before(x@, note_views(out@)[p as int]));
            }
            p = p + 1;
        }
        proof {
            if p < out@.len() {
                assert(note_views(out@)[p as int] == out@[p as int]@);
                assert(before(x@, note_views(out@)[p as int]));
            }
        }
        let ghost o = note_views(out@);
        proof {
            assert(insert_pos(o, x@, before, p as int));
            lemma_insert_by(o, x@, before, p as int);
            assert(s.take(i + 1).drop_last() =~= s.take(i as int));
            assert(s.take(i + 1).last() == x@);
        }
        out.insert(p, x.duplicate());
        proof {
            assert(note_views(out@) =~= o.take(p as int) + seq![x@] + o.skip(p as int));
        }
        i = i + 1;
    }
    proof {
        assert(s.take(v@.len() as int) =~= s);
    }
    out
}

/// The notes that link to `target_id`, as summaries, newest first.
pub fn compute_backlinks(notes: &Vec<Note>, target_id: &str) -> (r: Vec<Note>)
    requires
        backlinks_safe(note_views(notes@)),
    ensures
        note_views(r@) == backlinks_spec(note_views(notes@), target_id@),
{
    let tv = str_chars(target_id);
    if tv.len() == 0 {
        return Vec::new();
    }
    let ghost s = note_views(notes@);
    let ghost pred = |n: NoteView| is_backlink(n, target_id@);
    let ghost f = |n: NoteView| summary_spec(n);
    let mut cands: Vec<Note> = Vec::new();
    let mut i: usize = 0;
    proof {
        assert(s.take(0).filter(pred) =~= Seq::<NoteView>::empty()) by {
            reveal(Seq::filter);
        }
        assert(note_views(cands@) =~= s.take(0).filter(pred).map_values(f));
    }
    while i < notes.len()
        invariant
            i <= notes@.len(),
            s == note_views(notes@),
            tv@ == target_id@,
            backlinks_safe(s),
            pred == (|n: NoteView| is_backlink(n, target_id@)),
            f == (|n: NoteView| summary_spec(n)),
            note_views(cands@) == s.take(i as int).filter(pred).map_values(f),
        decreases notes@.len() - i,
    {
        let n = &notes[i];
        proof {
            assert(s.take(i + 1) =~= s.take(i as int).push(n@));
            s.take(i as int).lemma_filter_push(n@, pred);
            assert(s[i as int] == n@);
        }
        let fv = str_chars(n.filename.as_str());
        let keep = !crate::chars::starts_with_exec(&fv, &tv) && !eq_str(&fv, "index.org")
            && links_to_exec(n, target_id);
        proof {
            assert(keep == pred(n@));
        }
        if keep {
            let ghost old_c = note_views(cands@);
            cands.push(n.summary_entry());
            proof {
                assert(note_views(cands@) =~= old_c.push(summary_spec(n@)));
                assert(s.take(i as int).filter(pred).push(n@).map_values(f) =~= s.take(
                    i as int,
                ).filter(pred).map_values(f).push(f(n@)));
            }
        }
        i = i + 1;
    }
    proof {
        assert(s.take(notes@.len() as int) =~= s);
    }
    sort_newest_first(&cands)
}

/// A note whose linked identifiers were precomputed, that is neither one of
/// the target's own files nor `index.org`, is among the target's backlinks
/// when the target is any one of those identifiers.
pub proof fn lemma_backlink_found_at_any_position(
    notes: Seq<NoteView>,
    target: Seq<char>,
    j: int,
    k: int,
)
    requires
        target.len() > 0,
        0 <= j < notes.len(),
        notes[j].link_ids matches Some(ids) && 0 <= k < ids.len() && ids[k] == target,
        !starts_with(notes[j].filename, target),
        notes[j].filename != "index.org"@,
    ensures
        backlinks_spec(notes, target).contains(summary_spec(notes[j])),
{
    let pred = |n: NoteView| is_backlink(n, target);
    let ids = notes[j].link_ids->0;
    assert(ids.contains(target)) by {
        assert(ids[k] == target);
    }
    assert(pred(notes[j]));
    notes.lemma_filter_contains(pred, j);
    let f = notes.filter(pred);
    let i = choose|i: int| 0 <= i < f.len() && f[i] == notes[j];
    let m = f.map_values(|n: NoteView| summary_spec(n));
    assert(m[i] == summary_spec(notes[j]));
    assert(m.contains(summary_spec(notes[j])));
    crate::order::lemma_sort_by_contains(m, |a: NoteView, b: NoteView| newer_first(a, b), summary_spec(notes[j]));
}

/// When every note's linked identifiers were precomputed and none of them
/// is the target, the target has no backlinks.
pub proof fn lemma_no_backlinks_without_links(notes: Seq<NoteView>, target: Seq<char>)
    requires
        forall|j: int|
            0 <= j < notes.len() ==> ((#[trigger] notes[j]).link_ids matches Some(ids) && forall|k: int|
                0 <= k < ids.len() ==> ids[k] != target),
    ensures
        backlinks_spec(notes, target).len() == 0,
{
    if target.len() > 0 {
        let pred = |n: NoteView| is_backlink(n, target);
        assert forall|j: int| 0 <= j < notes.len() implies !pred(#[trigger] notes[j]) by {
            let ids = notes[j].link_ids->0;
            if ids.contains(target) {
                let k = choose|k: int| 0 <= k < ids.len() && ids[k] == target;
            }
        }
        assert(notes.all(|x: NoteView| !pred(x)));
        notes.lemma_all_neg_filter_empty(pred);
        let m = notes.filter(pred).map_values(|n: NoteView| summary_spec(n));
        crate::order::lemma_sort_by_len(m, |a: NoteView, b: NoteView| newer_first(a, b));
    }
}

} // verus!
