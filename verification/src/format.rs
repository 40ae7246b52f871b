//! Note formats: what a note's text and file name tell about it. The org
//! format reads the keyword lines of the body and the Denote file name.
use vstd::prelude::*;
use crate::chars::opt_view;
use crate::denote::{DenoteFilename, filename_parse_safe, id_date, parse_filename};
use crate::metadata::{extract_metadata_fast, metadata_spec};
use crate::models::{MetadataView, NoteId, NoteMetadata, SummaryFields, id_views, pair_views};
use crate::chars::{lines, str_chars, string_of_all, upper_all};
use crate::compute::{extract_denote_link_ids, is_link_id, links_safe};
use crate::order::{lemma_lex_irreflexive, lemma_lex_total, lemma_lex_transitive, lex_lt, lex_lt_str, strictly_ascending};
use crate::strmap::{distinct_keys, lemma_pairs_map_at, lemma_pairs_map_dom, lemma_pairs_map_update, pairs_map};
use crate::text::{excerpt_spec, extract_excerpt, extract_section, parse_properties, properties_scan, reading_minutes, reading_time, section_scan};

verus! {

broadcast use vstd::string::group_string_axioms;

/// What a note format reads from the body and the file name of a note.
pub trait NoteFormat {
    /// The metadata of a note with this body and file name.
    spec fn metadata_of(&self, content: Seq<char>, filename: Seq<char>) -> MetadataView;

    /// The identifier a file name carries.
    spec fn id_of(&self, filename: Seq<char>) -> Option<Seq<char>>;

    /// File names the format can read without failing.
    spec fn readable_name(&self, filename: Seq<char>) -> bool;

    /// The extension of the format's files.
    spec fn extension(&self) -> Seq<char>;

    fn extract_metadata(&self, content: &str, filename: &str) -> (r: NoteMetadata)
        requires
            self.readable_name(filename@),
        ensures
            r@ == self.metadata_of(content@, filename@),
    ;

    fn parse_id(&self, filename: &str) -> (r: Option<NoteId>)
        requires
            self.readable_name(filename@),
        ensures
            r matches Some(id) ==> self.id_of(filename@) == Some(id@),
            r is None ==> self.id_of(filename@) is None,
    ;

    fn file_extension(&self) -> (r: &str)
        ensures
            r@ == self.extension(),
    ;
}

/// Org-mode notes with Denote file names.
pub struct OrgFormat;

/// The metadata of an org note: title, date and tags from its keyword
/// lines; identifier, type and signature from its Denote file name; the
/// identifier's date when the body gives none.
pub open spec fn org_metadata(content: Seq<char>, filename: Seq<char>) -> MetadataView {
    let k = metadata_spec(content);
    let d = parse_filename(filename);
    MetadataView {
        id: match d {
            Some(p) => Some(p.id),
            None => None,
        },
        title: k.title,
        date: match k.date {
            Some(x) => Some(x),
            None => match d {
                Some(p) => Some(id_date(p.id)),
                None => None,
            },
        },
        tags: k.tags,
        note_type: match d {
            Some(p) => p.note_type,
            None => None,
        },
        signature: match d {
            Some(p) => p.signature,
            None => None,
        },
    }
}

impl OrgFormat {
    pub fn new() -> (r: OrgFormat)
        ensures
            r == OrgFormat,
    {
        OrgFormat
    }
}

impl NoteFormat for OrgFormat {
    open spec fn metadata_of(&self, content: Seq<char>, filename: Seq<char>) -> MetadataView {
        org_metadata(content, filename)
    }

    open spec fn id_of(&self, filename: Seq<char>) -> Option<Seq<char>> {
        match parse_filename(filename) {
            Some(p) => Some(p.id),
            None => None,
        }
    }

    open spec fn readable_name(&self, filename: Seq<char>) -> bool {
        filename_parse_safe(filename)
    }

    open spec fn extension(&self) -> Seq<char> {
        "org"@
    }

    fn extract_metadata(&self, content: &str, filename: &str) -> (r: NoteMetadata) {
        let (title, date, tags) = extract_metadata_fast(content);
        let denote = DenoteFilename::parse(filename);
        let id = match &denote {
            Some(d) => Some(NoteId::new(d.id.as_str())),
            None => None,
        };
        let note_type = match &denote {
            Some(d) => crate::models::clone_opt(&d.note_type),
            None => None,
        };
        let signature = match &denote {
            Some(d) => crate::models::clone_opt(&d.signature),
            None => None,
        };
        let effective_date = match date {
            Some(x) => Some(x),
            None => match &denote {
                Some(d) => Some(d.id.date()),
                None => None,
            },
        };
        let r = NoteMetadata { id, title, date: effective_date, tags, note_type, signature };
        r
    }

    fn parse_id(&self, filename: &str) -> (r: Option<NoteId>) {
        match DenoteFilename::parse(filename) {
            Some(d) => Some(NoteId::new(d.id.as_str())),
            None => None,
        }
    }

    fn file_extension(&self) -> (r: &str) {
        "org"
    }
}

// ---------------------------------------------------------------------------
// Summary fields
// ---------------------------------------------------------------------------

/// Pairs in strictly ascending key order.
pub open spec fn key_sorted(s: Seq<(Seq<char>, Seq<char>)>) -> bool {
    forall|i: int, j: int| 0 <= i < j < s.len() ==> lex_lt(#[trigger] s[i].0, #[trigger] s[j].0)
}

/// The properties with upper-cased keys.
pub open spec fn upper_pairs(ps: Seq<(Seq<char>, Seq<char>)>) -> Seq<(Seq<char>, Seq<char>)> {
    ps.map_values(|p: (Seq<char>, Seq<char>)| (upper_all(p.0), p.1))
}

/// The structured fields of a body: its leading drawer's properties by
/// upper-cased key (a later one winning), and its `Abstract` section as
/// `ABSTRACT` unless a property gives one.
pub open spec fn properties_map(c: Seq<char>) -> Map<Seq<char>, Seq<char>> {
    let m = pairs_map(upper_pairs(properties_scan(lines(c), false)));
    match section_scan(lines(c), "Abstract"@, false, false, Seq::empty()) {
        Some(a) => if m.contains_key("ABSTRACT"@) {
            m
        } else {
            m.insert("ABSTRACT"@, a)
        },
        None => m,
    }
}

proof fn lemma_sorted_distinct(s: Seq<(Seq<char>, Seq<char>)>)
    requires
        key_sorted(s),
    ensures
        distinct_keys(s),
{
    assert forall|i: int, j: int| 0 <= i < j < s.len() implies (#[trigger] s[i]).0 != (
    #[trigger] s[j]).0 by {
        if s[i].0 == s[j].0 {
            lemma_lex_irreflexive(s[i].0);
        }
    }
}

/// Two lists of pairs with distinct keys denote the same map when they
/// hold the same pairs.
proof fn lemma_pairs_map_same(s: Seq<(Seq<char>, Seq<char>)>, t: Seq<(Seq<char>, Seq<char>)>)
    requires
        distinct_keys(s),
        distinct_keys(t),
        forall|p: (Seq<char>, Seq<char>)| s.contains(p) <==> t.contains(p),
    ensures
        pairs_map(s) == pairs_map(t),
{
    assert forall|k: Seq<char>| #[trigger] pairs_map(s).contains_key(k) <==> pairs_map(t).contains_key(k) by {
        lemma_pairs_map_dom(s, k);
        lemma_pairs_map_dom(t, k);
        if exists|i: int| 0 <= i < s.len() && (#[trigger] s[i]).0 == k {
            let i = choose|i: int| 0 <= i < s.len() && (#[trigger] s[i]).0 == k;
            assert(s.contains(s[i]));
            let j = choose|j: int| 0 <= j < t.len() && t[j] == s[i];
            assert(t[j].0 == k);
        }
        if exists|i: int| 0 <= i < t.len() && (#[trigger] t[i]).0 == k {
            let i = choose|i: int| 0 <= i < t.len() && (#[trigger] t[i]).0 == k;
            assert(t.contains(t[i]));
            let j = choose|j: int| 0 <= j < s.len() && s[j] == t[i];
            assert(s[j].0 == k);
        }
    }
    assert forall|k: Seq<char>| pairs_map(s).contains_key(k) implies #[trigger] pairs_map(s)[k]
        == pairs_map(t)[k] by {
        lemma_pairs_map_dom(s, k);
        let i = choose|i: int| 0 <= i < s.len() && (#[trigger] s[i]).0 == k;
        lemma_pairs_map_at(s, i);
        assert(s.contains(s[i]));
        let j = choose|j: int| 0 <= j < t.len() && t[j] == s[i];
        lemma_pairs_map_at(t, j);
    }
    assert(pairs_map(s) =~= pairs_map(t));
}

/// Sets a key in pairs kept in ascending key order (`BTreeMap::insert`).
fn sorted_put(v: &mut Vec<(String, String)>, k: String, val: String)
    requires
        key_sorted(pair_views(old(v)@)),
    ensures
        key_sorted(pair_views(final(v)@)),
        pairs_map(pair_views(final(v)@)) == pairs_map(pair_views(old(v)@)).insert(k@, val@),
        final(v)@.len() > 0,
{
    let ghost s = pair_views(v@);
    proof {
        lemma_sorted_distinct(s);
    }
    let mut p: usize = 0;
    while p < v.len() && lex_lt_str(v[p].0.as_str(), k.as_str())
        invariant
            p <= v@.len(),
            s == pair_views(v@),
            forall|j: int| 0 <= j < p ==> lex_lt(#[trigger] s[j].0, k@),
        decreases v@.len() - p,
    {
        proof {
            assert(s[p as int] == (v@[p as int].0@, v@[p as int].1@));
        }
        p = p + 1;
    }
    let same = p < v.len() && crate::chars::eq_exec(
        &str_chars(v[p].0.as_str()),
        &str_chars(k.as_str()),
    );
    if same {
        proof {
            assert(s[p as int].0 == k@);
            lemma_pairs_map_update(s, p as int, val@);
        }
        v.set(p, (k, val));
        proof {
            assert(pair_views(v@) =~= s.update(p as int, (s[p as int].0, val@)));
        }
    } else {
        proof {
            if p < s.len() {
                assert(s[p as int] == (v@[p as int].0@, v@[p as int].1@));
                assert(!lex_lt(s[p as int].0, k@));
                lemma_lex_total(s[p as int].0, k@);
            }
        }
        let ghost kv = k@;
        let ghost vv = val@;
        v.insert(p, (k, val));
        let ghost t = pair_views(v@);
        proof {
            assert(t =~= s.take(p as int) + seq![(kv, vv)] + s.skip(p as int));
            assert(key_sorted(t)) by {
                assert forall|i: int, j: int| 0 <= i < j < t.len() implies lex_lt(
                    #[trigger] t[i].0,
                    #[trigger] t[j].0,
                ) by {
                    if j < p {
                        assert(t[i] == s[i] && t[j] == s[j]);
                    } else if j == p {
                        assert(t[i] == s[i]);
                    } else if i < p {
                        assert(t[i] == s[i] && t[j] == s[j - 1]);
                        lemma_lex_transitive(s[i].0, kv, s[p as int].0);
                        if j - 1 > p {
                            lemma_lex_transitive(s[i].0, s[p as int].0, s[j - 1].0);
                        }
                    } else if i == p {
                        assert(t[j] == s[j - 1]);
                        if j - 1 > p {
                            lemma_lex_transitive(kv, s[p as int].0, s[j - 1].0);
                        }
                    } else {
                        assert(t[i] == s[i - 1] && t[j] == s[j - 1]);
                    }
                }
            }
            lemma_sorted_distinct(t);
            // The same pairs as `s` with `(k, v)` appended, whose map is the insert.
            let u = s.push((kv, vv));
            assert(distinct_keys(u)) by {
                assert forall|a: int, b: int| 0 <= a < b < u.len() implies (#[trigger] u[a]).0 != (
                #[trigger] u[b]).0 by {
                    if b == u.len() - 1 {
                        assert(u[a] == s[a]);
                        assert(u[b].0 == kv);
                        if a < p {
                            assert(lex_lt(s[a].0, kv));
                            lemma_lex_irreflexive(kv);
                        } else {
                            assert(lex_lt(kv, s[p as int].0));
                            if a > p {
                                lemma_lex_transitive(kv, s[p as int].0, s[a].0);
                            }
                            lemma_lex_irreflexive(kv);
                        }
                    } else {
                        assert(u[a] == s[a] && u[b] == s[b]);
                    }
                }
            }
            assert forall|q: (Seq<char>, Seq<char>)| t.contains(q) <==> u.contains(q) by {
                if t.contains(q) {
                    let i = choose|i: int| 0 <= i < t.len() && t[i] == q;
                    if i < p {
                        assert(u[i] == q);
                    } else if i == p {
                        assert(u[u.len() - 1] == q);
                    } else {
                        assert(u[i - 1] == q);
                    }
                }
                if u.contains(q) {
                    let i = choose|i: int| 0 <= i < u.len() && u[i] == q;
                    if i < p {
                        assert(t[i] == q);
                    } else if i == u.len() - 1 {
                        assert(t[p as int] == q);
                    } else {
                        assert(t[i + 1] == q);
                    }
                }
            }
            lemma_pairs_map_same(t, u);
            assert(u.drop_last() =~= s);
        }
    }
}

proof fn lemma_pairs_map_nonempty(s: Seq<(Seq<char>, Seq<char>)>)
    ensures
        (s.len() == 0) == (pairs_map(s) =~= Map::<Seq<char>, Seq<char>>::empty()),
{
    if s.len() > 0 {
        assert(pairs_map(s).contains_key(s.last().0));
    }
}

/// The fields of the body's property drawer, upper-cased, in key order,
/// with the `Abstract` section as `ABSTRACT` unless a property gives one.
fn properties_of(content: &str) -> (r: Vec<(String, String)>)
    ensures
        key_sorted(pair_views(r@)),
        pairs_map(pair_views(r@)) == properties_map(content@),
{
    proof {
        reveal_strlit("ABSTRACT");
    }
    let props = parse_properties(content);
    let ghost ps = upper_pairs(props@.map_values(|p: (String, String)| (p.0@, p.1@)));
    let mut out: Vec<(String, String)> = Vec::new();
    let mut i: usize = 0;
    proof {
        assert(pair_views(out@) =~= Seq::<(Seq<char>, Seq<char>)>::empty());
        assert(ps.take(0) =~= Seq::<(Seq<char>, Seq<char>)>::empty());
    }
    while i < props.len()
        invariant
            i <= props@.len(),
            ps == upper_pairs(props@.map_values(|p: (String, String)| (p.0@, p.1@))),
            key_sorted(pair_views(out@)),
            pairs_map(pair_views(out@)) == pairs_map(ps.take(i as int)),
        decreases props@.len() - i,
    {
        let kv = str_chars(props[i].0.as_str());
        let mut up: Vec<char> = Vec::new();
        let mut j: usize = 0;
        while j < kv.len()
            invariant
                j <= kv@.len(),
                up@ == upper_all(kv@.take(j as int)),
            decreases kv@.len() - j,
        {
            up.push(crate::chars::to_ascii_upper(kv[j]));
            proof {
                assert(upper_all(kv@.take(j + 1)) =~= upper_all(kv@.take(j as int)).push(
                    crate::chars::ascii_upper(kv@[j as int]),
                ));
            }
            j = j + 1;
        }
        proof {
            assert(kv@.take(kv@.len() as int) =~= kv@);
            assert(ps.take(i + 1).drop_last() =~= ps.take(i as int));
            assert(ps.take(i + 1).last() == (upper_all(props@[i as int].0@), props@[i as int].1@));
        }
        sorted_put(&mut out, string_of_all(&up), props[i].1.clone());
        i = i + 1;
    }
    proof {
        assert(ps.take(props@.len() as int) =~= ps);
    }
    let ghost m = pairs_map(pair_views(out@));
    proof {
        assert(ps == upper_pairs(properties_scan(lines(content@), false)));
        assert(m == pairs_map(upper_pairs(properties_scan(lines(content@), false))));
    }
    let m_has = has_key(&out, "ABSTRACT");
    let section = extract_section(content, "Abstract");
    proof {
        assert(opt_view(section) == section_scan(lines(content@), "Abstract"@, false, false, Seq::empty()));
    }
    match section {
        Some(a) => {
            if !m_has {
                let key = "ABSTRACT".to_owned();
                assert(key@ == "ABSTRACT"@);
                let ghost av = a@;
                sorted_put(&mut out, key, a);
                assert(pairs_map(pair_views(out@)) == m.insert("ABSTRACT"@, av));
                assert(pairs_map(pair_views(out@)) == properties_map(content@));
            } else {
                assert(m.contains_key("ABSTRACT"@));
                assert(pairs_map(pair_views(out@)) == properties_map(content@));
            }
        },
        None => {
            assert(pairs_map(pair_views(out@)) == properties_map(content@));
        },
    }
    out
}

fn has_key(v: &Vec<(String, String)>, k: &str) -> (r: bool)
    requires
        key_sorted(pair_views(v@)),
    ensures
        r == pairs_map(pair_views(v@)).contains_key(k@),
{
    let kv = str_chars(k);
    let ghost s = pair_views(v@);
    proof {
        lemma_pairs_map_dom(s, k@);
    }
    let mut i: usize = 0;
    while i < v.len()
        invariant
            i <= v@.len(),
            s == pair_views(v@),
            kv@ == k@,
            forall|j: int| 0 <= j < i ==> (#[trigger] s[j]).0 != k@,
        decreases v@.len() - i,
    {
        proof {
            assert(s[i as int] == (v@[i as int].0@, v@[i as int].1@));
        }
        if crate::chars::eq_str(&kv, v[i].0.as_str()) {
            proof {
                lemma_pairs_map_dom(s, k@);
                assert(s[i as int].0 == k@);
            }
            return true;
        }
        i = i + 1;
    }
    false
}

/// Inserts an absent identifier into identifiers in ascending order.
fn insert_sorted_id(v: &mut Vec<NoteId>, x: NoteId)
    requires
        strictly_ascending(id_views(old(v)@)),
        !id_views(old(v)@).contains(x@),
    ensures
        strictly_ascending(id_views(final(v)@)),
        forall|y: Seq<char>| id_views(final(v)@).contains(y) <==> (y == x@ || id_views(old(v)@).contains(y)),
{
    let ghost s = id_views(v@);
    let ghost xv = x@;
    let mut p: usize = 0;
    while p < v.len() && lex_lt_str(v[p].as_str(), x.as_str())
        invariant
            p <= v@.len(),
            s == id_views(v@),
            xv == x@,
            forall|j: int| 0 <= j < p ==> lex_lt(#[trigger] s[j], xv),
        decreases v@.len() - p,
    {
        proof {
            assert(s[p as int] == v@[p as int]@);
        }
        p = p + 1;
    }
    proof {
        if p < s.len() {
            assert(s[p as int] == v@[p as int]@);
            assert(s.contains(s[p as int]));
            lemma_lex_total(s[p as int], xv);
        }
    }
    v.insert(p, x);
    let ghost t = id_views(v@);
    proof {
        assert(t =~= s.take(p as int) + seq![xv] + s.skip(p as int));
        assert forall|i: int, j: int| 0 <= i < j < t.len() implies lex_lt(#[trigger] t[i], #[trigger] t[j]) by {
            if j < p {
                assert(t[i] == s[i] && t[j] == s[j]);
            } else if j == p {
                assert(t[i] == s[i]);
            } else if i < p {
                assert(t[i] == s[i] && t[j] == s[j - 1]);
                if j - 1 > p {
                    lemma_lex_transitive(xv, s[p as int], s[j - 1]);
                }
                lemma_lex_transitive(s[i], xv, s[j - 1]);
            } else if i == p {
                assert(t[j] == s[j - 1]);
                if j - 1 > p {
                    lemma_lex_transitive(xv, s[p as int], s[j - 1]);
                }
            } else {
                assert(t[i] == s[i - 1] && t[j] == s[j - 1]);
            }
        }
        assert forall|y: Seq<char>| t.contains(y) <==> (y == xv || s.contains(y)) by {
            if t.contains(y) {
                let i = choose|i: int| 0 <= i < t.len() && t[i] == y;
                if i < p {
                    assert(s[i] == y);
                } else if i > p {
                    assert(s[i - 1] == y);
                }
            }
            if y == xv {
                assert(t[p as int] == y);
            }
            if s.contains(y) {
                let i = choose|i: int| 0 <= i < s.len() && s[i] == y;
                if i < p {
                    assert(t[i] == y);
                } else {
                    assert(t[i + 1] == y);
                }
            }
        }
    }
}

/// The identifiers the body links to, each once, in ascending order.
fn sorted_link_ids(content: &str) -> (r: Vec<NoteId>)
    requires
        links_safe(content@),
    ensures
        strictly_ascending(id_views(r@)),
        forall|id: Seq<char>| id_views(r@).contains(id) <==> is_link_id(content@, id),
{
    let ids = extract_denote_link_ids(content);
    let ghost src = id_views(ids@);
    let mut out: Vec<NoteId> = Vec::new();
    let mut i: usize = 0;
    while i < ids.len()
        invariant
            i <= ids@.len(),
            src == id_views(ids@),
            src.no_duplicates(),
            strictly_ascending(id_views(out@)),
            forall|y: Seq<char>| id_views(out@).contains(y) <==> src.take(i as int).contains(y),
        decreases ids@.len() - i,
    {
        proof {
            assert(src.take(i + 1) =~= src.take(i as int).push(src[i as int]));
            if src.take(i as int).contains(src[i as int]) {
                let k = choose|k: int| 0 <= k < i && src.take(i as int)[k] == src[i as int];
                assert(src[k] == src[i as int]);
            }
            assert(src[i as int] == ids@[i as int]@);
        }
        let ghost before = id_views(out@);
        insert_sorted_id(&mut out, ids[i].duplicate());
        proof {
            assert forall|y: Seq<char>| id_views(out@).contains(y) <==> src.take(i + 1).contains(y) by {
                if src.take(i + 1).contains(y) {
                    let k = choose|k: int| 0 <= k < i + 1 && #[trigger] src.take(i + 1)[k] == y;
                    if k < i {
                        assert(src.take(i as int)[k] == y);
                    }
                }
                if src.take(i as int).contains(y) {
                    let k = choose|k: int| 0 <= k < i && #[trigger] src.take(i as int)[k] == y;
                    assert(src.take(i + 1)[k] == y);
                }
                if y == src[i as int] {
                    assert(src.take(i + 1)[i as int] == y);
                }
            }
        }
        i = i + 1;
    }
    proof {
        assert(src.take(ids@.len() as int) =~= src);
    }
    out
}

/// The body-derived fields of an org note, as `summary_fields` fills them.
pub open spec fn summary_ok(c: Seq<char>, f: SummaryFields) -> bool {
    &&& opt_view(f.excerpt) == Some(excerpt_spec(c, 250))
    &&& f.reading_minutes == Some(
        (if reading_minutes(c) < 65535 {
            reading_minutes(c)
        } else {
            65535
        }) as u16,
    )
    &&& match f.link_ids {
        Some(v) => v@.len() > 0 && strictly_ascending(id_views(v@)) && forall|id: Seq<char>|
            id_views(v@).contains(id) <==> is_link_id(c, id),
        None => forall|id: Seq<char>| !is_link_id(c, id),
    }
    &&& match f.properties {
        Some(v) => v@.len() > 0 && key_sorted(pair_views(v@)) && pairs_map(pair_views(v@))
            == properties_map(c),
        None => properties_map(c) =~= Map::<Seq<char>, Seq<char>>::empty(),
    }
}

impl OrgFormat {
    /// Derives what pages render without the body: the excerpt, the reading
    /// time, the linked identifiers (ascending) and the structured fields.
    pub fn summary_fields(&self, content: &str) -> (r: SummaryFields)
        requires
            links_safe(content@),
        ensures
            summary_ok(content@, r),
    {
        let properties = properties_of(content);
        let link_ids = sorted_link_ids(content);
        let minutes = reading_time(content);
        let capped: u16 = if minutes < 65535 {
            minutes as u16
        } else {
            65535
        };
        proof {
            lemma_pairs_map_nonempty(pair_views(properties@));
            if link_ids@.len() == 0 {
                assert forall|id: Seq<char>| !is_link_id(content@, id) by {
                    if is_link_id(content@, id) {
                        assert(id_views(link_ids@).contains(id));
                    }
                }
            }
        }
        SummaryFields {
            excerpt: Some(extract_excerpt(content, 250)),
            reading_minutes: Some(capped),
            link_ids: if link_ids.len() == 0 {
                None
            } else {
                Some(link_ids)
            },
            properties: if properties.len() == 0 {
                None
            } else {
                Some(properties)
            },
        }
    }
}

} // verus!
