//! The Atom feed of public notes.
//!
//! Built from notes readable with anonymous grants only: a note enters the
//! feed when its signature is `public` and its type is one the feed is
//! configured with. Bodies are exported to HTML by orgize and their denote
//! links made absolute note URLs.
use orgize::rowan::ast::AstNode;
use vstd::prelude::*;
use crate::strmap::StrMap;
use crate::auth::holds;
use crate::compute::{id_pairs, newer_first, sort_newest_first};
use crate::models::{Note, NoteView, display_title_spec, note_views, signature_spec, string_views};
use crate::order::{lemma_sort_by_contains, lex_lt, lex_lt_chars, sort_by_spec};
use crate::chars::{char_index_at_wide_byte, eq_str, opt_view, byte_len, char_index_of_byte, char_width, content_end, copy_range, eq_ignore_case, eq_ignore_case_range, is_char_boundary, is_digit, lemma_byte_len_push, line_end, push_all, push_str, replace_all, replace_exec, starts_with, starts_with_str, str_chars, string_of_all, trim, trim_bounds, lemma_char_index_of_byte};

verus! {

broadcast use vstd::string::group_string_axioms;

// ---------------------------------------------------------------------------
// Escaping
// ---------------------------------------------------------------------------

/// `&`, `<`, `>` and `"` as XML entities, in that order.
pub open spec fn xml_escape_spec(s: Seq<char>) -> Seq<char> {
    replace_all(
        replace_all(replace_all(replace_all(s, "&"@, "&amp;"@), "<"@, "&lt;"@), ">"@, "&gt;"@),
        "\""@,
        "&quot;"@,
    )
}

fn replace_str(v: &Vec<char>, pat: &str, rep: &str) -> (r: Vec<char>)
    requires
        pat@.len() > 0,
    ensures
        r@ == replace_all(v@, pat@, rep@),
{
    let p = str_chars(pat);
    let q = str_chars(rep);
    replace_exec(v, &p, &q)
}

pub fn xml_escape_chars(v: &Vec<char>) -> (r: Vec<char>)
    ensures
        r@ == xml_escape_spec(v@),
{
    proof {
        reveal_strlit("&");
        reveal_strlit("<");
        reveal_strlit(">");
        reveal_strlit("\"");
    }
    let a = replace_str(v, "&", "&amp;");
    let b = replace_str(&a, "<", "&lt;");
    let c = replace_str(&b, ">", "&gt;");
    replace_str(&c, "\"", "&quot;")
}

/// Escapes text for XML content and attribute values.
pub fn xml_escape(s: &str) -> (r: String)
    ensures
        r@ == xml_escape_spec(s@),
{
    let v = str_chars(s);
    string_of_all(&xml_escape_chars(&v))
}

// ---------------------------------------------------------------------------
// Dates
// ---------------------------------------------------------------------------

/// `YYYY-MM-DD` starts at index `k`: four digits, a dash, two digits, a
/// dash, two digits.
pub open spec fn iso_at(s: Seq<char>, k: int) -> bool {
    &&& 0 <= k
    &&& k + 10 <= s.len()
    &&& forall|j: int| 0 <= j < 10 ==> if j == 4 || j == 7 {
        s[k + j] == '-'
    } else {
        is_digit(#[trigger] s[k + j])
    }
}

/// The first index from `k` on where a `YYYY-MM-DD` starts.
pub open spec fn first_iso_from(s: Seq<char>, k: int) -> Option<int>
    decreases s.len() - k,
{
    if k < 0 || k + 10 > s.len() {
        None
    } else if iso_at(s, k) {
        Some(k)
    } else {
        first_iso_from(s, k + 1)
    }
}

/// The first `YYYY-MM-DD` in the text.
pub open spec fn iso_date_spec(s: Seq<char>) -> Option<Seq<char>> {
    match first_iso_from(s, 0) {
        Some(k) => Some(s.subrange(k, k + 10)),
        None => None,
    }
}

fn iso_at_exec(v: &Vec<char>, k: usize) -> (r: bool)
    requires
        k + 10 <= v.len(),
    ensures
        r == iso_at(v@, k as int),
{
    let mut j: usize = 0;
    while j < 10
        invariant
            j <= 10,
            k + 10 <= v.len(),
            forall|m: int| 0 <= m < j ==> if m == 4 || m == 7 {
                v@[k + m] == '-'
            } else {
                is_digit(#[trigger] v@[k + m])
            },
        decreases 10 - j,
    {
        let c = v[k + j];
        let ok = if j == 4 || j == 7 {
            c == '-'
        } else {
            '0' <= c && c <= '9'
        };
        if !ok {
            proof {
                assert(v@[k + j] == c);
            }
            return false;
        }
        j = j + 1;
    }
    true
}

/// The first `YYYY-MM-DD` in the text (an org timestamp, a plain date).
pub fn extract_iso_date(s: &str) -> (r: Option<&str>)
    ensures
        opt_str(r) == iso_date_spec(s@),
{
    let v = str_chars(s);
    if v.len() < 10 {
        return None;
    }
    let mut k: usize = 0;
    while k <= v.len() - 10
        invariant
            v@ == s@,
            v@.len() >= 10,
            k <= v.len() - 9,
            first_iso_from(v@, 0) == first_iso_from(v@, k as int),
        decreases v.len() - 9 - k,
    {
        if iso_at_exec(&v, k) {
            return Some(s.substring_char(k, k + 10));
        }
        k = k + 1;
    }
    None
}

pub open spec fn opt_str(o: Option<&str>) -> Option<Seq<char>> {
    match o {
        Some(s) => Some(s@),
        None => None,
    }
}

// ---------------------------------------------------------------------------
// Org header
// ---------------------------------------------------------------------------

/// The byte length of the leading org metadata from the line starting at
/// character `i`: keyword lines (`#+`), blank lines, and `:PROPERTIES:` /
/// `:LOGBOOK:` drawers up to `:END:`, each line counted with one byte for
/// its line break.
pub open spec fn header_scan(c: Seq<char>, i: int, in_drawer: bool) -> int
    decreases c.len() - i,
{
    if i < 0 || i >= c.len() {
        0
    } else {
        let e = line_end(c, i);
        if e < i {
            0
        } else {
            let line = c.subrange(i, content_end(c, i, e));
            let t = trim(line);
            let keyword = starts_with(t, "#+"@) || t.len() == 0;
            let opens = starts_with(t, ":PROPERTIES:"@) || starts_with(t, ":LOGBOOK:"@);
            if in_drawer || keyword || opens {
                let d = if in_drawer {
                    !eq_ignore_case(t, ":END:"@)
                } else {
                    !keyword
                };
                let step: int = byte_len(line) as int + 1;
                if e >= c.len() {
                    step
                } else {
                    step + header_scan(c, e + 1, d)
                }
            } else {
                0
            }
        }
    }
}

pub open spec fn header_bytes(c: Seq<char>) -> int {
    header_scan(c, 0, false)
}

/// Bodies whose header ends on a character boundary (it may not where
/// lines end in `\r\n`, the `\r` not being counted).
pub open spec fn header_safe(c: Seq<char>) -> bool {
    header_bytes(c) >= byte_len(c) || is_char_boundary(c, header_bytes(c))
}

/// The body after its leading org metadata.
pub open spec fn strip_header_spec(c: Seq<char>) -> Seq<char> {
    if header_bytes(c) < byte_len(c) {
        c.skip(char_index_of_byte(c, header_bytes(c)))
    } else {
        Seq::empty()
    }
}

fn byte_len_range(v: &Vec<char>, a: usize, b: usize) -> (r: u128)
    requires
        a <= b <= v.len(),
    ensures
        r == byte_len(v@.subrange(a as int, b as int)),
{
    let mut acc: u128 = 0;
    let mut k: usize = a;
    proof {
        assert(v@.subrange(a as int, a as int) =~= Seq::<char>::empty());
    }
    while k < b
        invariant
            a <= k <= b <= v.len(),
            acc == byte_len(v@.subrange(a as int, k as int)),
            acc <= 4 * (k - a),
        decreases b - k,
    {
        proof {
            assert(v@.subrange(a as int, k + 1) =~= v@.subrange(a as int, k as int).push(v@[k as int]));
            lemma_byte_len_push(v@.subrange(a as int, k as int), v@[k as int]);
        }
        acc = acc + char_width(v[k]) as u128;
        k = k + 1;
    }
    acc
}

proof fn lemma_byte_len_split(s: Seq<char>, a: int, b: int)
    requires
        0 <= a <= b <= s.len(),
    ensures
        byte_len(s.take(b)) == byte_len(s.take(a)) + byte_len(s.subrange(a, b)),
    decreases b - a,
{
    if a < b {
        lemma_byte_len_split(s, a, b - 1);
        assert(s.take(b) =~= s.take(b - 1).push(s[b - 1]));
        lemma_byte_len_push(s.take(b - 1), s[b - 1]);
        assert(s.subrange(a, b) =~= s.subrange(a, b - 1).push(s[b - 1]));
        lemma_byte_len_push(s.subrange(a, b - 1), s[b - 1]);
    } else {
        assert(s.subrange(a, b) =~= Seq::<char>::empty());
    }
}

proof fn lemma_byte_len_le4(s: Seq<char>)
    ensures
        byte_len(s) <= 4 * s.len(),
    decreases s.len(),
{
    if s.len() > 0 {
        lemma_byte_len_le4(s.drop_last());
    }
}

/// The byte length of the body's leading org metadata.
fn header_len(v: &Vec<char>) -> (r: u128)
    ensures
        r == header_bytes(v@),
        r <= byte_len(v@) + 1,
{
    proof {
        reveal_strlit("#+");
        reveal_strlit(":PROPERTIES:");
        reveal_strlit(":LOGBOOK:");
        reveal_strlit(":END:");
    }
    let end_key = str_chars(":END:");
    let n: usize = v.len();
    let mut pos: u128 = 0;
    let mut i: usize = 0;
    let mut in_drawer = false;
    proof {
        lemma_byte_len_le4(v@);
    }
    while i < n
        invariant
            n == v@.len(),
            byte_len(v@) <= 4 * n,
            i <= n,
            end_key@ == ":END:"@,
            pos + header_scan(v@, i as int, in_drawer) == header_bytes(v@),
            pos <= byte_len(v@.take(i as int)),
        decreases n - i,
    {
        proof {
            crate::chars::lemma_line_end(v@, i as int);
        }
        let mut e: usize = i;
        while e < n && v[e] != '\n'
            invariant
                i <= e <= n,
                n == v@.len(),
                line_end(v@, i as int) == line_end(v@, e as int),
            decreases n - e,
        {
            e = e + 1;
        }
        let ce: usize = if e < n && e > i && v[e - 1] == '\r' {
            e - 1
        } else {
            e
        };
        assert(ce == content_end(v@, i as int, e as int));
        let (x, y) = trim_bounds(v, i, ce);
        let t = copy_range(v, x, y);
        let keyword = starts_with_str(&t, "#+") || t.len() == 0;
        let opens = starts_with_str(&t, ":PROPERTIES:") || starts_with_str(&t, ":LOGBOOK:");
        if !(in_drawer || keyword || opens) {
            proof {
                lemma_byte_len_split(v@, i as int, n as int);
                assert(v@.take(n as int) =~= v@);
            }
            return pos;
        }
        let d = if in_drawer {
            !eq_ignore_case_range(v, x, y, &end_key)
        } else {
            !keyword
        };
        let w = byte_len_range(v, i, ce);
        proof {
            lemma_byte_len_le4(v@);
            lemma_byte_len_split(v@, i as int, ce as int);
            if e < n {
                lemma_byte_len_split(v@, ce as int, e as int);
                assert(v@.take(e + 1) =~= v@.take(e as int).push(v@[e as int]));
                lemma_byte_len_push(v@.take(e as int), v@[e as int]);
                crate::chars::lemma_byte_len_mono(v@, e + 1);
            } else {
                lemma_byte_len_split(v@, ce as int, n as int);
                assert(v@.take(n as int) =~= v@);
            }
        }
        if e >= n {
            return pos + w + 1;
        }
        pos = pos + w + 1;
        i = e + 1;
        in_drawer = d;
    }
    proof {
        assert(v@.take(n as int) =~= v@);
    }
    pos
}


/// The body after its leading org metadata, or `None` where that metadata
/// does not end on a character boundary.
fn strip_header_chars(v: &Vec<char>) -> (r: Option<Vec<char>>)
    ensures
        r matches Some(t) ==> header_safe(v@) && t@ == strip_header_spec(v@),
        r is None ==> !header_safe(v@),
{
    let pos = header_len(v);
    let total = byte_len_range(v, 0, v.len());
    proof {
        assert(v@.subrange(0, v@.len() as int) =~= v@);
    }
    if pos < total {
        match char_index_at_wide_byte(v, pos) {
            Some(k) => {
                proof {
                    lemma_char_index_of_byte(v@, pos as int, k as int);
                    assert(v@.subrange(k as int, v@.len() as int) =~= v@.skip(k as int));
                }
                Some(copy_range(v, k, v.len()))
            },
            None => None,
        }
    } else {
        Some(Vec::new())
    }
}

/// Strips the leading org metadata (keyword lines, blank lines, property
/// and logbook drawers) so that exported HTML starts at the prose.
pub fn strip_org_header(content: &str) -> (r: &str)
    requires
        header_safe(content@),
    ensures
        r@ == strip_header_spec(content@),
{
    proof {
        reveal_strlit("");
    }
    let v = str_chars(content);
    let pos = header_len(&v);
    let total = byte_len_range(&v, 0, v.len());
    proof {
        assert(v@.subrange(0, v@.len() as int) =~= v@);
    }
    if pos < total {
        match char_index_at_wide_byte(&v, pos) {
            Some(k) => {
                proof {
                    lemma_char_index_of_byte(v@, pos as int, k as int);
                    assert(content@.subrange(k as int, v@.len() as int) =~= content@.skip(k as int));
                }
                content.substring_char(k, v.len())
            },
            None => "",
        }
    } else {
        ""
    }
}

/// `strip_org_header` where it does not panic; `None` where it would.
pub fn checked_strip_org_header(content: &str) -> (r: Option<String>)
    ensures
        r matches Some(t) ==> header_safe(content@) && t@ == strip_header_spec(content@),
        r is None ==> !header_safe(content@),
{
    let v = str_chars(content);
    match strip_header_chars(&v) {
        Some(t) => Some(string_of_all(&t)),
        None => None,
    }
}

// ---------------------------------------------------------------------------
// Body HTML
// ---------------------------------------------------------------------------

/// What orgize's HTML export makes of an org text.
pub uninterp spec fn org_html(src: Seq<char>) -> Seq<char>;

/// orgize's HTML export: `Org::parse` of the text, `HtmlExport::render` of
/// the document's syntax tree, then `finish`. The contract claims only that
/// the HTML is a function of the text.
#[verifier::external_body]
fn org_to_html(src: &str) -> (r: String)
    ensures
        r@ == org_html(src@),
{
    let org = orgize::Org::parse(src);
    let mut export = orgize::export::HtmlExport::default();
    export.render(org.document().syntax());
    export.finish()
}

pub open spec fn denote_href(id: Seq<char>) -> Seq<char> {
    "href=\"denote:"@ + id + "\""@
}

pub open spec fn note_href(base: Seq<char>, path: Seq<char>) -> Seq<char> {
    "href=\""@ + base + "/notes/"@ + path + "\""@
}

/// Each denote link of a known id pointed at its note's URL, pair by pair.
pub open spec fn resolve_denote_links(
    h: Seq<char>,
    pairs: Seq<(Seq<char>, Seq<char>)>,
    base: Seq<char>,
) -> Seq<char>
    decreases pairs.len(),
{
    if pairs.len() == 0 {
        h
    } else {
        replace_all(
            resolve_denote_links(h, pairs.drop_last(), base),
            denote_href(pairs.last().0),
            note_href(base, pairs.last().1),
        )
    }
}

/// Feed HTML of a body: the export of the body after its metadata, denote
/// links resolved through the id pairs, site-relative `href`s and `src`s
/// made absolute.
pub open spec fn body_html_spec(
    c: Seq<char>,
    pairs: Seq<(Seq<char>, Seq<char>)>,
    base: Seq<char>,
) -> Seq<char> {
    replace_all(
        replace_all(
            resolve_denote_links(org_html(strip_header_spec(c)), pairs, base),
            "href=\"/"@,
            "href=\""@ + base + "/"@,
        ),
        "src=\"/"@,
        "src=\""@ + base + "/"@,
    )
}

fn body_html_chars(content: &str, id_map: &StrMap, base: &Vec<char>) -> (r: Option<Vec<char>>)
    ensures
        r matches Some(h) ==> header_safe(content@) && h@ == body_html_spec(
            content@,
            id_map.pairs(),
            base@,
        ),
        r is None ==> !header_safe(content@),
{
    proof {
        reveal_strlit("\"");
        reveal_strlit("href=\"/");
        reveal_strlit("src=\"/");
    }
    let v = str_chars(content);
    let stripped = match strip_header_chars(&v) {
        Some(t) => t,
        None => {
            return None;
        },
    };
    let html = org_to_html(string_of_all(&stripped).as_str());
    let mut h = str_chars(html.as_str());
    let ghost pairs = id_map.pairs();
    let mut i: usize = 0;
    proof {
        assert(pairs.take(0) =~= Seq::<(Seq<char>, Seq<char>)>::empty());
    }
    while i < id_map.len()
        invariant
            i <= pairs.len(),
            pairs == id_map.pairs(),
            h@ == resolve_denote_links(org_html(strip_header_spec(v@)), pairs.take(i as int), base@),
            v@ == content@,
        decreases pairs.len() - i,
    {
        let (id, path) = id_map.entry(i);
        let mut pat: Vec<char> = Vec::new();
        push_str(&mut pat, "href=\"denote:");
        push_str(&mut pat, id.as_str());
        push_str(&mut pat, "\"");
        let mut rep: Vec<char> = Vec::new();
        push_str(&mut rep, "href=\"");
        push_all(&mut rep, base);
        push_str(&mut rep, "/notes/");
        push_str(&mut rep, path.as_str());
        push_str(&mut rep, "\"");
        proof {
            reveal_strlit("\"");
            assert(pairs.take(i + 1).drop_last() =~= pairs.take(i as int));
            assert(pairs.take(i + 1).last() == pairs[i as int]);
            assert(pat@ =~= denote_href(id@));
            assert(rep@ =~= note_href(base@, path@));
        }
        h = replace_exec(&h, &pat, &rep);
        i = i + 1;
    }
    proof {
        assert(pairs.take(pairs.len() as int) =~= pairs);
    }
    let pat1 = str_chars("href=\"/");
    let mut rep1: Vec<char> = Vec::new();
    push_str(&mut rep1, "href=\"");
    push_all(&mut rep1, base);
    push_str(&mut rep1, "/");
    let h1 = replace_exec(&h, &pat1, &rep1);
    let pat2 = str_chars("src=\"/");
    let mut rep2: Vec<char> = Vec::new();
    push_str(&mut rep2, "src=\"");
    push_all(&mut rep2, base);
    push_str(&mut rep2, "/");
    let h2 = replace_exec(&h1, &pat2, &rep2);
    Some(h2)
}

/// Renders a note body to feed HTML: orgize's export of the body after its
/// metadata, then denote links and site-relative links made absolute.
pub fn body_html(content: &str, id_map: &StrMap, base: &str) -> (r: String)
    requires
        header_safe(content@),
    ensures
        r@ == body_html_spec(content@, id_map.pairs(), base@),
{
    let b = str_chars(base);
    match body_html_chars(content, id_map, &b) {
        Some(h) => string_of_all(&h),
        None => String::new(),
    }
}


// ---------------------------------------------------------------------------
// The feed
// ---------------------------------------------------------------------------

/// What the host application configures the feed with.
pub struct FeedConfig {
    /// Absolute base URL, e.g. `https://example.com`.
    pub base_url: String,
    pub title: String,
    pub subtitle: Option<String>,
    pub author: String,
    /// The note types the feed carries (e.g. `blog`).
    pub note_types: Vec<String>,
}

/// The text without trailing slashes.
pub open spec fn trim_end_slashes(s: Seq<char>) -> Seq<char>
    decreases s.len(),
{
    if s.len() > 0 && s.last() == '/' {
        trim_end_slashes(s.drop_last())
    } else {
        s
    }
}

/// A note in the feed: signed `public`, of a configured type.
pub open spec fn is_feed_entry(types: Seq<Seq<char>>, n: NoteView) -> bool {
    &&& signature_spec(n) == "public"@
    &&& n.metadata.note_type matches Some(t) && types.contains(t)
}

/// The feed's notes, newest file name first.
pub open spec fn feed_entries(types: Seq<Seq<char>>, s: Seq<NoteView>) -> Seq<NoteView> {
    sort_by_spec(
        s.filter(|n: NoteView| is_feed_entry(types, n)),
        |a: NoteView, b: NoteView| newer_first(a, b),
    )
}

/// The first `YYYY-MM-DD` of the note's date.
pub open spec fn note_iso(n: NoteView) -> Option<Seq<char>> {
    match n.metadata.date {
        Some(d) => iso_date_spec(d),
        None => None,
    }
}

/// The greatest date of the notes.
pub open spec fn max_iso(s: Seq<NoteView>) -> Option<Seq<char>>
    decreases s.len(),
{
    if s.len() == 0 {
        None
    } else {
        let r = max_iso(s.drop_last());
        match note_iso(s.last()) {
            Some(d) => match r {
                Some(m) => if lex_lt(m, d) {
                    Some(d)
                } else {
                    Some(m)
                },
                None => Some(d),
            },
            None => r,
        }
    }
}

pub open spec fn stamp(d: Seq<char>) -> Seq<char> {
    d + "T00:00:00Z"@
}

/// When the feed was last updated: its newest date, else the epoch.
pub open spec fn feed_updated(es: Seq<NoteView>) -> Seq<char> {
    match max_iso(es) {
        Some(d) => stamp(d),
        None => "1970-01-01T00:00:00Z"@,
    }
}

pub open spec fn entry_xml(
    base: Seq<char>,
    pairs: Seq<(Seq<char>, Seq<char>)>,
    n: NoteView,
    updated: Seq<char>,
) -> Seq<char> {
    let url = base + "/notes/"@ + n.path;
    let date = match note_iso(n) {
        Some(d) => stamp(d),
        None => updated,
    };
    let content = match n.content {
        Some(c) => body_html_spec(c, pairs, base),
        None => Seq::empty(),
    };
    "  <entry>\n    <title>"@ + xml_escape_spec(display_title_spec(n)) + "</title>\n    <id>"@
        + xml_escape_spec(url) + "</id>\n    <link rel=\"alternate\" href=\""@ + xml_escape_spec(url)
        + "\"/>\n    <published>"@ + date + "</published>\n    <updated>"@ + date
        + "</updated>\n    <content type=\"html\">"@ + xml_escape_spec(content)
        + "</content>\n  </entry>\n"@
}

pub open spec fn entries_xml(
    base: Seq<char>,
    pairs: Seq<(Seq<char>, Seq<char>)>,
    es: Seq<NoteView>,
    updated: Seq<char>,
) -> Seq<char>
    decreases es.len(),
{
    if es.len() == 0 {
        Seq::empty()
    } else {
        entries_xml(base, pairs, es.drop_last(), updated) + entry_xml(base, pairs, es.last(), updated)
    }
}

pub open spec fn feed_head(
    title: Seq<char>,
    subtitle: Option<Seq<char>>,
    author: Seq<char>,
    base: Seq<char>,
    updated: Seq<char>,
) -> Seq<char> {
    "<?xml version=\"1.0\" encoding=\"utf-8\"?>\n<feed xmlns=\"http://www.w3.org/2005/Atom\">\n  <title>"@
        + xml_escape_spec(title) + "</title>\n"@ + match subtitle {
        Some(st) => "  <subtitle>"@ + xml_escape_spec(st) + "</subtitle>\n"@,
        None => Seq::empty(),
    } + "  <id>"@ + base + "/</id>\n  <link rel=\"alternate\" href=\""@ + base
        + "/\"/>\n  <link rel=\"self\" href=\""@ + base + "/feed.xml\"/>\n  <updated>"@ + updated
        + "</updated>\n  <author><name>"@ + xml_escape_spec(author) + "</name></author>\n"@
}

/// The Atom document of a feed configuration and the readable notes.
pub open spec fn atom_spec(
    base_url: Seq<char>,
    title: Seq<char>,
    subtitle: Option<Seq<char>>,
    author: Seq<char>,
    types: Seq<Seq<char>>,
    s: Seq<NoteView>,
) -> Seq<char> {
    let base = trim_end_slashes(base_url);
    let es = feed_entries(types, s);
    let updated = feed_updated(es);
    feed_head(title, subtitle, author, base, updated) + entries_xml(base, id_pairs(s), es, updated)
        + "</feed>\n"@
}

/// Feeds that can be built: every body in the feed has its metadata end on
/// a character boundary.
pub open spec fn feed_safe(types: Seq<Seq<char>>, s: Seq<NoteView>) -> bool {
    forall|i: int|
        0 <= i < s.len() && is_feed_entry(types, #[trigger] s[i]) ==> match s[i].content {
            Some(c) => header_safe(c),
            None => true,
        }
}

pub open spec fn cfg_atom(cfg: FeedConfig, s: Seq<NoteView>) -> Seq<char> {
    atom_spec(
        cfg.base_url@,
        cfg.title@,
        opt_view(cfg.subtitle),
        cfg.author@,
        string_views(cfg.note_types@),
        s,
    )
}

/// A note of the feed is a note given, of the feed's kind.
proof fn lemma_entry_in_feed(types: Seq<Seq<char>>, s: Seq<NoteView>, n: NoteView)
    requires
        feed_entries(types, s).contains(n),
    ensures
        exists|j: int| 0 <= j < s.len() && s[j] == n && is_feed_entry(types, #[trigger] s[j]),
{
    let pred = |m: NoteView| is_feed_entry(types, m);
    let f = s.filter(pred);
    lemma_sort_by_contains(f, |a: NoteView, b: NoteView| newer_first(a, b), n);
    broadcast use vstd::seq_lib::group_filter_ensures;
    let k = choose|k: int| 0 <= k < f.len() && f[k] == n;
    assert(pred(f[k]));
    assert(f.contains(f[k]));
    s.lemma_filter_contains_rev(pred, f[k]);
    assert(s.contains(f[k]));
    let j = choose|j: int| 0 <= j < s.len() && s[j] == f[k];
    assert(is_feed_entry(types, s[j]));
}

/// Every note of the feed's kind is in the feed.
proof fn lemma_feed_has_entry(types: Seq<Seq<char>>, s: Seq<NoteView>, j: int)
    requires
        0 <= j < s.len(),
        is_feed_entry(types, s[j]),
    ensures
        feed_entries(types, s).contains(s[j]),
{
    let pred = |m: NoteView| is_feed_entry(types, m);
    let f = s.filter(pred);
    broadcast use vstd::seq_lib::group_filter_ensures;
    assert(pred(s[j]));
    assert(s.contains(s[j]));
    assert(f.contains(s[j]));
    lemma_sort_by_contains(f, |a: NoteView, b: NoteView| newer_first(a, b), s[j]);
}

pub fn trim_end_slashes_exec(v: &Vec<char>) -> (r: Vec<char>)
    ensures
        r@ == trim_end_slashes(v@),
{
    let mut e: usize = v.len();
    proof {
        assert(v@.take(e as int) =~= v@);
    }
    while e > 0 && v[e - 1] == '/'
        invariant
            e <= v@.len(),
            trim_end_slashes(v@) == trim_end_slashes(v@.take(e as int)),
        decreases e,
    {
        proof {
            assert(v@.take(e as int).drop_last() =~= v@.take(e - 1));
        }
        e = e - 1;
    }
    proof {
        assert(v@.subrange(0, e as int) =~= v@.take(e as int));
    }
    copy_range(v, 0, e)
}

fn is_feed_entry_exec(types: &Vec<String>, n: &Note) -> (r: bool)
    ensures
        r == is_feed_entry(string_views(types@), n@),
{
    let sv = str_chars(n.signature());
    if !eq_str(&sv, "public") {
        return false;
    }
    match &n.metadata.note_type {
        Some(t) => holds(types, t.as_str()),
        None => false,
    }
}

/// The feed's notes, newest file name first.
fn feed_entries_exec(types: &Vec<String>, notes: &Vec<Note>) -> (r: Vec<Note>)
    ensures
        note_views(r@) == feed_entries(string_views(types@), note_views(notes@)),
{
    let ghost s = note_views(notes@);
    let ghost pred = |n: NoteView| is_feed_entry(string_views(types@), n);
    let mut picked: Vec<Note> = Vec::new();
    let mut i: usize = 0;
    proof {
        assert(s.take(0).filter(pred) =~= Seq::<NoteView>::empty()) by {
            reveal(Seq::filter);
        }
        assert(note_views(picked@) =~= s.take(0).filter(pred));
    }
    while i < notes.len()
        invariant
            i <= notes@.len(),
            s == note_views(notes@),
            pred == (|n: NoteView| is_feed_entry(string_views(types@), n)),
            note_views(picked@) == s.take(i as int).filter(pred),
        decreases notes@.len() - i,
    {
        let n = &notes[i];
        proof {
            assert(s.take(i + 1) =~= s.take(i as int).push(n@));
            s.take(i as int).lemma_filter_push(n@, pred);
        }
        if is_feed_entry_exec(types, n) {
            let ghost old_p = note_views(picked@);
            picked.push(n.duplicate());
            proof {
                assert(note_views(picked@) =~= old_p.push(n@));
            }
        }
        i = i + 1;
    }
    proof {
        assert(s.take(notes@.len() as int) =~= s);
    }
    sort_newest_first(&picked)
}

fn note_iso_exec(n: &Note) -> (r: Option<Vec<char>>)
    ensures
        opt_chars(r) == note_iso(n@),
{
    match &n.metadata.date {
        Some(d) => match extract_iso_date(d.as_str()) {
            Some(x) => Some(str_chars(x)),
            None => None,
        },
        None => None,
    }
}

pub open spec fn opt_chars(o: Option<Vec<char>>) -> Option<Seq<char>> {
    match o {
        Some(v) => Some(v@),
        None => None,
    }
}

fn feed_updated_exec(es: &Vec<Note>) -> (r: Vec<char>)
    ensures
        r@ == feed_updated(note_views(es@)),
{
    let ghost s = note_views(es@);
    let mut best: Option<Vec<char>> = None;
    let mut i: usize = 0;
    proof {
        assert(s.take(0) =~= Seq::<NoteView>::empty());
    }
    while i < es.len()
        invariant
            i <= es@.len(),
            s == note_views(es@),
            opt_chars(best) == max_iso(s.take(i as int)),
        decreases es@.len() - i,
    {
        proof {
            assert(s.take(i + 1).drop_last() =~= s.take(i as int));
            assert(s.take(i + 1).last() == es@[i as int]@);
        }
        match note_iso_exec(&es[i]) {
            Some(d) => {
                let replace = match &best {
                    Some(m) => lex_lt_chars(m, &d),
                    None => true,
                };
                if replace {
                    best = Some(d);
                }
            },
            None => {},
        }
        i = i + 1;
    }
    proof {
        assert(s.take(es@.len() as int) =~= s);
    }
    match best {
        Some(d) => {
            let mut out = d;
            push_str(&mut out, "T00:00:00Z");
            out
        },
        None => str_chars("1970-01-01T00:00:00Z"),
    }
}

#[verifier::spinoff_prover]
#[verifier::rlimit(40)]
fn entry_xml_exec(
    out: &mut Vec<char>,
    base: &Vec<char>,
    id_map: &StrMap,
    n: &Note,
    updated: &Vec<char>,
) -> (ok: bool)
    ensures
        ok ==> (match n@.content {
            Some(c) => header_safe(c),
            None => true,
        }) && final(out)@ == old(out)@ + entry_xml(base@, id_map.pairs(), n@, updated@),
        !ok ==> (n@.content matches Some(c) && !header_safe(c)),
{
    let content: Vec<char> = match &n.content {
        Some(c) => match body_html_chars(c.as_str(), id_map, base) {
            Some(h) => h,
            None => {
                return false;
            },
        },
        None => Vec::new(),
    };
    let mut url: Vec<char> = Vec::new();
    push_all(&mut url, base);
    push_str(&mut url, "/notes/");
    push_str(&mut url, n.path.as_str());
    let date: Vec<char> = match note_iso_exec(n) {
        Some(d) => {
            let mut x = d;
            push_str(&mut x, "T00:00:00Z");
            x
        },
        None => copy_range(updated, 0, updated.len()),
    };
    proof {
        assert(updated@.subrange(0, updated@.len() as int) =~= updated@);
    }
    let title = str_chars(n.display_title());
    let esc_url = xml_escape_chars(&url);
    push_str(out, "  <entry>\n    <title>");
    push_all(out, &xml_escape_chars(&title));
    push_str(out, "</title>\n    <id>");
    push_all(out, &esc_url);
    push_str(out, "</id>\n    <link rel=\"alternate\" href=\"");
    push_all(out, &esc_url);
    push_str(out, "\"/>\n    <published>");
    push_all(out, &date);
    push_str(out, "</published>\n    <updated>");
    push_all(out, &date);
    push_str(out, "</updated>\n    <content type=\"html\">");
    push_all(out, &xml_escape_chars(&content));
    push_str(out, "</content>\n  </entry>\n");
    true
}

fn atom_chars(cfg: &FeedConfig, notes: &Vec<Note>) -> (r: Option<Vec<char>>)
    ensures
        r matches Some(x) ==> feed_safe(string_views(cfg.note_types@), note_views(notes@))
            && x@ == cfg_atom(*cfg, note_views(notes@)),
        r is None ==> !feed_safe(string_views(cfg.note_types@), note_views(notes@)),
{
    let ghost types = string_views(cfg.note_types@);
    let ghost s = note_views(notes@);
    let base = trim_end_slashes_exec(&str_chars(cfg.base_url.as_str()));
    let id_map = crate::compute::compute_id_map(notes);
    let entries = feed_entries_exec(&cfg.note_types, notes);
    let ghost es = note_views(entries@);
    let updated = feed_updated_exec(&entries);
    let mut xml: Vec<char> = Vec::new();
    push_str(
        &mut xml,
        "<?xml version=\"1.0\" encoding=\"utf-8\"?>\n<feed xmlns=\"http://www.w3.org/2005/Atom\">\n  <title>",
    );
    push_all(&mut xml, &xml_escape_chars(&str_chars(cfg.title.as_str())));
    push_str(&mut xml, "</title>\n");
    match &cfg.subtitle {
        Some(st) => {
            push_str(&mut xml, "  <subtitle>");
            push_all(&mut xml, &xml_escape_chars(&str_chars(st.as_str())));
            push_str(&mut xml, "</subtitle>\n");
        },
        None => {},
    }
    push_str(&mut xml, "  <id>");
    push_all(&mut xml, &base);
    push_str(&mut xml, "/</id>\n  <link rel=\"alternate\" href=\"");
    push_all(&mut xml, &base);
    push_str(&mut xml, "/\"/>\n  <link rel=\"self\" href=\"");
    push_all(&mut xml, &base);
    push_str(&mut xml, "/feed.xml\"/>\n  <updated>");
    push_all(&mut xml, &updated);
    push_str(&mut xml, "</updated>\n  <author><name>");
    push_all(&mut xml, &xml_escape_chars(&str_chars(cfg.author.as_str())));
    push_str(&mut xml, "</name></author>\n");
    let ghost head = xml@;
    proof {
        assert(head =~= feed_head(cfg.title@, opt_view(cfg.subtitle), cfg.author@, base@, updated@));
    }
    let mut i: usize = 0;
    proof {
        assert(es.take(0) =~= Seq::<NoteView>::empty());
        assert(xml@ =~= head + entries_xml(base@, id_map.pairs(), es.take(0), updated@));
    }
    while i < entries.len()
        invariant
            i <= entries@.len(),
            es == note_views(entries@),
            es == feed_entries(types, s),
            types == string_views(cfg.note_types@),
            s == note_views(notes@),
            xml@ == head + entries_xml(base@, id_map.pairs(), es.take(i as int), updated@),
            forall|k: int|
                0 <= k < i ==> match (#[trigger] es[k]).content {
                    Some(c) => header_safe(c),
                    None => true,
                },
        decreases entries@.len() - i,
    {
        proof {
            assert(es.take(i + 1).drop_last() =~= es.take(i as int));
            assert(es.take(i + 1).last() == entries@[i as int]@);
        }
        let ok = entry_xml_exec(&mut xml, &base, &id_map, &entries[i], &updated);
        if !ok {
            proof {
                lemma_entry_in_feed(types, s, es[i as int]);
            }
            return None;
        }
        i = i + 1;
    }
    push_str(&mut xml, "</feed>\n");
    proof {
        assert(es.take(entries@.len() as int) =~= es);
        assert forall|j: int| 0 <= j < s.len() && is_feed_entry(types, #[trigger] s[j]) implies match s[j].content {
            Some(c) => header_safe(c),
            None => true,
        } by {
            lemma_feed_has_entry(types, s, j);
        }
    }
    Some(xml)
}

/// Builds the Atom document from the notes readable anonymously: the public
/// notes of the configured types, newest first, bodies as escaped HTML.
pub fn build_atom(cfg: &FeedConfig, notes: &Vec<Note>) -> (r: String)
    requires
        feed_safe(string_views(cfg.note_types@), note_views(notes@)),
    ensures
        r@ == cfg_atom(*cfg, note_views(notes@)),
{
    match atom_chars(cfg, notes) {
        Some(x) => string_of_all(&x),
        None => String::new(),
    }
}

/// `build_atom` where it does not panic; `None` where it would.
pub fn checked_build_atom(cfg: &FeedConfig, notes: &Vec<Note>) -> (r: Option<String>)
    ensures
        r matches Some(x) ==> feed_safe(string_views(cfg.note_types@), note_views(notes@))
            && x@ == cfg_atom(*cfg, note_views(notes@)),
        r is None ==> !feed_safe(string_views(cfg.note_types@), note_views(notes@)),
{
    match atom_chars(cfg, notes) {
        Some(x) => Some(string_of_all(&x)),
        None => None,
    }
}

/// The feed carries public notes only: whatever the notes given, no note
/// whose signature is not `public` appears among its entries.
pub proof fn lemma_feed_entries_public(types: Seq<Seq<char>>, s: Seq<NoteView>, n: NoteView)
    requires
        feed_entries(types, s).contains(n),
    ensures
        signature_spec(n) == "public"@,
        n.metadata.note_type matches Some(t) && types.contains(t),
{
    lemma_entry_in_feed(types, s, n);
}

/// Two listings that may differ only in notes not signed `public`, where
/// those notes keep their place, path and identifier.
pub open spec fn same_public_parts(s1: Seq<NoteView>, s2: Seq<NoteView>) -> bool {
    &&& s1.len() == s2.len()
    &&& forall|i: int|
        0 <= i < s1.len() ==> #[trigger] s1[i] == s2[i] || (signature_spec(s1[i]) != "public"@
            && signature_spec(s2[i]) != "public"@ && s1[i].path == s2[i].path
            && s1[i].metadata.id == s2[i].metadata.id)
}

proof fn lemma_same_public_parts_prefix(s1: Seq<NoteView>, s2: Seq<NoteView>)
    requires
        same_public_parts(s1, s2),
        s1.len() > 0,
    ensures
        same_public_parts(s1.drop_last(), s2.drop_last()),
{
    assert forall|i: int| 0 <= i < s1.drop_last().len() implies #[trigger] s1.drop_last()[i]
        == s2.drop_last()[i] || (signature_spec(s1.drop_last()[i]) != "public"@ && signature_spec(
        s2.drop_last()[i],
    ) != "public"@ && s1.drop_last()[i].path == s2.drop_last()[i].path
        && s1.drop_last()[i].metadata.id == s2.drop_last()[i].metadata.id) by {
        assert(s1.drop_last()[i] == s1[i] && s2.drop_last()[i] == s2[i]);
    }
}

proof fn lemma_same_public_parts_ids(s1: Seq<NoteView>, s2: Seq<NoteView>)
    requires
        same_public_parts(s1, s2),
    ensures
        id_pairs(s1) == id_pairs(s2),
    decreases s1.len(),
{
    if s1.len() > 0 {
        lemma_same_public_parts_prefix(s1, s2);
        lemma_same_public_parts_ids(s1.drop_last(), s2.drop_last());
        assert(s1[s1.len() - 1] == s1.last() && s2[s2.len() - 1] == s2.last());
    }
}

proof fn lemma_same_public_parts_entries(types: Seq<Seq<char>>, s1: Seq<NoteView>, s2: Seq<NoteView>)
    requires
        same_public_parts(s1, s2),
    ensures
        s1.filter(|n: NoteView| is_feed_entry(types, n)) == s2.filter(
            |n: NoteView| is_feed_entry(types, n),
        ),
    decreases s1.len(),
{
    let pred = |n: NoteView| is_feed_entry(types, n);
    if s1.len() == 0 {
        assert(s2.len() == 0);
        assert(s1 =~= s2);
    } else {
        lemma_same_public_parts_prefix(s1, s2);
        lemma_same_public_parts_entries(types, s1.drop_last(), s2.drop_last());
        assert(s1.drop_last().push(s1.last()) =~= s1);
        assert(s2.drop_last().push(s2.last()) =~= s2);
        s1.drop_last().lemma_filter_push(s1.last(), pred);
        s2.drop_last().lemma_filter_push(s2.last(), pred);
        assert(s1[s1.len() - 1] == s1.last() && s2[s2.len() - 1] == s2.last());
    }
}

/// The feed shows nothing of a note that is not signed `public` but its
/// identifier's path: listings that differ only in the other parts of such
/// notes (body, title, date, type, file name, ...) give the same feed.
pub proof fn lemma_feed_ignores_private_parts(cfg: FeedConfig, s1: Seq<NoteView>, s2: Seq<NoteView>)
    requires
        same_public_parts(s1, s2),
    ensures
        cfg_atom(cfg, s1) == cfg_atom(cfg, s2),
{
    let types = string_views(cfg.note_types@);
    lemma_same_public_parts_ids(s1, s2);
    lemma_same_public_parts_entries(types, s1, s2);
}

/// The feed's `<updated>` is the newest date among its entries: the ISO
/// date of some entry, not earlier (as ISO dates compare, character by
/// character) than the ISO date of any entry; the epoch only when no entry
/// has a date.
pub proof fn lemma_feed_updated_is_newest(es: Seq<NoteView>)
    ensures
        match max_iso(es) {
            Some(d) => {
                &&& exists|i: int| 0 <= i < es.len() && note_iso(#[trigger] es[i]) == Some(d)
                &&& forall|i: int|
                    0 <= i < es.len() && note_iso(#[trigger] es[i]) is Some ==> note_iso(es[i])->0
                        == d || lex_lt(note_iso(es[i])->0, d)
                &&& feed_updated(es) == d + "T00:00:00Z"@
            },
            None => {
                &&& forall|i: int| 0 <= i < es.len() ==> note_iso(#[trigger] es[i]) is None
                &&& feed_updated(es) == "1970-01-01T00:00:00Z"@
            },
        },
    decreases es.len(),
{
    if es.len() > 0 {
        let t = es.drop_last();
        let n = es.last();
        lemma_feed_updated_is_newest(t);
        assert forall|i: int| 0 <= i < t.len() implies #[trigger] t[i] == es[i] by {}
        assert(es[es.len() - 1] == n);
        match note_iso(n) {
            Some(d) => match max_iso(t) {
                Some(m) => {
                    if lex_lt(m, d) {
                        assert forall|i: int|
                            0 <= i < es.len() && note_iso(#[trigger] es[i]) is Some implies note_iso(
                            es[i],
                        )->0 == d || lex_lt(note_iso(es[i])->0, d) by {
                            if i < t.len() {
                                assert(t[i] == es[i]);
                                if note_iso(es[i])->0 != m {
                                    crate::order::lemma_lex_transitive(note_iso(es[i])->0, m, d);
                                }
                            }
                        }
                    } else {
                        if m != d {
                            crate::order::lemma_lex_total(m, d);
                        }
                        let k = choose|k: int| 0 <= k < t.len() && note_iso(#[trigger] t[k]) == Some(m);
                        assert(es[k] == t[k]);
                        assert forall|i: int|
                            0 <= i < es.len() && note_iso(#[trigger] es[i]) is Some implies note_iso(
                            es[i],
                        )->0 == m || lex_lt(note_iso(es[i])->0, m) by {
                            if i < t.len() {
                                assert(t[i] == es[i]);
                            }
                        }
                    }
                },
                None => {
                    assert forall|i: int|
                        0 <= i < es.len() && note_iso(#[trigger] es[i]) is Some implies note_iso(
                        es[i],
                    )->0 == d || lex_lt(note_iso(es[i])->0, d) by {
                        if i < t.len() {
                            assert(t[i] == es[i]);
                        }
                    }
                },
            },
            None => {
                match max_iso(t) {
                    Some(m) => {
                        let k = choose|k: int| 0 <= k < t.len() && note_iso(#[trigger] t[k]) == Some(m);
                        assert(es[k] == t[k]);
                        assert forall|i: int|
                            0 <= i < es.len() && note_iso(#[trigger] es[i]) is Some implies note_iso(
                            es[i],
                        )->0 == m || lex_lt(note_iso(es[i])->0, m) by {
                            if i < t.len() {
                                assert(t[i] == es[i]);
                            }
                        }
                    },
                    None => {
                        assert forall|i: int| 0 <= i < es.len() implies note_iso(#[trigger] es[i]) is None by {
                            if i < t.len() {
                                assert(t[i] == es[i]);
                            }
                        }
                    },
                }
            },
        }
    }
}

} // verus!
