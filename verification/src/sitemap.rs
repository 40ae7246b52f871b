//! The sitemap: configured static paths and the public notes, with the
//! date of each note where it has a plausible one.
use vstd::prelude::*;
use vstd::string::StringSliceAdditionalSpecFns;
use vstd::utf8::{decode_utf8, encode_utf8, is_char_boundary};
use crate::chars::{
    contains, eq_str, find_exec, push_all, push_str, replace_all, starts_with, str_chars,
    string_of_all,
};
use crate::feed::trim_end_slashes;
use crate::models::{Note, NoteView, note_views, signature_spec, string_views};

verus! {

broadcast use {
    vstd::string::group_string_axioms,
    vstd::utf8::encode_utf8_valid_utf8,
    vstd::utf8::encode_utf8_decode_utf8,
};

/// `&`, `<`, `>`, `"` and `'` as XML entities, in that order.
pub open spec fn xml_escape_spec(s: Seq<char>) -> Seq<char> {
    replace_all(crate::feed::xml_escape_spec(s), "'"@, "&apos;"@)
}

fn xml_escape_chars(v: &Vec<char>) -> (r: Vec<char>)
    ensures
        r@ == xml_escape_spec(v@),
{
    proof {
        reveal_strlit("'");
    }
    let a = crate::feed::xml_escape_chars(v);
    let p = str_chars("'");
    let q = str_chars("&apos;");
    crate::chars::replace_exec(&a, &p, &q)
}

/// Escapes text for a sitemap (apostrophes too).
pub fn xml_escape(s: &str) -> (r: String)
    ensures
        r@ == xml_escape_spec(s@),
{
    string_of_all(&xml_escape_chars(&str_chars(s)))
}

// ---------------------------------------------------------------------------
// Dates
// ---------------------------------------------------------------------------

pub open spec fn is_digit_byte(b: u8) -> bool {
    0x30 <= b <= 0x39
}

pub open spec fn digits_value(b: Seq<u8>, i: int, n: int) -> int
    decreases n,
{
    if n <= 0 {
        0
    } else {
        digits_value(b, i, n - 1) * 10 + (b[i + n - 1] - 0x30)
    }
}

/// A plausible date `YYYY-MM-DD` at byte `i`: a year from 1900, a month
/// from 1 to 12, a day from 1 to 31.
pub open spec fn valid_date_at(b: Seq<u8>, i: int) -> bool {
    &&& b[i + 4] == 0x2D
    &&& b[i + 7] == 0x2D
    &&& forall|j: int| 0 <= j < 10 && j != 4 && j != 7 ==> is_digit_byte(#[trigger] b[i + j])
    &&& digits_value(b, i, 4) >= 1900
    &&& 1 <= digits_value(b, i + 5, 2) <= 12
    &&& 1 <= digits_value(b, i + 8, 2) <= 31
}

/// The first byte index from `i` where a plausible date starts.
pub open spec fn date_scan(b: Seq<u8>, i: int) -> Option<int>
    decreases b.len() - i,
{
    if i < 0 || i + 10 > b.len() {
        None
    } else if valid_date_at(b, i) {
        Some(i)
    } else {
        date_scan(b, i + 1)
    }
}

/// The first plausible date of the text.
pub open spec fn sitemap_date_spec(s: Seq<char>) -> Option<Seq<char>> {
    let b = encode_utf8(s);
    match date_scan(b, 0) {
        Some(i) => Some(decode_utf8(b.subrange(i, i + 10))),
        None => None,
    }
}

/// In UTF-8 text, the byte after an ASCII byte that starts a character
/// starts one too (or is the end).
proof fn lemma_boundary_after_ascii(b: Seq<u8>, i: int)
    requires
        vstd::utf8::valid_utf8(b),
        0 <= i < b.len(),
        b[i] < 0x80,
    ensures
        is_char_boundary(b, i),
        is_char_boundary(b, i + 1),
{
    vstd::utf8::is_char_boundary_iff_not_is_continuation_byte(b, i);
    vstd::utf8::valid_utf8_split(b, i);
    let rest = b.subrange(i, b.len() as int);
    assert(rest[0] == b[i]);
    assert(vstd::utf8::pop_first_scalar(rest) =~= b.subrange(i + 1, b.len() as int));
    if i + 1 == b.len() {
        vstd::utf8::is_char_boundary_start_end_of_seq(b);
    } else {
        let x = b.subrange(i + 1, b.len() as int);
        assert(vstd::utf8::valid_utf8(x));
        assert(is_char_boundary(x, 0));
        vstd::utf8::is_char_boundary_iff_not_is_continuation_byte(x, 0);
        assert(x[0] == b[i + 1]);
        vstd::utf8::is_char_boundary_iff_not_is_continuation_byte(b, i + 1);
    }
}

fn digit_value(b: u8) -> (r: u32)
    requires
        is_digit_byte(b),
    ensures
        r == b - 0x30,
{
    (b - 0x30) as u32
}

fn valid_date_exec(b: &[u8], i: usize) -> (r: bool)
    requires
        i + 10 <= b@.len(),
    ensures
        r == valid_date_at(b@, i as int),
{
    assert(b@.len() == b.len());
    if b[i + 4] != 0x2D || b[i + 7] != 0x2D {
        return false;
    }
    let mut j: usize = 0;
    while j < 10
        invariant
            j <= 10,
            i + 10 <= b@.len(),
            b@.len() == b.len(),
            forall|m: int| 0 <= m < j && m != 4 && m != 7 ==> is_digit_byte(#[trigger] b@[i + m]),
        decreases 10 - j,
    {
        if j != 4 && j != 7 && !(0x30 <= b[i + j] && b[i + j] <= 0x39) {
            return false;
        }
        j = j + 1;
    }
    proof {
        assert(is_digit_byte(b@[i + 0]) && is_digit_byte(b@[i + 1]) && is_digit_byte(b@[i + 2])
            && is_digit_byte(b@[i + 3]) && is_digit_byte(b@[i + 5]) && is_digit_byte(b@[i + 6])
            && is_digit_byte(b@[i + 8]) && is_digit_byte(b@[i + 9]));
    }
    let year = digit_value(b[i]) * 1000 + digit_value(b[i + 1]) * 100 + digit_value(b[i + 2]) * 10
        + digit_value(b[i + 3]);
    let month = digit_value(b[i + 5]) * 10 + digit_value(b[i + 6]);
    let day = digit_value(b[i + 8]) * 10 + digit_value(b[i + 9]);
    proof {
        reveal_with_fuel(digits_value, 5);
    }
    year >= 1900 && 1 <= month && month <= 12 && 1 <= day && day <= 31
}

pub open spec fn opt_view(o: Option<String>) -> Option<Seq<char>> {
    match o {
        Some(s) => Some(s@),
        None => None,
    }
}

/// The first plausible `YYYY-MM-DD` of a date text, whatever comes before
/// it; `None` where there is none, so that the sitemap leaves out
/// `<lastmod>` rather than give an invalid one.
pub fn extract_iso_date(s: &str) -> (r: Option<String>)
    ensures
        opt_view(r) == sitemap_date_spec(s@),
{
    let b = s.as_bytes();
    let n: usize = b.len();
    if n < 10 {
        return None;
    }
    let mut i: usize = 0;
    while i <= n - 10
        invariant
            n == b@.len(),
            b@ == encode_utf8(s@),
            n >= 10,
            i <= n - 9,
            date_scan(b@, 0) == date_scan(b@, i as int),
        decreases n - 9 - i,
    {
        if valid_date_exec(b, i) {
            proof {
                assert(is_digit_byte(b@[i + 0]) && is_digit_byte(b@[i + 9]));
                lemma_boundary_after_ascii(b@, i as int);
                lemma_boundary_after_ascii(b@, i + 9);
            }
            let (_, rest) = s.split_at(i);
            proof {
                let rb = rest.spec_bytes();
                assert(rb =~= b@.subrange(i as int, n as int));
                vstd::utf8::valid_utf8_split(b@, i as int);
                if i + 10 < n {
                    vstd::utf8::is_char_boundary_iff_not_is_continuation_byte(b@, i + 10);
                    vstd::utf8::is_char_boundary_iff_not_is_continuation_byte(rb, 10);
                    assert(rb[10] == b@[i + 10]);
                } else {
                    vstd::utf8::is_char_boundary_start_end_of_seq(rb);
                }
            }
            let (slice, _) = rest.split_at(10);
            proof {
                assert(rest.spec_bytes() =~= b@.subrange(i as int, n as int));
                assert(slice.spec_bytes() =~= b@.subrange(i as int, i + 10));
                vstd::utf8::encode_utf8_decode_utf8(slice@);
            }
            return Some(slice.to_owned());
        }
        i = i + 1;
    }
    None
}

// ---------------------------------------------------------------------------
// The sitemap
// ---------------------------------------------------------------------------

/// Where the sitemap is served from and what else it lists.
pub struct SitemapConfig {
    pub base_url: String,
    /// Paths listed besides the notes, e.g. `/`.
    pub static_paths: Vec<String>,
}

pub open spec fn rooted(p: Seq<char>) -> Seq<char> {
    if starts_with(p, "/"@) {
        p
    } else {
        "/"@ + p
    }
}

pub open spec fn statics_xml(base: Seq<char>, ps: Seq<Seq<char>>) -> Seq<char>
    decreases ps.len(),
{
    if ps.len() == 0 {
        Seq::empty()
    } else {
        statics_xml(base, ps.drop_last()) + "  <url><loc>"@ + xml_escape_spec(base + rooted(ps.last()))
            + "</loc></url>\n"@
    }
}

/// A note the sitemap lists: public, and not an index note (whose body is
/// served at the landing page).
pub open spec fn in_sitemap(n: NoteView) -> bool {
    signature_spec(n) == "public"@ && !contains(n.filename, "--index"@)
}

pub open spec fn lastmod_xml(n: NoteView) -> Seq<char> {
    match n.metadata.date {
        Some(d) => match sitemap_date_spec(d) {
            Some(x) => "<lastmod>"@ + xml_escape_spec(x) + "</lastmod>"@,
            None => Seq::empty(),
        },
        None => Seq::empty(),
    }
}

pub open spec fn notes_xml(base: Seq<char>, s: Seq<NoteView>) -> Seq<char>
    decreases s.len(),
{
    if s.len() == 0 {
        Seq::empty()
    } else {
        let n = s.last();
        notes_xml(base, s.drop_last()) + if in_sitemap(n) {
            "  <url><loc>"@ + xml_escape_spec(base + "/notes/"@ + n.path) + "</loc>"@
                + lastmod_xml(n) + "</url>\n"@
        } else {
            Seq::empty()
        }
    }
}

/// The sitemap document for the static paths and the readable notes.
pub open spec fn sitemap_spec(base_url: Seq<char>, paths: Seq<Seq<char>>, s: Seq<NoteView>) -> Seq<
    char,
> {
    let base = trim_end_slashes(base_url);
    "<?xml version=\"1.0\" encoding=\"UTF-8\"?>\n<urlset xmlns=\"http://www.sitemaps.org/schemas/sitemap/0.9\">\n"@
        + statics_xml(base, paths) + notes_xml(base, s) + "</urlset>\n"@
}

fn sitemap_chars(cfg: &SitemapConfig, notes: &Vec<Note>) -> (r: Vec<char>)
    ensures
        r@ == sitemap_spec(cfg.base_url@, string_views(cfg.static_paths@), note_views(notes@)),
{
    proof {
        reveal_strlit("/");
        reveal_strlit("--index");
    }
    let base = crate::feed::trim_end_slashes_exec(&str_chars(cfg.base_url.as_str()));
    let ghost ps = string_views(cfg.static_paths@);
    let ghost s = note_views(notes@);
    let mut xml: Vec<char> = Vec::new();
    push_str(
        &mut xml,
        "<?xml version=\"1.0\" encoding=\"UTF-8\"?>\n<urlset xmlns=\"http://www.sitemaps.org/schemas/sitemap/0.9\">\n",
    );
    let ghost head = xml@;
    let mut i: usize = 0;
    proof {
        assert(ps.take(0) =~= Seq::<Seq<char>>::empty());
        assert(xml@ =~= head + statics_xml(base@, ps.take(0)));
    }
    while i < cfg.static_paths.len()
        invariant
            i <= ps.len(),
            ps == string_views(cfg.static_paths@),
            xml@ == head + statics_xml(base@, ps.take(i as int)),
        decreases ps.len() - i,
    {
        proof {
            reveal_strlit("/");
            assert(ps.take(i + 1).drop_last() =~= ps.take(i as int));
            assert(ps.take(i + 1).last() == cfg.static_paths@[i as int]@);
        }
        let p = str_chars(cfg.static_paths[i].as_str());
        let mut url: Vec<char> = Vec::new();
        push_all(&mut url, &base);
        if !crate::chars::starts_with_str(&p, "/") {
            push_str(&mut url, "/");
        }
        push_all(&mut url, &p);
        proof {
            assert(url@ =~= base@ + rooted(p@));
        }
        push_str(&mut xml, "  <url><loc>");
        push_all(&mut xml, &xml_escape_chars(&url));
        push_str(&mut xml, "</loc></url>\n");
        i = i + 1;
    }
    proof {
        assert(ps.take(ps.len() as int) =~= ps);
    }
    let ghost mid = xml@;
    let idx = str_chars("--index");
    let mut k: usize = 0;
    proof {
        assert(s.take(0) =~= Seq::<NoteView>::empty());
        assert(xml@ =~= mid + notes_xml(base@, s.take(0)));
    }
    while k < notes.len()
        invariant
            k <= s.len(),
            s == note_views(notes@),
            idx@ == "--index"@,
            xml@ == mid + notes_xml(base@, s.take(k as int)),
        decreases s.len() - k,
    {
        let n = &notes[k];
        proof {
            assert(s.take(k + 1).drop_last() =~= s.take(k as int));
            assert(s.take(k + 1).last() == n@);
            assert(s[k as int] == n@);
        }
        let public = eq_str(&str_chars(n.signature()), "public");
        let index = find_exec(&str_chars(n.filename.as_str()), &idx).is_some();
        if public && !index {
            let lastmod: Vec<char> = match &n.metadata.date {
                Some(d) => match extract_iso_date(d.as_str()) {
                    Some(x) => {
                        let mut t: Vec<char> = Vec::new();
                        push_str(&mut t, "<lastmod>");
                        push_all(&mut t, &xml_escape_chars(&str_chars(x.as_str())));
                        push_str(&mut t, "</lastmod>");
                        t
                    },
                    None => Vec::new(),
                },
                None => Vec::new(),
            };
            proof {
                assert(lastmod@ =~= lastmod_xml(n@));
            }
            let mut url: Vec<char> = Vec::new();
            push_all(&mut url, &base);
            push_str(&mut url, "/notes/");
            push_str(&mut url, n.path.as_str());
            push_str(&mut xml, "  <url><loc>");
            push_all(&mut xml, &xml_escape_chars(&url));
            push_str(&mut xml, "</loc>");
            push_all(&mut xml, &lastmod);
            push_str(&mut xml, "</url>\n");
        }
        k = k + 1;
    }
    push_str(&mut xml, "</urlset>\n");
    proof {
        assert(s.take(s.len() as int) =~= s);
    }
    xml
}

/// Builds the sitemap from the notes readable anonymously: the static
/// paths, then every public note that is not an index note, with its date
/// where it has a plausible one.
pub fn build_sitemap(cfg: &SitemapConfig, notes: &Vec<Note>) -> (r: String)
    ensures
        r@ == sitemap_spec(cfg.base_url@, string_views(cfg.static_paths@), note_views(notes@)),
{
    string_of_all(&sitemap_chars(cfg, notes))
}

/// The sitemap lists public, non-index notes only: leaving out every other
/// note changes nothing.
pub proof fn lemma_sitemap_lists_public_only(base: Seq<char>, s: Seq<NoteView>)
    ensures
        notes_xml(base, s) == notes_xml(base, s.filter(|n: NoteView| in_sitemap(n))),
    decreases s.len(),
{
    let pred = |n: NoteView| in_sitemap(n);
    if s.len() == 0 {
        assert(s.filter(pred) =~= Seq::<NoteView>::empty()) by {
            reveal(Seq::filter);
        }
    } else {
        lemma_sitemap_lists_public_only(base, s.drop_last());
        assert(s.drop_last().push(s.last()) =~= s);
        s.drop_last().lemma_filter_push(s.last(), pred);
        if pred(s.last()) {
            assert(s.filter(pred).drop_last() =~= s.drop_last().filter(pred));
        }
    }
}

} // verus!
