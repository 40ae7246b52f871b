//! Where a link of a rendered note points, and whether its reader may
//! follow it.
use vstd::prelude::*;
use crate::auth::holds;
use crate::chars::{matches_at_exec, push_str, starts_with, starts_with_str, str_chars, string_of_all, copy_range};
use crate::models::string_views;
use crate::strmap::StrMap;

verus! {

broadcast use vstd::string::group_string_axioms;

/// What links are resolved against: the id → file map, the identifiers
/// the reader may open (empty: all), and the prefix of note URLs.
pub struct LinkContext {
    pub id_map: StrMap,
    pub accessible_ids: Vec<String>,
    pub notes_prefix: String,
}

impl LinkContext {
    /// Notes under `/notes`.
    pub fn new(id_map: StrMap, accessible_ids: Vec<String>) -> (r: LinkContext)
        ensures
            r.id_map@ == id_map@,
            r.accessible_ids@ == accessible_ids@,
            r.notes_prefix@ == "/notes"@,
    {
        LinkContext { id_map, accessible_ids, notes_prefix: "/notes".to_owned() }
    }

    pub fn with_notes_prefix(self, prefix: String) -> (r: LinkContext)
        ensures
            r.id_map@ == self.id_map@,
            r.accessible_ids@ == self.accessible_ids@,
            r.notes_prefix@ == prefix@,
    {
        let mut c = self;
        c.notes_prefix = prefix;
        c
    }
}

/// A resolved link.
pub struct ResolvedLink {
    pub href: String,
    pub is_accessible: bool,
    pub is_internal: bool,
}

/// The text without every leading `file:`.
pub open spec fn strip_file_prefixes(s: Seq<char>) -> Seq<char>
    decreases s.len(),
{
    if s.len() >= 5 && starts_with(s, "file:"@) {
        strip_file_prefixes(s.skip(5))
    } else {
        s
    }
}

/// `(href, accessible)` of a link path: a `denote:` link goes to its note
/// when the id is known (else stays as written) and may be opened when the
/// reader's identifiers allow it; any other path loses its `file:` prefixes.
pub open spec fn resolve_spec(
    path: Seq<char>,
    prefix: Seq<char>,
    ids: Map<Seq<char>, Seq<char>>,
    accessible: Seq<Seq<char>>,
) -> (Seq<char>, bool) {
    if starts_with(path, "denote:"@) {
        let id = path.skip(7);
        (
            if ids.contains_key(id) {
                prefix + "/"@ + ids[id]
            } else {
                path
            },
            accessible.len() == 0 || accessible.contains(id),
        )
    } else {
        (strip_file_prefixes(path), true)
    }
}

/// A site link: starts with `/` but not `//`.
pub open spec fn is_internal_spec(href: Seq<char>) -> bool {
    starts_with(href, "/"@) && !starts_with(href, "//"@)
}

fn strip_file_prefixes_exec(v: &Vec<char>) -> (r: Vec<char>)
    ensures
        r@ == strip_file_prefixes(v@),
{
    proof {
        reveal_strlit("file:");
    }
    let pat = str_chars("file:");
    let mut k: usize = 0;
    proof {
        assert(v@.skip(0) =~= v@);
    }
    while k <= v.len() && v.len() - k >= 5 && matches_at_exec(v, &pat, k)
        invariant
            k <= v@.len(),
            pat@ == "file:"@,
            strip_file_prefixes(v@) == strip_file_prefixes(v@.skip(k as int)),
        decreases v@.len() - k,
    {
        proof {
            reveal_strlit("file:");
            assert(v@.skip(k as int).subrange(0, 5) =~= v@.subrange(k as int, k + 5));
            assert(starts_with(v@.skip(k as int), "file:"@));
            assert(v@.skip(k as int).skip(5) =~= v@.skip(k + 5));
        }
        k = k + 5;
    }
    proof {
        if v@.len() - k >= 5 {
            assert(v@.skip(k as int).subrange(0, 5) =~= v@.subrange(k as int, k + 5));
        }
        assert(v@.subrange(k as int, v@.len() as int) =~= v@.skip(k as int));
    }
    copy_range(v, k, v.len())
}

/// Resolves a link path for a reader.
pub fn resolve_link(path: &str, ctx: &LinkContext) -> (r: ResolvedLink)
    ensures
        (r.href@, r.is_accessible) == resolve_spec(
            path@,
            ctx.notes_prefix@,
            ctx.id_map@,
            string_views(ctx.accessible_ids@),
        ),
        r.is_internal == is_internal_spec(r.href@),
{
    proof {
        reveal_strlit("denote:");
        reveal_strlit("/");
        reveal_strlit("//");
    }
    let v = str_chars(path);
    let (href, accessible) = if starts_with_str(&v, "denote:") {
        let id_chars = copy_range(&v, 7, v.len());
        let id = string_of_all(&id_chars);
        proof {
            assert(id_chars@ =~= path@.skip(7));
        }
        let accessible = ctx.accessible_ids.len() == 0 || holds(&ctx.accessible_ids, id.as_str());
        let resolved = match ctx.id_map.get(id.as_str()) {
            Some(file) => {
                let mut out: Vec<char> = Vec::new();
                push_str(&mut out, ctx.notes_prefix.as_str());
                push_str(&mut out, "/");
                push_str(&mut out, file.as_str());
                string_of_all(&out)
            },
            None => path.to_owned(),
        };
        (resolved, accessible)
    } else {
        (string_of_all(&strip_file_prefixes_exec(&v)), true)
    };
    let hv = str_chars(href.as_str());
    let is_internal = starts_with_str(&hv, "/") && !starts_with_str(&hv, "//");
    ResolvedLink { href, is_accessible: accessible, is_internal }
}

/// How a link of a rendered note is drawn.
pub enum LinkElement {
    /// The reader may not follow it: its description alone, or nothing.
    Hidden { show_description: bool },
    /// An image at the address.
    Image { src: String },
    /// A link; `internal` ones go through the client router, and
    /// `label_is_href` when there is no description to show.
    Link { href: String, internal: bool, label_is_href: bool },
}

pub enum LinkElementView {
    Hidden { show_description: bool },
    Image { src: Seq<char> },
    Link { href: Seq<char>, internal: bool, label_is_href: bool },
}

impl View for LinkElement {
    type V = LinkElementView;

    open spec fn view(&self) -> LinkElementView {
        match self {
            LinkElement::Hidden { show_description } => LinkElementView::Hidden {
                show_description: *show_description,
            },
            LinkElement::Image { src } => LinkElementView::Image { src: src@ },
            LinkElement::Link { href, internal, label_is_href } => LinkElementView::Link {
                href: href@,
                internal: *internal,
                label_is_href: *label_is_href,
            },
        }
    }
}

pub open spec fn link_element_spec(
    href: Seq<char>,
    accessible: bool,
    internal: bool,
    is_image: bool,
    has_description: bool,
) -> LinkElementView {
    if !accessible {
        LinkElementView::Hidden { show_description: has_description }
    } else if is_image {
        LinkElementView::Image { src: href }
    } else {
        LinkElementView::Link { href, internal, label_is_href: !has_description }
    }
}

/// How a resolved link is drawn: a link the reader may not follow keeps
/// only its description; an image link shows the image; any other link
/// shows its description, or its address when it has none.
pub fn link_element(resolved: &ResolvedLink, is_image: bool, has_description: bool) -> (r: LinkElement)
    ensures
        r@ == link_element_spec(
            resolved.href@,
            resolved.is_accessible,
            resolved.is_internal,
            is_image,
            has_description,
        ),
{
    if !resolved.is_accessible {
        LinkElement::Hidden { show_description: has_description }
    } else if is_image {
        LinkElement::Image { src: resolved.href.clone() }
    } else {
        LinkElement::Link {
            href: resolved.href.clone(),
            internal: resolved.is_internal,
            label_is_href: !has_description,
        }
    }
}

/// The heading element of a headline at `level` (counted from 1): `h1` to
/// `h5`, and `h6` for every deeper level.
pub fn heading_tag(level: usize) -> (r: &'static str)
    ensures
        1 <= level <= 6 ==> r@ == seq!['h', (('0' as u32) + level) as char],
        level > 6 ==> r@ == "h6"@,
        level == 0 ==> r@ == "h6"@,
{
    proof {
        reveal_strlit("h1");
        reveal_strlit("h2");
        reveal_strlit("h3");
        reveal_strlit("h4");
        reveal_strlit("h5");
        reveal_strlit("h6");
    }
    if level == 1 {
        "h1"
    } else if level == 2 {
        "h2"
    } else if level == 3 {
        "h3"
    } else if level == 4 {
        "h4"
    } else if level == 5 {
        "h5"
    } else {
        "h6"
    }
}

/// The kind of an org table row.
#[derive(Clone, Copy, PartialEq, Eq, Structural)]
pub enum RowKind {
    /// A horizontal rule (`|---+---|`).
    Rule,
    /// A row of cells.
    Standard,
    /// Any other row.
    Other,
}

/// The header and body rows (as indices) among the first `n` rows, and
/// whether a rule was met: with a header, the cell rows before the first
/// rule head the table and the non-rule rows after it make the body;
/// without one, every non-rule row is body.
pub open spec fn table_split(has_header: bool, rows: Seq<RowKind>, n: int) -> (Seq<usize>, Seq<usize>, bool)
    decreases n,
{
    if n <= 0 {
        (Seq::empty(), Seq::empty(), false)
    } else {
        let (hd, bd, found) = table_split(has_header, rows, n - 1);
        let k = rows[n - 1];
        let i = (n - 1) as usize;
        if has_header && !found {
            if k == RowKind::Rule {
                (hd, bd, true)
            } else if k == RowKind::Standard {
                (hd.push(i), bd, false)
            } else {
                (hd, bd, false)
            }
        } else if k != RowKind::Rule {
            (hd, bd.push(i), found)
        } else {
            (hd, bd, found)
        }
    }
}

/// Splits an org table's rows into header rows and body rows, as indices
/// in order (the first rule ends the header; rules are not drawn).
pub fn split_table_rows(has_header: bool, rows: &Vec<RowKind>) -> (r: (Vec<usize>, Vec<usize>))
    ensures
        r.0@ == table_split(has_header, rows@, rows@.len() as int).0,
        r.1@ == table_split(has_header, rows@, rows@.len() as int).1,
{
    let mut head: Vec<usize> = Vec::new();
    let mut body: Vec<usize> = Vec::new();
    let mut found = false;
    let mut i: usize = 0;
    while i < rows.len()
        invariant
            i <= rows@.len(),
            table_split(has_header, rows@, i as int) == (head@, body@, found),
        decreases rows@.len() - i,
    {
        let k = rows[i];
        if has_header && !found {
            if k == RowKind::Rule {
                found = true;
            } else if k == RowKind::Standard {
                head.push(i);
            }
        } else if k != RowKind::Rule {
            body.push(i);
        }
        i = i + 1;
    }
    (head, body)
}

} // verus!
