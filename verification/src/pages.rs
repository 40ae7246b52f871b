//! Which note a note page shows, and the link context it renders with.
use vstd::prelude::*;
use crate::chars::{contains, eq_exec, find_exec, str_chars};
use crate::compute::{compute_id_map, id_map_spec};
use crate::links::LinkContext;
use crate::models::{Note, NoteView, NotesConfig, display_title_spec, note_views, signature_spec, string_views};

verus! {

broadcast use vstd::string::group_string_axioms;

/// An index note: its file name holds `--index`.
pub open spec fn is_index_note(n: NoteView) -> bool {
    contains(n.filename, "--index"@)
}

/// The note a page asks for: the one at `path`, or the index note
/// (a filename holding `--index`) when no path is given.
pub open spec fn page_match(n: NoteView, path: Option<Seq<char>>) -> bool {
    match path {
        Some(p) => n.path == p,
        None => is_index_note(n),
    }
}

pub open spec fn opt_str(o: Option<&str>) -> Option<Seq<char>> {
    match o {
        Some(s) => Some(s@),
        None => None,
    }
}

fn matches_page(n: &Note, path: Option<&str>, index_tag: &Vec<char>) -> (b: bool)
    requires
        index_tag@ == "--index"@,
    ensures
        b == page_match(n@, opt_str(path)),
{
    match path {
        Some(p) => {
            let a = str_chars(n.path.as_str());
            let b = str_chars(p);
            eq_exec(&a, &b)
        },
        None => {
            let f = str_chars(n.filename.as_str());
            find_exec(&f, index_tag).is_some()
        },
    }
}

/// The position of the note a page shows: the first note whose path is
/// `path`, or, without a path, the first whose filename holds `--index`.
pub fn select_note(notes: &Vec<Note>, path: Option<&str>) -> (r: Option<usize>)
    ensures
        r matches Some(i) ==> i < notes@.len() && page_match(notes@[i as int]@, opt_str(path))
            && forall|j: int| 0 <= j < i ==> !page_match(#[trigger] notes@[j]@, opt_str(path)),
        r is None ==> forall|j: int|
            0 <= j < notes@.len() ==> !page_match(#[trigger] notes@[j]@, opt_str(path)),
{
    let tag = str_chars("--index");
    proof {
        reveal_strlit("--index");
    }
    let mut i: usize = 0;
    while i < notes.len()
        invariant
            i <= notes@.len(),
            tag@ == "--index"@,
            forall|j: int| 0 <= j < i ==> !page_match(#[trigger] notes@[j]@, opt_str(path)),
        decreases notes@.len() - i,
    {
        if matches_page(&notes[i], path, &tag) {
            return Some(i);
        }
        i = i + 1;
    }
    None
}

/// The identifiers that the notes carry, in order.
pub open spec fn carried_ids(s: Seq<NoteView>) -> Seq<Seq<char>>
    decreases s.len(),
{
    if s.len() == 0 {
        Seq::empty()
    } else {
        let rest = carried_ids(s.drop_last());
        match s.last().metadata.id {
            Some(id) => rest.push(id),
            None => rest,
        }
    }
}

/// The identifiers of the notes that have one, in order.
pub fn note_ids(notes: &Vec<Note>) -> (r: Vec<String>)
    ensures
        string_views(r@) == carried_ids(note_views(notes@)),
{
    let mut r: Vec<String> = Vec::new();
    let mut i: usize = 0;
    while i < notes.len()
        invariant
            i <= notes@.len(),
            string_views(r@) == carried_ids(note_views(notes@).take(i as int)),
        decreases notes@.len() - i,
    {
        proof {
            assert(note_views(notes@).take(i as int + 1).drop_last() =~= note_views(notes@).take(
                i as int,
            ));
        }
        match &notes[i].metadata.id {
            Some(id) => {
                r.push(id.as_str().to_owned());
                proof {
                    assert(string_views(r@) =~= carried_ids(note_views(notes@).take(i as int)).push(
                        id@,
                    ));
                }
            },
            None => {},
        }
        i = i + 1;
    }
    proof {
        assert(note_views(notes@).take(notes@.len() as int) =~= note_views(notes@));
    }
    r
}

/// The link context a note page renders with: every note's id → file,
/// the ids of the notes the reader was given, and the note URL prefix.
pub fn page_context(notes: &Vec<Note>, prefix: String) -> (r: LinkContext)
    ensures
        r.id_map@ == id_map_spec(note_views(notes@)),
        string_views(r.accessible_ids@) == carried_ids(note_views(notes@)),
        r.notes_prefix@ == prefix@,
{
    let id_map = compute_id_map(notes);
    let ids = note_ids(notes);
    LinkContext::new(id_map, ids).with_notes_prefix(prefix)
}

/// One line of the notes list page.
pub struct ListItem {
    pub url: String,
    pub title: String,
    /// The date, when the note has a non-empty one.
    pub date: Option<String>,
    /// The signature, shown when it is not `public`.
    pub badge: Option<String>,
}

pub struct ListItemView {
    pub url: Seq<char>,
    pub title: Seq<char>,
    pub date: Option<Seq<char>>,
    pub badge: Option<Seq<char>>,
}

impl View for ListItem {
    type V = ListItemView;

    open spec fn view(&self) -> ListItemView {
        ListItemView {
            url: self.url@,
            title: self.title@,
            date: match self.date {
                Some(d) => Some(d@),
                None => None,
            },
            badge: match self.badge {
                Some(b) => Some(b@),
                None => None,
            },
        }
    }
}

pub open spec fn list_item_spec(prefix: Seq<char>, n: NoteView) -> ListItemView {
    ListItemView {
        url: prefix + seq!['/'] + n.path,
        title: display_title_spec(n),
        date: match n.metadata.date {
            Some(d) => if d.len() > 0 {
                Some(d)
            } else {
                None
            },
            None => None,
        },
        badge: if signature_spec(n) != "public"@ {
            Some(signature_spec(n))
        } else {
            None
        },
    }
}

/// The lines of the notes list page: every note but index notes, in order.
pub open spec fn list_items_spec(prefix: Seq<char>, s: Seq<NoteView>) -> Seq<ListItemView> {
    s.filter(|n: NoteView| !is_index_note(n)).map_values(|n: NoteView| list_item_spec(prefix, n))
}

fn list_item(n: &Note, cfg: &NotesConfig) -> (r: ListItem)
    ensures
        r@ == list_item_spec(cfg.prefix@, n@),
{
    proof {
        reveal_strlit("public");
    }
    let url = cfg.note_url(n.path.as_str());
    let title = n.display_title().to_owned();
    let date = match &n.metadata.date {
        Some(d) => if str_chars(d.as_str()).len() > 0 {
            Some(d.clone())
        } else {
            None
        },
        None => None,
    };
    let sig = str_chars(n.signature());
    let publ = str_chars("public");
    let badge = if eq_exec(&sig, &publ) {
        None
    } else {
        Some(n.signature().to_owned())
    };
    ListItem { url, title, date, badge }
}

/// The lines of the notes list page.
pub fn list_items(notes: &Vec<Note>, cfg: &NotesConfig) -> (r: Vec<ListItem>)
    ensures
        r@.map_values(|x: ListItem| x@) == list_items_spec(cfg.prefix@, note_views(notes@)),
{
    let ghost pred = |n: NoteView| !is_index_note(n);
    let ghost f = |n: NoteView| list_item_spec(cfg.prefix@, n);
    let tag = str_chars("--index");
    proof {
        reveal_strlit("--index");
    }
    let mut r: Vec<ListItem> = Vec::new();
    let mut i: usize = 0;
    while i < notes.len()
        invariant
            i <= notes@.len(),
            tag@ == "--index"@,
            r@.map_values(|x: ListItem| x@) == note_views(notes@).take(i as int).filter(pred).map_values(f),
            pred == (|n: NoteView| !is_index_note(n)),
            f == (|n: NoteView| list_item_spec(cfg.prefix@, n)),
        decreases notes@.len() - i,
    {
        let ghost s = note_views(notes@);
        proof {
            assert(s.take(i as int + 1).drop_last() =~= s.take(i as int));
            assert(s.take(i as int + 1).last() == notes@[i as int]@);
            s.take(i as int).lemma_filter_push(s[i as int], pred);
            assert(s.take(i as int + 1) =~= s.take(i as int).push(s[i as int]));
        }
        let f_chars = str_chars(notes[i].filename.as_str());
        if find_exec(&f_chars, &tag).is_none() {
            let item = list_item(&notes[i], cfg);
            let ghost before = r@;
            r.push(item);
            proof {
                assert(r@.map_values(|x: ListItem| x@) =~= before.map_values(|x: ListItem| x@).push(
                    f(s[i as int]),
                ));
            }
        }
        i = i + 1;
    }
    proof {
        assert(note_views(notes@).take(notes@.len() as int) =~= note_views(notes@));
    }
    r
}

} // verus!
