//! Notes, assets, users and site settings.
use vstd::prelude::*;
use crate::chars::{opt_view, str_chars, push_str, string_of_all, ends_with_exec};

verus! {

broadcast use vstd::string::group_string_axioms;

pub open spec fn string_views(v: Seq<String>) -> Seq<Seq<char>> {
    v.map_values(|s: String| s@)
}

/// A copy of an optional string.
pub fn clone_opt(o: &Option<String>) -> (r: Option<String>)
    ensures
        opt_view(r) == opt_view(*o),
{
    match o {
        Some(s) => Some(s.clone()),
        None => None,
    }
}

/// A copy of a list of strings.
pub fn clone_strings(v: &Vec<String>) -> (r: Vec<String>)
    ensures
        string_views(r@) == string_views(v@),
{
    let mut r: Vec<String> = Vec::new();
    let mut i: usize = 0;
    while i < v.len()
        invariant
            i <= v.len(),
            r@.len() == i,
            forall|k: int| 0 <= k < i ==> (#[trigger] r@[k])@ == v@[k]@,
        decreases v.len() - i,
    {
        r.push(v[i].clone());
        i = i + 1;
    }
    proof {
        assert(string_views(r@) =~= string_views(v@));
    }
    r
}

// ---------------------------------------------------------------------------
// Note identifiers
// ---------------------------------------------------------------------------

/// The identifier of a note (a Denote timestamp for org notes).
pub struct NoteId(String);

impl View for NoteId {
    type V = Seq<char>;

    closed spec fn view(&self) -> Seq<char> {
        self.0@
    }
}

impl NoteId {
    pub fn new(s: &str) -> (r: NoteId)
        ensures
            r@ == s@,
    {
        NoteId(s.to_owned())
    }

    pub fn as_str(&self) -> (r: &str)
        ensures
            r@ == self@,
    {
        self.0.as_str()
    }

    pub fn duplicate(&self) -> (r: NoteId)
        ensures
            r@ == self@,
    {
        NoteId(self.0.clone())
    }
}

pub open spec fn id_views(v: Seq<NoteId>) -> Seq<Seq<char>> {
    v.map_values(|i: NoteId| i@)
}

pub open spec fn opt_id_view(o: Option<NoteId>) -> Option<Seq<char>> {
    match o {
        Some(i) => Some(i@),
        None => None,
    }
}

pub fn clone_ids(v: &Vec<NoteId>) -> (r: Vec<NoteId>)
    ensures
        id_views(r@) == id_views(v@),
{
    let mut r: Vec<NoteId> = Vec::new();
    let mut i: usize = 0;
    while i < v.len()
        invariant
            i <= v.len(),
            r@.len() == i,
            forall|k: int| 0 <= k < i ==> (#[trigger] r@[k])@ == v@[k]@,
        decreases v.len() - i,
    {
        r.push(v[i].duplicate());
        i = i + 1;
    }
    proof {
        assert(id_views(r@) =~= id_views(v@));
    }
    r
}

pub open spec fn pair_views(v: Seq<(String, String)>) -> Seq<(Seq<char>, Seq<char>)> {
    v.map_values(|p: (String, String)| (p.0@, p.1@))
}

pub fn clone_pairs(v: &Vec<(String, String)>) -> (r: Vec<(String, String)>)
    ensures
        pair_views(r@) == pair_views(v@),
{
    let mut r: Vec<(String, String)> = Vec::new();
    let mut i: usize = 0;
    while i < v.len()
        invariant
            i <= v.len(),
            r@.len() == i,
            forall|k: int| 0 <= k < i ==> (#[trigger] r@[k]).0@ == v@[k].0@ && r@[k].1@ == v@[k].1@,
        decreases v.len() - i,
    {
        r.push((v[i].0.clone(), v[i].1.clone()));
        i = i + 1;
    }
    proof {
        assert(pair_views(r@) =~= pair_views(v@));
    }
    r
}

pub open spec fn opt_pairs_view(o: Option<Vec<(String, String)>>) -> Option<
    Seq<(Seq<char>, Seq<char>)>,
> {
    match o {
        Some(v) => Some(pair_views(v@)),
        None => None,
    }
}

pub open spec fn highlight_views(v: Seq<(u64, String)>) -> Seq<(u64, Seq<char>)> {
    v.map_values(|p: (u64, String)| (p.0, p.1@))
}

pub open spec fn opt_highlights_view(o: Option<Vec<(u64, String)>>) -> Option<
    Seq<(u64, Seq<char>)>,
> {
    match o {
        Some(v) => Some(highlight_views(v@)),
        None => None,
    }
}

pub open spec fn opt_ids_view(o: Option<Vec<NoteId>>) -> Option<Seq<Seq<char>>> {
    match o {
        Some(v) => Some(id_views(v@)),
        None => None,
    }
}

// ---------------------------------------------------------------------------
// Notes
// ---------------------------------------------------------------------------

pub struct NoteMetadata {
    pub id: Option<NoteId>,
    pub title: Option<String>,
    pub date: Option<String>,
    pub tags: Vec<String>,
    pub note_type: Option<String>,
    pub signature: Option<String>,
}

pub struct MetadataView {
    pub id: Option<Seq<char>>,
    pub title: Option<Seq<char>>,
    pub date: Option<Seq<char>>,
    pub tags: Seq<Seq<char>>,
    pub note_type: Option<Seq<char>>,
    pub signature: Option<Seq<char>>,
}

impl View for NoteMetadata {
    type V = MetadataView;

    open spec fn view(&self) -> MetadataView {
        MetadataView {
            id: opt_id_view(self.id),
            title: opt_view(self.title),
            date: opt_view(self.date),
            tags: string_views(self.tags@),
            note_type: opt_view(self.note_type),
            signature: opt_view(self.signature),
        }
    }
}

impl NoteMetadata {
    pub fn duplicate(&self) -> (r: NoteMetadata)
        ensures
            r@ == self@,
    {
        NoteMetadata {
            id: match &self.id {
                Some(i) => Some(i.duplicate()),
                None => None,
            },
            title: clone_opt(&self.title),
            date: clone_opt(&self.date),
            tags: clone_strings(&self.tags),
            note_type: clone_opt(&self.note_type),
            signature: clone_opt(&self.signature),
        }
    }

    /// Metadata with nothing set.
    pub fn empty() -> (r: NoteMetadata)
        ensures
            r@ == (MetadataView {
                id: None,
                title: None,
                date: None,
                tags: Seq::empty(),
                note_type: None,
                signature: None,
            }),
    {
        let tags: Vec<String> = Vec::new();
        proof {
            assert(string_views(tags@) =~= Seq::<Seq<char>>::empty());
        }
        NoteMetadata { id: None, title: None, date: None, tags, note_type: None, signature: None }
    }
}

/// A note: where it lives, its body when loaded, its metadata and what is
/// derived from its body when the cache is filled.
pub struct Note {
    pub path: String,
    pub filename: String,
    pub content: Option<String>,
    pub metadata: NoteMetadata,
    pub effective_signature: Option<String>,
    /// Rendered code blocks keyed by a hash of language and code, in key order.
    pub highlights: Option<Vec<(u64, String)>>,
    pub excerpt: Option<String>,
    pub reading_minutes: Option<u16>,
    /// Ids of the notes this note links to, sorted.
    pub link_ids: Option<Vec<NoteId>>,
    /// Fields of the body's top property drawer, uppercase keys in order.
    pub properties: Option<Vec<(String, String)>>,
}

pub struct NoteView {
    pub path: Seq<char>,
    pub filename: Seq<char>,
    pub content: Option<Seq<char>>,
    pub metadata: MetadataView,
    pub effective_signature: Option<Seq<char>>,
    pub highlights: Option<Seq<(u64, Seq<char>)>>,
    pub excerpt: Option<Seq<char>>,
    pub reading_minutes: Option<u16>,
    pub link_ids: Option<Seq<Seq<char>>>,
    pub properties: Option<Seq<(Seq<char>, Seq<char>)>>,
}

impl View for Note {
    type V = NoteView;

    open spec fn view(&self) -> NoteView {
        NoteView {
            path: self.path@,
            filename: self.filename@,
            content: opt_view(self.content),
            metadata: self.metadata@,
            effective_signature: opt_view(self.effective_signature),
            highlights: opt_highlights_view(self.highlights),
            excerpt: opt_view(self.excerpt),
            reading_minutes: self.reading_minutes,
            link_ids: opt_ids_view(self.link_ids),
            properties: opt_pairs_view(self.properties),
        }
    }
}

pub open spec fn note_views(v: Seq<Note>) -> Seq<NoteView> {
    v.map_values(|n: Note| n@)
}

/// A note as listed: no body and nothing derived from it.
pub open spec fn list_entry_spec(path: Seq<char>, filename: Seq<char>, m: MetadataView) -> NoteView {
    NoteView {
        path,
        filename,
        content: None,
        metadata: m,
        effective_signature: None,
        highlights: None,
        excerpt: None,
        reading_minutes: None,
        link_ids: None,
        properties: None,
    }
}

/// A note without body or highlights.
pub open spec fn summary_spec(n: NoteView) -> NoteView {
    NoteView { content: None, highlights: None, ..n }
}

/// The title shown for a note: its title, else its file name without `.org`.
pub open spec fn display_title_spec(n: NoteView) -> Seq<char> {
    match n.metadata.title {
        Some(t) => t,
        None => if n.filename.len() >= 4 && n.filename.skip(n.filename.len() - 4) == ".org"@ {
            n.filename.take(n.filename.len() - 4)
        } else {
            n.filename
        },
    }
}

/// The access signature of a note: the effective one, else the file
/// name's, else `public`.
pub open spec fn signature_spec(n: NoteView) -> Seq<char> {
    match n.effective_signature {
        Some(s) => s,
        None => match n.metadata.signature {
            Some(s) => s,
            None => "public"@,
        },
    }
}

fn clone_highlights(o: &Option<Vec<(u64, String)>>) -> (r: Option<Vec<(u64, String)>>)
    ensures
        opt_highlights_view(r) == opt_highlights_view(*o),
{
    match o {
        Some(v) => {
            let mut r: Vec<(u64, String)> = Vec::new();
            let mut i: usize = 0;
            while i < v.len()
                invariant
                    i <= v.len(),
                    r@.len() == i,
                    forall|k: int|
                        0 <= k < i ==> (#[trigger] r@[k]).0 == v@[k].0 && r@[k].1@ == v@[k].1@,
                decreases v.len() - i,
            {
                r.push((v[i].0, v[i].1.clone()));
                i = i + 1;
            }
            proof {
                assert(highlight_views(r@) =~= highlight_views(v@));
            }
            Some(r)
        },
        None => None,
    }
}

impl Note {
    /// A note as listed from storage, before its body is read.
    pub fn list_entry(path: String, filename: String, metadata: NoteMetadata) -> (r: Note)
        ensures
            r@ == list_entry_spec(path@, filename@, metadata@),
    {
        Note {
            path,
            filename,
            content: None,
            metadata,
            effective_signature: None,
            highlights: None,
            excerpt: None,
            reading_minutes: None,
            link_ids: None,
            properties: None,
        }
    }

    /// A copy without body or highlights (the summary index and backlink
    /// lists carry this).
    pub fn summary_entry(&self) -> (r: Note)
        ensures
            r@ == summary_spec(self@),
    {
        Note {
            path: self.path.clone(),
            filename: self.filename.clone(),
            content: None,
            metadata: self.metadata.duplicate(),
            effective_signature: clone_opt(&self.effective_signature),
            highlights: None,
            excerpt: clone_opt(&self.excerpt),
            reading_minutes: self.reading_minutes,
            link_ids: match &self.link_ids {
                Some(v) => Some(clone_ids(v)),
                None => None,
            },
            properties: match &self.properties {
                Some(v) => Some(clone_pairs(v)),
                None => None,
            },
        }
    }

    /// A full copy.
    pub fn duplicate(&self) -> (r: Note)
        ensures
            r@ == self@,
    {
        Note {
            path: self.path.clone(),
            filename: self.filename.clone(),
            content: clone_opt(&self.content),
            metadata: self.metadata.duplicate(),
            effective_signature: clone_opt(&self.effective_signature),
            highlights: clone_highlights(&self.highlights),
            excerpt: clone_opt(&self.excerpt),
            reading_minutes: self.reading_minutes,
            link_ids: match &self.link_ids {
                Some(v) => Some(clone_ids(v)),
                None => None,
            },
            properties: match &self.properties {
                Some(v) => Some(clone_pairs(v)),
                None => None,
            },
        }
    }

    pub fn display_title(&self) -> (r: &str)
        ensures
            r@ == display_title_spec(self@),
    {
        match &self.metadata.title {
            Some(t) => t.as_str(),
            None => {
                let v = str_chars(self.filename.as_str());
                let org = str_chars(".org");
                proof {
                    reveal_strlit(".org");
                }
                if ends_with_exec(&v, &org) {
                    proof {
                        assert(v@.subrange(v@.len() - 4, v@.len() as int) =~= v@.skip(
                            v@.len() - 4,
                        ));
                        assert(v@.subrange(0, v@.len() - 4) =~= v@.take(v@.len() - 4));
                    }
                    self.filename.as_str().substring_char(0, v.len() - 4)
                } else {
                    proof {
                        if v@.len() >= 4 && v@.skip(v@.len() - 4) == ".org"@ {
                            assert(v@.subrange(v@.len() - 4, v@.len() as int) =~= v@.skip(
                                v@.len() - 4,
                            ));
                        }
                    }
                    self.filename.as_str()
                }
            },
        }
    }

    pub fn signature(&self) -> (r: &str)
        ensures
            r@ == signature_spec(self@),
    {
        match &self.effective_signature {
            Some(s) => s.as_str(),
            None => match &self.metadata.signature {
                Some(s) => s.as_str(),
                None => "public",
            },
        }
    }
}

// ---------------------------------------------------------------------------
// Assets
// ---------------------------------------------------------------------------

/// A non-note file of the notes directory (image, video, ...).
pub struct Asset {
    pub path: String,
    pub filename: String,
    pub denote_id: String,
    pub signature: Option<String>,
}

pub struct AssetView {
    pub path: Seq<char>,
    pub filename: Seq<char>,
    pub denote_id: Seq<char>,
    pub signature: Option<Seq<char>>,
}

impl View for Asset {
    type V = AssetView;

    open spec fn view(&self) -> AssetView {
        AssetView {
            path: self.path@,
            filename: self.filename@,
            denote_id: self.denote_id@,
            signature: opt_view(self.signature),
        }
    }
}

impl Asset {
    pub fn duplicate(&self) -> (r: Asset)
        ensures
            r@ == self@,
    {
        Asset {
            path: self.path.clone(),
            filename: self.filename.clone(),
            denote_id: self.denote_id.clone(),
            signature: clone_opt(&self.signature),
        }
    }
}

pub open spec fn asset_views(v: Seq<Asset>) -> Seq<AssetView> {
    v.map_values(|a: Asset| a@)
}

// ---------------------------------------------------------------------------
// Site settings
// ---------------------------------------------------------------------------

pub struct SiteConfig {
    pub title: String,
    pub site_url: Option<String>,
    pub author_name: Option<String>,
    pub author_url: Option<String>,
}

impl Default for SiteConfig {
    /// The defaults: title `My Notes`, nothing else set.
    fn default() -> (r: SiteConfig)
        ensures
            r.title@ == "My Notes"@,
            r.site_url is None,
            r.author_name is None,
            r.author_url is None,
    {
        SiteConfig {
            title: "My Notes".to_owned(),
            site_url: None,
            author_name: None,
            author_url: None,
        }
    }
}

/// Where notes are served.
pub struct NotesConfig {
    pub prefix: String,
}

impl Default for NotesConfig {
    /// The default prefix `/notes`.
    fn default() -> (r: NotesConfig)
        ensures
            r.prefix@ == "/notes"@,
    {
        NotesConfig { prefix: "/notes".to_owned() }
    }
}

impl NotesConfig {
    pub fn new(prefix: String) -> (r: NotesConfig)
        ensures
            r.prefix@ == prefix@,
    {
        NotesConfig { prefix }
    }


    /// `prefix/file_path`.
    pub fn note_url(&self, file_path: &str) -> (r: String)
        ensures
            r@ == self.prefix@ + seq!['/'] + file_path@,
    {
        let mut out: Vec<char> = Vec::new();
        push_str(&mut out, self.prefix.as_str());
        out.push('/');
        push_str(&mut out, file_path);
        string_of_all(&out)
    }
}

/// One search hit.
pub struct SearchResult {
    pub path: String,
    pub title: Option<String>,
    pub snippet: String,
}

pub struct SearchResultView {
    pub path: Seq<char>,
    pub title: Option<Seq<char>>,
    pub snippet: Seq<char>,
}

impl View for SearchResult {
    type V = SearchResultView;

    open spec fn view(&self) -> SearchResultView {
        SearchResultView { path: self.path@, title: opt_view(self.title), snippet: self.snippet@ }
    }
}

/// Body-derived fields attached to a note when the cache is filled.
pub struct SummaryFields {
    pub excerpt: Option<String>,
    pub reading_minutes: Option<u16>,
    pub link_ids: Option<Vec<NoteId>>,
    pub properties: Option<Vec<(String, String)>>,
}

} // verus!
