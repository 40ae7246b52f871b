//! The note repository: the cache of notes seen through an authorization
//! policy.
use vstd::prelude::*;
use crate::auth::{
    AccessGrants, AuthzPolicy, ConfigAuthzPolicy, PolicyView, can_access_spec,
    default_anonymous_spec, default_signature_spec, effective_spec,
    lemma_default_anonymous_sees_only_public, policy_of, LevelView,
};
use crate::cache::{
    NotesCache, default_hash_of_strs, hash_items, hash_listing, path_before, path_lookup,
};
use crate::chars::{push_str, string_of_all};
use crate::error::{RepositoryError, StorageError, storage_message_spec};
use crate::denote::{filename_parse_safe, last_segment, last_segment_exec};
use crate::format::{NoteFormat, OrgFormat, org_metadata};
use crate::models::{Note, NoteView, list_entry_spec, note_views, signature_spec, summary_spec};
use crate::compute::{newer_first, sort_newest_first};
use crate::order::sort_by_spec;

verus! {

broadcast use vstd::string::group_string_axioms;

/// A note as handed to a reader: carrying the signature it was judged by.
pub open spec fn with_effective(p: PolicyView, n: NoteView) -> NoteView {
    NoteView { effective_signature: Some(effective_spec(p, n.metadata.signature)), ..n }
}

pub open spec fn readable(p: PolicyView, grants: Set<Seq<char>>, n: NoteView) -> bool {
    can_access_spec(p, grants, n.metadata.signature)
}

/// The notes a reader with `grants` may see, in order, each carrying its
/// effective signature.
pub open spec fn accessible_spec(p: PolicyView, grants: Set<Seq<char>>, s: Seq<NoteView>) -> Seq<
    NoteView,
> {
    s.filter(|n: NoteView| readable(p, grants, n)).map_values(|n: NoteView| with_effective(p, n))
}

/// The message of a refused read.
pub open spec fn unauthorized_message(sig: Seq<char>) -> Seq<char> {
    "Authentication required for '"@ + sig + "' access"@
}

/// What reading a note gives a reader with `grants`.
pub open spec fn read_spec(p: PolicyView, grants: Set<Seq<char>>, n: NoteView) -> Result<
    NoteView,
    Seq<char>,
> {
    if readable(p, grants, n) {
        Ok(with_effective(p, n))
    } else {
        Err(unauthorized_message(effective_spec(p, n.metadata.signature)))
    }
}

pub open spec fn read_view(r: Result<Note, RepositoryError>) -> Result<NoteView, Seq<char>> {
    match r {
        Ok(n) => Ok(n@),
        Err(RepositoryError::Unauthorized(m)) => Err(m@),
        Err(_) => Err(Seq::empty()),
    }
}

/// Notes served through an authorization policy.
pub struct DefaultRepository {
    policy: ConfigAuthzPolicy,
    cache: NotesCache,
}

impl DefaultRepository {
    pub closed spec fn policy(&self) -> PolicyView {
        self.policy.policy()
    }

    pub closed spec fn cached(&self) -> Option<Seq<NoteView>> {
        self.cache@
    }

    pub fn new(policy: ConfigAuthzPolicy, cache: NotesCache) -> (r: DefaultRepository)
        ensures
            r.policy() == policy.policy(),
            r.cached() == cache@,
    {
        DefaultRepository { policy, cache }
    }

    /// Fills the cache with freshly loaded notes.
    pub fn set_notes(&mut self, notes: Vec<Note>)
        ensures
            final(self).policy() == old(self).policy(),
            final(self).cached() == Some(crate::cache::cache_entries(note_views(notes@))),
    {
        self.cache.set_all(notes);
    }

    /// The change hash of everything cached, whoever may read it.
    pub fn global_version_hash(&self) -> (r: u64)
        ensures
            r == default_hash_of_strs(
                match self.cached() {
                    Some(s) => hash_items(sort_by_spec(s, |a: NoteView, b: NoteView| path_before(a, b))),
                    None => Seq::empty(),
                },
            ),
    {
        self.cache.compute_hash()
    }

    pub fn cached_note_count(&self) -> (r: usize)
        ensures
            match self.cached() {
                Some(s) => r == s.len(),
                None => r == 0,
            },
    {
        self.cache.len()
    }

    /// Records on the note the signature it is judged by.
    pub fn apply_effective_signature(&self, note: Note) -> (r: Note)
        ensures
            r@ == with_effective(self.policy(), note@),
    {
        let mut note = note;
        let effective = self.policy.effective_signature(
            match &note.metadata.signature {
                Some(s) => Some(s.as_str()),
                None => None,
            },
        ).to_owned();
        note.effective_signature = Some(effective);
        note
    }

    /// The notes of `notes` a reader with `grants` may see, in order.
    pub fn filter_accessible(&self, notes: &Vec<Note>, grants: &AccessGrants) -> (r: Vec<Note>)
        ensures
            note_views(r@) == accessible_spec(self.policy(), grants@, note_views(notes@)),
    {
        let ghost p = self.policy();
        let ghost s = note_views(notes@);
        let ghost pred = |n: NoteView| readable(p, grants@, n);
        let ghost f = |n: NoteView| with_effective(p, n);
        let mut out: Vec<Note> = Vec::new();
        let mut i: usize = 0;
        proof {
            assert(s.take(0).filter(pred) =~= Seq::<NoteView>::empty()) by {
                reveal(Seq::filter);
            }
            assert(note_views(out@) =~= s.take(0).filter(pred).map_values(f));
        }
        while i < notes.len()
            invariant
                i <= notes@.len(),
                p == self.policy(),
                s == note_views(notes@),
                pred == (|n: NoteView| readable(p, grants@, n)),
                f == (|n: NoteView| with_effective(p, n)),
                note_views(out@) == s.take(i as int).filter(pred).map_values(f),
            decreases notes@.len() - i,
        {
            let n = &notes[i];
            proof {
                assert(s.take(i + 1) =~= s.take(i as int).push(n@));
                s.take(i as int).lemma_filter_push(n@, pred);
            }
            let ok = self.policy.can_access(
                grants,
                match &n.metadata.signature {
                    Some(x) => Some(x.as_str()),
                    None => None,
                },
            );
            if ok {
                let ghost old_o = note_views(out@);
                out.push(self.apply_effective_signature(n.duplicate()));
                proof {
                    assert(note_views(out@) =~= old_o.push(f(n@)));
                    assert(s.take(i as int).filter(pred).push(n@).map_values(f) =~= s.take(
                        i as int,
                    ).filter(pred).map_values(f).push(f(n@)));
                }
            }
            i = i + 1;
        }
        proof {
            assert(s.take(notes@.len() as int) =~= s);
        }
        out
    }

    /// The grants of a reader who is not signed in.
    pub fn anonymous_grants(&self) -> (r: AccessGrants)
        ensures
            r@ == self.policy().anonymous,
    {
        self.policy.anonymous_grants()
    }

    /// The cached notes a reader with `grants` may see; `None` when the
    /// cache was never filled (the caller then loads from storage).
    pub fn list_accessible(&self, grants: &AccessGrants) -> (r: Option<Vec<Note>>)
        ensures
            match (r, self.cached()) {
                (Some(v), Some(s)) => note_views(v@) == accessible_spec(self.policy(), grants@, s),
                (None, None) => true,
                _ => false,
            },
    {
        match self.cache.get_all() {
            Some(all) => Some(self.filter_accessible(&all, grants)),
            None => None,
        }
    }

    /// The note as a reader with `grants` gets it: with its effective
    /// signature, or refused as unauthorized.
    pub fn check_access(&self, note: Note, grants: &AccessGrants) -> (r: Result<Note, RepositoryError>)
        ensures
            read_view(r) == read_spec(self.policy(), grants@, note@),
            r is Err ==> r->Err_0 is Unauthorized,
    {
        let ok = self.policy.can_access(
            grants,
            match &note.metadata.signature {
                Some(x) => Some(x.as_str()),
                None => None,
            },
        );
        if ok {
            Ok(self.apply_effective_signature(note))
        } else {
            let sig = self.policy.effective_signature(
                match &note.metadata.signature {
                    Some(x) => Some(x.as_str()),
                    None => None,
                },
            );
            let mut m: Vec<char> = Vec::new();
            push_str(&mut m, "Authentication required for '");
            push_str(&mut m, sig);
            push_str(&mut m, "' access");
            Err(RepositoryError::Unauthorized(string_of_all(&m)))
        }
    }

    /// The cached note at `path` as a reader with `grants` gets it; `None`
    /// when it is not cached (the caller then loads it from storage).
    pub fn get_note(&self, path: &str, grants: &AccessGrants) -> (r: Option<
        Result<Note, RepositoryError>,
    >)
        ensures
            match r {
                Some(x) => self.cached() matches Some(s) && path_lookup(s, path@) matches Some(n)
                    && read_view(x) == read_spec(self.policy(), grants@, n),
                None => self.cached() matches Some(s) ==> path_lookup(s, path@) is None,
            },
    {
        match self.cache.get(path) {
            Some(n) => Some(self.check_access(n, grants)),
            None => None,
        }
    }

    /// A hash of the paths and bodies a reader with `grants` may see, in
    /// listing order; `None` when the cache was never filled.
    pub fn version_hash(&self, grants: &AccessGrants) -> (r: Option<u64>)
        ensures
            match (r, self.cached()) {
                (Some(h), Some(s)) => h == default_hash_of_strs(
                    hash_items(accessible_spec(self.policy(), grants@, s)),
                ),
                (None, None) => true,
                _ => false,
            },
    {
        match self.list_accessible(grants) {
            Some(notes) => Some(hash_listing(&notes)),
            None => None,
        }
    }
}

impl DefaultRepository {
    /// The notes a reader with `grants` may see, newest file name first;
    /// `None` when the cache was never filled.
    pub fn all_notes(&self, grants: &AccessGrants) -> (r: Option<Vec<Note>>)
        ensures
            match (r, self.cached()) {
                (Some(v), Some(s)) => note_views(v@) == sort_by_spec(
                    accessible_spec(self.policy(), grants@, s),
                    |a: NoteView, b: NoteView| newer_first(a, b),
                ),
                (None, None) => true,
                _ => false,
            },
    {
        match self.list_accessible(grants) {
            Some(v) => Some(sort_newest_first(&v)),
            None => None,
        }
    }

    /// The summary index: the notes a reader with `grants` may see, newest
    /// first, without bodies or highlights.
    pub fn notes_summary(&self, grants: &AccessGrants) -> (r: Option<Vec<Note>>)
        ensures
            match (r, self.cached()) {
                (Some(v), Some(s)) => note_views(v@) == sort_by_spec(
                    accessible_spec(self.policy(), grants@, s),
                    |a: NoteView, b: NoteView| newer_first(a, b),
                ).map_values(|n: NoteView| summary_spec(n)),
                (None, None) => true,
                _ => false,
            },
    {
        match self.all_notes(grants) {
            Some(v) => {
                let mut out: Vec<Note> = Vec::new();
                let mut i: usize = 0;
                while i < v.len()
                    invariant
                        i <= v@.len(),
                        out@.len() == i,
                        forall|k: int| 0 <= k < i ==> (#[trigger] out@[k])@ == summary_spec(v@[k]@),
                    decreases v@.len() - i,
                {
                    out.push(v[i].summary_entry());
                    i = i + 1;
                }
                proof {
                    assert(note_views(out@) =~= note_views(v@).map_values(|n: NoteView| summary_spec(n)));
                }
                Some(out)
            },
            None => None,
        }
    }
}

/// Under the default configuration the notes an anonymous reader is given
/// are exactly the notes signed `public`, and each is handed out as public:
/// notes signed otherwise, and notes without a signature, never appear.
pub proof fn lemma_anonymous_listing_is_public(levels: Seq<LevelView>, s: Seq<NoteView>)
    ensures
        ({
            let p = policy_of(levels, default_signature_spec(), default_anonymous_spec());
            let out = accessible_spec(p, p.anonymous, s);
            &&& forall|i: int|
                0 <= i < out.len() ==> (#[trigger] out[i]).metadata.signature == Some("public"@)
                    && signature_spec(out[i]) == "public"@
            &&& out.len() == s.filter(|n: NoteView| n.metadata.signature == Some("public"@)).len()
        }),
{
    let p = policy_of(levels, default_signature_spec(), default_anonymous_spec());
    let pred = |n: NoteView| readable(p, p.anonymous, n);
    let pub_pred = |n: NoteView| n.metadata.signature == Some("public"@);
    assert forall|n: NoteView| #[trigger] pred(n) == pub_pred(n) by {
        lemma_default_anonymous_sees_only_public(levels, n.metadata.signature);
    }
    assert(pred =~= pub_pred);
    let f = s.filter(pred);
    let out = accessible_spec(p, p.anonymous, s);
    assert forall|i: int| 0 <= i < out.len() implies (#[trigger] out[i]).metadata.signature == Some(
        "public"@,
    ) && signature_spec(out[i]) == "public"@ by {
        broadcast use vstd::seq_lib::group_filter_ensures;
        assert(pred(f[i]));
        assert(out[i] == with_effective(p, f[i]));
    }
}

/// The note the repository makes of a stored file: its path, its file
/// name, its body and the metadata the org format reads from them.
pub open spec fn loaded_note(path: Seq<char>, content: Seq<char>) -> NoteView {
    let f = last_segment(path);
    NoteView { content: Some(content), ..list_entry_spec(path, f, org_metadata(content, f)) }
}

/// Loading a note from storage: `read` is `None` where storage judged the
/// path unsafe (nothing was read), else what reading the file gave.
pub fn load_from_storage(
    format: &OrgFormat,
    path: &str,
    read: Option<Result<String, StorageError>>,
) -> (r: Result<Note, RepositoryError>)
    requires
        filename_parse_safe(last_segment(path@)),
    ensures
        read is None ==> (r matches Err(RepositoryError::NotFound(m)) && m@ == "invalid path"@),
        read matches Some(Err(e)) ==> (r matches Err(RepositoryError::Storage(m)) && m@
            == storage_message_spec(e)),
        read matches Some(Ok(c)) ==> (r matches Ok(n) && n@ == loaded_note(path@, c@)),
{
    match read {
        None => Err(RepositoryError::NotFound("invalid path".to_owned())),
        Some(Err(e)) => Err(RepositoryError::from_storage(e)),
        Some(Ok(content)) => {
            let f = last_segment_exec(&crate::chars::str_chars(path));
            let filename = string_of_all(&f);
            let metadata = format.extract_metadata(content.as_str(), filename.as_str());
            let mut note = Note::list_entry(path.to_owned(), filename, metadata);
            note.content = Some(content);
            Ok(note)
        },
    }
}

} // verus!
