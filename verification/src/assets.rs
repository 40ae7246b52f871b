//! The asset repository: the non-note files of the notes directory, each
//! readable under the signature of its Denote file name.
use vstd::prelude::*;
use crate::auth::{AccessGrants, AuthzPolicy, ConfigAuthzPolicy, PolicyView, can_access_spec};

use crate::denote::{DenoteFilename, filename_parse_safe, last_segment, last_segment_exec, parse_filename};
use crate::error::{StorageError, join_message};
use crate::models::{Asset, AssetView, asset_views, string_views};
use crate::cache::{default_hash_of_strs, hash_strs};
use crate::order::{insert_pos, lemma_insert_by, lex_lt, lex_lt_str, sort_by_spec};

verus! {

broadcast use vstd::string::group_string_axioms;

/// The asset a listed file is: a Denote file name that is not a note.
pub open spec fn asset_spec(path: Seq<char>) -> Option<AssetView> {
    let f = last_segment(path);
    match parse_filename(f) {
        Some(p) => if p.extension == seq!['o', 'r', 'g'] {
            None
        } else {
            Some(AssetView { path, filename: f, denote_id: p.id, signature: p.signature })
        },
        None => None,
    }
}

pub open spec fn asset_path_safe(path: Seq<char>) -> bool {
    filename_parse_safe(last_segment(path))
}

/// The assets of a file listing, in order.
pub open spec fn assets_of(files: Seq<Seq<char>>) -> Seq<AssetView>
    decreases files.len(),
{
    if files.len() == 0 {
        Seq::empty()
    } else {
        let rest = assets_of(files.drop_last());
        match asset_spec(files.last()) {
            Some(a) => rest.push(a),
            None => rest,
        }
    }
}

/// The assets a reader with `grants` may see, in order.
pub open spec fn accessible_assets(p: PolicyView, grants: Set<Seq<char>>, s: Seq<AssetView>) -> Seq<
    AssetView,
> {
    s.filter(|a: AssetView| can_access_spec(p, grants, a.signature))
}

/// Non-note files with their access signatures.
pub struct AssetRepository {
    policy: ConfigAuthzPolicy,
    cache: Vec<Asset>,
}

impl AssetRepository {
    pub closed spec fn policy(&self) -> PolicyView {
        self.policy.policy()
    }

    pub closed spec fn cached(&self) -> Seq<AssetView> {
        asset_views(self.cache@)
    }

    /// A repository with no assets yet.
    pub fn new(policy: ConfigAuthzPolicy) -> (r: AssetRepository)
        ensures
            r.policy() == policy.policy(),
            r.cached() == Seq::<AssetView>::empty(),
    {
        let cache: Vec<Asset> = Vec::new();
        proof {
            assert(asset_views(cache@) =~= Seq::<AssetView>::empty());
        }
        AssetRepository { policy, cache }
    }

    /// The asset a listed file is, if any.
    pub fn parse_asset(path: &str) -> (r: Option<Asset>)
        requires
            asset_path_safe(path@),
        ensures
            match r {
                Some(a) => asset_spec(path@) == Some(a@),
                None => asset_spec(path@) is None,
            },
    {
        let seg = last_segment_exec(&crate::chars::str_chars(path));
        let filename = crate::chars::string_of_all(&seg);
        let parsed = match DenoteFilename::from_path(path) {
            Some(d) => d,
            None => {
                return None;
            },
        };
        if parsed.is_note() {
            return None;
        }
        Some(
            Asset {
                path: path.to_owned(),
                filename,
                denote_id: parsed.id.as_str().to_owned(),
                signature: parsed.signature,
            },
        )
    }

    /// Replaces the cached assets with those of a file listing.
    pub fn set_files(&mut self, files: &Vec<String>)
        requires
            forall|i: int| 0 <= i < files@.len() ==> asset_path_safe(#[trigger] files@[i]@),
        ensures
            final(self).policy() == old(self).policy(),
            final(self).cached() == assets_of(files@.map_values(|f: String| f@)),
    {
        let ghost fs = files@.map_values(|f: String| f@);
        let mut assets: Vec<Asset> = Vec::new();
        let mut i: usize = 0;
        proof {
            assert(fs.take(0) =~= Seq::<Seq<char>>::empty());
            assert(asset_views(assets@) =~= Seq::<AssetView>::empty());
        }
        while i < files.len()
            invariant
                i <= files@.len(),
                fs == files@.map_values(|f: String| f@),
                forall|k: int| 0 <= k < files@.len() ==> asset_path_safe(#[trigger] files@[k]@),
                asset_views(assets@) == assets_of(fs.take(i as int)),
            decreases files@.len() - i,
        {
            proof {
                assert(fs.take(i + 1).drop_last() =~= fs.take(i as int));
                assert(fs.take(i + 1).last() == files@[i as int]@);
            }
            let ghost before = asset_views(assets@);
            match Self::parse_asset(files[i].as_str()) {
                Some(a) => {
                    assets.push(a);
                    proof {
                        assert(asset_views(assets@) =~= before.push(assets@.last()@));
                    }
                },
                None => {},
            }
            i = i + 1;
        }
        proof {
            assert(fs.take(files@.len() as int) =~= fs);
        }
        self.cache = assets;
    }

    pub fn cached_asset_count(&self) -> (r: usize)
        ensures
            r == self.cached().len(),
    {
        self.cache.len()
    }

    /// The cached assets a reader with `grants` may see, in order.
    pub fn list_accessible(&self, grants: &AccessGrants) -> (r: Vec<Asset>)
        ensures
            asset_views(r@) == accessible_assets(self.policy(), grants@, self.cached()),
    {
        let ghost p = self.policy();
        let ghost s = self.cached();
        let ghost pred = |a: AssetView| can_access_spec(p, grants@, a.signature);
        let mut out: Vec<Asset> = Vec::new();
        let mut i: usize = 0;
        proof {
            assert(s.take(0).filter(pred) =~= Seq::<AssetView>::empty()) by {
                reveal(Seq::filter);
            }
            assert(asset_views(out@) =~= s.take(0).filter(pred));
        }
        while i < self.cache.len()
            invariant
                i <= self.cache@.len(),
                p == self.policy(),
                s == self.cached(),
                pred == (|a: AssetView| can_access_spec(p, grants@, a.signature)),
                asset_views(out@) == s.take(i as int).filter(pred),
            decreases self.cache@.len() - i,
        {
            let a = &self.cache[i];
            proof {
                assert(s.take(i + 1) =~= s.take(i as int).push(a@));
                s.take(i as int).lemma_filter_push(a@, pred);
            }
            if self.can_access_asset(
                match &a.signature {
                    Some(x) => Some(x.as_str()),
                    None => None,
                },
                grants,
            ) {
                let ghost before = asset_views(out@);
                out.push(a.duplicate());
                proof {
                    assert(asset_views(out@) =~= before.push(a@));
                }
            }
            i = i + 1;
        }
        proof {
            assert(s.take(self.cache@.len() as int) =~= s);
        }
        out
    }

    /// Whether a reader with `grants` may fetch an asset with this signature.
    pub fn can_access_asset(&self, signature: Option<&str>, grants: &AccessGrants) -> (r: bool)
        ensures
            r == can_access_spec(self.policy(), grants@, crate::auth::opt_str_view(signature)),
    {
        self.policy.can_access(grants, signature)
    }

    /// Whether the bytes of `path` may be read: refused as an invalid path
    /// when storage judges the path unsafe.
    pub fn check_read(path: &str, path_safe: bool) -> (r: Result<(), StorageError>)
        ensures
            path_safe ==> r is Ok,
            !path_safe ==> (r matches Err(StorageError::InvalidPath(m)) && m@ == "unsafe path: "@
                + path@),
    {
        if !path_safe {
            return Err(StorageError::InvalidPath(join_message("unsafe path: ", path)));
        }
        Ok(())
    }
}

/// Sorts texts in ascending order.
fn sort_strings(v: &Vec<String>) -> (r: Vec<String>)
    ensures
        string_views(r@) == sort_by_spec(
            string_views(v@),
            |a: Seq<char>, b: Seq<char>| lex_lt(a, b),
        ),
{
    let ghost before = |a: Seq<char>, b: Seq<char>| lex_lt(a, b);
    let ghost s = string_views(v@);
    let mut out: Vec<String> = Vec::new();
    let mut i: usize = 0;
    proof {
        assert(s.take(0) =~= Seq::<Seq<char>>::empty());
        assert(string_views(out@) =~= Seq::<Seq<char>>::empty());
    }
    while i < v.len()
        invariant
            i <= v@.len(),
            s == string_views(v@),
            before == (|a: Seq<char>, b: Seq<char>| lex_lt(a, b)),
            string_views(out@) == sort_by_spec(s.take(i as int), before),
        decreases v@.len() - i,
    {
        let x = &v[i];
        let mut p: usize = 0;
        while p < out.len() && !lex_lt_str(x.as_str(), out[p].as_str())
            invariant
                p <= out@.len(),
                before == (|a: Seq<char>, b: Seq<char>| lex_lt(a, b)),
                forall|j: int| 0 <= j < p ==> !before(x@, #[trigger] string_views(out@)[j]),
            decreases out@.len() - p,
        {
            proof {
                assert(string_views(out@)[p as int] == out@[p as int]@);
            }
            p = p + 1;
        }
        let ghost o = string_views(out@);
        proof {
            if p < out@.len() {
                assert(o[p as int] == out@[p as int]@);
            }
            assert(insert_pos(o, x@, before, p as int));
            lemma_insert_by(o, x@, before, p as int);
            assert(s.take(i + 1).drop_last() =~= s.take(i as int));
            assert(s.take(i + 1).last() == x@);
        }
        out.insert(p, x.clone());
        proof {
            assert(string_views(out@) =~= o.take(p as int) + seq![x@] + o.skip(p as int));
        }
        i = i + 1;
    }
    proof {
        assert(s.take(v@.len() as int) =~= s);
    }
    out
}

/// A hash of the file listing, taken over the paths in ascending order,
/// for telling whether the directory changed.
pub fn listing_hash(files: &Vec<String>) -> (r: u64)
    ensures
        r == default_hash_of_strs(
            sort_by_spec(
                string_views(files@),
                |a: Seq<char>, b: Seq<char>| lex_lt(a, b),
            ),
        ),
{
    let sorted = sort_strings(files);
    hash_strs(&sorted)
}

/// The listing hash depends on which files there are, not on the order
/// storage listed them in.
pub proof fn lemma_listing_hash_ignores_order(s: Seq<Seq<char>>, t: Seq<Seq<char>>)
    requires
        s.no_duplicates(),
        t.no_duplicates(),
        forall|x: Seq<char>| s.contains(x) <==> t.contains(x),
    ensures
        sort_by_spec(s, |a: Seq<char>, b: Seq<char>| lex_lt(a, b)) == sort_by_spec(
            t,
            |a: Seq<char>, b: Seq<char>| lex_lt(a, b),
        ),
{
    let before = |a: Seq<char>, b: Seq<char>| lex_lt(a, b);
    crate::order::lemma_sort_texts_ascending(s);
    crate::order::lemma_sort_texts_ascending(t);
    assert forall|x: Seq<char>| sort_by_spec(s, before).contains(x) <==> sort_by_spec(t, before).contains(x) by {
        crate::order::lemma_sort_by_contains(s, before, x);
        crate::order::lemma_sort_by_contains(t, before, x);
    }
    crate::order::lemma_ascending_texts_unique(sort_by_spec(s, before), sort_by_spec(t, before));
}

} // verus!
