//! What the server answers on its public routes (feed, sitemap, assets),
//! decided from the request and from what storage and the repository gave.
use vstd::prelude::*;
use crate::assets::AssetRepository;
use crate::auth::{AccessGrants, AuthzPolicy, ConfigAuthzPolicy, PolicyView, can_access_spec, levels_grants};
use crate::denote::{DenoteFilename, filename_parse_safe, last_segment, parse_filename};
use crate::error::{RepositoryError, StorageError, repository_message_spec, storage_message_spec};
use crate::feed::{FeedConfig, build_atom, cfg_atom, feed_safe};
use crate::models::{Note, note_views, string_views};
use crate::sitemap::{SitemapConfig, build_sitemap, sitemap_spec};
use crate::chars::{contains, copy_range, ends_with, ends_with_exec, find_exec, push_str, str_chars, string_of_all};
use crate::snapshot::{SnapshotStore, SnapshotView, store_get};

verus! {

broadcast use vstd::string::group_string_axioms;

/// An HTTP answer: status, headers, body.
pub struct Reply {
    pub status: u16,
    pub headers: Vec<(String, String)>,
    pub body: Vec<u8>,
}

pub open spec fn header_views(v: Seq<(String, String)>) -> Seq<(Seq<char>, Seq<char>)> {
    v.map_values(|h: (String, String)| (h.0@, h.1@))
}

/// A plain-text answer without headers.
pub fn text_reply(status: u16, text: &str) -> (r: Reply)
    ensures
        r.status == status,
        r.headers@.len() == 0,
        r.body@ == vstd::utf8::encode_utf8(text@),
{
    Reply { status, headers: Vec::new(), body: bytes_of(text) }
}

fn bytes_of(s: &str) -> (r: Vec<u8>)
    ensures
        r@ == vstd::utf8::encode_utf8(s@),
{
    vstd::slice::slice_to_vec(s.as_bytes())
}

fn two_headers(k1: &str, v1: &str, k2: &str, v2: &str) -> (r: Vec<(String, String)>)
    ensures
        header_views(r@) == seq![(k1@, v1@), (k2@, v2@)],
{
    let mut h: Vec<(String, String)> = Vec::new();
    h.push((k1.to_owned(), v1.to_owned()));
    h.push((k2.to_owned(), v2.to_owned()));
    proof {
        assert(header_views(h@) =~= seq![(k1@, v1@), (k2@, v2@)]);
    }
    h
}

/// The message of an error after a prefix.
fn prefixed(prefix: &str, e: &RepositoryError) -> (r: String)
    ensures
        r@ == prefix@ + repository_message_spec(*e),
{
    let m = e.message();
    let mut v: Vec<char> = Vec::new();
    push_str(&mut v, prefix);
    push_str(&mut v, m.as_str());
    string_of_all(&v)
}

// ---------------------------------------------------------------------------
// Feed and sitemap
// ---------------------------------------------------------------------------

/// `GET /feed.xml`, given the feed configuration and the notes listed with
/// anonymous grants: 404 when no feed is configured, 500 when listing
/// failed, else the Atom document, cached for an hour.
pub fn feed_reply(cfg: Option<&FeedConfig>, listed: Result<Vec<Note>, RepositoryError>) -> (r: Reply)
    requires
        cfg matches Some(c) ==> (listed matches Ok(notes) ==> feed_safe(
            string_views(c.note_types@),
            note_views(notes@),
        )),
    ensures
        cfg is None ==> r.status == 404 && r.body@ == vstd::utf8::encode_utf8("feed not configured"@),
        cfg matches Some(c) ==> match listed {
            Err(e) => r.status == 500 && r.body@ == vstd::utf8::encode_utf8(
                "feed error: "@ + repository_message_spec(e),
            ),
            Ok(notes) => r.status == 200 && header_views(r.headers@) == seq![
                ("content-type"@, "application/atom+xml; charset=utf-8"@),
                ("cache-control"@, "public, max-age=3600"@),
            ] && r.body@ == vstd::utf8::encode_utf8(cfg_atom(*c, note_views(notes@))),
        },
{
    let c = match cfg {
        Some(c) => c,
        None => {
            return text_reply(404, "feed not configured");
        },
    };
    match listed {
        Err(e) => {
            let m = prefixed("feed error: ", &e);
            text_reply(500, m.as_str())
        },
        Ok(notes) => {
            let xml = build_atom(c, &notes);
            Reply {
                status: 200,
                headers: two_headers(
                    "content-type",
                    "application/atom+xml; charset=utf-8",
                    "cache-control",
                    "public, max-age=3600",
                ),
                body: bytes_of(xml.as_str()),
            }
        },
    }
}

/// `GET /sitemap.xml`, given the sitemap configuration and the notes listed
/// with anonymous grants: 404 when no sitemap is configured, 500 when
/// listing failed, else the sitemap, cached for an hour.
pub fn sitemap_reply(
    cfg: Option<&SitemapConfig>,
    listed: Result<Vec<Note>, RepositoryError>,
) -> (r: Reply)
    ensures
        cfg is None ==> r.status == 404 && r.body@ == vstd::utf8::encode_utf8(
            "sitemap not configured"@,
        ),
        cfg matches Some(c) ==> match listed {
            Err(e) => r.status == 500 && r.body@ == vstd::utf8::encode_utf8(
                "sitemap error: "@ + repository_message_spec(e),
            ),
            Ok(notes) => r.status == 200 && header_views(r.headers@) == seq![
                ("content-type"@, "application/xml; charset=utf-8"@),
                ("cache-control"@, "public, max-age=3600"@),
            ] && r.body@ == vstd::utf8::encode_utf8(
                sitemap_spec(c.base_url@, string_views(c.static_paths@), note_views(notes@)),
            ),
        },
{
    let c = match cfg {
        Some(c) => c,
        None => {
            return text_reply(404, "sitemap not configured");
        },
    };
    match listed {
        Err(e) => {
            let m = prefixed("sitemap error: ", &e);
            text_reply(500, m.as_str())
        },
        Ok(notes) => {
            let xml = build_sitemap(c, &notes);
            Reply {
                status: 200,
                headers: two_headers(
                    "content-type",
                    "application/xml; charset=utf-8",
                    "cache-control",
                    "public, max-age=3600",
                ),
                body: bytes_of(xml.as_str()),
            }
        },
    }
}

// ---------------------------------------------------------------------------
// Assets
// ---------------------------------------------------------------------------

/// The MIME type `mime_guess` gives a path by its extension.
pub uninterp spec fn mime_of_path(path: Seq<char>) -> Seq<char>;

/// `mime_guess::from_path(path).first_or_octet_stream()`, as text. The
/// contract claims that the type is a function of the path.
#[verifier::external_body]
fn content_type_of(path: &str) -> (r: String)
    ensures
        r@ == mime_of_path(path@),
{
    mime_guess::from_path(path).first_or_octet_stream().to_string()
}

/// The grants of a request: the signed-in user's levels, else anonymous.
pub open spec fn request_grants(p: PolicyView, user_levels: Option<Seq<Seq<char>>>) -> Set<
    Seq<char>,
> {
    match user_levels {
        Some(ls) => levels_grants(p.levels, ls),
        None => p.anonymous,
    }
}

pub fn grants_for_request(policy: &ConfigAuthzPolicy, user_levels: Option<&Vec<String>>) -> (r:
    AccessGrants)
    ensures
        r@ == request_grants(
            policy.policy(),
            match user_levels {
                Some(v) => Some(string_views(v@)),
                None => None,
            },
        ),
{
    match user_levels {
        Some(levels) => policy.grants_for_levels(levels),
        None => policy.anonymous_grants(),
    }
}

/// The signature of the asset at `path`: that of its Denote file name.
pub open spec fn asset_signature(path: Seq<char>) -> Option<Seq<char>> {
    match parse_filename(last_segment(path)) {
        Some(p) => p.signature,
        None => None,
    }
}

/// `GET /assets/{path}`, before reading: whether a reader with `grants`
/// may fetch the asset.
pub fn asset_allowed(repo: &AssetRepository, path: &str, grants: &AccessGrants) -> (r: bool)
    requires
        filename_parse_safe(last_segment(path@)),
    ensures
        r == can_access_spec(repo.policy(), grants@, asset_signature(path@)),
{
    let signature = match DenoteFilename::from_path(path) {
        Some(d) => d.signature,
        None => None,
    };
    repo.can_access_asset(
        match &signature {
            Some(s) => Some(s.as_str()),
            None => None,
        },
        grants,
    )
}

/// `GET /assets/{path}`, after reading: 403 where access is refused, the
/// bytes with their MIME type (cached for a day) where they were read, 404
/// where the file is missing, 500 with the error's message otherwise.
pub fn asset_reply(path: &str, allowed: bool, read: Option<Result<Vec<u8>, StorageError>>) -> (r: Reply)
    requires
        allowed <==> read is Some,
    ensures
        !allowed ==> r.status == 403 && r.body@ == vstd::utf8::encode_utf8("access denied"@),
        read matches Some(Ok(bytes)) ==> r.status == 200 && r.body@ == bytes@ && header_views(
            r.headers@,
        ) == seq![
            ("content-type"@, mime_of_path(path@)),
            ("cache-control"@, "public, max-age=86400, stale-while-revalidate=604800"@),
        ],
        read matches Some(Err(e)) ==> match e {
            StorageError::NotFound(_) => r.status == 404 && r.body@ == vstd::utf8::encode_utf8(
                "asset not found"@,
            ),
            _ => r.status == 500 && r.body@ == vstd::utf8::encode_utf8(storage_message_spec(e)),
        },
{
    match read {
        None => text_reply(403, "access denied"),
        Some(Ok(bytes)) => {
            let ct = content_type_of(path);
            Reply {
                status: 200,
                headers: two_headers(
                    "content-type",
                    ct.as_str(),
                    "cache-control",
                    "public, max-age=86400, stale-while-revalidate=604800",
                ),
                body: bytes,
            }
        },
        Some(Err(e)) => match e {
            StorageError::NotFound(_) => text_reply(404, "asset not found"),
            _ => {
                let m = e.message();
                text_reply(500, m.as_str())
            },
        },
    }
}

// ---------------------------------------------------------------------------
// Corpus snapshots
// ---------------------------------------------------------------------------

/// Which body a corpus request gets for its `Accept-Encoding`: brotli when
/// accepted and available, else gzip likewise, else the raw bytes.
pub open spec fn corpus_encoding(accept: Seq<char>, s: SnapshotView) -> Option<Seq<char>> {
    if contains(accept, "br"@) && s.br.len() > 0 {
        Some("br"@)
    } else if contains(accept, "gzip"@) && s.gz.len() > 0 {
        Some("gzip"@)
    } else {
        None
    }
}

pub open spec fn corpus_body(accept: Seq<char>, s: SnapshotView) -> Seq<u8> {
    match corpus_encoding(accept, s) {
        Some(e) => if e == "br"@ {
            s.br
        } else {
            s.gz
        },
        None => s.raw,
    }
}

pub open spec fn corpus_headers(enc: Option<Seq<char>>) -> Seq<(Seq<char>, Seq<char>)> {
    seq![
        ("content-type"@, "application/json"@),
        ("cache-control"@, "public, max-age=31536000, immutable"@),
        ("vary"@, "Accept-Encoding"@),
    ] + match enc {
        Some(e) => seq![("content-encoding"@, e)],
        None => Seq::empty(),
    }
}

fn copy_bytes(v: &Vec<u8>) -> (r: Vec<u8>)
    ensures
        r@ == v@,
{
    vstd::slice::slice_to_vec(v.as_slice())
}

/// `GET /data/corpus/{hash}.json`: the snapshot with that hash in the best
/// encoding the client accepts, cacheable forever; 404 for another name or
/// an unknown hash.
pub fn corpus_reply(store: &SnapshotStore, file: &str, accept: &str) -> (r: Reply)
    ensures
        !ends_with(file@, ".json"@) ==> r.status == 404 && r.body@ == vstd::utf8::encode_utf8(
            "not found"@,
        ),
        ends_with(file@, ".json"@) ==> match store_get(
            store.current(),
            store.previous(),
            file@.take(file@.len() - 5),
        ) {
            None => r.status == 404 && r.body@ == vstd::utf8::encode_utf8("unknown corpus version"@),
            Some(snap) => r.status == 200 && r.body@ == corpus_body(accept@, snap) && header_views(
                r.headers@,
            ) == corpus_headers(corpus_encoding(accept@, snap)),
        },
{
    proof {
        reveal_strlit(".json");
        reveal_strlit("br");
        reveal_strlit("gzip");
    }
    let fv = str_chars(file);
    let suffix = str_chars(".json");
    if !ends_with_exec(&fv, &suffix) {
        return text_reply(404, "not found");
    }
    let hash_chars = copy_range(&fv, 0, fv.len() - 5);
    let hash = string_of_all(&hash_chars);
    proof {
        assert(hash_chars@ =~= file@.take(file@.len() - 5));
    }
    let snap = match store.get(hash.as_str()) {
        Some(x) => x,
        None => {
            return text_reply(404, "unknown corpus version");
        },
    };
    let av = str_chars(accept);
    let brv = str_chars("br");
    let gzv = str_chars("gzip");
    let mut headers: Vec<(String, String)> = Vec::new();
    headers.push(("content-type".to_owned(), "application/json".to_owned()));
    headers.push(("cache-control".to_owned(), "public, max-age=31536000, immutable".to_owned()));
    headers.push(("vary".to_owned(), "Accept-Encoding".to_owned()));
    let ghost h3 = header_views(headers@);
    proof {
        assert(h3 =~= corpus_headers(None));
    }
    let body = if find_exec(&av, &brv).is_some() && snap.br.len() > 0 {
        headers.push(("content-encoding".to_owned(), "br".to_owned()));
        proof {
            assert(header_views(headers@) =~= h3.push(("content-encoding"@, "br"@)));
            assert(header_views(headers@) =~= corpus_headers(Some("br"@)));
        }
        copy_bytes(&snap.br)
    } else if find_exec(&av, &gzv).is_some() && snap.gz.len() > 0 {
        headers.push(("content-encoding".to_owned(), "gzip".to_owned()));
        proof {
            assert(header_views(headers@) =~= h3.push(("content-encoding"@, "gzip"@)));
            assert(header_views(headers@) =~= corpus_headers(Some("gzip"@)));
            assert("gzip"@ != "br"@);
        }
        copy_bytes(&snap.gz)
    } else {
        proof {
            assert(header_views(headers@) =~= corpus_headers(None));
        }
        copy_bytes(&snap.raw)
    };
    Reply { status: 200, headers, body }
}

} // verus!
