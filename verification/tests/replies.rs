use notes_kit::assets::AssetRepository;
use notes_kit::auth::{AuthConfigFile, AccessLevelConfig, ConfigAuthzPolicy};
use notes_kit::error::{RepositoryError, StorageError};
use notes_kit::feed::FeedConfig;
use notes_kit::models::{Note, NoteMetadata};
use notes_kit::serve::{asset_allowed, asset_reply, feed_reply, grants_for_request, sitemap_reply};
use notes_kit::sitemap::SitemapConfig;

fn feed_cfg() -> FeedConfig {
    FeedConfig { base_url: "https://e.com".into(), title: "T".into(), subtitle: None, author: "A".into(), note_types: vec!["blog".into()] }
}

#[test]
fn feed_route_answers() {
    assert_eq!(feed_reply(None, Ok(vec![])).status, 404);
    let err = feed_reply(Some(&feed_cfg()), Err(RepositoryError::Internal("boom".into())));
    assert_eq!(err.status, 500);
    assert_eq!(err.body, b"feed error: internal error: boom".to_vec());
    let ok = feed_reply(Some(&feed_cfg()), Ok(vec![]));
    assert_eq!(ok.status, 200);
    assert_eq!(ok.headers[0], ("content-type".to_string(), "application/atom+xml; charset=utf-8".to_string()));
    assert!(String::from_utf8(ok.body).unwrap().starts_with("<?xml"));
}

#[test]
fn sitemap_route_answers() {
    assert_eq!(sitemap_reply(None, Ok(vec![])).status, 404);
    let cfg = SitemapConfig { base_url: "https://e.com".into(), static_paths: vec![] };
    assert_eq!(sitemap_reply(Some(&cfg), Err(RepositoryError::NotFound("x".into()))).status, 500);
    let mut md = NoteMetadata::empty();
    md.signature = Some("public".into());
    let n = Note::list_entry("a.org".into(), "a.org".into(), md);
    let ok = sitemap_reply(Some(&cfg), Ok(vec![n]));
    assert_eq!(ok.status, 200);
    assert!(String::from_utf8(ok.body).unwrap().contains("<loc>https://e.com/notes/a.org</loc>"));
}

#[test]
fn asset_route_answers() {
    let mut cfg = AuthConfigFile::default();
    cfg.levels = vec![AccessLevelConfig { name: "phd".into(), grants: vec![], emoji: None, description: None }];
    let policy = ConfigAuthzPolicy::from_config(cfg);
    let anon = grants_for_request(&policy, None);
    let phd = grants_for_request(&policy, Some(&vec!["phd".to_string()]));
    let repo = AssetRepository::new(policy);
    let path = "img/20250107T123456==phd--a.png";
    assert!(!asset_allowed(&repo, path, &anon));
    assert!(asset_allowed(&repo, path, &phd));
    assert_eq!(asset_reply(path, false, None).status, 403);
    let ok = asset_reply(path, true, Some(Ok(vec![1, 2, 3])));
    assert_eq!(ok.status, 200);
    assert_eq!(ok.body, vec![1, 2, 3]);
    assert_eq!(ok.headers[0], ("content-type".to_string(), "image/png".to_string()));
    assert_eq!(asset_reply(path, true, Some(Err(StorageError::NotFound("x".into())))).status, 404);
    let io = asset_reply(path, true, Some(Err(StorageError::Io("disk".into()))));
    assert_eq!(io.status, 500);
    assert_eq!(io.body, b"I/O error: disk".to_vec());
}

use notes_kit::assets::listing_hash;
use notes_kit::denote::DenoteFilename;
use notes_kit::serve::corpus_reply;
use notes_kit::snapshot::{build_snapshot, SnapshotStore};
use notes_kit::users::session_user;
use notes_kit::auth::User;
use notes_kit::error::AuthError;

#[test]
fn corpus_route_picks_the_encoding() {
    let mut store = SnapshotStore::default();
    let snap = build_snapshot(b"[1,2,3]".to_vec());
    let hash = snap.hash.clone();
    let raw = snap.raw.clone();
    let gz = snap.gz.clone();
    store.publish(snap);
    let file = format!("{hash}.json");
    assert_eq!(corpus_reply(&store, &hash, "").status, 404);
    assert_eq!(corpus_reply(&store, "0000000000000000.json", "").status, 404);
    let plain = corpus_reply(&store, &file, "identity");
    assert_eq!(plain.status, 200);
    assert_eq!(plain.body, raw);
    assert_eq!(plain.headers.len(), 3);
    let gzipped = corpus_reply(&store, &file, "gzip, deflate");
    assert_eq!(gzipped.body, gz);
    assert_eq!(gzipped.headers[3], ("content-encoding".to_string(), "gzip".to_string()));
    let br = corpus_reply(&store, &file, "gzip, br");
    assert_eq!(br.headers[3].1, "br");
}

#[test]
fn listing_hash_ignores_listing_order() {
    let a = listing_hash(&vec!["b.png".to_string(), "a.png".to_string()]);
    let b = listing_hash(&vec!["a.png".to_string(), "b.png".to_string()]);
    let c = listing_hash(&vec!["a.png".to_string(), "c.png".to_string()]);
    assert_eq!(a, b);
    assert_ne!(a, c);
}

#[test]
fn sessions_come_from_found_users_only() {
    let u = User { id: "1".into(), email: "e".into(), display_name: None, assigned_levels: vec![], session_hash: "h".into() };
    assert_eq!(session_user(Ok(Some(u))).map(|s| s.0.id), Some("1".to_string()));
    assert!(session_user(Ok(None)).is_none());
    assert!(session_user(Err(AuthError::InvalidCredentials)).is_none());
}

#[test]
fn file_names_that_would_break_parsing_are_detected() {
    assert!(DenoteFilename::parse_is_safe("20250107T123456--a.org"));
    assert!(DenoteFilename::parse_is_safe("short.org"));
    assert!(DenoteFilename::parse_is_safe("noext"));
    // The fifteenth byte falls inside the two-byte 'é'.
    assert!(!DenoteFilename::parse_is_safe("20250107T12345é--a.org"));
}
