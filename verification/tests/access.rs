use notes_kit::snapshot::{build_snapshot, corpus_info, public_corpus, SnapshotStore};
use notes_kit::auth::{
    default_anonymous_grants, default_signature, AccessGrants, AccessLevelConfig, AnonymousConfig,
    AuthConfigFile, AuthzPolicy, ConfigAuthzPolicy, User, UserInfo,
};
use notes_kit::cache::NotesCache;
use notes_kit::error::{RepositoryError, StorageError};
use notes_kit::format::OrgFormat;
use notes_kit::models::{Note, NoteMetadata};
use notes_kit::repository::{load_from_storage, DefaultRepository};

fn note(path: &str, sig: Option<&str>, body: &str) -> Note {
    let mut md = NoteMetadata::empty();
    md.signature = sig.map(|s| s.to_string());
    md.title = Some(path.to_string());
    let mut n = Note::list_entry(path.to_string(), path.to_string(), md);
    n.content = Some(body.to_string());
    n
}

fn level(name: &str, grants: &[&str]) -> AccessLevelConfig {
    AccessLevelConfig {
        name: name.to_string(),
        grants: grants.iter().map(|g| g.to_string()).collect(),
        emoji: None,
        description: None,
    }
}

fn default_repo(notes: Vec<Note>) -> DefaultRepository {
    let policy = ConfigAuthzPolicy::from_config(AuthConfigFile::default());
    let mut repo = DefaultRepository::new(policy, NotesCache::default());
    repo.set_notes(notes);
    repo
}

#[test]
fn grants_contains_and_empty() {
    let g = AccessGrants::new(vec!["public".to_string(), "phd".to_string()]);
    assert!(g.contains("phd"));
    assert!(!g.contains("private"));
    assert!(!g.is_empty());
    assert!(AccessGrants::new(Vec::new()).is_empty());
    assert!(AccessGrants::none().is_empty());
}

#[test]
fn defaults_are_public_and_private() {
    assert_eq!(default_anonymous_grants(), vec!["public".to_string()]);
    assert_eq!(default_signature(), "private");
    let cfg = AuthConfigFile::default();
    assert_eq!(cfg.default_signature, "private");
    assert!(cfg.levels.is_empty());
    assert!(cfg.admin.is_none());
    assert_eq!(AnonymousConfig::default().grants, vec!["public".to_string()]);
}

#[test]
fn effective_signature_falls_back_to_default() {
    let policy = ConfigAuthzPolicy::from_config(AuthConfigFile::default());
    assert_eq!(policy.effective_signature(Some("phd")), "phd");
    assert_eq!(policy.effective_signature(None), "private");
}

#[test]
fn anonymous_sees_only_public_by_default() {
    let policy = ConfigAuthzPolicy::from_config(AuthConfigFile::default());
    let anon = policy.anonymous_grants();
    assert!(policy.can_access(&anon, Some("public")));
    assert!(!policy.can_access(&anon, Some("private")));
    assert!(!policy.can_access(&anon, Some("phd")));
    assert!(!policy.can_access(&anon, None));
}

#[test]
fn levels_grant_their_own_name_and_later_levels_win() {
    let mut cfg = AuthConfigFile::default();
    cfg.levels = vec![level("phd", &["public"]), level("friends", &["family"]), level("phd", &["lab"])];
    let policy = ConfigAuthzPolicy::from_config(cfg);
    let g = policy.grants_for_levels(&vec!["phd".to_string()]);
    assert!(g.contains("phd"));
    assert!(g.contains("lab"));
    assert!(!g.contains("public"));
    let both = policy.grants_for_levels(&vec!["phd".to_string(), "friends".to_string(), "nobody".to_string()]);
    assert!(both.contains("family") && both.contains("friends") && both.contains("lab"));
    assert!(!both.contains("nobody"));
    assert!(policy.grants_for_levels(&Vec::new()).is_empty());
}

#[test]
fn user_info_keeps_public_fields() {
    let u = User {
        id: "1".into(),
        email: "a@b.c".into(),
        display_name: Some("A".into()),
        assigned_levels: vec!["phd".into()],
        session_hash: "h".into(),
    };
    let info: UserInfo = UserInfo::from(u);
    assert_eq!(info.email, "a@b.c");
    assert_eq!(info.display_name.as_deref(), Some("A"));
    assert_eq!(info.assigned_levels, vec!["phd".to_string()]);
}

#[test]
fn anonymous_listing_holds_public_notes_only() {
    let repo = default_repo(vec![
        note("pub-hello.org", Some("public"), "hello"),
        note("private-secret.org", Some("private"), "SECRET"),
        note("unsigned-implicit.org", None, "SECRET too"),
    ]);
    let anon = ConfigAuthzPolicy::from_config(AuthConfigFile::default()).anonymous_grants();
    let listed = repo.list_accessible(&anon).unwrap();
    assert_eq!(listed.len(), 1);
    assert_eq!(listed[0].path, "pub-hello.org");
    assert_eq!(listed[0].effective_signature.as_deref(), Some("public"));
}

#[test]
fn get_note_refuses_with_the_effective_signature() {
    let repo = default_repo(vec![note("a.org", None, "x"), note("b.org", Some("public"), "y")]);
    let anon = AccessGrants::new(vec!["public".to_string()]);
    match repo.get_note("a.org", &anon) {
        Some(Err(RepositoryError::Unauthorized(m))) => {
            assert_eq!(m, "Authentication required for 'private' access")
        }
        _ => panic!("expected an unauthorized read"),
    }
    match repo.get_note("b.org", &anon) {
        Some(Ok(n)) => assert_eq!(n.effective_signature.as_deref(), Some("public")),
        _ => panic!("expected the public note"),
    }
    assert!(repo.get_note("missing.org", &anon).is_none());
}

#[test]
fn a_read_gives_back_the_last_note_stored_at_a_path() {
    let repo = default_repo(vec![
        note("a.org", Some("public"), "first"),
        note("b.org", Some("public"), "other"),
        note("a.org", Some("public"), "second"),
    ]);
    assert_eq!(repo.cached_note_count(), 2);
    let anon = AccessGrants::new(vec!["public".to_string()]);
    match repo.get_note("a.org", &anon) {
        Some(Ok(n)) => assert_eq!(n.content.as_deref(), Some("second")),
        _ => panic!("expected the note"),
    }
}

#[test]
fn unfilled_cache_answers_nothing() {
    let policy = ConfigAuthzPolicy::from_config(AuthConfigFile::default());
    let repo = DefaultRepository::new(policy, NotesCache::default());
    let anon = AccessGrants::new(vec!["public".to_string()]);
    assert!(repo.list_accessible(&anon).is_none());
    assert!(repo.get_note("a.org", &anon).is_none());
    assert!(repo.version_hash(&anon).is_none());
    assert_eq!(repo.cached_note_count(), 0);
}

#[test]
fn global_hash_ignores_storage_order_and_sees_changes() {
    let a = default_repo(vec![note("a.org", None, "x"), note("b.org", None, "y")]);
    let b = default_repo(vec![note("b.org", None, "y"), note("a.org", None, "x")]);
    let c = default_repo(vec![note("a.org", None, "x"), note("b.org", None, "z")]);
    assert_eq!(a.global_version_hash(), b.global_version_hash());
    assert_ne!(a.global_version_hash(), c.global_version_hash());
}

#[test]
fn grant_scoped_hash_changes_with_visible_notes_only() {
    let a = default_repo(vec![note("a.org", Some("public"), "x"), note("b.org", None, "y")]);
    let b = default_repo(vec![note("a.org", Some("public"), "x"), note("b.org", None, "changed")]);
    let anon = AccessGrants::new(vec!["public".to_string()]);
    assert_eq!(a.version_hash(&anon), b.version_hash(&anon));
    assert_ne!(a.global_version_hash(), b.global_version_hash());
}

#[test]
fn loading_maps_storage_outcomes() {
    let f = OrgFormat::new();
    match load_from_storage(&f, "x/20250107T123456==phd--t__blog.org", None) {
        Err(RepositoryError::NotFound(m)) => assert_eq!(m, "invalid path"),
        _ => panic!("expected not found"),
    }
    match load_from_storage(
        &f,
        "x/20250107T123456==phd--t__blog.org",
        Some(Err(StorageError::NotFound("gone".into()))),
    ) {
        Err(RepositoryError::Storage(m)) => assert_eq!(m, "not found: gone"),
        _ => panic!("expected a storage error"),
    }
    match load_from_storage(
        &f,
        "x/20250107T123456==phd--t__blog.org",
        Some(Ok("#+TITLE: T\nbody".into())),
    ) {
        Ok(n) => {
            assert_eq!(n.filename, "20250107T123456==phd--t__blog.org");
            assert_eq!(n.metadata.title.as_deref(), Some("T"));
            assert_eq!(n.metadata.signature.as_deref(), Some("phd"));
            assert_eq!(n.metadata.note_type.as_deref(), Some("blog"));
            assert_eq!(n.metadata.date.as_deref(), Some("2025-01-07"));
            assert_eq!(n.content.as_deref(), Some("#+TITLE: T\nbody"));
        }
        _ => panic!("expected a note"),
    }
}

#[test]
fn listings_come_newest_first_and_summaries_drop_bodies() {
    let repo = default_repo(vec![
        note("20240101T000000--a.org", Some("public"), "a"),
        note("20250101T000000--b.org", Some("public"), "b"),
        note("20230101T000000--c.org", None, "c"),
    ]);
    let anon = AccessGrants::new(vec!["public".to_string()]);
    let all = repo.all_notes(&anon).unwrap();
    let names: Vec<&str> = all.iter().map(|n| n.path.as_str()).collect();
    assert_eq!(names, vec!["20250101T000000--b.org", "20240101T000000--a.org"]);
    let summary = repo.notes_summary(&anon).unwrap();
    assert_eq!(summary.len(), 2);
    assert!(summary.iter().all(|n| n.content.is_none()));
}

#[test]
fn corpus_info_tells_authed_sessions_apart() {
    let mut store = SnapshotStore::default();
    let anon = AccessGrants::new(vec!["public".to_string()]);
    let same = AccessGrants::new(vec!["public".to_string(), "public".to_string()]);
    let more = AccessGrants::new(vec!["public".to_string(), "phd".to_string()]);
    assert!(anon.same_as(&same));
    assert!(!anon.same_as(&more));
    let info = corpus_info(&store, &anon, &anon);
    assert!(!info.authed);
    assert!(info.snapshot_hash.is_none());
    let snap = build_snapshot(b"x".to_vec());
    let h = snap.hash.clone();
    store.publish(snap);
    let info = corpus_info(&store, &more, &anon);
    assert!(info.authed);
    assert_eq!(info.snapshot_hash, Some(h));
}

#[test]
fn public_snapshot_never_contains_private_notes() {
    let repo = default_repo(vec![
        note("unsigned-implicit.org", None, "no signature"),
        note("pub-hello.org", Some("public"), "hello"),
        note("private-secret.org", Some("private"), "SECRET-MARKER-private-secret.org"),
    ]);
    let corpus = public_corpus(&repo).expect("cache filled");
    let raw: Vec<u8> = corpus
        .iter()
        .flat_map(|n| format!("{}\n{}\n", n.path, n.content.clone().unwrap_or_default()).into_bytes())
        .collect();
    let snapshot = build_snapshot(raw);
    let text = String::from_utf8(snapshot.raw.to_vec()).expect("utf8");
    assert!(text.contains("pub-hello.org"), "public note missing");
    assert!(
        !text.contains("private-secret.org") && !text.contains("SECRET-MARKER-private-secret.org"),
        "explicitly private note leaked into the public snapshot"
    );
    assert!(!text.contains("unsigned-implicit.org"), "unsigned note leaked into the public snapshot");
    assert_eq!(corpus[0].effective_signature.as_deref(), Some("public"));
    let empty = DefaultRepository::new(
        ConfigAuthzPolicy::from_config(AuthConfigFile::default()),
        NotesCache::default(),
    );
    assert!(public_corpus(&empty).is_none());
}
