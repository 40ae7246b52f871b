use notes_kit::auth::User;
use notes_kit::error::{AuthError, ServeError, StorageError};
use notes_kit::links::{resolve_link, LinkContext};
use notes_kit::storage::{range_window, read_range, LocalStorageBackend, RootProbe};
use notes_kit::strmap::StrMap;
use notes_kit::users::{authenticate, create_account, create_admin, new_account, verify_password, ServerUser, SessionUser};
use notes_kit::auth::{AdminUserConfig, Credentials};
use argon2::PasswordHasher;

fn ctx(accessible: Vec<String>) -> LinkContext {
    let mut ids = StrMap::new();
    ids.insert("20250107T123456".to_string(), "20250107T123456--a.org".to_string());
    LinkContext::new(ids, accessible)
}

#[test]
fn denote_links_resolve_to_note_urls() {
    let r = resolve_link("denote:20250107T123456", &ctx(vec![]));
    assert_eq!(r.href, "/notes/20250107T123456--a.org");
    assert!(r.is_accessible);
    assert!(r.is_internal);
    let hidden = resolve_link("denote:20250107T123456", &ctx(vec!["other".to_string()]));
    assert!(!hidden.is_accessible);
    let unknown = resolve_link("denote:1", &ctx(vec![]));
    assert_eq!(unknown.href, "denote:1");
    assert!(!unknown.is_internal);
    let prefixed = resolve_link("denote:20250107T123456", &ctx(vec![]).with_notes_prefix("/n".into()));
    assert_eq!(prefixed.href, "/n/20250107T123456--a.org");
}

#[test]
fn other_links_lose_file_prefixes() {
    let r = resolve_link("file:file:/img/a.png", &ctx(vec![]));
    assert_eq!(r.href, "/img/a.png");
    assert!(r.is_internal && r.is_accessible);
    let ext = resolve_link("//cdn.example/x", &ctx(vec![]));
    assert!(!ext.is_internal);
    let web = resolve_link("https://x", &ctx(vec![]));
    assert_eq!(web.href, "https://x");
    assert!(!web.is_internal);
}

fn server_user(hash: &str) -> ServerUser {
    ServerUser {
        id: "a@b.c".into(),
        email: "a@b.c".into(),
        password_hash: hash.into(),
        display_name: None,
        assigned_levels: vec!["phd".into()],
        created_at: 1,
        updated_at: 2,
    }
}

#[test]
fn core_user_carries_the_password_hash_as_session_hash() {
    let u = server_user("h").to_core_user();
    assert_eq!(u.session_hash, "h");
    assert_eq!(u.assigned_levels, vec!["phd".to_string()]);
    let s = SessionUser(User { id: "x".into(), email: "e".into(), display_name: None, assigned_levels: vec![], session_hash: "hé".into() });
    assert_eq!(s.id(), "x");
    assert_eq!(s.session_auth_hash(), "hé".as_bytes());
}

#[test]
fn passwords_are_checked_with_argon2() {
    let hash: argon2::PasswordHash =
        argon2::Argon2::default().hash_password_with_salt(b"secret", b"saltsaltsaltsalt").unwrap();
    let hash = hash.to_string();
    assert!(matches!(verify_password(Some(server_user(&hash)), "secret"), Ok(Some(_))));
    assert!(matches!(verify_password(Some(server_user(&hash)), "wrong"), Ok(None)));
    assert!(matches!(verify_password(None, "secret"), Ok(None)));
    assert!(matches!(verify_password(Some(server_user("not a hash")), "x"), Err(AuthError::Internal(_))));
}

#[test]
fn ranged_reads_clamp_to_the_file() {
    assert_eq!(range_window(10, 3, 4), (3, 7));
    assert_eq!(range_window(10, 8, 5), (8, 10));
    assert_eq!(range_window(10, 12, 5), (10, 10));
    assert_eq!(range_window(10, 2, u64::MAX), (2, 10));
    let r = read_range(b"0123456789".to_vec(), 3, 4);
    assert_eq!(r.bytes, b"3456".to_vec());
    assert_eq!(r.total_size, 10);
    assert!(read_range(b"ab".to_vec(), 5, 1).bytes.is_empty());
}

#[test]
fn local_root_checks_and_paths() {
    let probe = |exists, is_dir, canonical: Result<String, String>| RootProbe { exists, is_dir, canonical };
    match LocalStorageBackend::new("notes", probe(false, false, Err("x".into()))) {
        Err(StorageError::NotFound(m)) => assert_eq!(m, "directory does not exist: notes"),
        _ => panic!(),
    }
    match LocalStorageBackend::new("notes", probe(true, false, Err("x".into()))) {
        Err(StorageError::InvalidPath(m)) => assert_eq!(m, "not a directory: notes"),
        _ => panic!(),
    }
    match LocalStorageBackend::new("notes", probe(true, true, Err("denied".into()))) {
        Err(StorageError::Io(m)) => assert_eq!(m, "canonicalize failed: denied"),
        _ => panic!(),
    }
    let b = match LocalStorageBackend::new("notes", probe(true, true, Ok("/srv/notes".into()))) {
        Ok(b) => b,
        Err(_) => panic!(),
    };
    assert_eq!(b.root(), "/srv/notes");
    assert_eq!(b.absolute("a/b.org"), "/srv/notes/a/b.org");
    assert_eq!(b.absolute("/etc/passwd"), "/etc/passwd");
    assert!(b.path_safe_given("a.org", Some("/srv/notes/a.org")));
    assert!(!b.path_safe_given("a.org", Some("/srv/notesX/a.org")));
    assert!(!b.path_safe_given("../a.org", Some("/srv/notes/a.org")));
    assert!(!b.path_safe_given("a.org", None));
}

#[test]
fn serve_error_messages() {
    assert_eq!(ServeError::Config("c".into()).message(), "config error: c");
    assert_eq!(ServeError::Auth("a".into()).message(), "auth error: a");
    assert_eq!(ServeError::Server("s".into()).message(), "server error: s");
}

#[test]
fn created_accounts_sign_in_with_their_password() {
    let u = create_account("bob@example.org", "hunter2", None, vec!["phd".to_string()], 1700000000).unwrap();
    assert_eq!(u.id, "bob@example.org");
    assert_eq!(u.email, "bob@example.org");
    assert_eq!(u.assigned_levels, vec!["phd".to_string()]);
    assert_eq!((u.created_at, u.updated_at), (1700000000, 1700000000));
    assert!(u.password_hash.starts_with("$argon2"));
    let signed_in = match verify_password(Some(u), "hunter2") {
        Ok(Some(v)) => v,
        _ => panic!("the password was refused"),
    };
    assert!(matches!(verify_password(Some(signed_in), "hunter3"), Ok(None)));
}

#[test]
fn the_initial_admin_is_named_admin() {
    let admin = AdminUserConfig {
        email: "root@example.org".to_string(),
        password: "pw".to_string(),
        assigned_levels: vec!["private".to_string()],
    };
    let u = create_admin(&admin, 5).unwrap();
    assert_eq!(u.display_name.as_deref(), Some("Admin"));
    assert_eq!(u.id, "root@example.org");
    assert_eq!(u.assigned_levels, vec!["private".to_string()]);
    let plain = new_account("x@y", "h".to_string(), Some("X".to_string()), Vec::new(), 9);
    assert_eq!((plain.id.as_str(), plain.password_hash.as_str(), plain.created_at), ("x@y", "h", 9));
}

#[test]
fn credentials_sign_in_the_matching_account() {
    let creds = |pw: &str| Credentials::Password { email: "c@example.org".to_string(), password: pw.to_string() };
    let account = || create_account("c@example.org", "pw1", Some("C".to_string()), vec!["phd".to_string()], 1).unwrap();
    match authenticate(Some(account()), &creds("pw1")) {
        Ok(Some(u)) => {
            assert_eq!(u.id, "c@example.org");
            assert_eq!(u.display_name.as_deref(), Some("C"));
            assert_eq!(u.assigned_levels, vec!["phd".to_string()]);
            assert!(u.session_hash.starts_with("$argon2"));
        }
        _ => panic!("expected a user"),
    }
    assert!(matches!(authenticate(Some(account()), &creds("nope")), Ok(None)));
    assert!(matches!(authenticate(None, &creds("pw1")), Ok(None)));
    assert!(matches!(authenticate(Some(server_user("garbage")), &creds("pw1")), Err(AuthError::Internal(_))));
}
