use notes_kit::assets::AssetRepository;
use notes_kit::auth::{AccessGrants, AuthConfigFile, ConfigAuthzPolicy};
use notes_kit::config::ServerConfig;
use notes_kit::error::{AuthError, RepositoryError, StorageError};
use notes_kit::format::{NoteFormat, OrgFormat};
use notes_kit::models::{Note, NoteMetadata, NotesConfig};
use notes_kit::search::{search_notes, shortcut_toggles, ModalAction, SearchState};
use notes_kit::text::parse_properties;

#[test]
fn org_metadata_from_keywords_and_file_name() {
    let f = OrgFormat::new();
    let md = f.extract_metadata("#+TITLE: Hi\n#+FILETAGS: :x:y:\n", "20250107T123456==phd--t__blog.org");
    assert_eq!(md.id.as_ref().map(|i| i.as_str()), Some("20250107T123456"));
    assert_eq!(md.title.as_deref(), Some("Hi"));
    assert_eq!(md.date.as_deref(), Some("2025-01-07"));
    assert_eq!(md.tags, vec!["x".to_string(), "y".to_string()]);
    assert_eq!(md.note_type.as_deref(), Some("blog"));
    assert_eq!(md.signature.as_deref(), Some("phd"));
    let plain = f.extract_metadata("#+DATE: 2024\n", "notes.org");
    assert!(plain.id.is_none());
    assert_eq!(plain.date.as_deref(), Some("2024"));
    assert_eq!(f.file_extension(), "org");
    assert_eq!(f.parse_id("20250107T123456--x.org").map(|i| i.as_str().to_string()), Some("20250107T123456".to_string()));
    assert!(f.parse_id("x.org").is_none());
}

#[test]
fn properties_in_order_of_the_drawer() {
    let c = "#+TITLE: x\n:PROPERTIES:\n:Venue: ICSE\n  :AUTHORS: A, B\nnot a property\n:END:\n:X: no\n";
    assert_eq!(
        parse_properties(c),
        vec![("Venue".to_string(), "ICSE".to_string()), ("AUTHORS".to_string(), "A, B".to_string())]
    );
    assert!(parse_properties("body\n:PROPERTIES:\n:A: b\n:END:\n").is_empty());
}

#[test]
fn summary_fields_sort_and_upper_case() {
    let c = ":PROPERTIES:\n:venue: ICSE\n:Authors: A\n:VENUE: FSE\n:END:\nSee [[denote:20250202T000000]] and [[denote:20240101T000000][x]] and [[denote:20250202T000000]].\n* Abstract\nWe show things.\n";
    let s = OrgFormat::new().summary_fields(c);
    assert_eq!(
        s.properties,
        Some(vec![
            ("ABSTRACT".to_string(), "We show things.".to_string()),
            ("AUTHORS".to_string(), "A".to_string()),
            ("VENUE".to_string(), "FSE".to_string()),
        ])
    );
    let ids: Vec<String> = s.link_ids.unwrap().iter().map(|i| i.as_str().to_string()).collect();
    assert_eq!(ids, vec!["20240101T000000".to_string(), "20250202T000000".to_string()]);
    assert_eq!(s.reading_minutes, Some(1));
    assert!(s.excerpt.is_some());
}

#[test]
fn explicit_abstract_property_wins_and_empty_fields_are_none() {
    let c = ":PROPERTIES:\n:ABSTRACT: given\n:END:\n* Abstract\nsection text\n";
    let s = OrgFormat::new().summary_fields(c);
    assert_eq!(s.properties, Some(vec![("ABSTRACT".to_string(), "given".to_string())]));
    let e = OrgFormat::new().summary_fields("just text");
    assert!(e.properties.is_none());
    assert!(e.link_ids.is_none());
    assert_eq!(e.excerpt.as_deref(), Some("just text"));
}

#[test]
fn error_messages() {
    assert_eq!(StorageError::NotFound("x".into()).message(), "not found: x");
    assert_eq!(StorageError::PermissionDenied("x".into()).message(), "permission denied: x");
    assert_eq!(StorageError::InvalidPath("x".into()).message(), "invalid path: x");
    assert_eq!(StorageError::Io("x".into()).message(), "I/O error: x");
    assert_eq!(AuthError::InvalidCredentials.message(), "invalid credentials");
    assert_eq!(AuthError::UserNotFound("u".into()).message(), "user not found: u");
    assert_eq!(AuthError::Internal("e".into()).message(), "internal error: e");
    assert_eq!(RepositoryError::Unauthorized("m".into()).message(), "unauthorized: m");
    match RepositoryError::from_storage(StorageError::Io("disk".into())) {
        RepositoryError::Storage(m) => assert_eq!(m, "I/O error: disk"),
        _ => panic!(),
    }
    match RepositoryError::from_auth(AuthError::InvalidCredentials) {
        RepositoryError::Internal(m) => assert_eq!(m, "invalid credentials"),
        _ => panic!(),
    }
}

#[test]
fn server_config_defaults_and_builders() {
    let c = ServerConfig::new("notes".into());
    assert_eq!(c.port, 3000);
    assert_eq!(c.host, "127.0.0.1");
    assert_eq!(c.user_db_path, ".users.db");
    assert_eq!(c.sitemap_static_paths, vec!["/".to_string()]);
    assert_eq!(c.site.title, "My Notes");
    let c = c
        .port(8080)
        .host("0.0.0.0".into())
        .title("Garden".into())
        .auth_config("auth.toml".into())
        .sitemap_base_url("https://e.com".into())
        .sitemap_static_paths(vec!["/".into(), "/about".into()]);
    assert_eq!(c.port, 8080);
    assert_eq!(c.host, "0.0.0.0");
    assert_eq!(c.site.title, "Garden");
    assert_eq!(c.auth_config.as_deref(), Some("auth.toml"));
    assert_eq!(c.sitemap_base_url.as_deref(), Some("https://e.com"));
    assert_eq!(c.sitemap_static_paths.len(), 2);
    assert_eq!(c.notes_dir, "notes");
}

#[test]
fn assets_follow_their_signatures() {
    let policy = ConfigAuthzPolicy::from_config(AuthConfigFile::default());
    let mut repo = AssetRepository::new(policy);
    repo.set_files(&vec![
        "img/20250107T123456==public--sun__photo.webp".to_string(),
        "img/20250107T123457--secret.png".to_string(),
        "20250107T123458--note.org".to_string(),
        "readme.txt".to_string(),
    ]);
    assert_eq!(repo.cached_asset_count(), 2);
    let anon = AccessGrants::new(vec!["public".to_string()]);
    let visible = repo.list_accessible(&anon);
    assert_eq!(visible.len(), 1);
    assert_eq!(visible[0].filename, "20250107T123456==public--sun__photo.webp");
    assert_eq!(visible[0].denote_id, "20250107T123456");
    assert!(repo.can_access_asset(Some("public"), &anon));
    assert!(!repo.can_access_asset(None, &anon));
    let a = AssetRepository::parse_asset("x/20250107T123456--a.png").unwrap();
    assert_eq!(a.path, "x/20250107T123456--a.png");
    assert!(a.signature.is_none());
    assert!(AssetRepository::parse_asset("20250107T123456--a.org").is_none());
    match AssetRepository::check_read("../x", false) {
        Err(StorageError::InvalidPath(m)) => assert_eq!(m, "unsafe path: ../x"),
        _ => panic!(),
    }
    assert!(AssetRepository::check_read("a.png", true).is_ok());
}

fn note(path: &str, title: &str, body: &str) -> Note {
    let mut md = NoteMetadata::empty();
    md.title = Some(title.to_string());
    let mut n = Note::list_entry(path.to_string(), path.to_string(), md);
    n.content = Some(body.to_string());
    n
}

#[test]
fn search_puts_title_matches_first_then_paths_descending() {
    let notes = vec![
        note("a.org", "Other", "mentions RUST here"),
        note("c.org", "Rust Notes", "nothing"),
        note("b.org", "More", "rust again"),
        note("d.org", "None", "unrelated"),
    ];
    let r = search_notes(&notes, "rust");
    let paths: Vec<&str> = r.iter().map(|x| x.path.as_str()).collect();
    assert_eq!(paths, vec!["c.org", "b.org", "a.org"]);
    assert!(search_notes(&notes, " r ").is_empty());
}

#[test]
fn snippets_cut_at_words() {
    let body = "word ".repeat(20) + "needle " + &"tail ".repeat(20);
    let n = note("a.org", "t", &body);
    let s = n.snippet_around("NEEDLE");
    assert!(s.starts_with("..."));
    assert!(s.ends_with("..."));
    assert!(s.contains("needle"));
    let short = note("b.org", "t", "short body");
    assert_eq!(short.snippet_around("zzz"), "short...");
}

#[test]
fn search_box_selection_stays_on_a_result() {
    let notes = vec![note("a.org", "rust one", ""), note("b.org", "rust two", ""), note("c.org", "other", "")];
    let mut s = SearchState::new();
    assert!(!s.has_results());
    assert!(s.selected_result().is_none());
    s.set_query(&notes, "r".to_string());
    assert!(!s.has_results());
    s.set_query(&notes, "rust".to_string());
    assert!(s.has_results());
    assert_eq!(s.selected_result().unwrap().path, "b.org");
    s.select_next();
    assert_eq!(s.selected_result().unwrap().path, "a.org");
    s.select_next();
    assert_eq!(s.selected_result().unwrap().path, "a.org");
    s.select_prev();
    s.select_prev();
    assert_eq!(s.selected_result().unwrap().path, "b.org");
    s.clear();
    assert!(!s.has_results());
}

#[test]
fn search_box_keys_move_navigate_and_close() {
    let notes = vec![note("a.org", "rust one", ""), note("b.org", "rust two", ""), note("c.org", "other", "")];
    let cfg = NotesConfig::new("/notes".to_string());
    let mut s = SearchState::new();
    assert!(matches!(s.on_key("Enter", &cfg), ModalAction::Handled));
    s.set_query(&notes, "rust".to_string());
    assert!(matches!(s.on_key("x", &cfg), ModalAction::Ignore));
    assert!(matches!(s.on_key("ArrowDown", &cfg), ModalAction::Handled));
    assert_eq!(s.selected_result().unwrap().path, "a.org");
    assert!(matches!(s.on_key("ArrowUp", &cfg), ModalAction::Handled));
    match s.on_key("Enter", &cfg) {
        ModalAction::Navigate(url) => assert_eq!(url, "/notes/b.org"),
        _ => panic!("expected navigation"),
    }
    assert!(!s.has_results());
    s.set_query(&notes, "rust".to_string());
    assert!(matches!(s.on_key("Escape", &cfg), ModalAction::Close));
    assert!(!s.has_results());
}

#[test]
fn control_or_meta_k_toggles_the_search_box() {
    assert!(shortcut_toggles(true, false, "k"));
    assert!(shortcut_toggles(false, true, "k"));
    assert!(!shortcut_toggles(false, false, "k"));
    assert!(!shortcut_toggles(true, false, "K"));
    assert!(!shortcut_toggles(true, true, "j"));
}
