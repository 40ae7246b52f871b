use notes_kit::compute::{compute_asset_map, filter_by_type, group_by_year};
use notes_kit::date::extract_year;
use notes_kit::models::{Asset, Note, NoteMetadata, NotesConfig};
use notes_kit::text::strip_headline_prefix;
use notes_kit::users::admin_needed;

fn dated(path: &str, date: Option<&str>, note_type: Option<&str>) -> Note {
    let mut md = NoteMetadata::empty();
    md.date = date.map(|d| d.to_string());
    md.note_type = note_type.map(|t| t.to_string());
    Note::list_entry(path.to_string(), path.to_string(), md)
}

fn paths(v: &[Note]) -> Vec<String> {
    v.iter().map(|n| n.path.clone()).collect()
}

#[test]
fn filter_keeps_notes_of_the_type_in_order() {
    let notes = vec![
        dated("a", None, Some("essay")),
        dated("b", None, None),
        dated("c", None, Some("journal")),
        dated("d", None, Some("essay")),
    ];
    assert_eq!(paths(&filter_by_type(&notes, "essay")), vec!["a", "d"]);
    assert!(filter_by_type(&notes, "Essay").is_empty());
}

#[test]
fn group_by_year_groups_runs_of_equal_years() {
    let notes = vec![
        dated("a", Some("2025-03-01"), None),
        dated("b", Some("[2025-01-02 Thu]"), None),
        dated("c", None, None),
        dated("d", Some("2024-12-31"), None),
        dated("e", Some("2025-06-01"), None),
    ];
    let groups = group_by_year(notes, extract_year);
    let shape: Vec<(String, Vec<String>)> =
        groups.iter().map(|(y, ns)| (y.clone(), paths(ns))).collect();
    assert_eq!(
        shape,
        vec![
            ("2025".to_string(), vec!["a".to_string(), "b".to_string()]),
            ("Unknown".to_string(), vec!["c".to_string()]),
            ("2024".to_string(), vec!["d".to_string()]),
            ("2025".to_string(), vec!["e".to_string()]),
        ]
    );
    assert!(group_by_year(Vec::new(), extract_year).is_empty());
    let calls = std::cell::RefCell::new(Vec::new());
    let by_month = group_by_year(
        vec![dated("x", Some("2025-03-01"), None), dated("y", Some("2025-03-09"), None), dated("z", None, None)],
        |d: &str| {
            calls.borrow_mut().push(d.to_string());
            d[..7].to_string()
        },
    );
    assert_eq!(calls.into_inner(), vec!["2025-03-01".to_string(), "2025-03-09".to_string()]);
    assert_eq!(by_month.len(), 2);
    assert_eq!(by_month[0].0, "2025-03");
    assert_eq!(by_month[0].1.len(), 2);
    assert_eq!(by_month[1].0, "Unknown");
}

#[test]
fn asset_map_maps_ids_to_file_names_last_wins() {
    let asset = |id: &str, file: &str| Asset {
        path: format!("assets/{file}"),
        filename: file.to_string(),
        denote_id: id.to_string(),
        signature: None,
    };
    let m = compute_asset_map(&vec![
        asset("20250101T000000", "20250101T000000--a.png"),
        asset("20250102T000000", "20250102T000000--b.png"),
        asset("20250101T000000", "20250101T000000--c.png"),
    ]);
    assert_eq!(m.len(), 2);
    assert_eq!(m.get("20250101T000000").map(|s| s.as_str()), Some("20250101T000000--c.png"));
    assert_eq!(m.get("20250102T000000").map(|s| s.as_str()), Some("20250102T000000--b.png"));
    assert!(m.get("x").is_none());
}

#[test]
fn note_urls_join_prefix_and_path() {
    assert_eq!(NotesConfig::new("/notes".to_string()).note_url("a/b.org"), "/notes/a/b.org");
    assert_eq!(NotesConfig::default().prefix, "/notes");
}

#[test]
fn headline_prefix_needs_stars_then_a_space() {
    assert_eq!(strip_headline_prefix("** Title  "), Some("Title"));
    assert_eq!(strip_headline_prefix("*  spaced"), Some("spaced"));
    assert_eq!(strip_headline_prefix("*bold*"), None);
    assert_eq!(strip_headline_prefix("no stars"), None);
    assert_eq!(strip_headline_prefix("***"), None);
}

#[test]
fn admin_is_created_only_without_users() {
    assert!(admin_needed(0));
    assert!(!admin_needed(1));
}
