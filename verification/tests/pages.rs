use notes_kit::links::{heading_tag, link_element, resolve_link, split_table_rows, LinkElement, ResolvedLink, RowKind};
use notes_kit::models::{Note, NoteId, NoteMetadata, NotesConfig};
use notes_kit::pages::{list_items, note_ids, page_context, select_note};

fn note(path: &str, filename: &str, id: Option<&str>) -> Note {
    let mut md = NoteMetadata::empty();
    md.id = id.map(NoteId::new);
    Note::list_entry(path.to_string(), filename.to_string(), md)
}

fn corpus() -> Vec<Note> {
    vec![
        note("a.org", "20250101T000000--alpha.org", Some("20250101T000000")),
        note("notes/index.org", "20250102T000000--index.org", None),
        note("b.org", "20250103T000000--beta.org", Some("20250103T000000")),
        note("b.org", "20250104T000000--index.org", Some("20250104T000000")),
    ]
}

#[test]
fn page_without_path_shows_first_index_note() {
    assert_eq!(select_note(&corpus(), None), Some(1));
}

#[test]
fn page_with_path_shows_first_note_at_that_path() {
    assert_eq!(select_note(&corpus(), Some("b.org")), Some(2));
    assert_eq!(select_note(&corpus(), Some("a.org")), Some(0));
    assert_eq!(select_note(&corpus(), Some("missing.org")), None);
    assert_eq!(select_note(&Vec::new(), None), None);
}

#[test]
fn page_context_lists_carried_ids_and_maps_them() {
    let notes = corpus();
    assert_eq!(
        note_ids(&notes),
        vec![
            "20250101T000000".to_string(),
            "20250103T000000".to_string(),
            "20250104T000000".to_string()
        ]
    );
    let ctx = page_context(&notes, "/n".to_string());
    assert_eq!(ctx.notes_prefix, "/n");
    assert_eq!(ctx.accessible_ids.len(), 3);
    let r = resolve_link("denote:20250103T000000", &ctx);
    assert_eq!(r.href, "/n/b.org");
    assert!(r.is_accessible);
}

fn resolved(href: &str, is_accessible: bool, is_internal: bool) -> ResolvedLink {
    ResolvedLink { href: href.to_string(), is_accessible, is_internal }
}

#[test]
fn hidden_links_keep_only_their_description() {
    let r = resolved("/notes/x.org", false, true);
    assert!(matches!(link_element(&r, false, true), LinkElement::Hidden { show_description: true }));
    assert!(matches!(link_element(&r, true, false), LinkElement::Hidden { show_description: false }));
}

#[test]
fn images_and_links_are_drawn_by_kind() {
    match link_element(&resolved("/img/a.png", true, true), true, false) {
        LinkElement::Image { src } => assert_eq!(src, "/img/a.png"),
        _ => panic!("expected an image"),
    }
    match link_element(&resolved("/notes/x.org", true, true), false, true) {
        LinkElement::Link { href, internal, label_is_href } => {
            assert_eq!(href, "/notes/x.org");
            assert!(internal);
            assert!(!label_is_href);
        }
        _ => panic!("expected a link"),
    }
    match link_element(&resolved("https://x", true, false), false, false) {
        LinkElement::Link { href, internal, label_is_href } => {
            assert_eq!(href, "https://x");
            assert!(!internal);
            assert!(label_is_href);
        }
        _ => panic!("expected a link"),
    }
}

#[test]
fn heading_levels_stop_at_six() {
    assert_eq!(heading_tag(1), "h1");
    assert_eq!(heading_tag(3), "h3");
    assert_eq!(heading_tag(6), "h6");
    assert_eq!(heading_tag(9), "h6");
}

#[test]
fn notes_list_leaves_out_index_notes() {
    let mut notes = corpus();
    notes[0].metadata.title = Some("Alpha".to_string());
    notes[0].metadata.date = Some("2025-01-01".to_string());
    notes[2].metadata.signature = Some("phd".to_string());
    notes[2].metadata.date = Some(String::new());
    let items = list_items(&notes, &NotesConfig::new("/notes".to_string()));
    assert_eq!(items.len(), 2);
    assert_eq!(items[0].url, "/notes/a.org");
    assert_eq!(items[0].title, "Alpha");
    assert_eq!(items[0].date.as_deref(), Some("2025-01-01"));
    assert_eq!(items[0].badge, None);
    assert_eq!(items[1].url, "/notes/b.org");
    assert_eq!(items[1].title, "20250103T000000--beta");
    assert_eq!(items[1].date, None);
    assert_eq!(items[1].badge.as_deref(), Some("phd"));
}

#[test]
fn table_rows_split_at_the_first_rule() {
    let rows = vec![RowKind::Standard, RowKind::Rule, RowKind::Standard, RowKind::Rule, RowKind::Standard];
    assert_eq!(split_table_rows(true, &rows), (vec![0], vec![2, 4]));
    assert_eq!(split_table_rows(false, &rows), (vec![], vec![0, 2, 4]));
    assert_eq!(split_table_rows(true, &vec![RowKind::Standard, RowKind::Standard]), (vec![0, 1], vec![]));
}
