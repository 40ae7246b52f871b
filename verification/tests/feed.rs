use notes_kit::feed::{build_atom, FeedConfig};
use notes_kit::models::{Note, NoteMetadata};

fn note(filename: &str, note_type: &str, sig: Option<&str>, content: &str) -> Note {
    let mut n = Note::list_entry(
        filename.to_string(),
        filename.to_string(),
        NoteMetadata {
            id: None,
            title: Some(filename.to_string()),
            date: Some("2026-01-15".to_string()),
            tags: Vec::new(),
            note_type: Some(note_type.to_string()),
            signature: sig.map(|s| s.to_string()),
        },
    );
    n.content = Some(content.to_string());
    n.effective_signature = Some(sig.unwrap_or("private").to_string());
    n
}

#[test]
fn feed_filters_types_and_private_notes() {
    let cfg = FeedConfig {
        base_url: "https://example.com".into(),
        title: "T".into(),
        subtitle: None,
        author: "A".into(),
        note_types: vec!["blog".into()],
    };
    let notes = vec![
        note("b1.org", "blog", Some("public"), "Hello *world*"),
        note("b2.org", "blog", Some("private"), "SECRET"),
        note("t1.org", "talk", Some("public"), "talk body"),
    ];
    let xml = build_atom(&cfg, &notes);
    assert!(xml.contains("b1.org"));
    assert!(!xml.contains("SECRET"), "private note leaked into feed");
    assert!(!xml.contains("talk body"), "non-blog type included");
    assert!(xml.contains("2026-01-15T00:00:00Z"));
}

#[test]
fn feed_ignores_what_private_notes_hold() {
    let cfg = FeedConfig {
        base_url: "https://example.com/".into(),
        title: "T".into(),
        subtitle: Some("S".into()),
        author: "A".into(),
        note_types: vec!["blog".into()],
    };
    let one = vec![
        note("b1.org", "blog", Some("public"), "Hello"),
        note("b2.org", "blog", Some("private"), "SECRET one"),
    ];
    let mut other = vec![
        note("b1.org", "blog", Some("public"), "Hello"),
        note("b2.org", "talk", Some("private"), "another secret body"),
    ];
    other[1].metadata.title = Some("Other title".to_string());
    other[1].metadata.date = Some("2030-01-01".to_string());
    assert_eq!(build_atom(&cfg, &one), build_atom(&cfg, &other));
}
