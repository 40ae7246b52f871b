use notes_kit::metadata::extract_metadata_fast;

#[test]
fn keywords_only() {
    let c = "#+TITLE: Hello\n#+DATE: 2025-01-01\n#+FILETAGS: :a:b:\n";
    let (title, date, tags) = extract_metadata_fast(c);
    assert_eq!(title.as_deref(), Some("Hello"));
    assert_eq!(date.as_deref(), Some("2025-01-01"));
    assert_eq!(tags, vec!["a".to_string(), "b".to_string()]);
}

#[test]
fn skips_leading_properties_drawer() {
    let c = ":PROPERTIES:\n:AUTHOR: Alice\n:STATUS: ready\n:END:\n#+TITLE: Hello\n#+DATE: 2025-01-01\n";
    let (title, date, _) = extract_metadata_fast(c);
    assert_eq!(title.as_deref(), Some("Hello"));
    assert_eq!(date.as_deref(), Some("2025-01-01"));
}

#[test]
fn keywords_before_drawer_still_work() {
    let c = "#+TITLE: x\n:PROPERTIES:\n:K: v\n:END:\n#+DATE: 2025\n";
    let (title, date, _) = extract_metadata_fast(c);
    assert_eq!(title.as_deref(), Some("x"));
    assert_eq!(date.as_deref(), Some("2025"));
}

#[test]
fn stops_at_body() {
    let c = "#+TITLE: x\nbody starts here\n#+DATE: ignored\n";
    let (title, date, _) = extract_metadata_fast(c);
    assert_eq!(title.as_deref(), Some("x"));
    assert_eq!(date, None);
}
