use notes_kit::denote::{short_id_from_filename, DenoteFilename, DenoteId};

#[test]
fn parse_valid_id() {
    let id = DenoteId::parse("20250107T123456").unwrap();
    assert_eq!(id.as_str(), "20250107T123456");
}

#[test]
fn parse_id_from_longer_string() {
    let id = DenoteId::parse("20250107T123456--some-title").unwrap();
    assert_eq!(id.as_str(), "20250107T123456");
}

#[test]
fn reject_short_string() {
    assert!(DenoteId::parse("2025010").is_none());
}

#[test]
fn reject_missing_t_separator() {
    assert!(DenoteId::parse("12345678X123456").is_none());
}

#[test]
fn reject_non_digit_chars() {
    assert!(DenoteId::parse("2025010aT123456").is_none());
}

#[test]
fn date_extraction() {
    let id = DenoteId::parse("20250107T123456").unwrap();
    assert_eq!(id.date(), "2025-01-07");
}

#[test]
fn display_trait() {
    let id = DenoteId::parse("20250107T123456").unwrap();
    assert_eq!(id.to_string(), "20250107T123456");
}

#[test]
fn parse_simple_filename() {
    let df = DenoteFilename::parse("20250107T123456--my-note.org").unwrap();
    assert_eq!(df.id.as_str(), "20250107T123456");
    assert_eq!(df.title, "my-note");
    assert!(df.signature.is_none());
    assert!(df.note_type.is_none());
}

#[test]
fn parse_filename_with_type() {
    let df = DenoteFilename::parse("20250107T123456--my-note__literature.org").unwrap();
    assert_eq!(df.title, "my-note");
    assert_eq!(df.note_type.as_deref(), Some("literature"));
}

#[test]
fn parse_filename_with_signature() {
    let df = DenoteFilename::parse("20250107T123456==private--secret-note.org").unwrap();
    assert_eq!(df.signature.as_deref(), Some("private"));
    assert_eq!(df.title, "secret-note");
}

#[test]
fn parse_filename_with_all_components() {
    let df = DenoteFilename::parse("20250107T123456==phd--research-topic__literature.org").unwrap();
    assert_eq!(df.id.as_str(), "20250107T123456");
    assert_eq!(df.signature.as_deref(), Some("phd"));
    assert_eq!(df.title, "research-topic");
    assert_eq!(df.note_type.as_deref(), Some("literature"));
}

#[test]
fn parse_non_org_extension() {
    let df = DenoteFilename::parse("20250107T123456--title.md").unwrap();
    assert_eq!(df.extension, "md");
    assert!(!df.is_note());
}

#[test]
fn parse_image_extension() {
    let df = DenoteFilename::parse("20250107T123456--sunset-photo__photo.webp").unwrap();
    assert_eq!(df.extension, "webp");
    assert_eq!(df.title, "sunset-photo");
    assert_eq!(df.note_type.as_deref(), Some("photo"));
    assert!(!df.is_note());
}

#[test]
fn reject_no_extension() {
    assert!(DenoteFilename::parse("20250107T123456--title").is_none());
}

#[test]
fn reject_missing_title_separator() {
    assert!(DenoteFilename::parse("20250107T123456title.org").is_none());
}

#[test]
fn from_path_extracts_filename() {
    let df = DenoteFilename::from_path("/notes/20250107T123456--my-note__note.org").unwrap();
    assert_eq!(df.id.as_str(), "20250107T123456");
    assert_eq!(df.title, "my-note");
}

#[test]
fn display_title_replaces_hyphens() {
    let df = DenoteFilename::parse("20250107T123456--my-cool-note.org").unwrap();
    assert_eq!(df.display_title(), "my cool note");
}

#[test]
fn to_filename_roundtrip() {
    let name = "20250107T123456==phd--research-topic__literature.org";
    let df = DenoteFilename::parse(name).unwrap();
    assert_eq!(df.to_filename(), name);
}

#[test]
fn short_id_basic() {
    assert_eq!(short_id_from_filename("20250107T123456--my-note.org"), "20250107T123456");
}

#[test]
fn short_id_no_separator() {
    assert_eq!(short_id_from_filename("shortname.org"), "shortname.org");
}

#[test]
fn short_id_with_signature() {
    assert_eq!(short_id_from_filename("20250107T123456==priv--note.org"), "20250107T123456==priv");
}

#[test]
fn note_type_or_default() {
    let with_type = DenoteFilename::parse("20250107T123456--note__people.org").unwrap();
    assert_eq!(with_type.note_type_or_default(), "people");

    let without_type = DenoteFilename::parse("20250107T123456--note.org").unwrap();
    assert_eq!(without_type.note_type_or_default(), "note");
}
