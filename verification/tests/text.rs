use notes_kit::text::{
    extract_excerpt, extract_section, growth_stage, parse_field, parse_org_link, parse_property,
    reading_time, strip_org_markup,
};

#[test]
fn strip_org_link_with_desc() {
    assert_eq!(strip_org_markup("see [[https://x.com][example]]"), "see example");
}

#[test]
fn strip_org_link_without_desc() {
    assert_eq!(strip_org_markup("[[https://x.com]]"), "https://x.com");
}

#[test]
fn strip_bold() {
    assert_eq!(strip_org_markup("hello *world*"), "hello world");
}

#[test]
fn strip_italic() {
    assert_eq!(strip_org_markup("/emphasis/"), "emphasis");
}

#[test]
fn extract_excerpt_skips_keywords() {
    let content = "#+TITLE: My Note\n#+DATE: 2025-01-01\nHello world.";
    assert_eq!(extract_excerpt(content, 100), "Hello world.");
}

#[test]
fn extract_excerpt_truncates() {
    let content = "This is a long sentence that should be truncated at a word boundary.";
    let excerpt = extract_excerpt(content, 30);
    assert!(excerpt.ends_with("..."));
    assert!(excerpt.len() <= 40);
}

#[test]
fn parse_field_found() {
    let content = "#+TITLE: Test\n- Authors: Alice, Bob\n- Venue: ICSE 2025\n";
    assert_eq!(parse_field(content, "Authors"), Some("Alice, Bob"));
    assert_eq!(parse_field(content, "Venue"), Some("ICSE 2025"));
}

#[test]
fn parse_field_not_found() {
    assert_eq!(parse_field("no fields here", "Key"), None);
}

#[test]
fn parse_field_bold_label() {
    let c1 = "- *Authors:* Alice, Bob\n- *Venue:* ICSE 2025\n";
    assert_eq!(parse_field(c1, "Authors"), Some("Alice, Bob"));
    assert_eq!(parse_field(c1, "Venue"), Some("ICSE 2025"));
    let c2 = "- *Authors*: Alice, Bob\n";
    assert_eq!(parse_field(c2, "Authors"), Some("Alice, Bob"));
}

#[test]
fn parse_property_basic() {
    let c = ":PROPERTIES:\n:AUTHORS: Alice, Bob\n:VENUE: ICSE 2025\n:END:\n#+TITLE: x\n";
    assert_eq!(parse_property(c, "AUTHORS"), Some("Alice, Bob"));
    assert_eq!(parse_property(c, "VENUE"), Some("ICSE 2025"));
}

#[test]
fn parse_property_case_insensitive_key() {
    let c = ":PROPERTIES:\n:Authors: Alice\n:END:\n";
    assert_eq!(parse_property(c, "AUTHORS"), Some("Alice"));
    assert_eq!(parse_property(c, "authors"), Some("Alice"));
}

#[test]
fn parse_property_after_keywords() {
    let c = "#+TITLE: x\n#+DATE: 2025\n:PROPERTIES:\n:AUTHORS: Alice\n:END:\n";
    assert_eq!(parse_property(c, "AUTHORS"), Some("Alice"));
}

#[test]
fn parse_property_missing_drawer() {
    let c = "#+TITLE: x\n- Authors: Alice\n";
    assert_eq!(parse_property(c, "AUTHORS"), None);
}

#[test]
fn parse_property_missing_key() {
    let c = ":PROPERTIES:\n:AUTHORS: Alice\n:END:\n";
    assert_eq!(parse_property(c, "VENUE"), None);
}

#[test]
fn parse_property_link_value() {
    let c = ":PROPERTIES:\n:VENUE: [[https://x][ICSE]]\n:END:\n";
    assert_eq!(parse_property(c, "VENUE"), Some("[[https://x][ICSE]]"));
}

#[test]
fn extract_section_basic() {
    let c = "#+TITLE: x\n* Abstract\n\nWe present a thing.\n\n* See also\nfoo\n";
    assert_eq!(extract_section(c, "Abstract"), Some("We present a thing.".to_string()));
}

#[test]
fn extract_section_missing() {
    let c = "#+TITLE: x\n* Other\nfoo\n";
    assert_eq!(extract_section(c, "Abstract"), None);
}

#[test]
fn extract_section_inline_links() {
    let c = "* Abstract\nSee [[https://x][here]] for details.\n";
    assert_eq!(
        extract_section(c, "Abstract"),
        Some("See [[https://x][here]] for details.".to_string())
    );
}

#[test]
fn extract_section_multiline_joined() {
    let c = "* Abstract\nFirst line.\nSecond line.\n";
    assert_eq!(extract_section(c, "Abstract"), Some("First line. Second line.".to_string()));
}

#[test]
fn extract_section_stops_at_subheading() {
    let c = "* Abstract\nBody.\n** Sub\nSubbody.\n";
    assert_eq!(extract_section(c, "Abstract"), Some("Body.".to_string()));
}

#[test]
fn parse_org_link_with_desc() {
    assert_eq!(
        parse_org_link("[[https://x][example]]"),
        Some(("https://x".to_string(), "example".to_string()))
    );
}

#[test]
fn parse_org_link_without_desc() {
    assert_eq!(
        parse_org_link("[[https://x]]"),
        Some(("https://x".to_string(), "https://x".to_string()))
    );
}

#[test]
fn parse_org_link_plain_text() {
    assert_eq!(parse_org_link("https://x"), None);
    assert_eq!(parse_org_link("just text"), None);
}

#[test]
fn reading_time_short() {
    assert_eq!(reading_time("hello"), 1);
}

#[test]
fn reading_time_long() {
    let content = "a ".repeat(1000);
    assert!(reading_time(&content) >= 1);
}

#[test]
fn growth_stages() {
    assert_eq!(growth_stage(3000).0, "evergreen");
    assert_eq!(growth_stage(800).0, "budding");
    assert_eq!(growth_stage(100).0, "seedling");
}
