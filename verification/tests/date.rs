use notes_kit::date::{clean_org_date, extract_year, format_date_human, format_date_iso, format_date_month};

#[test]
fn clean_bracketed() {
    assert_eq!(clean_org_date("[2025-01-07 Tue]"), "2025-01-07");
}

#[test]
fn clean_angled() {
    assert_eq!(clean_org_date("<2025-01-07>"), "2025-01-07");
}

#[test]
fn iso() {
    assert_eq!(format_date_iso("[2025-01-07 Tue]"), "2025-01-07");
}

#[test]
fn human() {
    assert_eq!(format_date_human("[2025-01-07 Tue]"), "January 7, 2025");
}

#[test]
fn month() {
    assert_eq!(format_date_month("[2025-01-07]"), "Jan 2025");
}

#[test]
fn year() {
    assert_eq!(extract_year("<2025-03-15>"), "2025");
}

#[test]
fn plain_date() {
    assert_eq!(format_date_human("2025-12-25"), "December 25, 2025");
}
