use notes_kit::compute::compute_id_map;
use notes_kit::feed::{
    body_html, checked_build_atom, checked_strip_org_header, extract_iso_date, strip_org_header,
    xml_escape,
};
use notes_kit::models::{Note, NoteId, NoteMetadata};
use notes_kit::sitemap::{build_sitemap, extract_iso_date as sitemap_date, SitemapConfig};
use notes_kit::snapshot::{build_snapshot, fnv1a64, hex16, snapshot_notes, SnapshotStore};
use std::io::Read;

fn public_note(path: &str, date: Option<&str>, body: &str) -> Note {
    let mut md = NoteMetadata::empty();
    md.signature = Some("public".to_string());
    md.date = date.map(|d| d.to_string());
    let mut n = Note::list_entry(path.to_string(), path.to_string(), md);
    n.content = Some(body.to_string());
    n
}

#[test]
fn fnv1a64_known_values() {
    assert_eq!(fnv1a64(b""), 0xcbf29ce484222325);
    assert_eq!(fnv1a64(b"a"), 0xaf63dc4c8601ec8c);
    assert_eq!(fnv1a64(b"foobar"), 0x85944171f73967e8);
}

#[test]
fn hex16_pads_to_sixteen_digits() {
    assert_eq!(hex16(0), "0000000000000000");
    assert_eq!(hex16(0xab), "00000000000000ab");
    assert_eq!(hex16(u64::MAX), "ffffffffffffffff");
}

#[test]
fn snapshot_is_addressed_by_its_bytes_and_decompresses() {
    let raw = b"[{\"path\":\"a.org\"}]".to_vec();
    let snap = build_snapshot(raw.clone());
    assert_eq!(snap.hash, format!("{:016x}", fnv1a64(&raw)));
    assert_eq!(snap.raw, raw);
    assert!(!snap.gz.is_empty());
    let mut out = Vec::new();
    flate2::read::GzDecoder::new(&snap.gz[..]).read_to_end(&mut out).unwrap();
    assert_eq!(out, raw);
    assert!(!snap.br.is_empty());
    let mut dec = Vec::new();
    brotli::BrotliDecompress(&mut &snap.br[..], &mut dec).unwrap();
    assert_eq!(dec, raw);
}

#[test]
fn store_keeps_the_previous_snapshot_one_publish_long() {
    let mut store = SnapshotStore::default();
    assert!(store.current_hash().is_none());
    let a = build_snapshot(b"a".to_vec());
    let b = build_snapshot(b"b".to_vec());
    let c = build_snapshot(b"c".to_vec());
    let (ha, hb, hc) = (a.hash.clone(), b.hash.clone(), c.hash.clone());
    store.publish(a);
    assert_eq!(store.current_hash(), Some(ha.clone()));
    store.publish(b);
    assert_eq!(store.current_hash(), Some(hb.clone()));
    assert!(store.get(&ha).is_some());
    assert!(store.get(&hb).is_some());
    store.publish(c);
    assert!(store.get(&ha).is_none());
    assert!(store.get(&hb).is_some());
    assert_eq!(store.get(&hc).unwrap().raw, b"c".to_vec());
}

#[test]
fn snapshot_notes_sorts_by_path() {
    let notes = vec![public_note("b.org", None, ""), public_note("a.org", None, ""), public_note("c.org", None, "")];
    let sorted = snapshot_notes(&notes);
    let paths: Vec<&str> = sorted.iter().map(|n| n.path.as_str()).collect();
    assert_eq!(paths, vec!["a.org", "b.org", "c.org"]);
}

#[test]
fn feed_escaping_and_dates() {
    assert_eq!(xml_escape("a & <b> \"c\" 'd'"), "a &amp; &lt;b&gt; &quot;c&quot; 'd'");
    assert_eq!(extract_iso_date("[2025-01-07 Tue]"), Some("2025-01-07"));
    assert_eq!(extract_iso_date("2025-1-07"), None);
    assert_eq!(extract_iso_date("x"), None);
}

#[test]
fn org_header_is_stripped() {
    let c = "#+TITLE: T\n:PROPERTIES:\n:ID: x\n:END:\n\nBody here.\n";
    assert_eq!(strip_org_header(c), "Body here.\n");
    assert_eq!(strip_org_header("#+TITLE: only\n"), "");
    assert_eq!(strip_org_header("Body"), "Body");
    assert_eq!(checked_strip_org_header("#+A: b\nrest").as_deref(), Some("rest"));
}

#[test]
fn crlf_header_that_lands_inside_a_character_is_refused() {
    // Each CRLF line makes the byte count lag by one: after three, it falls
    // inside the two-byte 'é' that ends the third line.
    assert_eq!(checked_strip_org_header("#+A\r\n#+B\r\n#+Cé\r\nxyz"), None);
}

#[test]
fn body_html_exports_and_resolves_links() {
    let mut target = public_note("t.org", None, "");
    target.metadata.id = Some(NoteId::new("20250107T123456"));
    let ids = compute_id_map(&vec![target]);
    let html = body_html("#+TITLE: x\nSee [[denote:20250107T123456][it]] and *bold*.", &ids, "https://e.com");
    assert!(html.contains("https://e.com/notes/t.org"), "{html}");
    assert!(html.contains("<b>bold</b>"), "{html}");
    assert!(!html.contains("TITLE"));
}

#[test]
fn atom_document_shape() {
    let cfg = notes_kit::feed::FeedConfig {
        base_url: "https://example.com///".into(),
        title: "A & B".into(),
        subtitle: Some("sub".into()),
        author: "Me".into(),
        note_types: vec!["blog".into()],
    };
    let mut old = public_note("20240101T000000--old__blog.org", Some("2024-01-01"), "old");
    old.metadata.note_type = Some("blog".into());
    let mut new = public_note("20250101T000000--new__blog.org", Some("<2025-03-04 Tue>"), "new");
    new.metadata.note_type = Some("blog".into());
    let xml = checked_build_atom(&cfg, &vec![old, new]).unwrap();
    assert!(xml.starts_with("<?xml version=\"1.0\" encoding=\"utf-8\"?>\n<feed xmlns=\"http://www.w3.org/2005/Atom\">\n  <title>A &amp; B</title>\n  <subtitle>sub</subtitle>\n  <id>https://example.com/</id>"));
    assert!(xml.contains("<updated>2025-03-04T00:00:00Z</updated>"));
    let first = xml.find("--new__blog").unwrap();
    let second = xml.find("--old__blog").unwrap();
    assert!(first < second, "newest first");
    assert!(xml.ends_with("</feed>\n"));
}

#[test]
fn empty_feed_is_dated_at_the_epoch() {
    let cfg = notes_kit::feed::FeedConfig {
        base_url: "https://e.com".into(),
        title: "T".into(),
        subtitle: None,
        author: "A".into(),
        note_types: vec![],
    };
    let xml = checked_build_atom(&cfg, &vec![public_note("a.org", None, "x")]).unwrap();
    assert!(xml.contains("<updated>1970-01-01T00:00:00Z</updated>"));
    assert!(!xml.contains("<entry>"));
}

#[test]
fn sitemap_dates_must_be_plausible() {
    assert_eq!(sitemap_date("2025-13-01"), None);
    assert_eq!(sitemap_date("1899-01-01"), None);
    assert_eq!(sitemap_date("x 2025-01-07"), Some("2025-01-07".to_string()));
    assert_eq!(sitemap_date("short"), None);
    assert_eq!(sitemap_date("é 2025-01-07 and more"), Some("2025-01-07".to_string()));
    assert_eq!(sitemap_date("mié 2025-12-17"), Some("2025-12-17".to_string()));
    assert_eq!(sitemap_date("1800-01-01 then 2024-02-30"), Some("2024-02-30".to_string()));
}

#[test]
fn sitemap_lists_public_non_index_notes() {
    let cfg = SitemapConfig { base_url: "https://e.com/".into(), static_paths: vec!["/".into(), "about".into()] };
    let mut private = public_note("p.org", None, "");
    private.metadata.signature = Some("private".into());
    let notes = vec![
        public_note("a'b.org", Some("2025-01-07"), ""),
        public_note("x--index.org", None, ""),
        private,
    ];
    let xml = build_sitemap(&cfg, &notes);
    assert_eq!(
        xml,
        "<?xml version=\"1.0\" encoding=\"UTF-8\"?>\n<urlset xmlns=\"http://www.sitemaps.org/schemas/sitemap/0.9\">\n  <url><loc>https://e.com/</loc></url>\n  <url><loc>https://e.com/about</loc></url>\n  <url><loc>https://e.com/notes/a&apos;b.org</loc><lastmod>2025-01-07</lastmod></url>\n</urlset>\n"
    );
}
