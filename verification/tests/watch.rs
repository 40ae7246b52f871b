use notes_kit::storage::LocalStorageBackend;
use notes_kit::watch::{CacheWatch, ListingProbe};

fn entries(v: &[(&str, u64)]) -> Vec<(String, u64)> {
    v.iter().map(|(p, t)| (p.to_string(), *t)).collect()
}

#[test]
fn listing_hash_ignores_walk_order_but_not_times() {
    let a = LocalStorageBackend::listing_hash(&entries(&[("b.org", 2), ("a.org", 1), ("c/d.org", 3)]));
    let b = LocalStorageBackend::listing_hash(&entries(&[("c/d.org", 3), ("a.org", 1), ("b.org", 2)]));
    assert_eq!(a, b);
    let touched = LocalStorageBackend::listing_hash(&entries(&[("a.org", 1), ("b.org", 5), ("c/d.org", 3)]));
    assert_ne!(a, touched);
    let removed = LocalStorageBackend::listing_hash(&entries(&[("a.org", 1), ("b.org", 2)]));
    assert_ne!(a, removed);
}

#[test]
fn watch_reloads_on_new_listings_only() {
    let mut w = CacheWatch::new(7);
    assert!(w.on_listing(ListingProbe::Hash(1)));
    assert!(!w.on_listing(ListingProbe::Hash(1)));
    assert!(!w.on_listing(ListingProbe::Failed));
    assert!(w.on_listing(ListingProbe::Unknown));
    assert!(w.on_listing(ListingProbe::Hash(2)));
    assert_eq!(w.last_listing, Some(2));
}

#[test]
fn watch_announces_content_changes_only() {
    let mut w = CacheWatch::new(7);
    assert!(!w.on_reloaded(7));
    assert!(w.on_reloaded(8));
    assert_eq!(w.last_content, 8);
    assert!(!w.on_reloaded(8));
}
