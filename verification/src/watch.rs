//! The decisions of the loops that keep the caches in step with storage:
//! every few seconds the listing is probed, the cache reloaded when the
//! listing changed (or cannot tell), and readers told when the content
//! changed.
use vstd::prelude::*;

verus! {

/// What probing the storage listing gave.
pub enum ListingProbe {
    /// A hash of the listing.
    Hash(u64),
    /// The storage cannot hash its listing.
    Unknown,
    /// The probe failed.
    Failed,
}

/// What a watch loop remembers between polls: the last listing hash seen
/// and the content hash last announced.
pub struct CacheWatch {
    pub last_listing: Option<u64>,
    pub last_content: u64,
}

impl CacheWatch {
    /// A watch started on a cache whose content hash is `initial_content`.
    pub fn new(initial_content: u64) -> (r: CacheWatch)
        ensures
            r.last_listing is None,
            r.last_content == initial_content,
    {
        CacheWatch { last_listing: None, last_content: initial_content }
    }

    /// Whether to reload after a probe: not when the listing hash is the
    /// one last seen or the probe failed; a new hash is remembered.
    pub fn on_listing(&mut self, probe: ListingProbe) -> (reload: bool)
        ensures
            final(self).last_content == old(self).last_content,
            match probe {
                ListingProbe::Hash(h) => if old(self).last_listing == Some(h) {
                    !reload && final(self).last_listing == old(self).last_listing
                } else {
                    reload && final(self).last_listing == Some(h)
                },
                ListingProbe::Unknown => reload && final(self).last_listing == old(self).last_listing,
                ListingProbe::Failed => !reload && final(self).last_listing == old(self).last_listing,
            },
    {
        match probe {
            ListingProbe::Hash(h) => {
                if self.last_listing == Some(h) {
                    false
                } else {
                    self.last_listing = Some(h);
                    true
                }
            },
            ListingProbe::Unknown => true,
            ListingProbe::Failed => false,
        }
    }

    /// Whether to announce after a reload: when the content hash differs
    /// from the one last announced, which it then becomes.
    pub fn on_reloaded(&mut self, content_hash: u64) -> (announce: bool)
        ensures
            announce == (content_hash != old(self).last_content),
            final(self).last_content == content_hash,
            final(self).last_listing == old(self).last_listing,
    {
        let announce = content_hash != self.last_content;
        self.last_content = content_hash;
        announce
    }
}

/// The seconds between two polls of a watch loop.
pub const POLL_SECONDS: u64 = 5;

} // verus!
