//! The public corpus snapshot: the serialized corpus of anonymously readable
//! notes, addressed by a hash of its bytes and kept precompressed, with the
//! previous snapshot kept for a grace window.
//!
//! Snapshots are shared, unauthenticated artifacts: they are built from the
//! notes readable with the policy's anonymous grants only.
use std::io::Write;
use vstd::prelude::*;
use crate::chars::string_of_all;
use crate::models::{Note, NoteView, note_views};
use crate::order::{lemma_sort_by_contains, sort_by_spec};
use crate::repository::{DefaultRepository, accessible_spec, readable, with_effective};
use crate::auth::{PolicyView, default_anonymous_spec, default_signature_spec, policy_of, LevelView};
use crate::cache::path_before;
use crate::auth::AccessGrants;

verus! {

broadcast use vstd::string::group_string_axioms;

pub open spec fn fnv_offset() -> u64 {
    0xcbf29ce484222325
}

pub open spec fn fnv_prime() -> u64 {
    0x100000001b3
}

/// One FNV-1a step: xor in the byte, then multiply modulo 2^64.
pub open spec fn fnv_step(h: u64, b: u8) -> u64 {
    (((h ^ (b as u64)) as nat * fnv_prime() as nat) % 0x1_0000_0000_0000_0000nat) as u64
}

/// FNV-1a 64 of a byte sequence.
pub open spec fn fnv1a64_spec(s: Seq<u8>) -> u64
    decreases s.len(),
{
    if s.len() == 0 {
        fnv_offset()
    } else {
        fnv_step(fnv1a64_spec(s.drop_last()), s.last())
    }
}

/// FNV-1a 64: stable by definition, so snapshot URLs survive toolchain
/// upgrades.
pub fn fnv1a64(bytes: &[u8]) -> (r: u64)
    ensures
        r == fnv1a64_spec(bytes@),
{
    let mut hash: u64 = 0xcbf29ce484222325;
    let mut i: usize = 0;
    proof {
        assert(bytes@.take(0) =~= Seq::<u8>::empty());
    }
    while i < bytes.len()
        invariant
            i <= bytes@.len(),
            hash == fnv1a64_spec(bytes@.take(i as int)),
        decreases bytes@.len() - i,
    {
        proof {
            assert(bytes@.take(i + 1).drop_last() =~= bytes@.take(i as int));
        }
        hash = hash ^ (bytes[i] as u64);
        hash = hash.wrapping_mul(0x100000001b3);
        i = i + 1;
    }
    proof {
        assert(bytes@.take(bytes@.len() as int) =~= bytes@);
    }
    hash
}

pub open spec fn hex_char(d: nat) -> char {
    if d < 10 {
        (d + 48) as char
    } else {
        (d - 10 + 97) as char
    }
}

/// The last `n` hexadecimal digits of `x`, zero padded, lower case.
pub open spec fn hex_digits(x: nat, n: nat) -> Seq<char>
    decreases n,
{
    if n == 0 {
        Seq::empty()
    } else {
        hex_digits(x / 16, (n - 1) as nat).push(hex_char(x % 16))
    }
}

fn hex_char_exec(d: u64) -> (c: char)
    requires
        d < 16,
    ensures
        c == hex_char(d as nat),
{
    if d < 10 {
        crate::chars::char_from_ascii((d + 48) as u32)
    } else {
        crate::chars::char_from_ascii((d - 10 + 97) as u32)
    }
}

fn hex_exec(x: u64, n: usize) -> (r: Vec<char>)
    ensures
        r@ == hex_digits(x as nat, n as nat),
    decreases n,
{
    if n == 0 {
        Vec::new()
    } else {
        let mut v = hex_exec(x / 16, n - 1);
        v.push(hex_char_exec(x % 16));
        v
    }
}

/// `{:016x}`: sixteen lower-case hexadecimal digits.
pub fn hex16(x: u64) -> (r: String)
    ensures
        r@ == hex_digits(x as nat, 16),
{
    string_of_all(&hex_exec(x, 16))
}

// ---------------------------------------------------------------------------
// Compression
// ---------------------------------------------------------------------------

/// What the brotli encoder makes of bytes at quality 11, default settings
/// otherwise.
pub uninterp spec fn brotli_q11(raw: Seq<u8>) -> Seq<u8>;

/// `brotli::BrotliCompress` of the bytes into a fresh buffer, quality 11 and
/// the encoder's defaults otherwise. The contract claims that a successful
/// result is a function of the bytes; when the encoder reports an error
/// nothing is claimed.
#[verifier::external_body]
fn brotli_compress(raw: &[u8]) -> (r: Option<Vec<u8>>)
    ensures
        r matches Some(v) ==> v@ == brotli_q11(raw@),
{
    let mut br = Vec::new();
    let params = brotli::enc::BrotliEncoderParams { quality: 11, ..Default::default() };
    let mut input = raw;
    match brotli::BrotliCompress(&mut input, &mut br, &params) {
        Ok(_) => Some(br),
        Err(_) => None,
    }
}

/// What flate2's gzip encoder at `Compression::best()` makes of bytes.
pub uninterp spec fn gzip_best(raw: Seq<u8>) -> Seq<u8>;

/// flate2's `GzEncoder` over a fresh buffer at `Compression::best()`:
/// `write_all` of the bytes, then `finish`. Its header carries no time stamp
/// and a fixed operating-system byte, so a successful result is a function
/// of the bytes; when writing reports an error nothing is claimed.
#[verifier::external_body]
fn gzip_compress(raw: &[u8]) -> (r: Option<Vec<u8>>)
    ensures
        r matches Some(v) ==> v@ == gzip_best(raw@),
{
    let mut encoder = flate2::write::GzEncoder::new(Vec::new(), flate2::Compression::best());
    if encoder.write_all(raw).is_err() {
        return None;
    }
    match encoder.finish() {
        Ok(v) => Some(v),
        Err(_) => None,
    }
}

// ---------------------------------------------------------------------------
// Snapshots
// ---------------------------------------------------------------------------

/// What clients are told of the corpus version: the content hash of the
/// whole cache (it changes on any edit, private notes included) and the
/// hash of the current public snapshot, if one is built.
pub struct VersionInfo {
    pub content_hash: u64,
    pub snapshot_hash: Option<String>,
}

/// How a session should backfill its corpus: the current public snapshot's
/// hash, and whether the session holds more than anonymous grants (its
/// private notes are then fetched through the grant-scoped calls).
pub struct CorpusInfo {
    pub snapshot_hash: Option<String>,
    pub authed: bool,
}

/// The corpus information for a session with `grants`.
pub fn corpus_info(store: &SnapshotStore, grants: &AccessGrants, anonymous: &AccessGrants) -> (r:
    CorpusInfo)
    ensures
        r.authed == (grants@ != anonymous@),
        match (r.snapshot_hash, store.current()) {
            (Some(h), Some(c)) => h@ == c.hash,
            (None, None) => true,
            _ => false,
        },
{
    CorpusInfo { snapshot_hash: store.current_hash(), authed: !grants.same_as(anonymous) }
}

/// One serialization of the public corpus, precompressed.
pub struct CorpusSnapshot {
    /// Hex content hash of `raw`: the URL path component.
    pub hash: String,
    pub raw: Vec<u8>,
    pub br: Vec<u8>,
    pub gz: Vec<u8>,
}

pub struct SnapshotView {
    pub hash: Seq<char>,
    pub raw: Seq<u8>,
    pub br: Seq<u8>,
    pub gz: Seq<u8>,
}

impl View for CorpusSnapshot {
    type V = SnapshotView;

    open spec fn view(&self) -> SnapshotView {
        SnapshotView { hash: self.hash@, raw: self.raw@, br: self.br@, gz: self.gz@ }
    }
}

/// The snapshot of serialized corpus bytes: addressed by their FNV-1a hash,
/// compressed with brotli and gzip (empty where compression failed).
pub open spec fn snapshot_of(raw: Seq<u8>, br: Seq<u8>, gz: Seq<u8>) -> bool {
    &&& (br.len() == 0 || br == brotli_q11(raw))
    &&& (gz.len() == 0 || gz == gzip_best(raw))
}

pub open spec fn snapshot_hash(raw: Seq<u8>) -> Seq<char> {
    hex_digits(fnv1a64_spec(raw) as nat, 16)
}

/// The order notes are serialized in: by ascending path.
pub open spec fn snapshot_order(s: Seq<NoteView>) -> Seq<NoteView> {
    sort_by_spec(s, |a: NoteView, b: NoteView| path_before(a, b))
}

/// Sorts the corpus by path, so that equal corpora serialize to equal bytes.
pub fn snapshot_notes(notes: &Vec<Note>) -> (r: Vec<Note>)
    ensures
        note_views(r@) == snapshot_order(note_views(notes@)),
{
    crate::cache::sort_notes_by_path(notes)
}

/// The corpus a public snapshot is built from: the notes readable with the
/// policy's anonymous grants, never a session's, by path; `None` while the
/// cache was never filled.
pub fn public_corpus(repo: &DefaultRepository) -> (r: Option<Vec<Note>>)
    ensures
        match (r, repo.cached()) {
            (Some(v), Some(s)) => note_views(v@) == snapshot_order(
                accessible_spec(repo.policy(), repo.policy().anonymous, s),
            ),
            (None, None) => true,
            _ => false,
        },
{
    let grants = repo.anonymous_grants();
    match repo.list_accessible(&grants) {
        Some(v) => Some(snapshot_notes(&v)),
        None => None,
    }
}

/// Every note of a public corpus is one that an anonymous reader may read,
/// handed out with the signature it was judged by.
pub proof fn lemma_public_corpus_is_anonymous(p: PolicyView, s: Seq<NoteView>, n: NoteView)
    requires
        snapshot_order(accessible_spec(p, p.anonymous, s)).contains(n),
    ensures
        readable(p, p.anonymous, n),
        n.effective_signature == Some(crate::auth::effective_spec(p, n.metadata.signature)),
{
    let acc = accessible_spec(p, p.anonymous, s);
    lemma_sort_by_contains(acc, |a: NoteView, b: NoteView| path_before(a, b), n);
    let i = choose|i: int| 0 <= i < acc.len() && acc[i] == n;
    let pred = |m: NoteView| readable(p, p.anonymous, m);
    let f = s.filter(pred);
    assert(acc[i] == with_effective(p, f[i]));
    assert(pred(f[i])) by {
        broadcast use vstd::seq_lib::group_filter_ensures;
    }
}

/// Under the default configuration (notes without a signature are private,
/// anonymous readers hold `public`) a public corpus holds only notes signed
/// `public`: private and unsigned notes never reach a snapshot.
pub proof fn lemma_default_public_corpus_is_public(levels: Seq<LevelView>, s: Seq<NoteView>, n: NoteView)
    requires
        ({
            let p = policy_of(levels, default_signature_spec(), default_anonymous_spec());
            snapshot_order(accessible_spec(p, p.anonymous, s)).contains(n)
        }),
    ensures
        n.metadata.signature == Some("public"@),
{
    let p = policy_of(levels, default_signature_spec(), default_anonymous_spec());
    lemma_public_corpus_is_anonymous(p, s, n);
    crate::auth::lemma_default_anonymous_sees_only_public(levels, n.metadata.signature);
}

/// Hashes and precompresses a serialized corpus.
pub fn build_snapshot(raw: Vec<u8>) -> (r: CorpusSnapshot)
    ensures
        r.raw@ == raw@,
        r.hash@ == snapshot_hash(raw@),
        snapshot_of(r.raw@, r.br@, r.gz@),
{
    let hash = hex16(fnv1a64(raw.as_slice()));
    let br = match brotli_compress(raw.as_slice()) {
        Some(v) => v,
        None => Vec::new(),
    };
    let gz = match gzip_compress(raw.as_slice()) {
        Some(v) => v,
        None => Vec::new(),
    };
    CorpusSnapshot { hash, raw, br, gz }
}

/// The current snapshot and the one before it, kept so that a client told
/// a hash just before a refresh still finds it.
pub struct SnapshotStore {
    current: Option<CorpusSnapshot>,
    previous: Option<CorpusSnapshot>,
}

pub open spec fn opt_snap(o: Option<CorpusSnapshot>) -> Option<SnapshotView> {
    match o {
        Some(s) => Some(s@),
        None => None,
    }
}

/// What a lookup by hash finds: the current snapshot first, then the
/// previous one.
pub open spec fn store_get(
    current: Option<SnapshotView>,
    previous: Option<SnapshotView>,
    hash: Seq<char>,
) -> Option<SnapshotView> {
    if current matches Some(c) && c.hash == hash {
        current
    } else if previous matches Some(p) && p.hash == hash {
        previous
    } else {
        None
    }
}

impl Default for SnapshotStore {
    /// No snapshot yet.
    fn default() -> (r: SnapshotStore)
        ensures
            r.current() is None,
            r.previous() is None,
    {
        SnapshotStore { current: None, previous: None }
    }
}

impl SnapshotStore {
    pub closed spec fn current(&self) -> Option<SnapshotView> {
        opt_snap(self.current)
    }

    pub closed spec fn previous(&self) -> Option<SnapshotView> {
        opt_snap(self.previous)
    }

    /// The hash of the current snapshot.
    pub fn current_hash(&self) -> (r: Option<String>)
        ensures
            match (r, self.current()) {
                (Some(h), Some(c)) => h@ == c.hash,
                (None, None) => true,
                _ => false,
            },
    {
        match &self.current {
            Some(s) => Some(s.hash.clone()),
            None => None,
        }
    }

    /// The current or the previous snapshot with this hash.
    pub fn get(&self, hash: &str) -> (r: Option<&CorpusSnapshot>)
        ensures
            opt_snap_ref(r) == store_get(self.current(), self.previous(), hash@),
    {
        let hv = crate::chars::str_chars(hash);
        match &self.current {
            Some(c) => {
                if crate::chars::eq_str(&hv, c.hash.as_str()) {
                    return Some(c);
                }
            },
            None => {},
        }
        match &self.previous {
            Some(p) => {
                if crate::chars::eq_str(&hv, p.hash.as_str()) {
                    return Some(p);
                }
            },
            None => {},
        }
        None
    }

    /// Makes `snapshot` current; the current one becomes the previous.
    /// Callers publish before they announce the new hash, so that no client
    /// is told a hash that is not found.
    pub fn publish(&mut self, snapshot: CorpusSnapshot)
        ensures
            final(self).current() == Some(snapshot@),
            final(self).previous() == old(self).current(),
    {
        let cur = self.current.take();
        self.previous = cur;
        self.current = Some(snapshot);
    }
}

pub open spec fn opt_snap_ref(o: Option<&CorpusSnapshot>) -> Option<SnapshotView> {
    match o {
        Some(s) => Some(s@),
        None => None,
    }
}

/// A published snapshot is found by its hash, and so is the one it
/// replaced: a hash announced before a publish is still served after it.
pub proof fn lemma_publish_keeps_previous(
    current: Option<SnapshotView>,
    previous: Option<SnapshotView>,
    s: SnapshotView,
)
    ensures
        store_get(Some(s), current, s.hash) == Some(s),
        current matches Some(c) ==> store_get(Some(s), current, c.hash) is Some,
        current matches Some(c) ==> (c.hash != s.hash ==> store_get(Some(s), current, c.hash)
            == Some(c)),
{
}

/// Equal corpora serialize in one order: notes with distinct paths come
/// out in the same order whatever order they were listed in.
pub proof fn lemma_snapshot_order_deterministic(s: Seq<NoteView>, t: Seq<NoteView>)
    requires
        crate::cache::distinct_paths(s),
        crate::cache::distinct_paths(t),
        forall|x: NoteView| s.contains(x) <==> t.contains(x),
    ensures
        snapshot_order(s) == snapshot_order(t),
{
    crate::cache::lemma_sorted_notes_unique(s, t);
}

} // verus!
