//! How a reader's browser fills its copy of the corpus: where it fetches
//! from, and how long it waits between failed tries.
use vstd::prelude::*;
use crate::chars::{push_str, string_of_all};

verus! {

broadcast use vstd::string::group_string_axioms;

/// Where one try fetches the corpus from.
#[derive(Debug)]
pub enum CorpusSource {
    /// The grant-scoped server function (uncached).
    ServerFn,
    /// The shared public snapshot at this URL.
    Snapshot(String),
}

pub enum SourceView {
    ServerFn,
    Snapshot(Seq<char>),
}

impl View for CorpusSource {
    type V = SourceView;

    open spec fn view(&self) -> SourceView {
        match self {
            CorpusSource::ServerFn => SourceView::ServerFn,
            CorpusSource::Snapshot(u) => SourceView::Snapshot(u@),
        }
    }
}

/// `/data/corpus/<hash>.json`.
pub open spec fn snapshot_url_spec(hash: Seq<char>) -> Seq<char> {
    "/data/corpus/"@ + hash + ".json"@
}

pub fn snapshot_url(hash: &str) -> (r: String)
    ensures
        r@ == snapshot_url_spec(hash@),
{
    let mut out: Vec<char> = Vec::new();
    push_str(&mut out, "/data/corpus/");
    push_str(&mut out, hash);
    push_str(&mut out, ".json");
    string_of_all(&out)
}

/// The first source of a try: a reader with grants beyond the anonymous
/// ones must never go through the shared snapshot; otherwise the
/// advertised snapshot, if any, and else the server function.
pub open spec fn first_source_spec(authed: bool, snapshot_hash: Option<Seq<char>>) -> SourceView {
    if authed {
        SourceView::ServerFn
    } else {
        match snapshot_hash {
            Some(h) => SourceView::Snapshot(snapshot_url_spec(h)),
            None => SourceView::ServerFn,
        }
    }
}

pub open spec fn opt_hash(o: Option<&str>) -> Option<Seq<char>> {
    match o {
        Some(s) => Some(s@),
        None => None,
    }
}

pub fn first_source(authed: bool, snapshot_hash: Option<&str>) -> (r: CorpusSource)
    ensures
        r@ == first_source_spec(authed, opt_hash(snapshot_hash)),
{
    if authed {
        CorpusSource::ServerFn
    } else {
        match snapshot_hash {
            Some(h) => CorpusSource::Snapshot(snapshot_url(h)),
            None => CorpusSource::ServerFn,
        }
    }
}

/// Where a try goes after its source failed: a failed snapshot (missing,
/// raced by a redeploy, or unparsable) falls back to the server function,
/// which serves the same public corpus; a failed server function ends the try.
pub fn fallback_source(failed: &CorpusSource) -> (r: Option<CorpusSource>)
    ensures
        r matches Some(s) ==> s@ == SourceView::ServerFn && failed@ is Snapshot,
        r is None ==> failed@ is ServerFn,
{
    match failed {
        CorpusSource::Snapshot(_) => Some(CorpusSource::ServerFn),
        CorpusSource::ServerFn => None,
    }
}

/// How many tries a backfill makes.
pub const MAX_TRIES: u32 = 5;

/// The first wait after a failed try, in milliseconds.
pub const FIRST_WAIT_MS: u32 = 2000;

/// The longest wait, in milliseconds.
pub const MAX_WAIT_MS: u32 = 60000;

/// The wait after the `k`-th failed try (counted from 0): it starts at
/// two seconds and triples, up to a minute.
pub open spec fn backoff(k: nat) -> nat
    decreases k,
{
    if k == 0 {
        FIRST_WAIT_MS as nat
    } else {
        let p = backoff((k - 1) as nat) * 3;
        if p < MAX_WAIT_MS {
            p
        } else {
            MAX_WAIT_MS as nat
        }
    }
}

pub proof fn lemma_backoff_bounded(k: nat)
    ensures
        FIRST_WAIT_MS <= backoff(k) <= MAX_WAIT_MS,
    decreases k,
{
    if k > 0 {
        lemma_backoff_bounded((k - 1) as nat);
    }
}

/// What the loop does after a try.
#[derive(Debug, Clone, Copy, PartialEq, Eq, Structural)]
pub enum BackfillStep {
    /// The corpus arrived: store it and stop.
    Store,
    /// Wait this long; then try again if `retry`, else stop and keep the
    /// data already there.
    Wait { ms: u32, retry: bool },
}

/// The state of a backfill: how many tries failed so far.
pub struct Backfill {
    failed: u32,
    delay_ms: u32,
}

impl Backfill {
    #[verifier::type_invariant]
    spec fn wf(self) -> bool {
        &&& self.failed <= MAX_TRIES
        &&& self.delay_ms == backoff(self.failed as nat)
    }

    pub closed spec fn failed_tries(&self) -> nat {
        self.failed as nat
    }

    pub fn new() -> (r: Backfill)
        ensures
            r.failed_tries() == 0,
    {
        Backfill { failed: 0, delay_ms: FIRST_WAIT_MS }
    }

    /// Whether another try may start.
    pub fn may_try(&self) -> (r: bool)
        ensures
            r == (self.failed_tries() < MAX_TRIES),
    {
        self.failed < MAX_TRIES
    }

    /// The decision after a try that may start: store what arrived, or
    /// wait `backoff(failed)` and retry while fewer than five tries failed.
    pub fn after_try(&mut self, fetched: bool) -> (r: BackfillStep)
        requires
            old(self).failed_tries() < MAX_TRIES,
        ensures
            fetched ==> r is Store && final(self).failed_tries() == old(self).failed_tries(),
            !fetched ==> r == (BackfillStep::Wait {
                ms: backoff(old(self).failed_tries()) as u32,
                retry: old(self).failed_tries() + 1 < MAX_TRIES,
            }) && final(self).failed_tries() == old(self).failed_tries() + 1,
    {
        proof {
            use_type_invariant(&*self);
        }
        if fetched {
            return BackfillStep::Store;
        }
        let ms = self.delay_ms;
        proof {
            lemma_backoff_bounded(self.failed as nat);
        }
        let next: u32 = if ms < MAX_WAIT_MS / 3 {
            ms * 3
        } else {
            MAX_WAIT_MS
        };
        let failed = self.failed + 1;
        proof {
            assert(backoff(failed as nat) == next) by {
                reveal_with_fuel(backoff, 2);
            }
        }
        *self = Backfill { failed, delay_ms: next };
        BackfillStep::Wait { ms, retry: failed < MAX_TRIES }
    }
}

} // verus!
