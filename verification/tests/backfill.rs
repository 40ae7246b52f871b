use notes_kit::backfill::{fallback_source, first_source, snapshot_url, Backfill, BackfillStep, CorpusSource};

#[test]
fn snapshot_url_names_the_hash() {
    assert_eq!(snapshot_url("00ff"), "/data/corpus/00ff.json");
}

#[test]
fn authed_readers_never_use_the_snapshot() {
    assert!(matches!(first_source(true, Some("abc")), CorpusSource::ServerFn));
    assert!(matches!(first_source(false, None), CorpusSource::ServerFn));
    match first_source(false, Some("abc")) {
        CorpusSource::Snapshot(url) => assert_eq!(url, "/data/corpus/abc.json"),
        CorpusSource::ServerFn => panic!("expected the snapshot"),
    }
}

#[test]
fn failed_snapshot_falls_back_to_server_fn() {
    let snap = CorpusSource::Snapshot("/data/corpus/x.json".to_string());
    assert!(matches!(fallback_source(&snap), Some(CorpusSource::ServerFn)));
    assert!(fallback_source(&CorpusSource::ServerFn).is_none());
}

#[test]
fn backoff_triples_up_to_a_minute_for_five_tries() {
    let mut b = Backfill::new();
    let mut waits = Vec::new();
    while b.may_try() {
        match b.after_try(false) {
            BackfillStep::Wait { ms, retry } => {
                waits.push(ms);
                assert_eq!(retry, b.may_try());
            }
            BackfillStep::Store => panic!("nothing arrived"),
        }
    }
    assert_eq!(waits, vec![2000, 6000, 18000, 54000, 60000]);
}

#[test]
fn arrival_stores_the_corpus() {
    let mut b = Backfill::new();
    assert_eq!(b.after_try(false), BackfillStep::Wait { ms: 2000, retry: true });
    assert_eq!(b.after_try(true), BackfillStep::Store);
    assert!(b.may_try());
}
