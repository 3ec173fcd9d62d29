use vertebrae::config::{Config, WatchPath};
use vertebrae::journal::Journal;
use vertebrae::path::FsPath;
use vertebrae::time::Timestamp;
use vertebrae::worker::file::{CreateStep, FileHandler, HandleFileError, ModifyStep};
use vertebrae::worker::intent::{
    HandleIntentError, IntentHandler, IntentKind, IntentList, IntentStep, WorkerIntent,
};

fn path(s: &str) -> FsPath {
    FsPath::from_text(s)
}

fn text(p: &FsPath) -> String {
    String::from_utf8(p.as_bytes().clone()).unwrap()
}

fn intent(p: &str, kind: IntentKind, secs: u64) -> WorkerIntent {
    WorkerIntent { path: path(p), kind, timestamp: Timestamp::after_epoch(secs, 0) }
}

fn handler() -> IntentHandler {
    IntentHandler::new(FileHandler::new(Config {
        watch_paths: vec![WatchPath::new(path("/w"), vec![])],
        backup_path: path("/b"),
        fs_refresh_timeout_secs: 60,
    }))
}

#[test]
fn an_intent_is_taken_out_once() {
    let mut l = IntentList::new();
    assert!(l.is_empty());
    l.create(intent("/w/a", IntentKind::Create, 1));
    l.create(intent("/w/b", IntentKind::Modify, 2));
    assert_eq!(l.len(), 2);
    assert!(l.has_intent_for(&path("/w//a")));
    assert!(!l.has_intent_for(&path("/w/c")));
    let w = l.remove(&path("/w/a/")).unwrap();
    assert_eq!(w.kind, IntentKind::Create);
    assert_eq!(text(&w.path), "/w/a");
    assert!(l.remove(&path("/w/a")).is_none());
    assert_eq!(l.len(), 1);
    assert!(!l.is_empty());
}

#[test]
fn a_later_intent_takes_the_place_of_an_earlier_one() {
    let mut l = IntentList::new();
    l.create(intent("/w/a", IntentKind::Create, 1));
    l.create(intent("/w/a/.", IntentKind::Modify, 2).clone());
    assert_eq!(l.len(), 1);
    assert_eq!(l.remove(&path("/w/a")).unwrap().kind, IntentKind::Modify);
}

#[test]
fn stale_intents_are_taken_out() {
    let mut l = IntentList::new();
    for (p, secs) in [("/w/a", 10), ("/w/b", 11), ("/w/c", 12), ("/w/d", 5)] {
        l.create(intent(p, IntentKind::Modify, secs));
    }
    let now = Timestamp::after_epoch(31, 0);
    let mut taken: Vec<String> =
        l.remove_stale_at(&now, 20_000_000_000).unwrap().iter().map(|w| text(&w.path)).collect();
    taken.sort();
    assert_eq!(taken, ["/w/a", "/w/b", "/w/d"]);
    assert_eq!(l.len(), 1);
    assert!(l.has_intent_for(&path("/w/c")));
    assert!(l.remove_stale_at(&now, 20_000_000_000).unwrap().is_empty());
    let taken = l.remove_stale_at(&now, 19_000_000_001).unwrap();
    assert!(taken.is_empty());
    assert_eq!(l.remove_stale_at(&now, 19_000_000_000).unwrap().len(), 1);
    assert!(l.is_empty());
}

#[test]
fn the_clock_tells_which_intents_are_stale() {
    let mut l = IntentList::new();
    l.create(intent("/w/a", IntentKind::Modify, 10));
    l.create(WorkerIntent {
        path: path("/w/b"),
        kind: IntentKind::Modify,
        timestamp: Timestamp::now(),
    });
    let taken = l.remove_stale(3_600_000_000_000).unwrap();
    assert_eq!(taken.len(), 1);
    assert_eq!(text(&taken[0].path), "/w/a");
    l.create(intent("/w/c", IntentKind::Modify, u64::MAX));
    assert!(l.remove_stale(0).is_none());
    assert_eq!(l.len(), 2);
    assert!(IntentList::new().remove_stale(0).unwrap().is_empty());
}

#[test]
fn intents_lead_to_backups() {
    let mut j = Journal::new(&path("/b/j"), Ok(vec![])).unwrap();
    let h = handler().clone();
    let p = path("/w/a");
    match h.handle(&mut j, &p, &intent("/w/a", IntentKind::Create, 1)) {
        Ok(IntentStep::Create(CreateStep::Probe(s))) => assert_eq!(text(s.candidate()), "/b/a"),
        other => panic!("{other:?}"),
    }
    match h.handle(&mut j, &p, &intent("/w/a", IntentKind::Modify, 1)) {
        Ok(IntentStep::Modify(ModifyStep::Create(q))) => assert_eq!(text(&q), "/w/a"),
        other => panic!("{other:?}"),
    }
    let r = h.handle(&mut j, &p, &intent("/w/a", IntentKind::Remove, 1));
    assert!(matches!(r, Ok(IntentStep::Nothing)));
    let r = h.handle(&mut j, &path("/v"), &intent("/v", IntentKind::Create, 1));
    assert!(matches!(
        r,
        Err(HandleIntentError::HandleFile(HandleFileError::MissingWatchPath))
    ));
    assert!(!j.is_dirty());
}

#[test]
fn an_intent_of_the_future_has_no_age() {
    let mut l = IntentList::new();
    l.create(intent("/w/a", IntentKind::Modify, 1));
    l.create(intent("/w/b", IntentKind::Modify, 31));
    assert!(l.remove_stale_at(&Timestamp::after_epoch(30, 999_999_999), 0).is_none());
    assert_eq!(l.len(), 2);
    assert_eq!(l.remove_stale_at(&Timestamp::after_epoch(31, 0), 0).unwrap().len(), 2);
}
