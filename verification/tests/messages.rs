use vertebrae::config::{Config, WatchPath};
use vertebrae::journal::Journal;
use vertebrae::path::FsPath;
use vertebrae::time::Timestamp;
use vertebrae::worker::file::{FileHandler, HandleFileError};
use vertebrae::worker::intent::{
    HandleIntentError, IntentHandler, IntentKind, IntentList, WorkerIntent,
};
use vertebrae::worker::message::{
    AccessKind, AccessMode, CreateKind, Event, EventKind, HandleMessageError, IntentWait,
    MessageHandler, MessageRun, MessageStep, WaitPoll, WorkerMessage,
};

const OPEN: EventKind = EventKind::Access(AccessKind::Open(AccessMode::Write));
const CLOSE: EventKind = EventKind::Access(AccessKind::Close(AccessMode::Write));

fn path(s: &str) -> FsPath {
    FsPath::from_text(s)
}

fn text(p: &FsPath) -> String {
    String::from_utf8(p.as_bytes().clone()).unwrap()
}

fn at(secs: u64) -> Timestamp {
    Timestamp::after_epoch(secs, 0)
}

fn handler() -> MessageHandler {
    let files = FileHandler::new(Config {
        watch_paths: vec![WatchPath::new(path("/w"), vec![])],
        backup_path: path("/b"),
        fs_refresh_timeout_secs: 60,
    });
    MessageHandler::new(IntentHandler::new(files.clone()), files).clone()
}

fn journal() -> Journal {
    let mut j = Journal::new(&path("/b/j"), Ok(vec![])).unwrap();
    let w = WatchPath::new(path("/w"), vec![]);
    j.create_entry(&w, &path("/w/known"), &path("/b/known"), &at(1)).unwrap();
    j
}

fn run(kind: EventKind, paths: &[&str]) -> MessageRun {
    let paths = paths.iter().map(|p| path(p)).collect();
    handler().handle(WorkerMessage::FilesystemEvent(Event { paths, kind }).clone())
}

/// Deals with all paths of an event that ends no writing.
fn note(kind: EventKind, paths: &[&str], intents: &mut IntentList, secs: u64) {
    let j = journal();
    let mut r = run(kind, paths);
    for _ in paths {
        assert!(matches!(r.advance_at(&j, intents, &at(secs)), MessageStep::Noted));
    }
    assert!(matches!(r.advance_at(&j, intents, &at(secs)), MessageStep::Done));
}

fn taken(intents: &mut IntentList, p: &str) -> Option<(IntentKind, Timestamp)> {
    intents.remove(&path(p)).map(|w| (w.kind, w.timestamp))
}

#[test]
fn new_files_get_an_intent_unless_they_are_known() {
    let mut l = IntentList::new();
    note(EventKind::Create(CreateKind::File), &["/w/a", "/w/known", "/w/b"], &mut l, 5);
    assert_eq!(l.len(), 2);
    note(EventKind::Create(CreateKind::File), &["/w/a"], &mut l, 6);
    assert_eq!(taken(&mut l, "/w/a"), Some((IntentKind::Create, at(5))));
    assert_eq!(taken(&mut l, "/w/b"), Some((IntentKind::Create, at(5))));
    assert_eq!(taken(&mut l, "/w/known"), None);
}

#[test]
fn opening_for_writing_replaces_an_intent() {
    let mut l = IntentList::new();
    note(EventKind::Create(CreateKind::File), &["/w/a"], &mut l, 5);
    note(OPEN, &["/w/a", "/w/known"], &mut l, 6);
    assert_eq!(taken(&mut l, "/w/a"), Some((IntentKind::Modify, at(6))));
    assert_eq!(taken(&mut l, "/w/known"), Some((IntentKind::Modify, at(6))));
}

#[test]
fn a_modification_keeps_an_intent() {
    let mut l = IntentList::new();
    note(EventKind::Create(CreateKind::File), &["/w/a"], &mut l, 5);
    note(EventKind::Modify, &["/w/a", "/w/b"], &mut l, 6);
    assert_eq!(taken(&mut l, "/w/a"), Some((IntentKind::Create, at(5))));
    assert_eq!(taken(&mut l, "/w/b"), Some((IntentKind::Modify, at(6))));
}

#[test]
fn other_events_are_ignored() {
    let mut l = IntentList::new();
    let kinds = [
        EventKind::Any,
        EventKind::Other,
        EventKind::Create(CreateKind::Folder),
        EventKind::Create(CreateKind::Any),
        EventKind::Create(CreateKind::Other),
        EventKind::Access(AccessKind::Any),
        EventKind::Access(AccessKind::Read),
        EventKind::Access(AccessKind::Other),
        EventKind::Access(AccessKind::Open(AccessMode::Read)),
        EventKind::Access(AccessKind::Open(AccessMode::Execute)),
        EventKind::Access(AccessKind::Close(AccessMode::Any)),
        EventKind::Access(AccessKind::Close(AccessMode::Other)),
    ];
    for kind in kinds {
        note(kind, &["/w/a", "/w/known"], &mut l, 5);
    }
    assert!(l.is_empty());
}

#[test]
fn closing_carries_the_intent_out() {
    let mut l = IntentList::new();
    let j = journal();
    note(OPEN, &["/w/a"], &mut l, 5);
    let mut r = run(CLOSE, &["/w/b", "/w/a/"]);
    match r.advance(&j, &mut l) {
        MessageStep::Await(w) => assert_eq!(w.sleep_secs(), Some(5)),
        other => panic!("{other:?}"),
    }
    match r.advance(&j, &mut l) {
        MessageStep::Handle(p, w) => {
            assert_eq!(text(&p), "/w/a/");
            assert_eq!(text(&w.path), "/w/a");
            assert_eq!(w.kind, IntentKind::Modify);
        }
        other => panic!("{other:?}"),
    }
    assert!(r.handled(Ok(())).is_ok());
    assert!(matches!(r.advance(&j, &mut l), MessageStep::Done));
    assert!(l.is_empty());
}

#[test]
fn a_failure_ends_the_message() {
    let mut l = IntentList::new();
    let j = journal();
    note(OPEN, &["/w/a", "/w/b"], &mut l, 5);
    let mut r = run(CLOSE, &["/w/a", "/w/b"]);
    assert!(matches!(r.advance(&j, &mut l), MessageStep::Handle(_, _)));
    let failure = HandleIntentError::HandleFile(HandleFileError::MissingWatchPath);
    assert!(matches!(
        r.handled(Err(failure)),
        Err(HandleMessageError::HandleIntent(HandleIntentError::HandleFile(
            HandleFileError::MissingWatchPath
        )))
    ));
    assert!(matches!(r.advance(&j, &mut l), MessageStep::Done));
    assert!(l.has_intent_for(&path("/w/b")));
}

#[test]
fn intents_are_noted_at_the_time_of_the_clock() {
    let mut l = IntentList::new();
    let mut r = run(EventKind::Modify, &["/w/a"]);
    assert!(matches!(r.advance(&journal(), &mut l), MessageStep::Noted));
    let (_, t) = taken(&mut l, "/w/a").unwrap();
    assert!(t.unix_secs().unwrap() > 1_600_000_000);
}

#[test]
fn a_wait_finds_a_late_intent() {
    let mut l = IntentList::new();
    let w = match IntentWait::new(path("/w/a")).poll(&mut l) {
        WaitPoll::Missing(w) => w,
        other => panic!("{other:?}"),
    };
    l.create(WorkerIntent { path: path("/w/a"), kind: IntentKind::Create, timestamp: at(3) });
    match w.poll(&mut l) {
        WaitPoll::Found(p, w) => {
            assert_eq!(text(&p), "/w/a");
            assert_eq!(w.kind, IntentKind::Create);
        }
        other => panic!("{other:?}"),
    }
    assert!(l.is_empty());
}

#[test]
fn a_wait_gives_up_after_ten_minutes() {
    let mut l = IntentList::new();
    let mut w = IntentWait::new(path("/w/a"));
    let mut slept = 0;
    while let Some(secs) = w.sleep_secs() {
        slept += secs;
        w = match w.poll(&mut l) {
            WaitPoll::Missing(w) => w,
            other => panic!("{other:?}"),
        };
    }
    assert_eq!(slept, 600);
}

#[test]
fn a_message_handler_carries_intents_out_by_its_settings() {
    let mut j = journal();
    let w = WorkerIntent { path: path("/v"), kind: IntentKind::Create, timestamp: at(3) };
    assert!(handler().intent_handler().handle(&mut j, &path("/v"), &w).is_err());
    assert!(handler().intent_handler().handle(&mut j, &path("/w/x"), &w).is_ok());
}
