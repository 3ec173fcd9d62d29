use std::io::ErrorKind;
use vertebrae::config::{Config, WatchPath};
use vertebrae::journal::Journal;
use vertebrae::path::FsPath;
use vertebrae::time::Timestamp;
use vertebrae::worker::error::{RescanError, WorkerError};
use vertebrae::worker::intent::{IntentKind, IntentList, WorkerIntent};
use vertebrae::worker::message::{Event, EventKind, WorkerMessage};
use vertebrae::worker::scan::{FileKind, FileWalk, RescanIntents, RescanPlan, RescanStep, WalkStep};
use vertebrae::worker::{
    Worker, WorkerAction, WorkerEvent, CHANNEL_CAPACITY, STALE_NANOS, TICK_SECS,
};

fn path(s: &str) -> FsPath {
    FsPath::from_text(s)
}

fn text(p: &FsPath) -> String {
    String::from_utf8(p.as_bytes().clone()).unwrap()
}

fn at(secs: u64) -> Timestamp {
    Timestamp::after_epoch(secs, 0)
}

/// The entries of a directory in a small tree.
fn listing(dir: &str) -> Vec<(&'static str, FileKind)> {
    match dir {
        "/w" => vec![
            ("/w/a", FileKind::File),
            ("/w/d", FileKind::Dir),
            ("/w/link", FileKind::Other),
            ("/w/z", FileKind::File),
        ],
        "/w/d" => vec![("/w/d/e", FileKind::Dir), ("/w/d/f", FileKind::File)],
        "/w/d/e" => vec![],
        _ => panic!("{dir}"),
    }
}

/// Walks from `start`, where `unreadable` cannot be opened and `broken` cannot be read.
fn walk(start: &str, unreadable: &str, broken: &str) -> Result<Vec<String>, std::io::Error> {
    let mut step = Worker::enumerate_files(&path(start));
    let mut open: Vec<(String, Vec<(&'static str, FileKind)>)> = vec![];
    loop {
        step = match step {
            WalkStep::Probe(p, walk) => {
                assert_eq!(walk.depth(), open.len());
                let is_file = text(&p) == "/w/a";
                walk.probed(p, is_file)
            }
            WalkStep::Open(dir, walk) => {
                assert_eq!(walk.depth(), open.len() + 1);
                if text(&dir) == unreadable {
                    walk.opened(Err(ErrorKind::PermissionDenied.into()))?
                } else {
                    open.push((text(&dir), listing(&text(&dir))));
                    walk.opened(Ok(()))?
                }
            }
            WalkStep::Next(walk) => {
                assert_eq!(walk.depth(), open.len());
                let (dir, entries) = open.last_mut().unwrap();
                if !entries.is_empty() {
                    let (p, kind) = entries.remove(0);
                    walk.entry(Ok(Some((path(p), kind))))?
                } else if dir == broken {
                    walk.entry(Err(ErrorKind::Other.into()))?
                } else {
                    open.pop();
                    walk.entry(Ok(None))?
                }
            }
            WalkStep::Done(files) => return Ok(files.iter().map(text).collect()),
        };
    }
}

fn files_below(start: &str) -> Vec<String> {
    walk(start, "", "").unwrap()
}

#[test]
fn a_walk_finds_all_files_in_order() {
    assert_eq!(files_below("/w"), ["/w/a", "/w/d/f", "/w/z"]);
    assert_eq!(files_below("/w/d"), ["/w/d/f"]);
    assert!(files_below("/w/d/e").is_empty());
}

#[test]
fn a_walk_from_a_file_finds_that_file() {
    assert_eq!(files_below("/w/a"), ["/w/a"]);
}

#[test]
fn a_directory_that_cannot_be_read_fails_the_walk() {
    for dir in ["/w", "/w/d", "/w/d/e"] {
        let kind = walk("/w", dir, "").unwrap_err().kind();
        assert_eq!(kind, ErrorKind::PermissionDenied);
        assert_eq!(walk("/w", "", dir).unwrap_err().kind(), ErrorKind::Other);
    }
    assert_eq!(walk("/w", "/w/d/e", "/w").unwrap_err().kind(), ErrorKind::PermissionDenied);
    assert_eq!(FileWalk::new().depth(), 0);
}

fn config() -> Config {
    Config {
        watch_paths: vec![
            WatchPath::new(path("/w"), vec![]),
            WatchPath::new(path("/v"), vec![]),
        ],
        backup_path: path("/b"),
        fs_refresh_timeout_secs: 60,
    }
}

fn journal() -> Journal {
    let mut j = Journal::new(&path("/b/j"), Ok(vec![])).unwrap();
    let w = WatchPath::new(path("/w"), vec![]);
    for p in ["/w/old", "/w/touched"] {
        j.create_entry(&w, &path(p), &path("/b/x"), &at(100)).unwrap();
    }
    j
}

fn enumerate(plan: RescanPlan, dir: &str, files: &[&str]) -> RescanPlan {
    match plan.next_step() {
        RescanStep::Enumerate(d, plan) => {
            assert_eq!(text(&d), dir);
            plan.enumerated(Ok(files.iter().map(|f| path(f)).collect())).unwrap()
        }
        other => panic!("{other:?}"),
    }
}

fn examine(
    plan: RescanPlan,
    file: &str,
    metadata: Result<Result<Timestamp, std::io::Error>, std::io::Error>,
) -> Result<RescanPlan, RescanError> {
    match plan.next_step() {
        RescanStep::Examine(p, plan) => {
            assert_eq!(text(&p), file);
            plan.examined(&journal(), p, metadata)
        }
        other => panic!("{other:?}"),
    }
}

fn draw(plan: RescanPlan) -> RescanIntents {
    match plan.next_step() {
        RescanStep::Draw(intents) => intents,
        other => panic!("{other:?}"),
    }
}

#[test]
fn a_rescan_plans_new_and_modified_files() {
    let mut plan = Worker::rescan(&config());
    plan = enumerate(plan, "/w", &["/w/touched", "/w/old", "/w/n1"]);
    plan = examine(plan, "/w/touched", Ok(Ok(at(101)))).unwrap();
    let same = Timestamp::after_epoch(100, 999_999_999);
    plan = examine(plan, "/w/old", Ok(Ok(same))).unwrap();
    plan = examine(plan, "/w/n1", Ok(Ok(Timestamp::before_epoch(1, 0)))).unwrap();
    plan = enumerate(plan, "/v", &["/v/n2"]);
    plan = examine(plan, "/v/n2", Ok(Err(ErrorKind::Other.into()))).unwrap();
    let mut intents = draw(plan);
    let mut planned = vec![];
    while let Some(w) = intents.next_intent_at(&at(500)) {
        assert_eq!(w.timestamp, at(500));
        planned.push((text(&w.path), w.kind));
    }
    let expected = vec![
        ("/w/n1".to_string(), IntentKind::Create),
        ("/v/n2".to_string(), IntentKind::Create),
        ("/w/touched".to_string(), IntentKind::Modify),
    ];
    assert_eq!(planned, expected);
    assert!(intents.next_intent().is_none());
}

#[test]
fn a_rescan_draws_intents_at_the_time_of_the_clock() {
    let mut plan = enumerate(Worker::rescan(&config()), "/w", &["/w/n"]);
    plan = examine(plan, "/w/n", Ok(Ok(at(1)))).unwrap();
    let mut intents = draw(enumerate(plan, "/v", &[]));
    let w = intents.next_intent().unwrap();
    assert!(w.timestamp.unix_secs().unwrap() > 1_600_000_000);
    assert_eq!(text(&w.path), "/w/n");
}

#[test]
fn a_failure_ends_a_rescan() {
    let start = || enumerate(Worker::rescan(&config()), "/w", &["/w/old"]);
    let r = examine(start(), "/w/old", Ok(Err(ErrorKind::Other.into())));
    assert!(matches!(r, Err(RescanError::IO(_))));
    let r = examine(start(), "/w/old", Ok(Ok(Timestamp::before_epoch(1, 0))));
    assert!(matches!(r, Err(RescanError::SystemTime(_))));
    let new = enumerate(Worker::rescan(&config()), "/w", &["/w/n"]);
    let r = examine(new, "/w/n", Err(ErrorKind::NotFound.into()));
    assert!(matches!(r, Err(RescanError::IO(_))));
    match Worker::rescan(&config()).next_step() {
        RescanStep::Enumerate(_, plan) => {
            let r = plan.enumerated(Err(ErrorKind::NotFound.into()));
            assert!(matches!(r, Err(RescanError::IO(_))));
        }
        other => panic!("{other:?}"),
    }
}

fn message() -> WorkerMessage {
    WorkerMessage::FilesystemEvent(Event { paths: vec![path("/w/a")], kind: EventKind::Modify })
}

#[test]
fn a_worker_answers_messages_and_stops() {
    let mut w = Worker::new();
    match w.step(WorkerEvent::Message(Some(message()))) {
        Some(WorkerAction::Handle(m)) => assert_eq!(format!("{m:?}"), format!("{:?}", message())),
        other => panic!("{other:?}"),
    }
    let stops = |a| matches!(a, Some(WorkerAction::Stop));
    assert!(stops(w.step(WorkerEvent::Message(None))));
    assert!(stops(w.step(WorkerEvent::Cancelled)));
    match w.step(WorkerEvent::Tick) {
        Some(WorkerAction::HandleStale(stale)) => assert!(stale.is_empty()),
        other => panic!("{other:?}"),
    }
    assert_eq!((CHANNEL_CAPACITY, TICK_SECS, STALE_NANOS), (32, 10, 20_000_000_000));
}

#[test]
fn a_tick_brings_up_stale_intents() {
    let mut l = IntentList::new();
    for (p, secs) in [("/w/a", 10), ("/w/b", 11)] {
        let timestamp = at(secs);
        l.create(WorkerIntent { path: path(p), kind: IntentKind::Modify, timestamp });
    }
    let mut w = Worker::with_intents(l);
    assert!(w.step_at(WorkerEvent::Tick, &at(10)).is_none());
    let stale = |a| match a {
        Some(WorkerAction::HandleStale(stale)) => stale.len(),
        other => panic!("{other:?}"),
    };
    assert_eq!(stale(w.step_at(WorkerEvent::Tick, &at(29))), 0);
    assert_eq!(stale(w.step_at(WorkerEvent::Tick, &at(30))), 1);
    assert_eq!(stale(w.step_at(WorkerEvent::Tick, &at(30))), 0);
    assert_eq!(stale(w.step_at(WorkerEvent::Tick, &at(40))), 1);
}

#[test]
fn a_closed_channel_gives_the_message_back() {
    let WorkerError::ChannelClosed(m) = WorkerError::ChannelClosed(message()).clone();
    assert_eq!(format!("{m:?}"), format!("{:?}", message()));
}
