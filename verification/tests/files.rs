use std::io::ErrorKind;
use vertebrae::config::{Config, WatchPath};
use vertebrae::journal::error::JournalError;
use vertebrae::journal::{Journal, JournalEntry};
use vertebrae::path::FsPath;
use vertebrae::time::Timestamp;
use vertebrae::worker::file::{
    same_contents, BackupSearch, Contents, CopyTask, CreateStep, FileHandler, HandleFileError,
    ModifyStep, NewBackup, TimedModification,
};

fn path(s: &str) -> FsPath {
    FsPath::from_text(s)
}

fn text(p: &FsPath) -> String {
    String::from_utf8(p.as_bytes().clone()).unwrap()
}

fn handler(watch: &str) -> FileHandler {
    FileHandler::new(Config {
        watch_paths: vec![WatchPath::new(path(watch), vec![])],
        backup_path: path("/b"),
        fs_refresh_timeout_secs: 60,
    })
}

fn journal(max: usize) -> Journal {
    Journal::with_max_dirty_count(&path("/b/j.json"), max, Ok(vec![])).unwrap()
}

fn known(file: &str, backup: &str, last_modified: u64) -> Journal {
    let e = JournalEntry {
        file_path: path(file),
        watch_path: path("/w"),
        backup_path: path(backup),
        last_modified,
        deleted: None,
        old_versions: vec![],
    };
    Journal::new(&path("/b/j.json"), Ok(vec![(path(file), e)])).unwrap()
}

fn search(step: Result<CreateStep, HandleFileError>) -> BackupSearch {
    match step {
        Ok(CreateStep::Probe(s)) => s,
        other => panic!("{other:?}"),
    }
}

fn free(step: CreateStep) -> NewBackup {
    match step {
        CreateStep::Enter(n) => n,
        other => panic!("{other:?}"),
    }
}

fn shown(c: &CopyTask) -> (Option<String>, String, String) {
    (c.make_dir.as_ref().map(text), text(&c.from), text(&c.to))
}

fn timed(h: &FileHandler, j: &mut Journal, file: &str, secs: u64) -> TimedModification {
    match h.modify(j, &path(file)) {
        ModifyStep::Examine(m) => {
            assert_eq!(text(m.file_path()), file);
            m.timed(Ok(Some(Timestamp::after_epoch(secs, 0)))).unwrap()
        }
        other => panic!("{other:?}"),
    }
}

fn contents(size: usize, bytes: &[u8]) -> Contents {
    Contents { size, bytes: bytes.to_vec() }
}

#[test]
fn a_new_file_is_backed_up_below_the_backups() {
    let h = handler("/w");
    let mut j = journal(32);
    let s = search(h.create(&j, &path("/w/docs/a.txt")));
    assert_eq!(text(s.candidate()), "/b/docs/a.txt");
    let n = free(s.answer(false));
    assert_eq!(text(n.file_path()), "/w/docs/a.txt");
    let e = n.enter(&mut j, Ok(Timestamp::after_epoch(40, 1))).unwrap();
    assert!(!e.flush_due);
    let c = e.flushed(&mut j, Ok(())).unwrap();
    let expected =
        (Some("/b/docs".to_string()), "/w/docs/a.txt".to_string(), "/b/docs/a.txt".to_string());
    assert_eq!(shown(&c), expected);
    assert_eq!(j.dirty_count(), 1);
    let entry = j.find_entry(&path("/w/docs/a.txt")).unwrap();
    assert_eq!(text(&entry.backup_path), "/b/docs/a.txt");
    assert_eq!(text(&entry.watch_path), "/w");
    assert_eq!(entry.last_modified, 40);
    match h.clone().create(&j, &path("/w/docs//a.txt")) {
        Ok(CreateStep::Copy(c)) => {
            assert_eq!(text(&c.from), "/w/docs//a.txt");
            assert_eq!(text(&c.to), "/b/docs/a.txt");
            assert_eq!(c.make_dir.as_ref().map(text), Some("/b/docs".to_string()));
        }
        other => panic!("{other:?}"),
    }
}

#[test]
fn a_taken_path_gets_a_number() {
    let h = handler("/w");
    let j = journal(32);
    let mut s = search(h.create(&j, &path("/w/a.txt")));
    let mut seen = vec![];
    for _ in 0..12 {
        seen.push(text(s.candidate()));
        s = search(Ok(s.answer(true)));
    }
    assert_eq!(s.tried(), 12);
    assert_eq!(seen[0], "/b/a.txt");
    assert_eq!(seen[1], "/b/a.txt.0");
    assert_eq!(seen[2], "/b/a.txt.1");
    assert_eq!(seen[11], "/b/a.txt.10");
    let all = seen.len();
    seen.sort();
    seen.dedup();
    assert_eq!(seen.len(), all);
}

#[test]
fn a_name_that_is_not_text_is_numbered_as_text() {
    let h = handler("/w");
    let j = journal(32);
    let file = FsPath::from_bytes(b"/w/a\xffb".to_vec());
    let s = search(h.create(&j, &file));
    assert_eq!(s.candidate().as_bytes(), &b"/b/a\xffb".to_vec());
    let s = search(Ok(s.answer(true)));
    assert_eq!(s.candidate().as_bytes(), &"/b/a\u{fffd}b.0".as_bytes().to_vec());
}

#[test]
fn a_file_outside_the_watched_directories_is_refused() {
    let r = handler("/w").create(&journal(32), &path("/v/a"));
    assert!(matches!(r, Err(HandleFileError::MissingWatchPath)));
}

#[test]
fn a_backup_needs_a_name() {
    let j = Journal::new(&path("/j.json"), Ok(vec![])).unwrap();
    let r = handler("/w").create(&j, &path("/w"));
    assert!(matches!(r, Err(HandleFileError::InvalidFilePath)));
    let r = handler("/w").create(&journal(32), &path("/w/.."));
    assert!(matches!(r, Err(HandleFileError::InvalidFilePath)));
}

#[test]
fn failures_to_enter_a_file_are_the_journals() {
    let h = handler("/w");
    let mut j = journal(32);
    let n = free(search(h.create(&j, &path("/w/a"))).answer(false));
    let r = n.enter(&mut j, Err(ErrorKind::NotFound.into()));
    assert!(matches!(r, Err(HandleFileError::JournalError(JournalError::IO(_)))));
    let n = free(search(h.create(&j, &path("/w/a"))).answer(false));
    let r = n.enter(&mut j, Ok(Timestamp::before_epoch(0, 1)));
    assert!(matches!(r, Err(HandleFileError::JournalError(JournalError::SystemTime(_)))));
    assert_eq!(j.dirty_count(), 0);
}

#[test]
fn a_full_journal_is_written_out_before_the_copy() {
    let h = handler("/w");
    let mut j = journal(1);
    let n = free(search(h.create(&j, &path("/w/a"))).answer(false));
    let e = n.enter(&mut j, Ok(Timestamp::after_epoch(1, 0))).unwrap();
    assert!(e.flush_due);
    let r = e.flushed(&mut j, Err(JournalError::IO(ErrorKind::Other.into())));
    assert!(matches!(r, Err(HandleFileError::JournalError(JournalError::IO(_)))));
    assert_eq!(j.dirty_count(), 1);
    let n = free(search(h.create(&j, &path("/w/b"))).answer(false));
    let e = n.enter(&mut j, Ok(Timestamp::after_epoch(1, 0))).unwrap();
    assert_eq!(text(&e.flushed(&mut j, Ok(())).unwrap().to), "/b/b");
    assert_eq!(j.dirty_count(), 0);
}

#[test]
fn a_modified_file_keeps_its_old_state() {
    let h = handler("/w");
    let mut j = known("/w/a.txt", "/b/a.txt", 40);
    let t = timed(&h, &mut j, "/w/a.txt", 50);
    assert_eq!(text(t.file_path()), "/w/a.txt");
    assert_eq!(text(t.backup_path()), "/b/a.txt");
    let keep = t
        .compare(&mut j, Ok(Some((contents(1, b"x"), contents(1, b"y")))))
        .unwrap()
        .unwrap();
    assert_eq!(text(keep.backup_path()), "/b/a.txt");
    assert_eq!(text(keep.old_version_path()), "/b/a.txt.40");
    let c = keep.kept(&mut j, Ok(())).unwrap();
    assert_eq!(shown(&c), (None, "/w/a.txt".to_string(), "/b/a.txt".to_string()));
    let e = j.find_entry(&path("/w/a.txt")).unwrap();
    assert_eq!(e.last_modified, 50);
    assert_eq!(e.old_versions.len(), 1);
    assert_eq!(e.old_versions[0].timestamp, 40);
    assert_eq!(text(&e.old_versions[0].file_path), "/b/a.txt.40");
    assert_eq!(j.dirty_count(), 1);
    let t = timed(&h, &mut j, "/w/a.txt", 60);
    t.compare(&mut j, Ok(None)).unwrap().unwrap().kept(&mut j, Ok(())).unwrap();
    let e = j.find_entry(&path("/w/a.txt")).unwrap();
    assert_eq!(e.last_modified, 60);
    assert_eq!(text(&e.old_versions[1].file_path), "/b/a.txt.50");
    assert_eq!(j.dirty_count(), 2);
}

#[test]
fn an_identical_file_is_left_alone() {
    let h = handler("/w");
    let mut j = known("/w/a.txt", "/b/a.txt", 40);
    let t = timed(&h, &mut j, "/w/a.txt", 50);
    let same = Ok(Some((contents(5, b"hello"), contents(5, b"hello"))));
    assert!(t.compare(&mut j, same).unwrap().is_none());
    let e = j.find_entry(&path("/w/a.txt")).unwrap();
    assert_eq!(e.last_modified, 40);
    assert!(e.old_versions.is_empty());
    assert_eq!(j.dirty_count(), 1);
}

#[test]
fn a_backup_without_a_name_cannot_be_set_aside() {
    let h = handler("/w");
    let mut j = known("/w/a", "/b/..", 40);
    let t = timed(&h, &mut j, "/w/a", 50);
    assert!(matches!(t.decide(&mut j, false), Err(HandleFileError::InvalidFilePath)));
    assert_eq!(j.find_entry(&path("/w/a")).unwrap().last_modified, 50);
    assert!(j.find_entry(&path("/w/a")).unwrap().old_versions.is_empty());
}

#[test]
fn a_modification_needs_a_time_after_the_epoch() {
    let h = handler("/w");
    let mut j = known("/w/a", "/b/a", 40);
    for _ in 0..2 {
        match h.modify(&mut j, &path("/w/a")) {
            ModifyStep::Examine(m) => {
                let r = m.timed(Ok(Some(Timestamp::before_epoch(1, 0))));
                assert!(matches!(r, Err(HandleFileError::SystemTime(_))));
            }
            other => panic!("{other:?}"),
        }
    }
    assert_eq!(j.dirty_count(), 2);
}

#[test]
fn the_clock_stands_in_for_a_missing_time() {
    let h = handler("/w");
    let mut j = known("/w/a", "/b/a", 40);
    match h.modify(&mut j, &path("/w/a")) {
        ModifyStep::Examine(m) => {
            let t = m.timed(Ok(None)).unwrap();
            t.decide(&mut j, false).unwrap();
        }
        other => panic!("{other:?}"),
    }
    assert!(j.find_entry(&path("/w/a")).unwrap().last_modified > 1_600_000_000);
    match h.modify(&mut j, &path("/w/a")) {
        ModifyStep::Examine(m) => {
            let t = m.timed_at(Ok(None), Timestamp::after_epoch(70, 0)).unwrap();
            t.decide(&mut j, false).unwrap();
        }
        other => panic!("{other:?}"),
    }
    assert_eq!(j.find_entry(&path("/w/a")).unwrap().last_modified, 70);
}

#[test]
fn an_unknown_file_that_was_modified_is_created() {
    let mut j = journal(32);
    match handler("/w").modify(&mut j, &path("/w/a")) {
        ModifyStep::Create(p) => assert_eq!(text(&p), "/w/a"),
        other => panic!("{other:?}"),
    }
    assert_eq!(j.dirty_count(), 0);
}

#[test]
fn the_digest_covers_zeros_and_the_contents() {
    assert_eq!(
        contents(0, b"hello").digest(),
        "2cf24dba5fb0a30e26e83b2ac5b9e29e1b161e5c1fa7425e73043362938b9824"
    );
    assert_eq!(
        contents(5, b"hello").digest(),
        "4d87ae546004745922fbfba4df1f1f2c628658175bbfd56ad45f8cca52480e68"
    );
    assert_eq!(
        contents(0, b"").digest(),
        "e3b0c44298fc1c149afbf4c8996fb92427ae41e4649b934ca495991b7852b855"
    );
}

#[test]
fn files_are_compared_by_digest() {
    assert!(same_contents(contents(2, b"ab"), contents(2, b"ab")));
    assert!(!same_contents(contents(2, b"ab"), contents(2, b"ac")));
    assert!(!same_contents(contents(2, b"ab"), contents(1, b"ab")));
    assert!(same_contents(contents(1, b"\0a"), contents(2, b"a")));
}

#[test]
fn a_removed_file_is_marked() {
    let h = handler("/w");
    let mut j = known("/w/a", "/b/a", 40);
    h.remove_at(&mut j, &path("/w/a"), &Timestamp::after_epoch(90, 0)).unwrap();
    assert_eq!(j.find_entry(&path("/w/a")).unwrap().deleted, Some(90));
    assert_eq!(j.dirty_count(), 1);
    let r = h.remove_at(&mut j, &path("/w/a"), &Timestamp::before_epoch(90, 0));
    assert!(matches!(r, Err(HandleFileError::SystemTime(_))));
    assert_eq!(j.find_entry(&path("/w/a")).unwrap().deleted, Some(90));
    assert_eq!(j.dirty_count(), 2);
    h.remove(&mut j, &path("/w/a")).unwrap();
    assert!(j.find_entry(&path("/w/a")).unwrap().deleted.unwrap() > 1_600_000_000);
    assert_eq!(j.dirty_count(), 3);
    h.remove(&mut j, &path("/w/b")).unwrap();
    assert_eq!(j.dirty_count(), 3);
}

#[test]
fn a_known_file_that_cannot_be_opened_fails() {
    let h = handler("/w");
    let mut j = known("/w/a", "/b/a", 40);
    let before = format!("{:?}", j.entries());
    match h.modify(&mut j, &path("/w/a")) {
        ModifyStep::Examine(m) => {
            let r = m.timed(Err(ErrorKind::NotFound.into()));
            assert!(matches!(r, Err(HandleFileError::IO(e)) if e.kind() == ErrorKind::NotFound));
        }
        other => panic!("{other:?}"),
    }
    assert_eq!(format!("{:?}", j.entries()), before);
    assert_eq!(j.dirty_count(), 1);
}

#[test]
fn failures_of_the_file_system_are_passed_on() {
    let h = handler("/w");
    let mut j = known("/w/a", "/b/a", 40);
    let before = format!("{:?}", j.entries());
    let t = timed(&h, &mut j, "/w/a", 50);
    let r = t.compare(&mut j, Err(ErrorKind::Other.into()));
    assert!(matches!(r, Err(HandleFileError::IO(_))));
    assert_eq!(format!("{:?}", j.entries()), before);
    let t = timed(&h, &mut j, "/w/a", 50);
    let keep = t.compare(&mut j, Ok(None)).unwrap().unwrap();
    let r = keep.kept(&mut j, Err(ErrorKind::Other.into()));
    assert!(matches!(r, Err(HandleFileError::IO(_))));
    let e = j.find_entry(&path("/w/a")).unwrap();
    assert_eq!(e.last_modified, 50);
    assert!(e.old_versions.is_empty());
    let task = || CopyTask { make_dir: None, from: path("/w/a"), to: path("/b/a") };
    assert!(matches!(
        task().copied(Err(ErrorKind::Other.into())),
        Err(HandleFileError::IO(_))
    ));
    assert!(task().copied(Ok(())).is_ok());
}

#[test]
fn a_modified_file_that_is_not_known_is_handled_as_new() {
    let mut j = journal(32);
    let h = handler("/w");
    for file in ["/w/a", "/v/a"] {
        let created = format!("{:?}", h.create(&j, &path(file)));
        match h.modify(&mut j, &path(file)) {
            ModifyStep::Create(p) => assert_eq!(format!("{:?}", h.create(&j, &p)), created),
            other => panic!("{other:?}"),
        }
    }
    assert!(!j.is_dirty());
}
