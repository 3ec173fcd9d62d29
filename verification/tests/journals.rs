use std::cmp::Ordering;
use std::io::ErrorKind;
use vertebrae::config::WatchPath;
use vertebrae::journal::error::JournalError;
use vertebrae::journal::{listing, Journal, JournalEntry, OldVersion, DEFAULT_MAX_DIRTY_COUNT};
use vertebrae::path::FsPath;
use vertebrae::time::{SystemTimeError, Timestamp};

fn path(s: &str) -> FsPath {
    FsPath::from_text(s)
}

fn text(p: &FsPath) -> String {
    String::from_utf8(p.as_bytes().clone()).unwrap()
}

fn watch() -> WatchPath {
    WatchPath::new(path("/w"), vec![])
}

fn journal(max: usize) -> Journal {
    Journal::with_max_dirty_count(&path("/b/.backdown.journal.json"), max, Ok(vec![])).unwrap()
}

fn entry(file: &str, last_modified: u64) -> JournalEntry {
    JournalEntry {
        file_path: path(file),
        watch_path: path("/w"),
        backup_path: path("/b/x"),
        last_modified,
        deleted: Some(9),
        old_versions: vec![OldVersion { timestamp: 3, file_path: path("/b/x.3") }],
    }
}

#[test]
fn the_backups_lie_beside_the_journal() {
    assert_eq!(text(journal(3).base_path()), "/b");
    let j = Journal::new(&path("j.json"), Ok(vec![])).unwrap();
    assert_eq!(text(j.base_path()), "");
}

#[test]
fn a_journal_needs_a_parent() {
    for s in ["", "/", "//"] {
        match Journal::new(&path(s), Ok(vec![])) {
            Err(JournalError::InvalidPath(m)) => assert_eq!(m, "Path has no parent"),
            other => panic!("{other:?}"),
        }
    }
    let failed = Err(JournalError::DuplicateEntry);
    assert!(matches!(Journal::new(&path("/"), failed), Err(JournalError::InvalidPath(_))));
}

#[test]
fn a_failure_to_read_is_passed_on() {
    let io = Err(JournalError::IO(ErrorKind::NotFound.into()));
    assert!(matches!(Journal::new(&path("/b/j"), io), Err(JournalError::IO(_))));
    let json = serde_json::from_str::<u8>("{").unwrap_err();
    let r = Journal::new(&path("/b/j"), Err(JournalError::JsonSerialization(json)));
    assert!(matches!(r, Err(JournalError::JsonSerialization(_))));
}

#[test]
fn entries_are_found_under_each_spelling() {
    let pairs = vec![(path("/w/a"), entry("/w/a", 1)), (path("/w/b"), entry("/w/b", 2))];
    let j = Journal::new(&path("/b/j"), Ok(pairs)).unwrap();
    assert!(!j.is_dirty());
    assert_eq!(j.find_entry(&path("/w//a/.")).unwrap().last_modified, 1);
    assert_eq!(j.find_entry(&path("/w/b")).unwrap().last_modified, 2);
    assert!(j.find_entry(&path("/w/c")).is_none());
    assert_eq!(j.entries().len(), 2);
    let again = Journal::new(
        &path("/b/j"),
        Ok(j.entries().iter().map(|(p, e)| (p.clone(), e.clone())).collect()),
    )
    .unwrap();
    assert_eq!(format!("{:?}", again.entries()), format!("{:?}", j.entries()));
}

#[test]
fn a_new_entry_says_where_the_backup_is() {
    let mut j = journal(2);
    let t = Timestamp::after_epoch(100, 999_999_999);
    let due = j.create_entry(&watch(), &path("/w/a"), &path("/b/a"), &t).unwrap();
    assert!(!due);
    let e = j.find_entry(&path("/w/a")).unwrap();
    assert_eq!(text(&e.file_path), "/w/a");
    assert_eq!(text(&e.watch_path), "/w");
    assert_eq!(text(&e.backup_path), "/b/a");
    assert_eq!(e.last_modified, 100);
    assert_eq!(e.deleted, None);
    assert!(e.old_versions.is_empty());
    assert!(j.create_entry(&watch(), &path("/w/b"), &path("/b/b"), &t).unwrap());
    assert_eq!(j.dirty_count(), 2);
}

#[test]
fn a_time_before_the_epoch_enters_nothing() {
    let mut j = journal(2);
    let t = Timestamp::before_epoch(1, 5);
    match j.create_entry(&watch(), &path("/w/a"), &path("/b/a"), &t) {
        Err(JournalError::SystemTime(SystemTimeError { nanos })) => {
            assert_eq!(nanos, 1_000_000_005)
        }
        other => panic!("{other:?}"),
    }
    assert!(!j.is_dirty());
    assert!(j.find_entry(&path("/w/a")).is_none());
}

#[test]
fn writing_out_counts_the_changes_once() {
    let mut j = journal(100);
    let t = Timestamp::after_epoch(1, 0);
    assert_eq!(j.flush(Ok(())).unwrap(), 0);
    for name in ["/w/a", "/w/b", "/w/c"] {
        j.create_entry(&watch(), &path(name), &path("/b/a"), &t).unwrap();
    }
    let failed = j.flush(Err(JournalError::IO(ErrorKind::Other.into())));
    assert!(matches!(failed, Err(JournalError::IO(_))));
    assert_eq!(j.dirty_count(), 3);
    assert_eq!(j.flush(Ok(())).unwrap(), 3);
    assert!(!j.is_dirty());
    assert_eq!(j.flush(Err(JournalError::DuplicateEntry)).unwrap(), 0);
    assert_eq!(j.entries().len(), 3);
}

#[test]
fn looking_up_an_entry_to_change_it_counts_as_a_change() {
    let mut j = journal(100);
    let t = Timestamp::after_epoch(1, 0);
    j.create_entry(&watch(), &path("/w/a"), &path("/b/a"), &t).unwrap();
    j.create_entry(&watch(), &path("/w/b"), &path("/b/b"), &t).unwrap();
    j.flush(Ok(())).unwrap();
    let mut guard = j.find_entry_mut(&path("/w/a/")).unwrap();
    assert_eq!(guard.deref().last_modified, 1);
    guard.deref_mut().last_modified = 5;
    assert_eq!(j.dirty_count(), 1);
    assert_eq!(j.find_entry(&path("/w/a")).unwrap().last_modified, 5);
    assert_eq!(j.find_entry(&path("/w/b")).unwrap().last_modified, 1);
    assert!(j.find_entry_mut(&path("/w/a")).is_some());
    assert_eq!(j.dirty_count(), 2);
    assert!(j.find_entry_mut(&path("/w/c")).is_none());
    assert_eq!(j.dirty_count(), 2);
}

#[test]
fn a_journal_asks_to_be_written_out_in_time() {
    let mut j = Journal::new(&path("/b/j"), Ok(vec![])).unwrap();
    let t = Timestamp::after_epoch(1, 0);
    for i in 1..=DEFAULT_MAX_DIRTY_COUNT {
        let p = path(&format!("/w/{i}"));
        let due = j.create_entry(&watch(), &p, &path("/b/a"), &t).unwrap();
        assert_eq!(due, i == 32);
    }
}

#[test]
fn old_versions_are_ordered_by_time_alone() {
    let v = |timestamp, p| OldVersion { timestamp, file_path: path(p) };
    assert_eq!(v(1, "/b").cmp(&v(2, "/a")), Ordering::Less);
    assert_eq!(v(2, "/b").cmp(&v(2, "/a")), Ordering::Equal);
    assert_eq!(v(3, "/b").partial_cmp(&v(2, "/a")), Some(Ordering::Greater));
    assert!(v(1, "/b") < v(2, "/a"));
    assert!(v(2, "/a") == v(2, "/a/"));
    assert!(v(2, "/a") != v(2, "/b"));
    assert!(v(1, "/a") != v(2, "/a"));
}

#[test]
fn a_listing_starts_empty() {
    assert_eq!(listing::Journal::new().len(), 0);
}

#[test]
fn a_listed_file_has_the_time_of_its_entry() {
    let t = Timestamp::after_epoch(77, 1);
    let e = listing::JournalEntry::entered_at(path("/w/a"), &t).unwrap();
    assert_eq!(text(e.path()), "/w/a");
    assert_eq!(e.last_modified(), 77);
    let before = Timestamp::before_epoch(0, 1);
    assert!(listing::JournalEntry::entered_at(path("/w/a"), &before).is_none());
    let now = listing::JournalEntry::new(path("/w/b")).unwrap();
    assert_eq!(text(now.path()), "/w/b");
    assert!(now.last_modified() > 1_600_000_000);
}

#[test]
fn a_journal_is_the_same_when_it_is_read_again() {
    let mut j = journal(100);
    let t = Timestamp::after_epoch(4, 0);
    for name in ["/w/a", "/w/b", "/w/c"] {
        j.create_entry(&watch(), &path(name), &path(&format!("/b{name}")), &t).unwrap();
    }
    let read = j
        .entries()
        .iter()
        .rev()
        .map(|(p, e)| (path(&format!("{}/.", text(p))), e.clone()))
        .collect();
    let again = Journal::new(&path("/b/j"), Ok(read)).unwrap();
    for name in ["/w/a", "/w/b", "/w/c", "/w/d"] {
        let (one, other) = (j.find_entry(&path(name)), again.find_entry(&path(name)));
        assert_eq!(format!("{one:?}"), format!("{other:?}"));
    }
    assert_eq!(again.entries().len(), 3);
}

#[test]
fn an_entry_is_written_out_under_the_first_spelling() {
    let mut j = journal(100);
    let t = Timestamp::after_epoch(4, 0);
    j.create_entry(&watch(), &path("/w//a"), &path("/b/a"), &t).unwrap();
    j.create_entry(&watch(), &path("/w/a"), &path("/b/b"), &t).unwrap();
    assert_eq!(j.entries().len(), 1);
    assert_eq!(text(&j.entries()[0].0), "/w//a");
    assert_eq!(text(&j.entries()[0].1.file_path), "/w/a");
    let pairs = vec![(path("x/"), entry("x/", 1)), (path("x"), entry("x", 2))];
    let j = Journal::new(&path("/b/j"), Ok(pairs)).unwrap();
    assert_eq!(text(&j.entries()[0].0), "x/");
    assert_eq!(j.entries()[0].1.last_modified, 2);
}

fn is_equivalence<T: Eq>(a: &T, b: &T) -> bool {
    a == b && b == a
}

#[test]
fn old_versions_can_be_compared() {
    let v = |p| OldVersion { timestamp: 1, file_path: path(p) };
    assert!(is_equivalence(&v("/a"), &v("//a")));
    assert!(!is_equivalence(&v("/a"), &v("/b")));
}
