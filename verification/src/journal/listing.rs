//! A bare listing: files, and when they were entered.
use vstd::prelude::*;

use crate::path::FsPath;
use crate::time;
use crate::time::Timestamp;

verus! {

/// A file, and when it was entered.
#[derive(Debug)]
pub struct JournalEntry {
    path: FsPath,
    last_modified: u64,
}

/// The contents of a `JournalEntry`.
#[verifier::ext_equal]
pub struct ListedView {
    pub path: Seq<u8>,
    pub last_modified: u64,
}

impl View for JournalEntry {
    type V = ListedView;

    closed spec fn view(&self) -> ListedView {
        ListedView { path: self.path@, last_modified: self.last_modified }
    }
}

impl JournalEntry {
    /// The file `path`, entered now by the system clock, unless the clock shows a time before
    /// the Unix epoch.
    pub fn new(path: FsPath) -> (r: Option<JournalEntry>)
        ensures
            exists|nanos: int|
                time::is_moment(nanos) && match #[trigger] time::unix_secs_at(nanos) {
                Ok(secs) => r matches Some(entry) && entry@ == (ListedView {
                    path: path@,
                    last_modified: secs,
                }),
                Err(_) => r is None,
            },
    {
        let now: Timestamp = Timestamp::now();
        JournalEntry::entered_at(path, &now)
    }

    /// The file `path`, entered at `now`, unless that lies before the Unix epoch.
    pub fn entered_at(path: FsPath, now: &Timestamp) -> (r: Option<JournalEntry>)
        ensures
            match time::unix_secs_at(now@) {
                Ok(secs) => r matches Some(entry) && entry@ == (ListedView {
                    path: path@,
                    last_modified: secs,
                }),
                Err(_) => r is None,
            },
    {
        match now.unix_secs() {
            Ok(last_modified) => Some(JournalEntry { path, last_modified }),
            Err(_) => None,
        }
    }

    /// The file.
    pub fn path(&self) -> (r: &FsPath)
        ensures
            r@ == self@.path,
    {
        &self.path
    }

    /// When the file was entered, in seconds from the Unix epoch.
    pub fn last_modified(&self) -> (r: u64)
        ensures
            r == self@.last_modified,
    {
        self.last_modified
    }
}

/// A listing of files.
#[derive(Debug)]
pub struct Journal {
    entries: Vec<JournalEntry>,
}

impl View for Journal {
    type V = Seq<ListedView>;

    closed spec fn view(&self) -> Seq<ListedView> {
        self.entries@.map_values(|e: JournalEntry| e@)
    }
}

impl Journal {
    /// An empty listing.
    pub fn new() -> (r: Journal)
        ensures
            r@ == Seq::<ListedView>::empty(),
    {
        let r: Journal = Journal { entries: Vec::new() };
        assert(r@ =~= Seq::<ListedView>::empty());
        r
    }

    /// How many files are listed.
    pub fn len(&self) -> (r: usize)
        ensures
            r == self@.len(),
    {
        self.entries.len()
    }
}

} // verus!
