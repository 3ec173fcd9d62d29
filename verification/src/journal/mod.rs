//! The journal: what is known of each file that has been backed up.
use vstd::prelude::*;

use crate::config::WatchPath;
use crate::path;
use crate::path::{FsPath, Part};
use crate::pathmap;
use crate::pathmap::PathMap;
use crate::time;
use crate::time::Timestamp;
use std::cmp::Ordering;

use error::JournalError;

pub mod error;
pub mod listing;

verus! {

/// How many changes a journal takes before it asks to be written out, unless told otherwise.
pub const DEFAULT_MAX_DIRTY_COUNT: usize = 32;

/// An earlier state of a file that has been kept.
#[derive(Debug)]
pub struct OldVersion {
    /// When the kept state was last modified, in seconds from the Unix epoch.
    pub timestamp: u64,
    /// The file that holds the kept state.
    pub file_path: FsPath,
}

/// The contents of an `OldVersion`.
#[verifier::ext_equal]
pub struct OldVersionView {
    pub timestamp: u64,
    pub file_path: Seq<u8>,
}

impl View for OldVersion {
    type V = OldVersionView;

    open spec fn view(&self) -> OldVersionView {
        OldVersionView { timestamp: self.timestamp, file_path: self.file_path@ }
    }
}

impl Clone for OldVersion {
    fn clone(&self) -> (r: Self)
        ensures
            r@ == self@,
    {
        OldVersion { timestamp: self.timestamp, file_path: self.file_path.clone() }
    }
}

impl PartialEq for OldVersion {
    fn eq(&self, other: &Self) -> (r: bool) {
        self.timestamp == other.timestamp && self.file_path.same_path(&other.file_path)
    }
}

impl Eq for OldVersion {

}

impl vstd::std_specs::cmp::PartialEqSpecImpl for OldVersion {
    open spec fn obeys_eq_spec() -> bool {
        true
    }

    open spec fn eq_spec(&self, other: &Self) -> bool {
        self.timestamp == other.timestamp && self.file_path.key() == other.file_path.key()
    }
}

/// How two numbers are ordered.
pub open spec fn order_of(a: u64, b: u64) -> Ordering {
    if a < b {
        Ordering::Less
    } else if a == b {
        Ordering::Equal
    } else {
        Ordering::Greater
    }
}

impl PartialOrd for OldVersion {
    fn partial_cmp(&self, other: &Self) -> (r: Option<Ordering>) {
        Some(self.cmp(other))
    }
}

impl vstd::std_specs::cmp::PartialOrdSpecImpl for OldVersion {
    open spec fn obeys_partial_cmp_spec() -> bool {
        true
    }

    open spec fn partial_cmp_spec(&self, other: &Self) -> Option<Ordering> {
        Some(order_of(self.timestamp, other.timestamp))
    }
}

impl OldVersion {
    /// Old versions are ordered by their time alone.
    pub fn cmp(&self, other: &OldVersion) -> (r: Ordering)
        ensures
            r == order_of(self.timestamp, other.timestamp),
    {
        if self.timestamp < other.timestamp {
            Ordering::Less
        } else if self.timestamp == other.timestamp {
            Ordering::Equal
        } else {
            Ordering::Greater
        }
    }
}

/// What is known of a file that has been backed up.
#[derive(Debug)]
pub struct JournalEntry {
    /// The file.
    pub file_path: FsPath,
    /// The watched directory that it lies under.
    pub watch_path: FsPath,
    /// Its backup.
    pub backup_path: FsPath,
    /// When the state that was backed up was last modified, in seconds from the Unix epoch.
    pub last_modified: u64,
    /// When the file was removed, in seconds from the Unix epoch, if it was.
    pub deleted: Option<u64>,
    /// The earlier states that have been kept, in the order in which they were.
    pub old_versions: Vec<OldVersion>,
}

/// The contents of a `JournalEntry`.
#[verifier::ext_equal]
pub struct EntryView {
    pub file_path: Seq<u8>,
    pub watch_path: Seq<u8>,
    pub backup_path: Seq<u8>,
    pub last_modified: u64,
    pub deleted: Option<u64>,
    pub old_versions: Seq<OldVersionView>,
}

impl View for JournalEntry {
    type V = EntryView;

    open spec fn view(&self) -> EntryView {
        EntryView {
            file_path: self.file_path@,
            watch_path: self.watch_path@,
            backup_path: self.backup_path@,
            last_modified: self.last_modified,
            deleted: self.deleted,
            old_versions: self.old_versions@.map_values(|v: OldVersion| v@),
        }
    }
}

impl Clone for JournalEntry {
    fn clone(&self) -> (r: Self)
        ensures
            r@ == self@,
    {
        let mut old_versions: Vec<OldVersion> = Vec::new();
        let mut i: usize = 0;
        while i < self.old_versions.len()
            invariant
                i <= self.old_versions@.len(),
                old_versions@.len() == i,
                forall|j: int| 0 <= j < i ==> (#[trigger] old_versions@[j])@ == self.old_versions@[j]@,
            decreases self.old_versions@.len() - i,
        {
            old_versions.push(self.old_versions[i].clone());
            i = i + 1;
        }
        assert(old_versions@.map_values(|v: OldVersion| v@) =~= self.old_versions@.map_values(
            |v: OldVersion| v@,
        ));
        JournalEntry {
            file_path: self.file_path.clone(),
            watch_path: self.watch_path.clone(),
            backup_path: self.backup_path.clone(),
            last_modified: self.last_modified,
            deleted: self.deleted,
            old_versions,
        }
    }
}

/// The contents of the entries of a map.
pub open spec fn entry_views(m: Map<Seq<Part>, JournalEntry>) -> Map<Seq<Part>, EntryView> {
    m.map_values(|e: JournalEntry| e@)
}

/// The entries of the files that have been backed up, and how many changes were made to them
/// since they were last written out.
#[derive(Debug)]
pub struct Journal {
    entries: PathMap<JournalEntry>,
    dirty_count: usize,
    max_dirty_count: usize,
    base_path: FsPath,
}

/// The contents of a `Journal`.
#[verifier::ext_equal]
pub struct JournalView {
    pub entries: Map<Seq<Part>, EntryView>,
    /// How the paths that the entries were entered under are spelled.
    pub spellings: Map<Seq<Part>, Seq<u8>>,
    pub dirty_count: nat,
    pub max_dirty_count: nat,
    pub base_path: Seq<u8>,
}

impl View for Journal {
    type V = JournalView;

    closed spec fn view(&self) -> JournalView {
        JournalView {
            entries: entry_views(self.entries@),
            spellings: self.entries.spellings(),
            dirty_count: self.dirty_count as nat,
            max_dirty_count: self.max_dirty_count as nat,
            base_path: self.base_path@,
        }
    }
}

impl JournalView {
    /// The journal after one more change, which gave `path` the entry `entry`. A path that is
    /// known already stays spelled as it is.
    pub open spec fn changed(self, path: Seq<u8>, entry: EntryView) -> JournalView {
        JournalView {
            entries: self.entries.insert(path::parts(path), entry),
            spellings: if self.knows(path) {
                self.spellings
            } else {
                self.spellings.insert(path::parts(path), path)
            },
            dirty_count: self.dirty_count + 1,
            ..self
        }
    }

    /// The journal with the entry `entry` for `path`, by a change that is counted already.
    pub open spec fn with_entry(self, path: Seq<u8>, entry: EntryView) -> JournalView {
        JournalView { entries: self.entries.insert(path::parts(path), entry), ..self }
    }

    /// The journal once it has been written out.
    pub open spec fn clean(self) -> JournalView {
        JournalView { dirty_count: 0, ..self }
    }

    /// Whether `path` has an entry.
    pub open spec fn knows(self, path: Seq<u8>) -> bool {
        self.entries.contains_key(path::parts(path))
    }

    /// The entry of `path`.
    pub open spec fn entry(self, path: Seq<u8>) -> EntryView {
        self.entries[path::parts(path)]
    }
}

/// A change of the entry of `path` is found again, leaves the entries of other paths as they
/// are, and is counted once.
pub proof fn lemma_changed(j: JournalView, path: Seq<u8>, entry: EntryView, other: Seq<u8>)
    ensures
        j.changed(path, entry).knows(path),
        j.changed(path, entry).entry(path) == entry,
        path::parts(other) == path::parts(path) ==> j.changed(path, entry).entry(other) == entry,
        path::parts(other) != path::parts(path) ==> {
            &&& j.changed(path, entry).knows(other) == j.knows(other)
            &&& j.knows(other) ==> j.changed(path, entry).entry(other) == j.entry(other)
        },
        !j.knows(path) ==> j.changed(path, entry).spellings[path::parts(path)] == path,
        j.changed(path, entry).dirty_count == j.dirty_count + 1,
        j.changed(path, entry).base_path == j.base_path,
{
}

/// A path is known where there is an entry for its components, in whatever spelling.
pub proof fn lemma_known(j: JournalView, path: Seq<u8>)
    ensures
        j.knows(path) == j.entries.contains_key(path::parts(path)),
        j.entry(path) == j.entries[path::parts(path)],
{
}

/// A change of the entry of `path` concerns the entries with its components alone: what is found
/// there is the new entry, what is found elsewhere is what was found before. A path that comes
/// in keeps its spelling, and so do those that are there. A further change that is counted
/// already differs in nothing but the count.
pub proof fn lemma_changed_entries(
    j: JournalView,
    path: Seq<u8>,
    entry: EntryView,
    key: Seq<Part>,
)
    ensures
        ({
            let after = j.changed(path, entry);
            let further = j.with_entry(path, entry);
            &&& after.dirty_count == j.dirty_count + 1
            &&& after.max_dirty_count == j.max_dirty_count
            &&& after.base_path == j.base_path
            &&& further.dirty_count == j.dirty_count
            &&& further.max_dirty_count == j.max_dirty_count
            &&& further.base_path == j.base_path
            &&& further.entries == after.entries
            &&& further.spellings == j.spellings
            &&& if key == path::parts(path) {
                &&& after.entries.contains_key(key)
                &&& after.entries[key] == entry
                &&& !j.entries.contains_key(key) ==> after.spellings[key] == path
                &&& j.entries.contains_key(key) ==> after.spellings == j.spellings
            } else {
                &&& after.entries.contains_key(key) == j.entries.contains_key(key)
                &&& j.entries.contains_key(key) ==> after.entries[key] == j.entries[key]
                &&& after.spellings.contains_key(key) == j.spellings.contains_key(key)
                &&& j.spellings.contains_key(key) ==> after.spellings[key] == j.spellings[key]
            }
        }),
{
}

/// Writing the journal out changes nothing but the count of changes.
pub proof fn lemma_clean_keeps(j: JournalView)
    ensures
        j.clean().entries == j.entries,
        j.clean().spellings == j.spellings,
        j.clean().dirty_count == 0,
        j.clean().max_dirty_count == j.max_dirty_count,
        j.clean().base_path == j.base_path,
{
}

/// An entry says all that is known of its file.
pub proof fn lemma_entry_view(entry: JournalEntry)
    ensures
        entry@.file_path == entry.file_path@,
        entry@.watch_path == entry.watch_path@,
        entry@.backup_path == entry.backup_path@,
        entry@.last_modified == entry.last_modified,
        entry@.deleted == entry.deleted,
        entry@.old_versions.len() == entry.old_versions@.len(),
        forall|i: int|
            0 <= i < entry.old_versions@.len() ==> (#[trigger] entry@.old_versions[i]).timestamp
                == entry.old_versions@[i].timestamp && entry@.old_versions[i].file_path
                == entry.old_versions@[i].file_path@,
{
}

/// A file that is entered for the first time is entered with its paths and its time, as there,
/// and without a past.
pub proof fn lemma_first_entry(
    file_path: Seq<u8>,
    watch_path: Seq<u8>,
    backup_path: Seq<u8>,
    last_modified: u64,
)
    ensures
        ({
            let entry = first_entry(file_path, watch_path, backup_path, last_modified);
            &&& entry.file_path == file_path
            &&& entry.watch_path == watch_path
            &&& entry.backup_path == backup_path
            &&& entry.last_modified == last_modified
            &&& entry.deleted is None
            &&& entry.old_versions.len() == 0
        }),
{
}

/// A journal that is opened knows exactly the paths that were read, each with the last entry that
/// was read for it and in its first spelling, and has nothing to be written out.
pub proof fn lemma_opened(
    pairs: Seq<(FsPath, JournalEntry)>,
    max_dirty_count: nat,
    base_path: Seq<u8>,
    key: Seq<Part>,
    i: int,
)
    ensures
        ({
            let j = opened(pairs, max_dirty_count, base_path);
            &&& j.dirty_count == 0
            &&& j.max_dirty_count == max_dirty_count
            &&& j.base_path == base_path
            &&& j.entries.contains_key(key) <==> exists|n: int|
                0 <= n < pairs.len() && (#[trigger] pairs[n]).0.key() == key
            &&& 0 <= i < pairs.len() && (forall|n: int|
                i < n < pairs.len() ==> (#[trigger] pairs[n]).0.key() != pairs[i].0.key())
                ==> j.entries[pairs[i].0.key()] == pairs[i].1@
            &&& 0 <= i < pairs.len() && (forall|n: int|
                0 <= n < i ==> (#[trigger] pairs[n]).0.key() != pairs[i].0.key())
                ==> j.spellings[pairs[i].0.key()] == pairs[i].0@
        }),
{
    pathmap::lemma_collected_from(pairs, key);
    if 0 <= i < pairs.len() && (forall|n: int|
        i < n < pairs.len() ==> (#[trigger] pairs[n]).0.key() != pairs[i].0.key()) {
        pathmap::lemma_last_counts(pairs, i);
    }
    if 0 <= i < pairs.len() && (forall|n: int|
        0 <= n < i ==> (#[trigger] pairs[n]).0.key() != pairs[i].0.key()) {
        pathmap::lemma_first_spelling_counts(pairs, i);
    }
}

/// Of two old versions the one with the earlier time comes first.
pub proof fn lemma_order_of(a: u64, b: u64)
    ensures
        order_of(a, b) is Less <==> a < b,
        order_of(a, b) is Equal <==> a == b,
        order_of(a, b) is Greater <==> a > b,
{
}

/// A change that leaves the entry of a file as it is counts, and does nothing else.
pub proof fn lemma_unchanged(j: JournalView, path: Seq<u8>)
    requires
        j.knows(path),
    ensures
        j.changed(path, j.entry(path)) == (JournalView { dirty_count: j.dirty_count + 1, ..j }),
{
    assert(j.changed(path, j.entry(path)).entries =~= j.entries);
}

/// Writing the journal out changes no entry, and leaves nothing to be written out.
pub proof fn lemma_clean(j: JournalView)
    ensures
        j.clean().entries == j.entries,
        j.clean().dirty_count == 0,
        j.clean().clean() == j.clean(),
{
}

/// Whether `pairs` holds an equal entry under the path of `pair`.
pub open spec fn has_counterpart(
    pair: (FsPath, JournalEntry),
    pairs: Seq<(FsPath, JournalEntry)>,
) -> bool {
    exists|j: int|
        0 <= j < pairs.len() && (#[trigger] pairs[j]).0.key() == pair.0.key() && pairs[j].1@
            == pair.1@
}

/// Whether each pair of `from` has a counterpart in `to`.
pub open spec fn carried_over(
    from: Seq<(FsPath, JournalEntry)>,
    to: Seq<(FsPath, JournalEntry)>,
) -> bool {
    forall|i: int| 0 <= i < from.len() ==> #[trigger] has_counterpart(from[i], to)
}

/// The journal among the backups in `base_path` that starts with `pairs`.
pub open spec fn opened(
    pairs: Seq<(FsPath, JournalEntry)>,
    max_dirty_count: nat,
    base_path: Seq<u8>,
) -> JournalView {
    JournalView {
        entries: entry_views(pathmap::collected(pairs)),
        spellings: pathmap::spelled(pairs),
        dirty_count: 0,
        max_dirty_count,
        base_path,
    }
}

/// What was written out is what is read again: where the pairs of the journal `j` are carried
/// over, in whatever order and spelling, the journal that is opened with them finds for each
/// path the entry that `j` has, and has nothing to be written out.
pub proof fn lemma_reopened(
    j: JournalView,
    written: Seq<(FsPath, JournalEntry)>,
    read: Seq<(FsPath, JournalEntry)>,
    max_dirty_count: nat,
    path: Seq<u8>,
)
    requires
        j.entries == entry_views(pathmap::collected(written)),
        pathmap::distinct(written),
        carried_over(written, read),
        carried_over(read, written),
    ensures
        ({
            let again = opened(read, max_dirty_count, j.base_path);
            &&& again.entries == j.entries
            &&& again.knows(path) == j.knows(path)
            &&& j.knows(path) ==> again.entry(path) == j.entry(path)
            &&& again.dirty_count == 0
            &&& again.base_path == j.base_path
        }),
{
    pathmap::lemma_collected(written);
    let a = entry_views(pathmap::collected(written));
    let b = entry_views(pathmap::collected(read));
    assert forall|k: Seq<Part>| #[trigger] b.dom().contains(k) implies a.dom().contains(k) && b[k]
        == a[k] by {
        assert(pathmap::collected(read).contains_key(k));
        pathmap::lemma_collected_from(read, k);
        let n = choose|n: int|
            0 <= n < read.len() && (#[trigger] read[n]).0.key() == k && read[n].1
                == pathmap::collected(read)[k];
        assert(has_counterpart(read[n], written));
    }
    assert forall|k: Seq<Part>| #[trigger] a.dom().contains(k) implies b.dom().contains(k) by {
        assert(pathmap::collected(written).contains_key(k));
        let n = choose|n: int| 0 <= n < written.len() && (#[trigger] written[n]).0.key() == k;
        assert(has_counterpart(written[n], read));
        pathmap::lemma_collected_from(read, k);
    }
    assert(a.dom() =~= b.dom());
    assert(a =~= b);
}

/// The entry of a file that is backed up for the first time.
pub open spec fn first_entry(
    file_path: Seq<u8>,
    watch_path: Seq<u8>,
    backup_path: Seq<u8>,
    last_modified: u64,
) -> EntryView {
    EntryView {
        file_path,
        watch_path,
        backup_path,
        last_modified,
        deleted: None,
        old_versions: Seq::empty(),
    }
}

/// The entry of a file that the journal was asked to change. The change has been counted.
#[derive(Debug)]
pub struct EntryGuard<'a> {
    /// The entry.
    pub entry: &'a mut JournalEntry,
}

impl<'a> EntryGuard<'a> {
    /// The entry as it is.
    pub fn deref(&self) -> (r: &JournalEntry)
        ensures
            *r == *old(self.entry),
    {
        &*self.entry
    }

    /// The entry, to be changed.
    pub fn deref_mut(&mut self) -> (r: &mut JournalEntry)
        ensures
            *r == *old(self).entry,
            *final(self).entry == *final(r),
            *final(final(self).entry) == *final(old(self).entry),
    {
        &mut *self.entry
    }
}

impl Journal {
    /// No file has two entries.
    pub closed spec fn wf(&self) -> bool {
        self.entries.wf()
    }

    /// The entries, each with the path that it was entered under, in some order.
    pub closed spec fn pairs(&self) -> Seq<(FsPath, JournalEntry)> {
        self.entries.pairs()
    }

    /// The journal kept at `path`, whose parent holds the backups, with the entries that were
    /// read from there. It asks to be written
    /// out after `DEFAULT_MAX_DIRTY_COUNT` changes.
    pub fn new(
        path: &FsPath,
        entries: Result<Vec<(FsPath, JournalEntry)>, JournalError>,
    ) -> (r: Result<Journal, JournalError>)
        ensures
            match path::parent_of(path@) {
                Some(dir) => match entries {
                    Ok(pairs) => r matches Ok(j) && j.wf() && j@ == opened(
                        pairs@,
                        DEFAULT_MAX_DIRTY_COUNT as nat,
                        dir,
                    ),
                    Err(e) => r == Err::<Journal, JournalError>(e),
                },
                None => r matches Err(JournalError::InvalidPath(m)) && m@ == "Path has no parent"@,
            },
    {
        Journal::with_max_dirty_count(path, DEFAULT_MAX_DIRTY_COUNT, entries)
    }

    /// The journal kept at `path`, whose parent holds the backups, with the entries that were
    /// read from there. It asks to be written
    /// out after `max_dirty_count` changes.
    pub fn with_max_dirty_count(
        path: &FsPath,
        max_dirty_count: usize,
        entries: Result<Vec<(FsPath, JournalEntry)>, JournalError>,
    ) -> (r: Result<Journal, JournalError>)
        ensures
            match path::parent_of(path@) {
                Some(dir) => match entries {
                    Ok(pairs) => r matches Ok(j) && j.wf() && j@ == opened(
                        pairs@,
                        max_dirty_count as nat,
                        dir,
                    ),
                    Err(e) => r == Err::<Journal, JournalError>(e),
                },
                None => r matches Err(JournalError::InvalidPath(m)) && m@ == "Path has no parent"@,
            },
    {
        let mut base_path: FsPath = path.clone();
        if !base_path.pop() {
            return Err(JournalError::InvalidPath("Path has no parent".to_owned()));
        }
        match entries {
            Ok(pairs) => Ok(
                Journal {
                    entries: PathMap::from_pairs(pairs),
                    dirty_count: 0,
                    max_dirty_count,
                    base_path,
                },
            ),
            Err(e) => Err(e),
        }
    }

    /// Enters the file `path` below `watch_path`, last modified at `modified`, with its backup
    /// `backup_path`, in the place of an entry that it may have. Says whether the journal asks
    /// to be written out.
    pub fn create_entry(
        &mut self,
        watch_path: &WatchPath,
        path: &FsPath,
        backup_path: &FsPath,
        modified: &Timestamp,
    ) -> (r: Result<bool, JournalError>)
        requires
            old(self).wf(),
            old(self)@.dirty_count < usize::MAX,
        ensures
            final(self).wf(),
            match time::unix_secs_at(modified@) {
                Ok(secs) => {
                    &&& final(self)@ == old(self)@.changed(
                        path@,
                        first_entry(path@, watch_path@.path, backup_path@, secs),
                    )
                    &&& r == Ok::<bool, JournalError>(
                        final(self)@.dirty_count >= final(self)@.max_dirty_count,
                    )
                },
                Err(e) => *final(self) == *old(self) && r == Err::<bool, JournalError>(
                    JournalError::SystemTime(e),
                ),
            },
    {
        let last_modified: u64 = match modified.unix_secs() {
            Ok(secs) => secs,
            Err(e) => return Err(JournalError::SystemTime(e)),
        };
        let ghost before = self@;
        let entry: JournalEntry = JournalEntry {
            file_path: path.clone(),
            watch_path: watch_path.path().clone(),
            backup_path: backup_path.clone(),
            last_modified,
            deleted: None,
            old_versions: Vec::new(),
        };
        assert(entry@ =~= first_entry(path@, watch_path@.path, backup_path@, last_modified));
        let replaced: Option<JournalEntry> = self.entries.insert(path.clone(), entry);
        self.dirty_count = self.dirty_count + 1;
        assert(self@.entries =~= before.entries.insert(path.key(), entry@));
        Ok(self.dirty_count >= self.max_dirty_count)
    }

    /// Takes note of how the writing out of the journal ended, and gives the number of changes
    /// that it saved. Where there was nothing to save, nothing needs to be written.
    pub fn flush(&mut self, written: Result<(), JournalError>) -> (r: Result<usize, JournalError>)
        requires
            old(self).wf(),
        ensures
            final(self).wf(),
            if old(self)@.dirty_count == 0 {
                r == Ok::<usize, JournalError>(0) && *final(self) == *old(self)
            } else {
                match written {
                    Ok(_) => r matches Ok(n) && n == old(self)@.dirty_count && final(self)@ == old(
                        self,
                    )@.clean(),
                    Err(e) => r == Err::<usize, JournalError>(e) && *final(self) == *old(self),
                }
            },
            final(self).pairs() == old(self).pairs(),
    {
        if self.dirty_count > 0 {
            match written {
                Ok(_) => {
                    let n: usize = self.dirty_count;
                    self.dirty_count = 0;
                    Ok(n)
                },
                Err(e) => Err(e),
            }
        } else {
            Ok(0)
        }
    }

    /// Whether there are changes that have not been written out.
    pub fn is_dirty(&self) -> (r: bool)
        ensures
            r == (self@.dirty_count != 0),
    {
        self.dirty_count != 0
    }

    /// How many changes have not been written out.
    pub fn dirty_count(&self) -> (r: usize)
        ensures
            r == self@.dirty_count,
    {
        self.dirty_count
    }

    /// The directory that holds the journal and the backups.
    pub fn base_path(&self) -> (r: &FsPath)
        ensures
            r@ == self@.base_path,
    {
        &self.base_path
    }

    /// The entry of `path`.
    pub fn find_entry(&self, path: &FsPath) -> (r: Option<&JournalEntry>)
        requires
            self.wf(),
        ensures
            r is Some <==> self@.knows(path@),
            r matches Some(e) ==> e@ == self@.entry(path@),
    {
        self.entries.get(path)
    }

    /// The entry of `path`, to be changed. That counts as a change of the journal, whatever
    /// then happens to the entry.
    pub fn find_entry_mut(&mut self, path: &FsPath) -> (r: Option<EntryGuard<'_>>)
        requires
            old(self).wf(),
            old(self)@.knows(path@) ==> old(self)@.dirty_count < usize::MAX,
        ensures
            r is Some <==> old(self)@.knows(path@),
            r matches Some(g) ==> {
                &&& g.entry@ == old(self)@.entry(path@)
                &&& final(self).wf()
                &&& final(self)@ == old(self)@.changed(path@, final(g.entry)@)
            },
            r is None ==> *final(self) == *old(self),
    {
        let ghost before = self@;
        if self.entries.contains_key(path) {
            self.dirty_count = self.dirty_count + 1;
        }
        match self.entries.get_mut(path) {
            Some(entry) => {
                assert(entry_views(old(self).entries@.insert(path.key(), *final(entry)))
                    =~= before.entries.insert(path.key(), final(entry)@));
                Some(EntryGuard { entry })
            },
            None => None,
        }
    }

    /// The entries, each with the path that it was entered under.
    pub fn entries(&self) -> (r: &Vec<(FsPath, JournalEntry)>)
        requires
            self.wf(),
        ensures
            r@ == self.pairs(),
            self@.entries == entry_views(pathmap::collected(r@)),
            pathmap::distinct(r@),
            forall|i: int|
                0 <= i < r@.len() ==> (#[trigger] r@[i]).0@ == self@.spellings[r@[i].0.key()],
    {
        proof {
            self.entries.lemma_pairs();
            pathmap::lemma_spelled(self.entries.pairs());
        }
        self.entries.as_pairs()
    }

    /// The entry of `path`, to be changed further by a change that is counted already.
    pub(crate) fn counted_entry_mut(&mut self, path: &FsPath) -> (r: Option<&mut JournalEntry>)
        requires
            old(self).wf(),
        ensures
            r is Some <==> old(self)@.knows(path@),
            r matches Some(e) ==> {
                &&& e@ == old(self)@.entry(path@)
                &&& final(self).wf()
                &&& final(self)@ == old(self)@.with_entry(path@, final(e)@)
            },
            r is None ==> *final(self) == *old(self),
    {
        let ghost before = self@;
        match self.entries.get_mut(path) {
            Some(entry) => {
                assert(entry_views(old(self).entries@.insert(path.key(), *final(entry)))
                    =~= before.entries.insert(path.key(), final(entry)@));
                Some(entry)
            },
            None => None,
        }
    }
}

/// Two old versions are equal where they have the same time and the same path.
pub proof fn lemma_same_version(a: OldVersion, b: OldVersion)
    ensures
        vstd::std_specs::cmp::PartialEqSpec::eq_spec(&a, &b) <==> a.timestamp == b.timestamp
            && path::parts(a.file_path@) == path::parts(b.file_path@),
{
}

} // verus!
