//! Backups of single files: where a backup goes, and what the journal says of it.
//!
//! Creating, modifying and removing a file are carried out step by step. Each step says what
//! the file system has to be asked or told next, and the answer leads on to the next step.
use vstd::prelude::*;

use crate::config;
use crate::config::{Config, ConfigView, WatchPath, WatchPathView};
use crate::journal;
use crate::journal::error::JournalError;
use crate::journal::{EntryView, Journal, OldVersion, OldVersionView};
use crate::path;
use crate::path::{FsPath, Part, SLASH};
use crate::text;
use crate::time;
use crate::time::{SystemTimeError, Timestamp};

verus! {

/// What can go wrong with the backup of a file.
#[derive(Debug)]
pub enum HandleFileError {
    /// The file system failed.
    IO(std::io::Error),
    /// The file lies under no watched directory.
    MissingWatchPath,
    /// The journal failed.
    JournalError(JournalError),
    /// The backup would have no file name.
    InvalidFilePath,
    /// A time lies before the Unix epoch.
    SystemTime(SystemTimeError),
}

/// A copy to be made.
#[derive(Debug)]
pub struct CopyTask {
    /// The directory to be made first, with those that lead to it.
    pub make_dir: Option<FsPath>,
    /// The file to be copied.
    pub from: FsPath,
    /// Where the copy goes.
    pub to: FsPath,
}

/// The contents of a `CopyTask`.
#[verifier::ext_equal]
pub struct CopyView {
    pub make_dir: Option<Seq<u8>>,
    pub from: Seq<u8>,
    pub to: Seq<u8>,
}

impl View for CopyTask {
    type V = CopyView;

    open spec fn view(&self) -> CopyView {
        CopyView {
            make_dir: match self.make_dir {
                Some(dir) => Some(dir@),
                None => None,
            },
            from: self.from@,
            to: self.to@,
        }
    }
}

impl CopyTask {
    /// Takes note of how the copying ended, the making of the directory with it.
    pub fn copied(self, made: Result<(), std::io::Error>) -> (r: Result<(), HandleFileError>)
        ensures
            r == match made {
                Ok(_) => Ok::<(), HandleFileError>(()),
                Err(e) => Err(HandleFileError::IO(e)),
            },
    {
        match made {
            Ok(_) => Ok(()),
            Err(e) => Err(HandleFileError::IO(e)),
        }
    }
}

/// The copy of `from` to `to`, whose directory is made first.
pub open spec fn copy_with_dir(from: Seq<u8>, to: Seq<u8>) -> CopyView {
    CopyView { make_dir: path::parent_of(to), from, to }
}

/// The search for a path that a new backup can take.
#[derive(Debug)]
pub struct BackupSearch {
    file_path: FsPath,
    watch_path: WatchPath,
    name: Vec<u8>,
    tried: u32,
    candidate: FsPath,
}

/// The contents of a `BackupSearch`.
#[verifier::ext_equal]
pub struct SearchView {
    /// The file to be backed up.
    pub file_path: Seq<u8>,
    /// The watched directory that it lies under.
    pub watch_path: Seq<u8>,
    /// The text that the names of further candidates start with.
    pub name: Seq<u8>,
    /// How many candidates were found to be taken.
    pub tried: nat,
    /// The path that may be free.
    pub candidate: Seq<u8>,
}

impl View for BackupSearch {
    type V = SearchView;

    closed spec fn view(&self) -> SearchView {
        SearchView {
            file_path: self.file_path@,
            watch_path: self.watch_path@.path,
            name: self.name@,
            tried: self.tried as nat,
            candidate: self.candidate@,
        }
    }
}

/// The candidate of a search after `n` candidates were found to be taken.
pub open spec fn candidate_at(first: Seq<u8>, name: Seq<u8>, n: nat) -> Seq<u8>
    decreases n,
{
    if n == 0 {
        first
    } else {
        path::renamed(
            candidate_at(first, name, (n - 1) as nat),
            text::numbered(name, (n - 1) as nat),
        )
    }
}

impl SearchView {
    /// The search once its candidate was found to be taken.
    pub open spec fn after_taken(self) -> SearchView {
        SearchView {
            tried: self.tried + 1,
            candidate: path::renamed(self.candidate, text::numbered(self.name, self.tried)),
            ..self
        }
    }
}

/// A search goes through the candidates one by one.
pub proof fn lemma_search(search: SearchView, first: Seq<u8>)
    requires
        search.candidate == candidate_at(first, search.name, search.tried),
    ensures
        search.after_taken().candidate == candidate_at(
            first,
            search.after_taken().name,
            search.after_taken().tried,
        ),
{
}

/// Each candidate after the first lies in the directory of the first, under its name with a
/// number behind it.
pub proof fn lemma_candidate(first: Seq<u8>, name: Seq<u8>, n: nat)
    requires
        path::name_of(first) is Some,
        !name.contains(SLASH),
        n > 0,
    ensures
        path::parts(candidate_at(first, name, n)) == path::parts(first).drop_last().push(
            Part::Normal(text::numbered(name, (n - 1) as nat)),
        ),
        path::name_of(candidate_at(first, name, n)) == Some(
            text::numbered(name, (n - 1) as nat),
        ),
    decreases n,
{
    let before = candidate_at(first, name, (n - 1) as nat);
    if n > 1 {
        lemma_candidate(first, name, (n - 1) as nat);
    }
    text::lemma_numbered_is_name(name, (n - 1) as nat);
    path::lemma_renamed(before, text::numbered(name, (n - 1) as nat));
    if n > 1 {
        assert(path::parts(before).drop_last() =~= path::parts(first).drop_last());
    }
}

/// No path is a candidate twice: a search that finds one taken goes on to another. The first
/// candidate counts where its file name is text.
pub proof fn lemma_candidates_differ(first: Seq<u8>, name: Seq<u8>, m: nat, n: nat)
    requires
        path::name_of(first) is Some,
        !name.contains(SLASH),
        m < n,
        m > 0 || path::name_of(first) == Some(name),
    ensures
        path::parts(candidate_at(first, name, m)) != path::parts(candidate_at(first, name, n)),
{
    lemma_candidate(first, name, n);
    let later = text::numbered(name, (n - 1) as nat);
    if m > 0 {
        lemma_candidate(first, name, m);
        let earlier = text::numbered(name, (m - 1) as nat);
        if earlier == later {
            text::lemma_numbered_injective(name, (m - 1) as nat, (n - 1) as nat);
        }
        assert(path::parts(candidate_at(first, name, m)).last() == Part::Normal(earlier));
    } else {
        assert(later.len() > name.len());
        assert(path::parts(first).last() == Part::Normal(name));
    }
    assert(path::parts(candidate_at(first, name, n)).last() == Part::Normal(later));
}

/// A new backup whose path is free.
#[derive(Debug)]
pub struct NewBackup {
    file_path: FsPath,
    watch_path: WatchPath,
    backup_path: FsPath,
}

/// The contents of a `NewBackup`.
#[verifier::ext_equal]
pub struct NewBackupView {
    pub file_path: Seq<u8>,
    pub watch_path: Seq<u8>,
    pub backup_path: Seq<u8>,
}

impl View for NewBackup {
    type V = NewBackupView;

    closed spec fn view(&self) -> NewBackupView {
        NewBackupView {
            file_path: self.file_path@,
            watch_path: self.watch_path@.path,
            backup_path: self.backup_path@,
        }
    }
}

/// What comes next when a file is backed up for the first time.
#[derive(Debug)]
pub enum CreateStep {
    /// Ask whether the candidate exists, and go on with `BackupSearch::answer`.
    Probe(BackupSearch),
    /// Ask when the file was last modified, and go on with `NewBackup::enter`.
    Enter(NewBackup),
    /// Make the copy.
    Copy(CopyTask),
}

impl BackupSearch {
    /// The path that may be free.
    pub fn candidate(&self) -> (r: &FsPath)
        ensures
            r@ == self@.candidate,
    {
        &self.candidate
    }

    /// How many candidates were found to be taken.
    pub fn tried(&self) -> (r: u32)
        ensures
            r == self@.tried,
    {
        self.tried
    }

    /// Takes note of whether the candidate exists. If it does, a number goes behind the file
    /// name, from 0 on.
    pub fn answer(self, exists: bool) -> (r: CreateStep)
        requires
            exists ==> self@.tried < i32::MAX,
        ensures
            exists ==> (r matches CreateStep::Probe(next) && next@ == self@.after_taken()),
            !exists ==> (r matches CreateStep::Enter(new) && new@ == (NewBackupView {
                file_path: self@.file_path,
                watch_path: self@.watch_path,
                backup_path: self@.candidate,
            })),
    {
        if exists {
            let BackupSearch { file_path, watch_path, name, tried, candidate } = self;
            let mut candidate: FsPath = candidate;
            candidate.set_file_name(text::numbered_name(&name, tried as u64));
            CreateStep::Probe(
                BackupSearch { file_path, watch_path, name, tried: tried + 1, candidate },
            )
        } else {
            CreateStep::Enter(
                NewBackup {
                    file_path: self.file_path,
                    watch_path: self.watch_path,
                    backup_path: self.candidate,
                },
            )
        }
    }
}

/// A new backup that has been entered in the journal.
#[derive(Debug)]
pub struct Entered {
    /// Whether the journal asks to be written out before the copy is made.
    pub flush_due: bool,
    /// The copy.
    pub copy: CopyTask,
}

impl NewBackup {
    /// The file whose time of modification is to be asked for.
    pub fn file_path(&self) -> (r: &FsPath)
        ensures
            r@ == self@.file_path,
    {
        &self.file_path
    }

    /// Enters the backup in the journal. `modified` is when the file was last modified.
    pub fn enter(self, journal: &mut Journal, modified: Result<Timestamp, std::io::Error>) -> (r:
        Result<Entered, HandleFileError>)
        requires
            old(journal).wf(),
            old(journal)@.dirty_count < usize::MAX,
        ensures
            final(journal).wf(),
            match modified {
                Ok(t) => match time::unix_secs_at(t@) {
                    Ok(secs) => {
                        &&& final(journal)@ == old(journal)@.changed(
                            self@.file_path,
                            journal::first_entry(
                                self@.file_path,
                                self@.watch_path,
                                self@.backup_path,
                                secs,
                            ),
                        )
                        &&& r matches Ok(entered)
                        &&& entered.flush_due == (final(journal)@.dirty_count
                            >= final(journal)@.max_dirty_count)
                        &&& entered.copy@ == copy_with_dir(self@.file_path, self@.backup_path)
                    },
                    Err(e) => *final(journal) == *old(journal) && r == Err::<
                        Entered,
                        HandleFileError,
                    >(HandleFileError::JournalError(JournalError::SystemTime(e))),
                },
                Err(e) => *final(journal) == *old(journal) && r == Err::<Entered, HandleFileError>(
                    HandleFileError::JournalError(JournalError::IO(e)),
                ),
            },
    {
        match modified {
            Ok(t) => {
                match journal.create_entry(
                    &self.watch_path,
                    &self.file_path,
                    &self.backup_path,
                    &t,
                ) {
                    Ok(flush_due) => {
                        let make_dir: Option<FsPath> = self.backup_path.parent();
                        Ok(
                            Entered {
                                flush_due,
                                copy: CopyTask {
                                    make_dir,
                                    from: self.file_path,
                                    to: self.backup_path,
                                },
                            },
                        )
                    },
                    Err(e) => Err(HandleFileError::JournalError(e)),
                }
            },
            Err(e) => Err(HandleFileError::JournalError(JournalError::IO(e))),
        }
    }
}

impl Entered {
    /// Takes note of how the writing out of the journal ended, where it was due.
    pub fn flushed(self, journal: &mut Journal, written: Result<(), JournalError>) -> (r: Result<
        CopyTask,
        HandleFileError,
    >)
        requires
            old(journal).wf(),
        ensures
            final(journal).wf(),
            if self.flush_due && old(journal)@.dirty_count > 0 {
                match written {
                    Ok(_) => r == Ok::<CopyTask, HandleFileError>(self.copy) && final(journal)@
                        == old(journal)@.clean(),
                    Err(e) => r == Err::<CopyTask, HandleFileError>(
                        HandleFileError::JournalError(e),
                    ) && *final(journal) == *old(journal),
                }
            } else {
                r == Ok::<CopyTask, HandleFileError>(self.copy) && *final(journal) == *old(journal)
            },
    {
        if self.flush_due {
            match journal.flush(written) {
                Ok(_) => Ok(self.copy),
                Err(e) => Err(HandleFileError::JournalError(e)),
            }
        } else {
            Ok(self.copy)
        }
    }
}

/// What `sha256::digest` makes of a byte string: its SHA-256 digest in hexadecimal.
pub uninterp spec fn sha256_hex(data: Seq<u8>) -> Seq<char>;

/// The SHA-256 digest of `data` in hexadecimal, by `sha256::digest`. The digest is named; how
/// it is computed, and that different data have different digests, is not stated.
#[verifier::external_body]
fn sha256_digest(data: Vec<u8>) -> (r: String)
    ensures
        r@ == sha256_hex(data@),
{
    sha256::digest(data)
}

/// What was read of a file, and the size that the file system gave for it.
#[derive(Debug)]
pub struct Contents {
    pub size: usize,
    pub bytes: Vec<u8>,
}

/// What the digest of a file is taken of: a zero for each byte that the file should have, and
/// then the bytes that were read.
pub open spec fn digest_input(size: nat, bytes: Seq<u8>) -> Seq<u8> {
    Seq::new(size, |i: int| 0u8) + bytes
}

impl Contents {
    /// What the digest is taken of.
    pub open spec fn input(&self) -> Seq<u8> {
        digest_input(self.size as nat, self.bytes@)
    }

    /// The digest of the file.
    pub fn digest(self) -> (r: String)
        requires
            self.size + self.bytes@.len() <= isize::MAX,
        ensures
            r@ == sha256_hex(self.input()),
    {
        let ghost input = self.input();
        let Contents { size, bytes } = self;
        let mut buffer: Vec<u8> = vec![0u8; size];
        let mut bytes: Vec<u8> = bytes;
        buffer.append(&mut bytes);
        assert(buffer@ =~= input);
        sha256_digest(buffer)
    }
}

/// Whether two files have the same digest.
pub fn same_contents(file: Contents, backup: Contents) -> (r: bool)
    requires
        file.size + file.bytes@.len() <= isize::MAX,
        backup.size + backup.bytes@.len() <= isize::MAX,
    ensures
        r == (sha256_hex(file.input()) == sha256_hex(backup.input())),
{
    let file_hash: String = file.digest();
    let backup_hash: String = backup.digest();
    file_hash == backup_hash
}

/// A change of a file that the journal knows.
#[derive(Debug)]
pub struct Modification {
    file_path: FsPath,
    backup_path: FsPath,
}

/// The contents of a `Modification`.
#[verifier::ext_equal]
pub struct ModificationView {
    pub file_path: Seq<u8>,
    pub backup_path: Seq<u8>,
}

impl View for Modification {
    type V = ModificationView;

    closed spec fn view(&self) -> ModificationView {
        ModificationView { file_path: self.file_path@, backup_path: self.backup_path@ }
    }
}

/// What comes next when a file has been modified.
#[derive(Debug)]
pub enum ModifyStep {
    /// The journal does not know the file: back it up for the first time.
    Create(FsPath),
    /// Ask when the file was last modified, and go on with `Modification::timed`.
    Examine(Modification),
}

/// A change of a file, with the time of the change.
#[derive(Debug)]
pub struct TimedModification {
    file_path: FsPath,
    backup_path: FsPath,
    modified: u64,
}

/// The contents of a `TimedModification`.
#[verifier::ext_equal]
pub struct TimedView {
    pub file_path: Seq<u8>,
    pub backup_path: Seq<u8>,
    pub modified: u64,
}

impl View for TimedModification {
    type V = TimedView;

    closed spec fn view(&self) -> TimedView {
        TimedView {
            file_path: self.file_path@,
            backup_path: self.backup_path@,
            modified: self.modified,
        }
    }
}

impl Modification {
    /// The file that has been modified.
    pub fn file_path(&self) -> (r: &FsPath)
        ensures
            r@ == self@.file_path,
    {
        &self.file_path
    }

    /// Takes note of when the file was last modified: at `modified`, or `now` where the file
    /// system does not tell. Where the file could not be opened that is the end of it.
    pub fn timed_at(
        self,
        modified: Result<Option<Timestamp>, std::io::Error>,
        now: Timestamp,
    ) -> (r: Result<TimedModification, HandleFileError>)
        ensures
            timed_by(self@, modified, now@, r),
    {
        let moment: Timestamp = match modified {
            Ok(Some(t)) => t,
            Ok(None) => now,
            Err(e) => return Err(HandleFileError::IO(e)),
        };
        match moment.unix_secs() {
            Ok(secs) => Ok(
                TimedModification {
                    file_path: self.file_path,
                    backup_path: self.backup_path,
                    modified: secs,
                },
            ),
            Err(e) => Err(HandleFileError::SystemTime(e)),
        }
    }

    /// Takes note of when the file was last modified: at `modified`, or at the time that the
    /// clock shows where the file system does not tell.
    pub fn timed(self, modified: Result<Option<Timestamp>, std::io::Error>) -> (r: Result<
        TimedModification,
        HandleFileError,
    >)
        ensures
            exists|now: int|
                time::is_moment(now) && #[trigger] timed_by(self@, modified, now, r),
    {
        let now: Timestamp = Timestamp::now();
        self.timed_at(modified, now)
    }
}

/// How a change comes out of the answer when the file was last modified, at the time `now`.
pub open spec fn timed_by(
    change: ModificationView,
    modified: Result<Option<Timestamp>, std::io::Error>,
    now: int,
    r: Result<TimedModification, HandleFileError>,
) -> bool {
    match modified {
        Ok(time) => match time::unix_secs_at(
            match time {
                Some(t) => t@,
                None => now,
            },
        ) {
            Ok(secs) => r matches Ok(timed) && timed@ == (TimedView {
                file_path: change.file_path,
                backup_path: change.backup_path,
                modified: secs,
            }),
            Err(e) => r == Err::<TimedModification, HandleFileError>(
                HandleFileError::SystemTime(e),
            ),
        },
        Err(e) => r == Err::<TimedModification, HandleFileError>(HandleFileError::IO(e)),
    }
}

/// The old state of a file, to be kept beside its backup.
#[derive(Debug)]
pub struct KeepOld {
    file_path: FsPath,
    backup_path: FsPath,
    old_version_path: FsPath,
    timestamp: u64,
}

/// The contents of a `KeepOld`.
#[verifier::ext_equal]
pub struct KeepView {
    /// The file that has been modified.
    pub file_path: Seq<u8>,
    /// Its backup, which holds the old state.
    pub backup_path: Seq<u8>,
    /// Where the old state goes, and when it was last modified.
    pub old_version: OldVersionView,
}

impl KeepView {
    /// The copy of the new state, to be made once the old one has been kept.
    pub open spec fn copy(self) -> CopyView {
        CopyView { make_dir: None, from: self.file_path, to: self.backup_path }
    }
}

impl View for KeepOld {
    type V = KeepView;

    closed spec fn view(&self) -> KeepView {
        KeepView {
            file_path: self.file_path@,
            backup_path: self.backup_path@,
            old_version: OldVersionView {
                timestamp: self.timestamp,
                file_path: self.old_version_path@,
            },
        }
    }
}

/// Whether two paths lead to files in the same directory.
pub open spec fn lies_beside(p: Seq<u8>, q: Seq<u8>) -> bool {
    &&& path::parts(p).len() > 0 && path::parts(q).len() > 0
    &&& path::parts(p).drop_last() == path::parts(q).drop_last()
    &&& path::name_of(p) is Some && path::name_of(q) is Some
}

/// A file name holds no slash.
pub proof fn lemma_name_without_slash(b: Seq<u8>)
    ensures
        path::name_of(b) matches Some(name) ==> !name.contains(SLASH),
{
    path::lemma_name_is_piece(b);
    if let Some(name) = path::name_of(b) {
        let body = path::body_parts(b);
        assert(path::parts(b).last() == Part::Normal(name));
        assert(body.len() > 0);
        assert(body.last() == Part::Normal(name));
    }
}

/// Whether the old state goes to the directory of the backup, and, where the name of the backup
/// is text, to that name with the time behind it, which is not the path of the backup itself.
pub open spec fn kept_apart(keep: KeepView) -> bool {
    let version = keep.old_version;
    &&& lies_beside(version.file_path, keep.backup_path)
    &&& match path::name_of(keep.backup_path) {
        Some(name) => vstd::utf8::valid_utf8(name) ==> {
            &&& version.file_path == version_path(keep.backup_path, name, version.timestamp)
            &&& path::parts(version.file_path) != path::parts(keep.backup_path)
        },
        None => false,
    }
}

/// The path beside `backup_path` whose name is `name` with a time behind it.
pub open spec fn version_path(backup_path: Seq<u8>, name: Seq<u8>, timestamp: u64) -> Seq<u8> {
    path::renamed(backup_path, text::numbered(name, timestamp as nat))
}

/// Where the old state of a file goes: beside the backup, with its time behind the name.
pub open spec fn old_version_path(backup_path: Seq<u8>, name: Seq<u8>, timestamp: u64) -> Seq<u8> {
    version_path(backup_path, text::lossy_utf8(name), timestamp)
}

/// A path with a time behind its name lies beside the path that it was made of.
pub proof fn lemma_version_path(backup_path: Seq<u8>, name: Seq<u8>, timestamp: u64)
    requires
        path::name_of(backup_path) is Some,
        !name.contains(SLASH),
    ensures
        lies_beside(version_path(backup_path, name, timestamp), backup_path),
        path::name_of(version_path(backup_path, name, timestamp)) == Some(
            text::numbered(name, timestamp as nat),
        ),
        path::name_of(backup_path) == Some(name) ==> path::parts(
            version_path(backup_path, name, timestamp),
        ) != path::parts(backup_path),
{
    let numbered = text::numbered(name, timestamp as nat);
    text::lemma_numbered_is_name(name, timestamp as nat);
    path::lemma_renamed(backup_path, numbered);
    let all = path::parts(version_path(backup_path, name, timestamp));
    assert(all.drop_last() =~= path::parts(backup_path).drop_last());
    assert(all.last() == Part::Normal(numbered));
    assert(numbered.len() > name.len());
}

/// States of a file with different times are kept under different paths.
pub proof fn lemma_version_paths_differ(backup_path: Seq<u8>, name: Seq<u8>, s: u64, t: u64)
    requires
        path::name_of(backup_path) is Some,
        !name.contains(SLASH),
        s != t,
    ensures
        path::parts(version_path(backup_path, name, s)) != path::parts(
            version_path(backup_path, name, t),
        ),
{
    lemma_version_path(backup_path, name, s);
    lemma_version_path(backup_path, name, t);
    if text::numbered(name, s as nat) == text::numbered(name, t as nat) {
        text::lemma_numbered_injective(name, s as nat, t as nat);
    }
}

/// The entry of a file after a change at `modified`, before the old state is kept.
pub open spec fn touched(entry: EntryView, modified: u64) -> EntryView {
    EntryView { last_modified: modified, ..entry }
}

/// The entry of a file once an old state has been kept.
pub open spec fn with_version(entry: EntryView, version: OldVersionView) -> EntryView {
    EntryView { old_versions: entry.old_versions.push(version), ..entry }
}

impl TimedModification {
    /// The file that has been modified.
    pub fn file_path(&self) -> (r: &FsPath)
        ensures
            r@ == self@.file_path,
    {
        &self.file_path
    }

    /// The backup. If it exists, both files are to be read.
    pub fn backup_path(&self) -> (r: &FsPath)
        ensures
            r@ == self@.backup_path,
    {
        &self.backup_path
    }

    /// Goes on with the contents of the file and of its backup, if there is a backup. Where
    /// their digests are equal, or they could not be read, nothing is left to be done.
    pub fn compare(
        self,
        journal: &mut Journal,
        contents: Result<Option<(Contents, Contents)>, std::io::Error>,
    ) -> (r: Result<Option<KeepOld>, HandleFileError>)
        requires
            old(journal).wf(),
            old(journal)@.knows(self@.file_path),
            contents matches Ok(Some((file, backup))) ==> file.size + file.bytes@.len() <= isize::MAX
                && backup.size + backup.bytes@.len() <= isize::MAX,
        ensures
            final(journal).wf(),
            match contents {
                Ok(read) => decided(
                    self@,
                    read matches Some((file, backup)) && sha256_hex(file.input()) == sha256_hex(
                        backup.input(),
                    ),
                    old(journal)@,
                    final(journal)@,
                    kept_view(r),
                ),
                Err(e) => *final(journal) == *old(journal) && r == Err::<
                    Option<KeepOld>,
                    HandleFileError,
                >(HandleFileError::IO(e)),
            },
            r matches Ok(Some(keep)) ==> kept_apart(keep@),
    {
        let identical: bool = match contents {
            Ok(Some((file, backup))) => same_contents(file, backup),
            Ok(None) => false,
            Err(e) => return Err(HandleFileError::IO(e)),
        };
        self.decide(journal, identical)
    }

    /// Goes on with the answer whether the file is identical to its backup. If it is, nothing
    /// is left to be done; else the journal takes note of the new time, and the old state is
    /// to be kept.
    pub fn decide(self, journal: &mut Journal, identical: bool) -> (r: Result<
        Option<KeepOld>,
        HandleFileError,
    >)
        requires
            old(journal).wf(),
            old(journal)@.knows(self@.file_path),
        ensures
            final(journal).wf(),
            decided(self@, identical, old(journal)@, final(journal)@, kept_view(r)),
            r matches Ok(Some(keep)) ==> kept_apart(keep@),
    {
        if identical {
            return Ok(None);
        }
        let mut timestamp: u64 = 0;
        let ghost before = journal@;
        let ghost entry = journal@.entry(self.file_path@);
        match journal.counted_entry_mut(&self.file_path) {
            Some(e) => {
                timestamp = e.last_modified;
                e.last_modified = self.modified;
            },
            None => {
                assert(false);
            },
        }
        assert(journal@ =~= before.with_entry(self.file_path@, touched(entry, self.modified)));
        let file_name: Vec<u8> = match self.backup_path.file_name() {
            Some(file_name) => file_name,
            None => return Err(HandleFileError::InvalidFilePath),
        };
        let name: Vec<u8> = text::to_text_lossy(&file_name);
        proof {
            lemma_name_without_slash(self.backup_path@);
            lemma_version_path(self.backup_path@, name@, timestamp);
        }
        let mut old_version_path: FsPath = self.backup_path.clone();
        old_version_path.set_file_name(text::numbered_name(&name, timestamp));
        Ok(
            Some(
                KeepOld {
                    file_path: self.file_path,
                    backup_path: self.backup_path,
                    old_version_path,
                    timestamp,
                },
            ),
        )
    }
}

/// What a decision about a modified file led to.
pub enum Decision {
    /// Nothing is left to be done.
    Unchanged,
    /// The old state is to be kept.
    Keep(KeepView),
    /// The step failed for want of a file name.
    NoName,
    /// The step failed otherwise.
    Failed,
}

/// What a step's result stands for.
pub open spec fn kept_view(r: Result<Option<KeepOld>, HandleFileError>) -> Decision {
    match r {
        Ok(None) => Decision::Unchanged,
        Ok(Some(keep)) => Decision::Keep(keep@),
        Err(HandleFileError::InvalidFilePath) => Decision::NoName,
        Err(_) => Decision::Failed,
    }
}

/// How the decision about a modified file comes out: what becomes of the journal, and what is
/// to be done next.
pub open spec fn decided(
    timed: TimedView,
    identical: bool,
    before: journal::JournalView,
    after: journal::JournalView,
    decision: Decision,
) -> bool {
    if identical {
        after == before && decision == Decision::Unchanged
    } else {
        let entry = before.entry(timed.file_path);
        &&& after == before.with_entry(timed.file_path, touched(entry, timed.modified))
        &&& decision == match path::name_of(timed.backup_path) {
            Some(name) => Decision::Keep(
                KeepView {
                    file_path: timed.file_path,
                    backup_path: timed.backup_path,
                    old_version: OldVersionView {
                        timestamp: entry.last_modified,
                        file_path: old_version_path(
                            timed.backup_path,
                            name,
                            entry.last_modified,
                        ),
                    },
                },
            ),
            None => Decision::NoName,
        }
    }
}

impl KeepOld {
    /// The backup, which holds the old state. If it still exists it is to be renamed.
    pub fn backup_path(&self) -> (r: &FsPath)
        ensures
            r@ == self@.backup_path,
    {
        &self.backup_path
    }

    /// The name that the old state gets.
    pub fn old_version_path(&self) -> (r: &FsPath)
        ensures
            r@ == self@.old_version.file_path,
    {
        &self.old_version_path
    }

    /// Takes note of how the renaming of the backup ended, where it was due. If it did not fail,
    /// enters the old state in the journal and gives the copy to be made of the new one.
    pub fn kept(self, journal: &mut Journal, renamed: Result<(), std::io::Error>) -> (r: Result<
        CopyTask,
        HandleFileError,
    >)
        requires
            old(journal).wf(),
            old(journal)@.knows(self@.file_path),
        ensures
            final(journal).wf(),
            match renamed {
                Ok(_) => {
                    &&& final(journal)@ == old(journal)@.with_entry(
                        self@.file_path,
                        with_version(old(journal)@.entry(self@.file_path), self@.old_version),
                    )
                    &&& r matches Ok(copy)
                    &&& copy@ == self@.copy()
                },
                Err(e) => *final(journal) == *old(journal) && r == Err::<
                    CopyTask,
                    HandleFileError,
                >(HandleFileError::IO(e)),
            },
    {
        if let Err(e) = renamed {
            return Err(HandleFileError::IO(e));
        }
        let ghost before = journal@;
        let ghost entry = journal@.entry(self.file_path@);
        let ghost version = self@.old_version;
        match journal.counted_entry_mut(&self.file_path) {
            Some(e) => {
                e.old_versions.push(
                    OldVersion { timestamp: self.timestamp, file_path: self.old_version_path },
                );
                assert(e@ =~= with_version(entry, version));
            },
            None => {
                assert(false);
            },
        }
        Ok(CopyTask { make_dir: None, from: self.file_path, to: self.backup_path })
    }
}

/// Backs files up.
#[derive(Debug)]
pub struct FileHandler {
    config: Config,
}

impl View for FileHandler {
    type V = ConfigView;

    closed spec fn view(&self) -> ConfigView {
        self.config@
    }
}

impl Clone for FileHandler {
    fn clone(&self) -> (r: Self)
        ensures
            r@ == self@,
    {
        FileHandler { config: self.config.clone() }
    }
}

/// Where the backup of a new file goes first: the same way below the backups as the file lies
/// below the watched directory.
pub open spec fn first_candidate(
    base_path: Seq<u8>,
    watch_path: Seq<u8>,
    file_path: Seq<u8>,
) -> Seq<u8> {
    path::joined(base_path, path::relative_to(file_path, watch_path))
}

/// The first candidate lies the same way below the backups as the file lies below the watched
/// directory.
pub proof fn lemma_first_candidate(base_path: Seq<u8>, watch_path: Seq<u8>, file_path: Seq<u8>)
    requires
        base_path.len() > 0,
        watch_path.len() > 0,
        path::is_under(file_path, watch_path),
    ensures
        path::parts(first_candidate(base_path, watch_path, file_path)) == path::parts(base_path)
            + path::parts(file_path).skip(path::parts(watch_path).len() as int),
        path::is_under(first_candidate(base_path, watch_path, file_path), base_path),
{
    path::lemma_relative_to(file_path, watch_path);
    path::lemma_joined(base_path, path::relative_to(file_path, watch_path));
    let first = path::parts(first_candidate(base_path, watch_path, file_path));
    assert(first.subrange(0, path::parts(base_path).len() as int) =~= path::parts(base_path));
}

/// Different files below a watched directory have different first candidates.
pub proof fn lemma_first_candidates_differ(
    base_path: Seq<u8>,
    watch_path: Seq<u8>,
    file_path: Seq<u8>,
    other: Seq<u8>,
)
    requires
        base_path.len() > 0,
        watch_path.len() > 0,
        path::is_under(file_path, watch_path),
        path::is_under(other, watch_path),
        path::parts(first_candidate(base_path, watch_path, file_path)) == path::parts(
            first_candidate(base_path, watch_path, other),
        ),
    ensures
        path::parts(file_path) == path::parts(other),
{
    lemma_first_candidate(base_path, watch_path, file_path);
    lemma_first_candidate(base_path, watch_path, other);
    let n = path::parts(watch_path).len() as int;
    let k = path::parts(base_path).len() as int;
    let p = path::parts(file_path);
    let q = path::parts(other);
    assert((path::parts(base_path) + p.skip(n)).skip(k) =~= p.skip(n));
    assert((path::parts(base_path) + q.skip(n)).skip(k) =~= q.skip(n));
    assert(p =~= p.take(n) + p.skip(n));
    assert(q =~= q.take(n) + q.skip(n));
    assert(p.take(n) =~= path::parts(watch_path));
    assert(q.take(n) =~= path::parts(watch_path));
}

/// The copy that is made of a file that the journal knows: to the backup that it has.
pub open spec fn copy_of_known(journal: journal::JournalView, file_path: Seq<u8>) -> CopyView {
    copy_with_dir(file_path, journal.entry(file_path).backup_path)
}

/// How the start of a first backup comes out.
pub open spec fn creates(
    config: ConfigView,
    journal: journal::JournalView,
    file_path: Seq<u8>,
    r: Result<CreateStep, HandleFileError>,
) -> bool {
    if journal.knows(file_path) {
        &&& r matches Ok(CreateStep::Copy(copy))
        &&& copy@ == copy_of_known(journal, file_path)
    } else {
        match config.watching(file_path) {
            Some(watch) => {
                let first = first_candidate(journal.base_path, watch.path, file_path);
                match path::name_of(first) {
                    Some(name) => {
                        &&& r matches Ok(CreateStep::Probe(search))
                        &&& search@ == (SearchView {
                            file_path,
                            watch_path: watch.path,
                            name: text::lossy_utf8(name),
                            tried: 0,
                            candidate: first,
                        })
                        &&& !search@.name.contains(SLASH)
                        &&& vstd::utf8::valid_utf8(name) ==> search@.name == name
                    },
                    None => r == Err::<CreateStep, HandleFileError>(
                        HandleFileError::InvalidFilePath,
                    ),
                }
            },
            None => r == Err::<CreateStep, HandleFileError>(HandleFileError::MissingWatchPath),
        }
    }
}

/// How the start of a further backup comes out: what becomes of the journal, and what is to be
/// done next.
pub open spec fn modifies(
    before: journal::JournalView,
    after: journal::JournalView,
    file_path: Seq<u8>,
    r: ModifyStep,
) -> bool {
    if before.knows(file_path) {
        let entry = before.entry(file_path);
        &&& after == before.changed(file_path, entry)
        &&& r matches ModifyStep::Examine(m)
        &&& m@ == (ModificationView { file_path, backup_path: entry.backup_path })
    } else {
        &&& after == before
        &&& r matches ModifyStep::Create(p)
        &&& p@ == file_path
    }
}

/// How the removal of a file at `now` comes out: what becomes of the journal, and what is
/// returned. For a file that the journal knows it counts as a change, even where `now` lies
/// before the Unix epoch and the removal is not entered.
pub open spec fn removes(
    before: journal::JournalView,
    after: journal::JournalView,
    file_path: Seq<u8>,
    now: int,
    r: Result<(), HandleFileError>,
) -> bool {
    if before.knows(file_path) {
        let entry = before.entry(file_path);
        match time::unix_secs_at(now) {
            Ok(secs) => {
                &&& r == Ok::<(), HandleFileError>(())
                &&& after == before.changed(file_path, EntryView { deleted: Some(secs), ..entry })
            },
            Err(e) => {
                &&& r == Err::<(), HandleFileError>(HandleFileError::SystemTime(e))
                &&& after == before.changed(file_path, entry)
            },
        }
    } else {
        r == Ok::<(), HandleFileError>(()) && after == before
    }
}

impl FileHandler {
    /// A handler with the settings `config`.
    pub fn new(config: Config) -> (r: FileHandler)
        ensures
            r@ == config@,
    {
        FileHandler { config }
    }

    /// Starts to back the file `file_path` up. A file that the journal knows is copied to the
    /// backup that it has; for another a path is searched.
    pub fn create(&self, journal: &Journal, file_path: &FsPath) -> (r: Result<
        CreateStep,
        HandleFileError,
    >)
        requires
            journal.wf(),
        ensures
            creates(self@, journal@, file_path@, r),
    {
        if let Some(entry) = journal.find_entry(file_path) {
            return Ok(
                CreateStep::Copy(
                    CopyTask {
                        make_dir: entry.backup_path.parent(),
                        from: file_path.clone(),
                        to: entry.backup_path.clone(),
                    },
                ),
            );
        }
        let watch_path: &WatchPath = match self.config.find_watch_path(file_path) {
            Some(watch_path) => watch_path,
            None => return Err(HandleFileError::MissingWatchPath),
        };
        let relative_path: FsPath = match file_path.strip_prefix(watch_path.path()) {
            Some(relative_path) => relative_path,
            None => return Err(HandleFileError::InvalidFilePath),
        };
        let candidate: FsPath = journal.base_path().join(&relative_path);
        let name: Vec<u8> = match candidate.file_name() {
            Some(name) => name,
            None => return Err(HandleFileError::InvalidFilePath),
        };
        proof {
            lemma_name_without_slash(candidate@);
        }
        Ok(
            CreateStep::Probe(
                BackupSearch {
                    file_path: file_path.clone(),
                    watch_path: watch_path.clone(),
                    name: text::to_text_lossy(&name),
                    tried: 0,
                    candidate,
                },
            ),
        )
    }

    /// Starts to back a new state of the file `file_path` up. For a file that the journal
    /// knows, that counts as a change of the journal.
    pub fn modify(&self, journal: &mut Journal, file_path: &FsPath) -> (r: ModifyStep)
        requires
            old(journal).wf(),
            old(journal)@.knows(file_path@) ==> old(journal)@.dirty_count < usize::MAX,
        ensures
            final(journal).wf(),
            modifies(old(journal)@, final(journal)@, file_path@, r),
    {
        match journal.find_entry_mut(file_path) {
            Some(guard) => ModifyStep::Examine(
                Modification {
                    file_path: file_path.clone(),
                    backup_path: guard.deref().backup_path.clone(),
                },
            ),
            None => ModifyStep::Create(file_path.clone()),
        }
    }

    /// Takes note that the file `file_path` was removed at `now`. A file that the journal does
    /// not know is passed over.
    pub fn remove_at(&self, journal: &mut Journal, file_path: &FsPath, now: &Timestamp) -> (r:
        Result<(), HandleFileError>)
        requires
            old(journal).wf(),
            old(journal)@.knows(file_path@) ==> old(journal)@.dirty_count < usize::MAX,
        ensures
            final(journal).wf(),
            removes(old(journal)@, final(journal)@, file_path@, now@, r),
            !old(journal)@.knows(file_path@) ==> *final(journal) == *old(journal),
    {
        match journal.find_entry_mut(file_path) {
            Some(guard) => {
                match now.unix_secs() {
                    Ok(secs) => {
                        guard.entry.deleted = Some(secs);
                        Ok(())
                    },
                    Err(e) => Err(HandleFileError::SystemTime(e)),
                }
            },
            None => Ok(()),
        }
    }

    /// Takes note that the file `file_path` was removed, at the time that the clock shows.
    pub fn remove(&self, journal: &mut Journal, file_path: &FsPath) -> (r: Result<
        (),
        HandleFileError,
    >)
        requires
            old(journal).wf(),
            old(journal)@.knows(file_path@) ==> old(journal)@.dirty_count < usize::MAX,
        ensures
            final(journal).wf(),
            exists|now: int|
                time::is_moment(now) && #[trigger] removes(
                    old(journal)@,
                    final(journal)@,
                    file_path@,
                    now,
                    r,
                ),
            !old(journal)@.knows(file_path@) ==> *final(journal) == *old(journal),
    {
        let now: Timestamp = Timestamp::now();
        self.remove_at(journal, file_path, &now)
    }
}

/// A modification of a file that the journal does not know is handled as its creation, from the
/// same state of the journal. In particular it fails where no watched directory holds the file.
pub proof fn lemma_modified_unknown(
    config: ConfigView,
    before: journal::JournalView,
    after: journal::JournalView,
    file_path: Seq<u8>,
    step: ModifyStep,
    r: Result<CreateStep, HandleFileError>,
)
    requires
        !before.knows(file_path),
        modifies(before, after, file_path, step),
    ensures
        after == before,
        step matches ModifyStep::Create(p) && p@ == file_path && (creates(config, after, p@, r)
            <==> creates(config, before, file_path, r)),
        config.watching(file_path) is None && creates(config, after, file_path, r) ==> r == Err::<
            CreateStep,
            HandleFileError,
        >(HandleFileError::MissingWatchPath),
{
}

/// A modification of a file that the journal knows is never handled as a creation. Where the
/// file cannot be opened it fails, and all entries are as they were.
pub proof fn lemma_modified_unopened(
    before: journal::JournalView,
    after: journal::JournalView,
    file_path: Seq<u8>,
    step: ModifyStep,
    failure: std::io::Error,
    now: int,
    r: Result<TimedModification, HandleFileError>,
)
    requires
        before.knows(file_path),
        modifies(before, after, file_path, step),
        step is Examine ==> timed_by(step->Examine_0@, Err(failure), now, r),
    ensures
        r == Err::<TimedModification, HandleFileError>(HandleFileError::IO(failure)),
        after.entries == before.entries,
        after.dirty_count == before.dirty_count + 1,
{
    journal::lemma_unchanged(before, file_path);
}

/// A file that has been entered in the journal is copied to the same backup again.
pub proof fn lemma_copied_again(
    journal: journal::JournalView,
    file_path: Seq<u8>,
    watch_path: Seq<u8>,
    backup_path: Seq<u8>,
    secs: u64,
)
    ensures
        ({
            let after = journal.changed(
                file_path,
                journal::first_entry(file_path, watch_path, backup_path, secs),
            );
            &&& after.knows(file_path)
            &&& copy_of_known(after, file_path) == copy_with_dir(file_path, backup_path)
        }),
{
}

/// A file that was modified, and whose old state was kept, has the time of the change and one
/// more old version. Nothing else in the journal has changed, and the journal counts one
/// change.
pub proof fn lemma_modified(
    before: journal::JournalView,
    file_path: Seq<u8>,
    modified: u64,
    version: OldVersionView,
)
    requires
        before.knows(file_path),
    ensures
        ({
            let entry = before.entry(file_path);
            let examined = before.changed(file_path, entry);
            let decided = examined.with_entry(file_path, touched(entry, modified));
            decided.with_entry(file_path, with_version(decided.entry(file_path), version))
                == before.changed(
                file_path,
                EntryView {
                    last_modified: modified,
                    old_versions: entry.old_versions.push(version),
                    ..entry
                },
            )
        }),
{
    let entry = before.entry(file_path);
    let decided = before.changed(file_path, entry).with_entry(file_path, touched(entry, modified));
    let done = decided.with_entry(file_path, with_version(decided.entry(file_path), version));
    let whole = before.changed(
        file_path,
        EntryView {
            last_modified: modified,
            old_versions: entry.old_versions.push(version),
            ..entry
        },
    );
    assert(done.entries =~= whole.entries);
}

/// The files of a file system and what they hold.
pub type Files = Map<Seq<Part>, Seq<u8>>;

/// The files once `copy` has been made.
pub open spec fn copied(files: Files, copy: CopyView) -> Files {
    files.insert(path::parts(copy.to), files[path::parts(copy.from)])
}

/// The files once the backup of `keep`, where there is one, has been renamed.
pub open spec fn set_aside(files: Files, keep: KeepView) -> Files {
    let backup = path::parts(keep.backup_path);
    if files.contains_key(backup) {
        files.remove(backup).insert(path::parts(keep.old_version.file_path), files[backup])
    } else {
        files
    }
}

/// A first backup holds what the file holds. Its path was found to be free, so all other files
/// are as they were.
pub proof fn lemma_first_backup(files: Files, search: SearchView, other: Seq<Part>)
    requires
        !files.contains_key(path::parts(search.candidate)),
        files.contains_key(path::parts(search.file_path)),
    ensures
        ({
            let after = copied(files, copy_with_dir(search.file_path, search.candidate));
            &&& after.contains_key(path::parts(search.candidate))
            &&& after[path::parts(search.candidate)] == files[path::parts(search.file_path)]
            &&& files.contains_key(other) ==> after.contains_key(other) && after[other]
                == files[other]
        }),
{
}

/// After a modification the backup holds what the file holds, and what the backup held before,
/// if there was one, is found under the path of the old version. Other files are as they were.
pub proof fn lemma_backup_kept(files: Files, keep: KeepView, other: Seq<Part>)
    requires
        files.contains_key(path::parts(keep.file_path)),
        path::parts(keep.file_path) != path::parts(keep.backup_path),
        path::parts(keep.file_path) != path::parts(keep.old_version.file_path),
        path::parts(keep.old_version.file_path) != path::parts(keep.backup_path),
    ensures
        ({
            let file = path::parts(keep.file_path);
            let backup = path::parts(keep.backup_path);
            let version = path::parts(keep.old_version.file_path);
            let after = copied(set_aside(files, keep), keep.copy());
            &&& after.contains_key(backup) && after[backup] == files[file]
            &&& files.contains_key(backup) ==> after.contains_key(version) && after[version]
                == files[backup]
            &&& after.contains_key(file) && after[file] == files[file]
            &&& other != backup && other != version ==> after.contains_key(other)
                == files.contains_key(other) && after[other] == files[other]
        }),
{
}

/// The first `n` candidates behind the first one.
pub open spec fn numbered_candidates(first: Seq<u8>, name: Seq<u8>, n: nat) -> Set<Seq<Part>>
    decreases n,
{
    if n == 0 {
        Set::empty()
    } else {
        numbered_candidates(first, name, (n - 1) as nat).insert(
            path::parts(candidate_at(first, name, n)),
        )
    }
}

/// The candidates are as many as they are counted, since no two are equal.
pub proof fn lemma_numbered_candidates(first: Seq<u8>, name: Seq<u8>, n: nat)
    requires
        path::name_of(first) is Some,
        !name.contains(SLASH),
    ensures
        numbered_candidates(first, name, n).finite(),
        numbered_candidates(first, name, n).len() == n,
        forall|k: Seq<Part>| #[trigger]
            numbered_candidates(first, name, n).contains(k) ==> exists|m: nat|
                0 < m <= n && k == path::parts(#[trigger] candidate_at(first, name, m)),
    decreases n,
{
    if n > 0 {
        lemma_numbered_candidates(first, name, (n - 1) as nat);
        let before = numbered_candidates(first, name, (n - 1) as nat);
        let new = path::parts(candidate_at(first, name, n));
        if before.contains(new) {
            let m = choose|m: nat|
                0 < m <= n - 1 && new == path::parts(#[trigger] candidate_at(first, name, m));
            lemma_candidates_differ(first, name, m, n);
        }
    }
}

/// A search ends: where finitely many paths are taken, it comes to a candidate that is free
/// after at most one more step than there are taken paths.
pub proof fn lemma_search_ends(first: Seq<u8>, name: Seq<u8>, taken: Set<Seq<Part>>)
    requires
        path::name_of(first) is Some,
        !name.contains(SLASH),
        taken.finite(),
    ensures
        exists|n: nat|
            n <= taken.len() + 1 && !taken.contains(
                path::parts(#[trigger] candidate_at(first, name, n)),
            ),
{
    let all = numbered_candidates(first, name, taken.len() + 1);
    lemma_numbered_candidates(first, name, taken.len() + 1);
    if forall|n: nat|
        n <= taken.len() + 1 ==> taken.contains(
            path::parts(#[trigger] candidate_at(first, name, n)),
        ) {
        assert forall|k: Seq<Part>| all.contains(k) implies taken.contains(k) by {
            let m = choose|m: nat|
                0 < m <= taken.len() + 1 && k == path::parts(
                    #[trigger] candidate_at(first, name, m),
                );
            assert(taken.contains(path::parts(candidate_at(first, name, m))));
        }
        vstd::set_lib::lemma_len_subset(all, taken);
    }
}

/// What the digests of two files are taken of is equal just where the files are, if as much
/// was read of each as the file system said.
pub proof fn lemma_digest_input(a: Seq<u8>, b: Seq<u8>)
    ensures
        digest_input(a.len(), a) == digest_input(b.len(), b) <==> a == b,
{
    let x = digest_input(a.len(), a);
    let y = digest_input(b.len(), b);
    if x == y {
        assert(x.len() == 2 * a.len());
        assert(y.len() == 2 * b.len());
        assert(x.skip(a.len() as int) =~= a);
        assert(y.skip(b.len() as int) =~= b);
    }
}

/// What the digest of a file is taken of are as many zeros as the file system said the file has
/// bytes, and behind them each byte that was read, however many there are.
pub proof fn lemma_contents_input(contents: Contents)
    ensures
        contents.input().len() == contents.size + contents.bytes@.len(),
        forall|i: int| 0 <= i < contents.size ==> #[trigger] contents.input()[i] == 0,
        forall|i: int|
            0 <= i < contents.bytes@.len() ==> contents.input()[contents.size + i]
                == #[trigger] contents.bytes@[i],
{
}

/// Of two files that were read to their ends, what the digests are taken of is equal just where
/// the files are.
pub proof fn lemma_contents_equal(a: Contents, b: Contents)
    requires
        a.size == a.bytes@.len(),
        b.size == b.bytes@.len(),
    ensures
        a.input() == b.input() <==> a.bytes@ == b.bytes@,
{
    lemma_contents_input(a);
    lemma_contents_input(b);
    if a.input() == b.input() {
        assert(a.size == b.size);
        assert forall|i: int| 0 <= i < a.bytes@.len() implies a.bytes@[i] == b.bytes@[i] by {
            assert(a.input()[a.size + i] == a.bytes@[i]);
            assert(b.input()[b.size + i] == b.bytes@[i]);
        }
        assert(a.bytes@ =~= b.bytes@);
    }
}

/// A copy goes from one path to the other, and the directory that is made first is the one that
/// the copy lies in.
pub proof fn lemma_copy_with_dir(from: Seq<u8>, to: Seq<u8>)
    ensures
        copy_with_dir(from, to).from == from,
        copy_with_dir(from, to).to == to,
        copy_with_dir(from, to).make_dir is None <==> path::parts(to).len() == 0 || path::parts(
            to,
        ).last() is RootDir,
        copy_with_dir(from, to).make_dir matches Some(dir) ==> path::parts(dir) == path::parts(
            to,
        ).drop_last(),
{
    path::lemma_parent(to);
}

/// A copy is made from one path to the other.
pub proof fn lemma_copy_view(copy: CopyTask)
    ensures
        copy@.from == copy.from@,
        copy@.to == copy.to@,
        copy@.make_dir is None <==> copy.make_dir is None,
        copy.make_dir matches Some(dir) ==> copy@.make_dir == Some(dir@),
{
}

/// Whether `i` is the index of the first of `watch_paths` whose components `file_path` starts
/// with.
pub open spec fn first_above(
    watch_paths: Seq<WatchPathView>,
    file_path: Seq<u8>,
    i: int,
) -> bool {
    &&& 0 <= i < watch_paths.len()
    &&& path::parts(watch_paths[i].path).is_prefix_of(path::parts(file_path))
    &&& forall|j: int|
        0 <= j < i ==> !path::parts((#[trigger] watch_paths[j]).path).is_prefix_of(
            path::parts(file_path),
        )
}

/// A file that the journal does not know, and that lies under watched directories, is going to be
/// backed up for the first of them: below the backups, as it lies below that directory, if there
/// is a file name then. Nothing has been tried yet.
pub proof fn lemma_created_below(
    config: ConfigView,
    journal: journal::JournalView,
    file_path: Seq<u8>,
    r: Result<CreateStep, HandleFileError>,
    i: int,
)
    requires
        !journal.entries.contains_key(path::parts(file_path)),
        first_above(config.watch_paths, file_path, i),
    ensures
        ({
            let watch_path = config.watch_paths[i].path;
            let first = path::joined(
                journal.base_path,
                path::relative_to(file_path, watch_path),
            );
            creates(config, journal, file_path, r) ==> match path::name_of(first) {
                Some(name) => {
                    &&& r matches Ok(CreateStep::Probe(search))
                    &&& search@.file_path == file_path
                    &&& search@.watch_path == watch_path
                    &&& search@.candidate == first
                    &&& search@.tried == 0
                    &&& search@.name == text::lossy_utf8(name)
                    &&& !search@.name.contains(47)
                    &&& vstd::utf8::valid_utf8(name) ==> search@.name == name
                    &&& journal.base_path.len() > 0 && watch_path.len() > 0 ==> path::parts(first)
                        == path::parts(journal.base_path) + path::parts(file_path).skip(
                        path::parts(watch_path).len() as int,
                    )
                },
                None => r == Err::<CreateStep, HandleFileError>(HandleFileError::InvalidFilePath),
            }
        }),
{
    let watch_path = config.watch_paths[i].path;
    config::lemma_watching(config, file_path, i);
    if journal.base_path.len() > 0 && watch_path.len() > 0 {
        lemma_first_candidate(journal.base_path, watch_path, file_path);
    }
}

/// No watched directory is missing where one holds the file, and one is missing where none does.
pub proof fn lemma_missing_watch_path(
    config: ConfigView,
    journal: journal::JournalView,
    file_path: Seq<u8>,
    r: Result<CreateStep, HandleFileError>,
)
    ensures
        creates(config, journal, file_path, r) ==> (r == Err::<CreateStep, HandleFileError>(
            HandleFileError::MissingWatchPath,
        ) <==> !journal.entries.contains_key(path::parts(file_path)) && forall|i: int|
            0 <= i < config.watch_paths.len() ==> !path::parts(
                (#[trigger] config.watch_paths[i]).path,
            ).is_prefix_of(path::parts(file_path))),
{
    config::lemma_unwatched(config, file_path);
}

/// A file that the journal knows is copied to the backup that it has, whatever is watched.
pub proof fn lemma_created_known(
    config: ConfigView,
    journal: journal::JournalView,
    file_path: Seq<u8>,
    r: Result<CreateStep, HandleFileError>,
)
    requires
        journal.entries.contains_key(path::parts(file_path)),
    ensures
        creates(config, journal, file_path, r) ==> {
            let backup = journal.entries[path::parts(file_path)].backup_path;
            &&& r matches Ok(CreateStep::Copy(copy))
            &&& copy.from@ == file_path
            &&& copy.to@ == backup
            &&& copy.make_dir matches Some(dir) ==> path::parts(dir@) == path::parts(
                backup,
            ).drop_last()
            &&& copy.make_dir is None <==> path::parts(backup).len() == 0 || path::parts(
                backup,
            ).last() is RootDir
        },
{
    let backup = journal.entries[path::parts(file_path)].backup_path;
    path::lemma_parent(backup);
    if let Ok(CreateStep::Copy(copy)) = r {
        lemma_copy_view(copy);
    }
}

/// A search whose candidate is taken goes on for the same file, with the path in the same
/// directory whose name is the text that the search is about, a dot, and how many candidates
/// were taken before this one.
pub proof fn lemma_taken(search: SearchView)
    requires
        path::name_of(search.candidate) is Some,
        !search.name.contains(SLASH),
    ensures
        ({
            let next = search.after_taken();
            let all = path::parts(next.candidate);
            &&& next.file_path == search.file_path
            &&& next.watch_path == search.watch_path
            &&& next.name == search.name
            &&& next.tried == search.tried + 1
            &&& all.len() == path::parts(search.candidate).len()
            &&& all.drop_last() == path::parts(search.candidate).drop_last()
            &&& all.last() matches Part::Normal(name)
            &&& is_numbered(name, search.name, search.tried as int)
        }),
{
    text::lemma_numbered_is_name(search.name, search.tried);
    text::lemma_numbered(search.name, search.tried);
    path::lemma_renamed(search.candidate, text::numbered(search.name, search.tried));
    let all = path::parts(search.after_taken().candidate);
    assert(all.drop_last() =~= path::parts(search.candidate).drop_last());
}

/// Whether `name` is `text`, a dot, and the number `n` in decimal.
pub open spec fn is_numbered(name: Seq<u8>, text: Seq<u8>, n: int) -> bool {
    &&& name.len() > text.len() + 1
    &&& text.is_prefix_of(name)
    &&& name[text.len() as int] == 46
    &&& text::is_number(name.skip(text.len() as int + 1))
    &&& text::number(name.skip(text.len() as int + 1)) == n
}

/// A change of a known file is examined, with the backup that the journal has for it. It counts
/// as a change, and nothing is changed by it yet.
pub proof fn lemma_examined(
    before: journal::JournalView,
    after: journal::JournalView,
    file_path: Seq<u8>,
    step: ModifyStep,
    key: Seq<Part>,
)
    requires
        modifies(before, after, file_path, step),
    ensures
        before.entries.contains_key(path::parts(file_path)) ==> {
            &&& step matches ModifyStep::Examine(change)
            &&& change@.file_path == file_path
            &&& change@.backup_path == before.entries[path::parts(file_path)].backup_path
            &&& after.dirty_count == before.dirty_count + 1
        },
        !before.entries.contains_key(path::parts(file_path)) ==> {
            &&& step matches ModifyStep::Create(p)
            &&& p@ == file_path
            &&& after.dirty_count == before.dirty_count
        },
        after.entries.contains_key(key) == before.entries.contains_key(key),
        before.entries.contains_key(key) ==> after.entries[key] == before.entries[key],
        after.spellings == before.spellings,
        after.base_path == before.base_path,
        after.max_dirty_count == before.max_dirty_count,
{
}

/// A change has the time that the file system tells, in whole seconds, or that of the clock where
/// it tells none. A time before the epoch, or a file that cannot be opened, ends it.
pub proof fn lemma_timed(
    change: ModificationView,
    modified: Result<Option<Timestamp>, std::io::Error>,
    now: int,
    r: Result<TimedModification, HandleFileError>,
)
    requires
        timed_by(change, modified, now, r),
        time::is_moment(now),
        modified matches Ok(Some(t)) ==> time::is_moment(t@),
    ensures
        match modified {
            Err(e) => r == Err::<TimedModification, HandleFileError>(HandleFileError::IO(e)),
            Ok(told) => {
                let moment = match told {
                    Some(t) => t@,
                    None => now,
                };
                if moment < 0 {
                    &&& r matches Err(HandleFileError::SystemTime(e))
                    &&& e.nanos == -moment
                } else {
                    &&& r matches Ok(timed)
                    &&& timed@.file_path == change.file_path
                    &&& timed@.backup_path == change.backup_path
                    &&& timed@.modified * 1_000_000_000 <= moment < (timed@.modified + 1)
                        * 1_000_000_000
                }
            },
        },
{
    time::lemma_unix_secs(
        match modified {
            Ok(Some(t)) => t@,
            _ => now,
        },
    );
}

/// A file that is identical to its backup is left alone. Of another one the journal takes the new
/// time and nothing else, for no other file, and the state to be kept is that of the backup, with
/// the time that the journal had for it. That fails just where the backup has no name.
pub proof fn lemma_decided(
    timed: TimedView,
    identical: bool,
    before: journal::JournalView,
    after: journal::JournalView,
    decision: Decision,
    key: Seq<Part>,
)
    requires
        before.entries.contains_key(path::parts(timed.file_path)),
    ensures
        decided(timed, identical, before, after, decision) ==> {
            let here = path::parts(timed.file_path);
            let entry = before.entries[here];
            &&& identical ==> decision is Unchanged && after == before
            &&& !identical ==> {
                &&& after.entries[here].last_modified == timed.modified
                &&& after.entries[here].file_path == entry.file_path
                &&& after.entries[here].watch_path == entry.watch_path
                &&& after.entries[here].backup_path == entry.backup_path
                &&& after.entries[here].deleted == entry.deleted
                &&& after.entries[here].old_versions == entry.old_versions
                &&& decision is NoName <==> path::name_of(timed.backup_path) is None
                &&& decision is Keep <==> path::name_of(timed.backup_path) is Some
                &&& decision matches Decision::Keep(keep) ==> {
                    &&& keep.file_path == timed.file_path
                    &&& keep.backup_path == timed.backup_path
                    &&& keep.old_version.timestamp == entry.last_modified
                    &&& keep.old_version.file_path == path::renamed(
                        timed.backup_path,
                        text::numbered(
                            text::lossy_utf8(path::name_of(timed.backup_path)->0),
                            entry.last_modified as nat,
                        ),
                    )
                }
            }
            &&& after.entries.contains_key(key) == before.entries.contains_key(key)
            &&& key != here && before.entries.contains_key(key) ==> after.entries[key]
                == before.entries[key]
            &&& after.spellings == before.spellings
            &&& after.dirty_count == before.dirty_count
            &&& after.base_path == before.base_path
            &&& after.max_dirty_count == before.max_dirty_count
        },
{
}

/// A decision is what the step gives back, and a want of a name is what it fails for.
pub proof fn lemma_kept_view(r: Result<Option<KeepOld>, HandleFileError>)
    ensures
        kept_view(r) is Unchanged <==> r matches Ok(None),
        kept_view(r) is Keep <==> r matches Ok(Some(_)),
        r matches Ok(Some(keep)) ==> kept_view(r) == Decision::Keep(keep@),
        kept_view(r) is NoName <==> r == Err::<Option<KeepOld>, HandleFileError>(
            HandleFileError::InvalidFilePath,
        ),
{
}

/// The old state is kept in the directory of the backup. Where the name of the backup is text, it
/// is kept under that name, a dot, and its time.
pub proof fn lemma_kept_apart(keep: KeepView)
    requires
        kept_apart(keep),
    ensures
        ({
            let version = path::parts(keep.old_version.file_path);
            let backup = path::parts(keep.backup_path);
            &&& version.len() == backup.len()
            &&& version.len() > 0
            &&& version.drop_last() == backup.drop_last()
            &&& backup.last() matches Part::Normal(name)
            &&& vstd::utf8::valid_utf8(name) ==> (version.last() matches Part::Normal(kept)
                && is_numbered(kept, name, keep.old_version.timestamp as int))
        }),
{
    let name = path::name_of(keep.backup_path)->0;
    lemma_name_without_slash(keep.backup_path);
    lemma_version_path(keep.backup_path, name, keep.old_version.timestamp);
    text::lemma_numbered(name, keep.old_version.timestamp as nat);
    let version = path::parts(keep.old_version.file_path);
    assert(version.drop_last().len() == path::parts(keep.backup_path).drop_last().len());
}

/// An old state comes behind those that were kept before, and all else that the journal has for
/// the file stays. A change leaves the old states and all else but the time.
pub proof fn lemma_entry_changes(entry: EntryView, modified: u64, version: OldVersionView)
    ensures
        with_version(entry, version).old_versions == entry.old_versions.push(version),
        with_version(entry, version).file_path == entry.file_path,
        with_version(entry, version).watch_path == entry.watch_path,
        with_version(entry, version).backup_path == entry.backup_path,
        with_version(entry, version).last_modified == entry.last_modified,
        with_version(entry, version).deleted == entry.deleted,
        touched(entry, modified).last_modified == modified,
        touched(entry, modified).old_versions == entry.old_versions,
        touched(entry, modified).file_path == entry.file_path,
        touched(entry, modified).watch_path == entry.watch_path,
        touched(entry, modified).backup_path == entry.backup_path,
        touched(entry, modified).deleted == entry.deleted,
{
}

/// The new state is copied over the backup, once the old one has been kept.
pub proof fn lemma_keep_copy(keep: KeepView)
    ensures
        keep.copy().from == keep.file_path,
        keep.copy().to == keep.backup_path,
        keep.copy().make_dir is None,
{
}

/// A known file that was removed has the time of its removal, in whole seconds, and all else that
/// the journal has for it; a removal before the epoch fails and is not entered. Either counts as
/// a change. Other files, and all of them where the file is not known, are as they were.
pub proof fn lemma_removed(
    before: journal::JournalView,
    after: journal::JournalView,
    file_path: Seq<u8>,
    now: int,
    r: Result<(), HandleFileError>,
    key: Seq<Part>,
)
    requires
        removes(before, after, file_path, now, r),
        time::is_moment(now),
    ensures
        ({
            let here = path::parts(file_path);
            let entry = before.entries[here];
            if before.entries.contains_key(here) {
                &&& after.dirty_count == before.dirty_count + 1
                &&& after.entries.contains_key(here)
                &&& after.entries[here].file_path == entry.file_path
                &&& after.entries[here].watch_path == entry.watch_path
                &&& after.entries[here].backup_path == entry.backup_path
                &&& after.entries[here].last_modified == entry.last_modified
                &&& after.entries[here].old_versions == entry.old_versions
                &&& if now < 0 {
                    &&& r matches Err(HandleFileError::SystemTime(e))
                    &&& e.nanos == -now
                    &&& after.entries[here].deleted == entry.deleted
                } else {
                    &&& r is Ok
                    &&& after.entries[here].deleted matches Some(secs)
                    &&& secs * 1_000_000_000 <= now < (secs + 1) * 1_000_000_000
                }
            } else {
                r is Ok && after == before
            }
        }),
        after.entries.contains_key(key) == before.entries.contains_key(key),
        key != path::parts(file_path) && before.entries.contains_key(key) ==> after.entries[key]
            == before.entries[key],
        after.spellings == before.spellings,
        after.base_path == before.base_path,
        after.max_dirty_count == before.max_dirty_count,
{
    time::lemma_unix_secs(now);
}

} // verus!
