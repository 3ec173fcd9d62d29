//! Looking through directories: which files there are, and which of them need a backup.
//!
//! Both a walk and a rescan are handed on from step to step. A failure ends them: it gives
//! nothing back that files or intents could be had from.
use vstd::prelude::*;

use crate::config::{Config, ConfigView};
use crate::journal::{EntryView, Journal, JournalView};
use crate::path;
use crate::path::{FsPath, Part};
use crate::time;
use crate::time::Timestamp;
use crate::worker::error::RescanError;
use crate::worker::intent::{IntentKind, IntentView, WorkerIntent};
use crate::worker::message;

verus! {

/// What an entry of a directory is. A link is neither a file nor a directory.
#[derive(Debug, PartialEq, Eq, Structural, Copy, Clone)]
pub enum FileKind {
    File,
    Dir,
    Other,
}

/// A walk through a directory and those in it.
#[derive(Debug)]
pub struct FileWalk {
    depth: usize,
    files: Vec<FsPath>,
}

/// The contents of a `FileWalk`.
#[verifier::ext_equal]
pub struct WalkView {
    /// How many directories are open, one in the other.
    pub depth: nat,
    /// The files found so far.
    pub files: Seq<Seq<u8>>,
}

impl View for FileWalk {
    type V = WalkView;

    closed spec fn view(&self) -> WalkView {
        WalkView { depth: self.depth as nat, files: message::path_views(self.files@) }
    }
}

/// What comes next on a walk.
#[derive(Debug)]
pub enum WalkStep {
    /// Ask whether the path leads to a file, and go on with `FileWalk::probed`.
    Probe(FsPath, FileWalk),
    /// Open the directory, and go on with `FileWalk::opened`.
    Open(FsPath, FileWalk),
    /// Ask the directory that was opened last for its next entry, and go on with
    /// `FileWalk::entry`.
    Next(FileWalk),
    /// The walk is over, and these are the files.
    Done(Vec<FsPath>),
}

impl WalkView {
    /// The walk before its first step.
    pub open spec fn start() -> WalkView {
        WalkView { depth: 0, files: Seq::empty() }
    }

    /// The walk once `file` has been found.
    pub open spec fn found(self, file: Seq<u8>) -> WalkView {
        WalkView { files: self.files.push(file), ..self }
    }

    /// The walk once a directory has been entered.
    pub open spec fn deeper(self) -> WalkView {
        WalkView { depth: self.depth + 1, ..self }
    }

    /// The walk after an entry of the directory that was opened last, or after its end, unless
    /// the directory could not be read.
    pub open spec fn entry(
        self,
        entry: Result<Option<(Seq<u8>, FileKind)>, std::io::Error>,
    ) -> Result<WalkView, std::io::Error> {
        match entry {
            Ok(Some((path, FileKind::File))) => Ok(self.found(path)),
            Ok(Some(_)) => Ok(self),
            Ok(None) => Ok(WalkView { depth: (self.depth - 1) as nat, ..self }),
            Err(e) => Err(e),
        }
    }

    /// Whether `step` goes on where the walk is: with the directory that was opened last, if
    /// one is open. Only where none is, the files are given out.
    pub open spec fn resumes(self, step: WalkStep) -> bool {
        if self.depth == 0 {
            step matches WalkStep::Done(files) && message::path_views(files@) == self.files
        } else {
            step matches WalkStep::Next(walk) && walk@ == self
        }
    }
}

/// The answer of a directory, in terms of spellings.
pub open spec fn entry_view(
    entry: Result<Option<(FsPath, FileKind)>, std::io::Error>,
) -> Result<Option<(Seq<u8>, FileKind)>, std::io::Error> {
    match entry {
        Ok(Some((path, kind))) => Ok(Some((path@, kind))),
        Ok(None) => Ok(None),
        Err(e) => Err(e),
    }
}

impl FileWalk {
    /// The start of a walk. The path that it starts from is to be probed.
    pub fn new() -> (r: FileWalk)
        ensures
            r@ == WalkView::start(),
    {
        let r: FileWalk = FileWalk { depth: 0, files: Vec::new() };
        assert(r@.files =~= Seq::empty());
        r
    }

    /// Notes `path` down as a file.
    fn note(&mut self, path: FsPath)
        ensures
            final(self)@ == old(self)@.found(path@),
    {
        self.files.push(path);
        assert(self@.files =~= old(self)@.files.push(path@));
    }

    /// Goes on where the walk is.
    fn resume(self) -> (r: WalkStep)
        ensures
            self@.resumes(r),
    {
        if self.depth == 0 {
            WalkStep::Done(self.files)
        } else {
            WalkStep::Next(self)
        }
    }

    /// How many directories are open.
    pub fn depth(&self) -> (r: usize)
        ensures
            r == self@.depth,
    {
        self.depth
    }

    /// Takes note of whether `path` leads to a file. If not, it is taken for a directory.
    pub fn probed(self, path: FsPath, is_file: bool) -> (r: WalkStep)
        requires
            self@.depth < usize::MAX,
        ensures
            if is_file {
                self@.found(path@).resumes(r)
            } else {
                r matches WalkStep::Open(dir, walk) && dir@ == path@ && walk@ == self@.deeper()
            },
    {
        let mut walk: FileWalk = self;
        if is_file {
            walk.note(path);
            walk.resume()
        } else {
            walk.depth = walk.depth + 1;
            WalkStep::Open(path, walk)
        }
    }

    /// Takes note of how the opening of a directory ended. A failure ends the walk.
    pub fn opened(self, outcome: Result<(), std::io::Error>) -> (r: Result<
        WalkStep,
        std::io::Error,
    >)
        requires
            self@.depth > 0,
        ensures
            match outcome {
                Ok(_) => r matches Ok(step) && self@.resumes(step),
                Err(e) => r == Err::<WalkStep, std::io::Error>(e),
            },
    {
        match outcome {
            Ok(_) => Ok(self.resume()),
            Err(e) => Err(e),
        }
    }

    /// Takes note of an entry of the directory that was opened last, or of its end. A failure
    /// ends the walk.
    pub fn entry(self, entry: Result<Option<(FsPath, FileKind)>, std::io::Error>) -> (r: Result<
        WalkStep,
        std::io::Error,
    >)
        requires
            self@.depth > 0,
        ensures
            match self@.entry(entry_view(entry)) {
                Ok(after) => r matches Ok(step) && match entry {
                    Ok(Some((path, FileKind::Dir))) => step matches WalkStep::Probe(p, walk) && p@
                        == path@ && walk@ == after,
                    _ => after.resumes(step),
                },
                Err(e) => r == Err::<WalkStep, std::io::Error>(e),
            },
    {
        let mut walk: FileWalk = self;
        match entry {
            Ok(Some((path, kind))) => {
                match kind {
                    FileKind::File => {
                        walk.note(path);
                        Ok(walk.resume())
                    },
                    FileKind::Dir => Ok(WalkStep::Probe(path, walk)),
                    FileKind::Other => Ok(walk.resume()),
                }
            },
            Ok(None) => {
                walk.depth = walk.depth - 1;
                Ok(walk.resume())
            },
            Err(e) => Err(e),
        }
    }
}

/// A file that is found comes behind those that were found before. A directory that is entered
/// and left again changes nothing.
pub proof fn lemma_walk_entries(v: WalkView, path: Seq<u8>, e: std::io::Error)
    ensures
        v.found(path).files == v.files.push(path),
        v.found(path).depth == v.depth,
        v.deeper().files == v.files,
        v.deeper().depth == v.depth + 1,
        v.entry(Ok(Some((path, FileKind::File)))) == Ok::<WalkView, std::io::Error>(
            WalkView { depth: v.depth, files: v.files.push(path) },
        ),
        v.entry(Ok(Some((path, FileKind::Dir)))) == Ok::<WalkView, std::io::Error>(v),
        v.entry(Ok(Some((path, FileKind::Other)))) == Ok::<WalkView, std::io::Error>(v),
        v.deeper().entry(Ok(None)) == Ok::<WalkView, std::io::Error>(v),
        v.entry(Err(e)) == Err::<WalkView, std::io::Error>(e),
        WalkView::start().files.len() == 0,
        WalkView::start().depth == 0,
{
}

/// A walk gives out all files that it found, in order, when no directory is open, and goes on
/// with all of them while one is.
pub proof fn lemma_resumed(v: WalkView, step: WalkStep)
    requires
        v.resumes(step),
    ensures
        v.depth == 0 <==> step is Done,
        step matches WalkStep::Done(files) ==> files@.len() == v.files.len() && forall|i: int|
            0 <= i < v.files.len() ==> (#[trigger] files@[i])@ == v.files[i],
        v.depth > 0 ==> (step matches WalkStep::Next(walk) && walk@.depth == v.depth && walk@.files
            == v.files),
{
    if let WalkStep::Done(files) = step {
        assert forall|i: int| 0 <= i < v.files.len() implies (#[trigger] files@[i])@
            == v.files[i] by {
            assert(message::path_views(files@)[i] == v.files[i]);
        }
    }
}

/// What a directory answers is taken as it is.
pub proof fn lemma_entry_view(path: FsPath, kind: FileKind, e: std::io::Error)
    ensures
        entry_view(Ok(Some((path, kind)))) == Ok::<
            Option<(Seq<u8>, FileKind)>,
            std::io::Error,
        >(Some((path@, kind))),
        entry_view(Ok(None)) == Ok::<Option<(Seq<u8>, FileKind)>, std::io::Error>(None),
        entry_view(Err(e)) == Err::<Option<(Seq<u8>, FileKind)>, std::io::Error>(e),
{
}

/// A part of a file system.
pub enum Tree {
    File(Seq<u8>),
    /// A directory: the entries that it lists, and what then goes wrong, if something does. Of
    /// one that cannot be opened there are no entries.
    Dir(Seq<u8>, Seq<Tree>, Option<std::io::Error>),
    Other(Seq<u8>),
}

/// The files in `t`, directory by directory, in the order of the entries.
pub open spec fn files_in(t: Tree) -> Seq<Seq<u8>>
    decreases t,
{
    match t {
        Tree::File(path) => seq![path],
        Tree::Dir(path, entries, fault) => files_among(entries),
        Tree::Other(path) => Seq::empty(),
    }
}

/// The files in `ts`, one after the other.
pub open spec fn files_among(ts: Seq<Tree>) -> Seq<Seq<u8>>
    decreases ts,
{
    if ts.len() == 0 {
        Seq::empty()
    } else {
        files_among(ts.drop_last()) + files_in(ts.last())
    }
}

/// The first thing that goes wrong when all of `t` is read, if something does.
pub open spec fn fault_in(t: Tree) -> Option<std::io::Error>
    decreases t,
{
    match t {
        Tree::Dir(path, entries, fault) => match fault_among(entries) {
            Some(e) => Some(e),
            None => fault,
        },
        _ => None,
    }
}

/// The first thing that goes wrong when all of `ts` is read, if something does.
pub open spec fn fault_among(ts: Seq<Tree>) -> Option<std::io::Error>
    decreases ts,
{
    if ts.len() == 0 {
        None
    } else {
        match fault_among(ts.drop_last()) {
            Some(e) => Some(e),
            None => fault_in(ts.last()),
        }
    }
}

/// The walk `v` after the entry `t`, and all that is in it, unless it failed on the way.
pub open spec fn walked(v: WalkView, t: Tree) -> Result<WalkView, std::io::Error>
    decreases t,
{
    match t {
        Tree::File(path) => v.entry(Ok(Some((path, FileKind::File)))),
        Tree::Dir(path, entries, fault) => match v.entry(Ok(Some((path, FileKind::Dir)))) {
            Ok(w) => match walked_all(w.deeper(), entries) {
                Ok(x) => x.entry(
                    match fault {
                        Some(e) => Err(e),
                        None => Ok(None),
                    },
                ),
                Err(e) => Err(e),
            },
            Err(e) => Err(e),
        },
        Tree::Other(path) => v.entry(Ok(Some((path, FileKind::Other)))),
    }
}

/// The walk `v` after the entries `ts`, and all that is in them, unless it failed on the way.
pub open spec fn walked_all(v: WalkView, ts: Seq<Tree>) -> Result<WalkView, std::io::Error>
    decreases ts,
{
    if ts.len() == 0 {
        Ok(v)
    } else {
        match walked_all(v, ts.drop_last()) {
            Ok(w) => walked(w, ts.last()),
            Err(e) => Err(e),
        }
    }
}

/// What the walk `v` comes to where `files` are to be found and `fault` is met.
pub open spec fn walk_outcome(
    v: WalkView,
    files: Seq<Seq<u8>>,
    fault: Option<std::io::Error>,
) -> Result<WalkView, std::io::Error> {
    match fault {
        Some(e) => Err(e),
        None => Ok(WalkView { depth: v.depth, files: v.files + files }),
    }
}

/// A walk finds the files of what it passes, each once and in order, and leaves each directory
/// that it entered; but where a directory at any depth cannot be read, it fails as a whole.
pub proof fn lemma_walked(v: WalkView, t: Tree)
    ensures
        walked(v, t) == walk_outcome(v, files_in(t), fault_in(t)),
    decreases t,
{
    match t {
        Tree::File(path) => {
            assert(v.files.push(path) =~= v.files + seq![path]);
        },
        Tree::Dir(path, entries, fault) => {
            lemma_walked_all(v.deeper(), entries);
        },
        Tree::Other(path) => {
            assert(v.files + Seq::<Seq<u8>>::empty() =~= v.files);
        },
    }
}

/// A walk finds the files of the entries that it passes, each once and in order, unless one of
/// them cannot be read.
pub proof fn lemma_walked_all(v: WalkView, ts: Seq<Tree>)
    ensures
        walked_all(v, ts) == walk_outcome(v, files_among(ts), fault_among(ts)),
    decreases ts,
{
    if ts.len() == 0 {
        assert(v.files + Seq::<Seq<u8>>::empty() =~= v.files);
    } else {
        lemma_walked_all(v, ts.drop_last());
        if let Ok(w) = walked_all(v, ts.drop_last()) {
            lemma_walked(w, ts.last());
            assert((v.files + files_among(ts.drop_last())) + files_in(ts.last()) =~= v.files
                + files_among(ts));
        }
    }
}

/// A walk that starts from a file finds that file. One that starts from a directory finds the
/// files in it and ends with no directory open, or fails with the first fault.
pub proof fn lemma_enumerated(t: Tree)
    ensures
        t matches Tree::File(path) ==> WalkView::start().found(path) == (WalkView {
            depth: 0,
            files: files_in(t),
        }),
        walked(WalkView::start(), t) == match fault_in(t) {
            Some(e) => Err::<WalkView, std::io::Error>(e),
            None => Ok(WalkView { depth: 0, files: files_in(t) }),
        },
{
    lemma_walked(WalkView::start(), t);
    assert(WalkView::start().files + files_in(t) =~= files_in(t));
    if let Tree::File(path) = t {
        assert(WalkView::start().files.push(path) =~= files_in(t));
    }
}

/// A look through the watched directories: what is left of it, and what it has brought up.
#[derive(Debug)]
pub struct RescanPlan {
    dirs: Vec<FsPath>,
    files: Vec<FsPath>,
    new_files: Vec<FsPath>,
    modified_files: Vec<FsPath>,
}

/// The files that need a backup.
#[verifier::ext_equal]
pub struct FindingsView {
    /// The files that the journal does not know.
    pub new_files: Seq<Seq<u8>>,
    /// The files that were modified since their backup.
    pub modified_files: Seq<Seq<u8>>,
}

/// The contents of a `RescanPlan`.
#[verifier::ext_equal]
pub struct RescanView {
    /// The watched directories that are left.
    pub dirs: Seq<Seq<u8>>,
    /// The files of directories before them that are left.
    pub files: Seq<Seq<u8>>,
    /// What has been brought up.
    pub findings: FindingsView,
}

impl View for RescanPlan {
    type V = RescanView;

    closed spec fn view(&self) -> RescanView {
        RescanView {
            dirs: message::path_views(self.dirs@),
            files: message::path_views(self.files@),
            findings: FindingsView {
                new_files: message::path_views(self.new_files@),
                modified_files: message::path_views(self.modified_files@),
            },
        }
    }
}

/// The intents that a complete look through the watched directories has led to. Only
/// `RescanPlan::next_step` gives them out, once nothing is left.
#[derive(Debug)]
pub struct RescanIntents {
    new_files: Vec<FsPath>,
    modified_files: Vec<FsPath>,
}

impl View for RescanIntents {
    type V = FindingsView;

    /// The files that intents have not been drawn for.
    closed spec fn view(&self) -> FindingsView {
        FindingsView {
            new_files: message::path_views(self.new_files@),
            modified_files: message::path_views(self.modified_files@),
        }
    }
}

/// What comes next on a look through the watched directories.
#[derive(Debug)]
pub enum RescanStep {
    /// Look for the files in the directory, and go on with `RescanPlan::enumerated`.
    Enumerate(FsPath, RescanPlan),
    /// Ask what the file system tells of the file, and go on with `RescanPlan::examined`.
    Examine(FsPath, RescanPlan),
    /// Nothing is left: carry the intents out.
    Draw(RescanIntents),
}

/// Whether the journal does not know `path`.
pub open spec fn is_new(journal: JournalView, path: Seq<u8>) -> bool {
    !journal.knows(path)
}

/// Whether the journal knows `path`, and `secs` is later than what it says of it.
pub open spec fn is_newer(journal: JournalView, path: Seq<u8>, secs: u64) -> bool {
    journal.knows(path) && secs > journal.entry(path).last_modified
}

/// What the file system tells of a file: nothing, or perhaps when it was last modified.
pub type Metadata = Result<Result<Timestamp, std::io::Error>, std::io::Error>;

impl FindingsView {
    /// Nothing.
    pub open spec fn nothing() -> FindingsView {
        FindingsView { new_files: Seq::empty(), modified_files: Seq::empty() }
    }

    /// What has been brought up after the file `path`, last modified at `secs`.
    pub open spec fn observed(
        self,
        journal: JournalView,
        path: Seq<u8>,
        secs: u64,
    ) -> FindingsView {
        if is_new(journal, path) {
            FindingsView { new_files: self.new_files.push(path), ..self }
        } else if is_newer(journal, path, secs) {
            FindingsView { modified_files: self.modified_files.push(path), ..self }
        } else {
            self
        }
    }

    /// What has been brought up after the file `path`, of which the file system told `metadata`,
    /// or the failure that ends the scan. When a new file was modified does not matter.
    pub open spec fn examined(
        self,
        journal: JournalView,
        path: Seq<u8>,
        metadata: Metadata,
    ) -> Result<FindingsView, RescanError> {
        match metadata {
            Ok(modified) => if is_new(journal, path) {
                Ok(self.observed(journal, path, 0))
            } else {
                match modified {
                    Ok(t) => match time::unix_secs_at(t@) {
                        Ok(secs) => Ok(self.observed(journal, path, secs)),
                        Err(e) => Err(RescanError::SystemTime(e)),
                    },
                    Err(e) => Err(RescanError::IO(e)),
                }
            },
            Err(e) => Err(RescanError::IO(e)),
        }
    }
}

impl RescanView {
    /// The look that starts with the watched directories of `config`.
    pub open spec fn start(config: ConfigView) -> RescanView {
        RescanView {
            dirs: Seq::new(config.watch_paths.len(), |i: int| config.watch_paths[i].path),
            files: Seq::empty(),
            findings: FindingsView::nothing(),
        }
    }

    /// Whether `step` is the next one: the files of a directory come before the next directory,
    /// and the intents come when neither is left.
    pub open spec fn leads_to(self, step: RescanStep) -> bool {
        if self.files.len() > 0 {
            step matches RescanStep::Examine(path, plan) && path@ == self.files[0] && plan@ == (
            RescanView { files: self.files.skip(1), ..self })
        } else if self.dirs.len() > 0 {
            step matches RescanStep::Enumerate(dir, plan) && dir@ == self.dirs[0] && plan@ == (
            RescanView { dirs: self.dirs.skip(1), ..self })
        } else {
            step matches RescanStep::Draw(intents) && intents@ == self.findings
        }
    }
}

impl RescanPlan {
    /// A look that starts with the watched directories of `config`.
    pub fn new(config: &Config) -> (r: RescanPlan)
        ensures
            r@ == RescanView::start(config@),
    {
        let mut dirs: Vec<FsPath> = Vec::new();
        let mut i: usize = 0;
        while i < config.watch_paths.len()
            invariant
                i <= config.watch_paths@.len(),
                dirs@.len() == i,
                forall|j: int|
                    0 <= j < i ==> (#[trigger] dirs@[j])@ == config@.watch_paths[j].path,
            decreases config.watch_paths@.len() - i,
        {
            dirs.push(config.watch_paths[i].path().clone());
            i = i + 1;
        }
        let r: RescanPlan = RescanPlan {
            dirs,
            files: Vec::new(),
            new_files: Vec::new(),
            modified_files: Vec::new(),
        };
        assert(r@.dirs =~= RescanView::start(config@).dirs);
        assert(r@.files =~= Seq::empty());
        assert(r@.findings =~= FindingsView::nothing());
        r
    }

    /// What comes next.
    pub fn next_step(self) -> (r: RescanStep)
        ensures
            self@.leads_to(r),
    {
        let mut plan: RescanPlan = self;
        if plan.files.len() > 0 {
            let path: FsPath = plan.files.remove(0);
            assert(plan@.files =~= self@.files.skip(1));
            RescanStep::Examine(path, plan)
        } else if plan.dirs.len() > 0 {
            let dir: FsPath = plan.dirs.remove(0);
            assert(plan@.dirs =~= self@.dirs.skip(1));
            RescanStep::Enumerate(dir, plan)
        } else {
            RescanStep::Draw(
                RescanIntents { new_files: plan.new_files, modified_files: plan.modified_files },
            )
        }
    }

    /// Takes note of the files that were found in a directory. A failure ends the scan.
    pub fn enumerated(self, found: Result<Vec<FsPath>, std::io::Error>) -> (r: Result<
        RescanPlan,
        RescanError,
    >)
        ensures
            match found {
                Ok(files) => r matches Ok(plan) && plan@ == (RescanView {
                    files: self@.files + message::path_views(files@),
                    ..self@
                }),
                Err(e) => r == Err::<RescanPlan, RescanError>(RescanError::IO(e)),
            },
    {
        match found {
            Ok(files) => {
                let ghost more = message::path_views(files@);
                let mut files: Vec<FsPath> = files;
                let mut plan: RescanPlan = self;
                plan.files.append(&mut files);
                assert(plan@.files =~= self@.files + more);
                Ok(plan)
            },
            Err(e) => Err(RescanError::IO(e)),
        }
    }

    /// Takes note of the file `path`, of which the file system told `metadata`. A failure ends
    /// the scan.
    pub fn examined(self, journal: &Journal, path: FsPath, metadata: Metadata) -> (r: Result<
        RescanPlan,
        RescanError,
    >)
        requires
            journal.wf(),
        ensures
            match self@.findings.examined(journal@, path@, metadata) {
                Ok(findings) => r matches Ok(plan) && plan@ == (RescanView { findings, ..self@ }),
                Err(e) => r == Err::<RescanPlan, RescanError>(e),
            },
    {
        let modified: Result<Timestamp, std::io::Error> = match metadata {
            Ok(modified) => modified,
            Err(e) => return Err(RescanError::IO(e)),
        };
        let mut plan: RescanPlan = self;
        match journal.find_entry(&path) {
            Some(entry) => {
                let t: Timestamp = match modified {
                    Ok(t) => t,
                    Err(e) => return Err(RescanError::IO(e)),
                };
                match t.unix_secs() {
                    Ok(secs) => {
                        if secs > entry.last_modified {
                            plan.modified_files.push(path);
                            assert(plan@.findings.modified_files
                                =~= self@.findings.modified_files.push(path@));
                        }
                        Ok(plan)
                    },
                    Err(e) => Err(RescanError::SystemTime(e)),
                }
            },
            None => {
                plan.new_files.push(path);
                assert(plan@.findings.new_files =~= self@.findings.new_files.push(path@));
                Ok(plan)
            },
        }
    }
}

impl RescanIntents {
    /// The next intent, made at `now`: the new files come first, then the modified ones.
    pub fn next_intent_at(&mut self, now: &Timestamp) -> (r: Option<WorkerIntent>)
        ensures
            drawn(old(self)@, final(self)@, now@, r),
    {
        if self.new_files.len() > 0 {
            let path: FsPath = self.new_files.remove(0);
            assert(self@.new_files =~= old(self)@.new_files.skip(1));
            Some(WorkerIntent { path, kind: IntentKind::Create, timestamp: *now })
        } else if self.modified_files.len() > 0 {
            let path: FsPath = self.modified_files.remove(0);
            assert(self@.modified_files =~= old(self)@.modified_files.skip(1));
            Some(WorkerIntent { path, kind: IntentKind::Modify, timestamp: *now })
        } else {
            None
        }
    }

    /// The next intent, made at the time that the clock shows.
    pub fn next_intent(&mut self) -> (r: Option<WorkerIntent>)
        ensures
            exists|now: int|
                time::is_moment(now) && #[trigger] drawn(old(self)@, final(self)@, now, r),
    {
        let now: Timestamp = Timestamp::now();
        self.next_intent_at(&now)
    }
}

/// Whether `intent`, made at `now`, is the next for the files `before`, and `after` is what is
/// left of them: the new files come first, then the modified ones.
pub open spec fn drawn(
    before: FindingsView,
    after: FindingsView,
    now: int,
    intent: Option<WorkerIntent>,
) -> bool {
    if before.new_files.len() > 0 {
        &&& intent matches Some(w)
        &&& w@ == (IntentView {
            path: before.new_files[0],
            kind: IntentKind::Create,
            timestamp: now,
        })
        &&& after == (FindingsView { new_files: before.new_files.skip(1), ..before })
    } else if before.modified_files.len() > 0 {
        &&& intent matches Some(w)
        &&& w@ == (IntentView {
            path: before.modified_files[0],
            kind: IntentKind::Modify,
            timestamp: now,
        })
        &&& after == (FindingsView { modified_files: before.modified_files.skip(1), ..before })
    } else {
        intent is None && after == before
    }
}

/// What the file system answers in the course of a scan.
pub enum Report {
    /// The files of a directory cannot be enumerated.
    Unreadable(std::io::Error),
    /// What there is to tell of a file.
    File(Seq<u8>, Metadata),
}

/// What has been brought up after one more report, or the failure that ends the scan.
pub open spec fn reported(
    findings: FindingsView,
    journal: JournalView,
    report: Report,
) -> Result<FindingsView, RescanError> {
    match report {
        Report::Unreadable(e) => Err(RescanError::IO(e)),
        Report::File(path, metadata) => findings.examined(journal, path, metadata),
    }
}

/// What a scan has brought up after all of `reports`, or the failure that ended it.
pub open spec fn scanned(journal: JournalView, reports: Seq<Report>) -> Result<
    FindingsView,
    RescanError,
>
    decreases reports.len(),
{
    if reports.len() == 0 {
        Ok(FindingsView::nothing())
    } else {
        match scanned(journal, reports.drop_last()) {
            Ok(findings) => reported(findings, journal, reports.last()),
            Err(e) => Err(e),
        }
    }
}

/// The file of a report, with the time when it was last modified where that is told.
pub open spec fn timed_file(report: Report) -> (Seq<u8>, u64) {
    match report {
        Report::File(path, Ok(Ok(t))) => match time::unix_secs_at(t@) {
            Ok(secs) => (path, secs),
            Err(_) => (path, 0),
        },
        Report::File(path, _) => (path, 0),
        Report::Unreadable(_) => (Seq::empty(), 0),
    }
}

/// One more report carries a scan one step further, unless it has failed.
pub proof fn lemma_scan_next(journal: JournalView, reports: Seq<Report>, report: Report)
    ensures
        scanned(journal, reports.push(report)) == match scanned(journal, reports) {
            Ok(findings) => reported(findings, journal, report),
            Err(e) => Err(e),
        },
{
    assert(reports.push(report).drop_last() =~= reports);
}

/// The first failure decides: whatever else is reported, the scan has ended with it.
pub proof fn lemma_scan_fails(journal: JournalView, reports: Seq<Report>, n: int)
    requires
        0 <= n <= reports.len(),
        scanned(journal, reports.take(n)) is Err,
    ensures
        scanned(journal, reports) == scanned(journal, reports.take(n)),
    decreases reports.len(),
{
    if n == reports.len() {
        assert(reports.take(n) =~= reports);
    } else {
        assert(reports.drop_last().take(n) =~= reports.take(n));
        lemma_scan_fails(journal, reports.drop_last(), n);
    }
}

/// A scan in which the files of a directory cannot be enumerated, nothing can be told of a file,
/// or a known file was modified before the epoch or at no time that is told, fails.
pub proof fn lemma_scan_fault(journal: JournalView, reports: Seq<Report>, n: int)
    requires
        0 <= n < reports.len(),
        match reports[n] {
            Report::Unreadable(_) => true,
            Report::File(path, Err(_)) => true,
            Report::File(path, Ok(Err(_))) => journal.knows(path),
            Report::File(path, Ok(Ok(t))) => journal.knows(path) && t@ < 0,
        },
    ensures
        scanned(journal, reports) is Err,
{
    let upto = reports.take(n + 1);
    assert(upto.last() == reports[n]);
    assert(scanned(journal, upto) is Err);
    lemma_scan_fails(journal, reports, n + 1);
}

/// The seconds at which a file was last modified, where that is told, and 0 where it is not.
pub open spec fn seconds_told(metadata: Metadata) -> int {
    match metadata {
        Ok(Ok(t)) => if t@ >= 0 {
            t@ / 1_000_000_000
        } else {
            0
        },
        _ => 0,
    }
}

/// What one file comes to. A file of which nothing can be told fails the scan, and so does a
/// known file whose time is not told or lies before the epoch. Otherwise a file that the journal
/// does not know comes behind the new ones, and a known file comes behind the modified ones just
/// where its time, in whole seconds, is later than what the journal has for it.
pub proof fn lemma_examined(
    findings: FindingsView,
    journal: JournalView,
    path: Seq<u8>,
    metadata: Metadata,
)
    requires
        metadata matches Ok(Ok(t)) ==> time::is_moment(t@),
    ensures
        ({
            let key = path::parts(path);
            let known = journal.entries.contains_key(key);
            let later = seconds_told(metadata) > journal.entries[key].last_modified;
            let r = findings.examined(journal, path, metadata);
            match metadata {
                Err(e) => r == Err::<FindingsView, RescanError>(RescanError::IO(e)),
                Ok(modified) => if !known {
                    &&& r matches Ok(after)
                    &&& after.new_files == findings.new_files.push(path)
                    &&& after.modified_files == findings.modified_files
                } else {
                    match modified {
                        Err(e) => r == Err::<FindingsView, RescanError>(RescanError::IO(e)),
                        Ok(t) => if t@ < 0 {
                            &&& r matches Err(RescanError::SystemTime(e))
                            &&& e.nanos == -t@
                        } else {
                            &&& r matches Ok(after)
                            &&& after.new_files == findings.new_files
                            &&& after.modified_files == if later {
                                findings.modified_files.push(path)
                            } else {
                                findings.modified_files
                            }
                        },
                    }
                },
            }
        }),
{
    if let Ok(Ok(t)) = metadata {
        time::lemma_unix_secs(t@);
    }
}

/// The file of a report, and the second at which it was last modified.
pub open spec fn told_of(report: Report) -> (Seq<u8>, int) {
    match report {
        Report::File(path, metadata) => (path, seconds_told(metadata)),
        Report::Unreadable(_) => (Seq::empty(), 0),
    }
}

/// The files of `reports` that have no entry, in order.
pub open spec fn without_entry(entries: Map<Seq<Part>, EntryView>, reports: Seq<Report>) -> Seq<
    Seq<u8>,
> {
    reports.map_values(|r: Report| told_of(r)).filter(
        |f: (Seq<u8>, int)| !entries.contains_key(path::parts(f.0)),
    ).map_values(|f: (Seq<u8>, int)| f.0)
}

/// The files of `reports` that have an entry with an earlier time, in order.
pub open spec fn with_older_entry(
    entries: Map<Seq<Part>, EntryView>,
    reports: Seq<Report>,
) -> Seq<Seq<u8>> {
    reports.map_values(|r: Report| told_of(r)).filter(
        |f: (Seq<u8>, int)|
            entries.contains_key(path::parts(f.0)) && f.1 > entries[path::parts(
                f.0,
            )].last_modified,
    ).map_values(|f: (Seq<u8>, int)| f.0)
}

/// Whether the times in `reports` are such as a clock can show.
pub open spec fn tells_moments(reports: Seq<Report>) -> bool {
    forall|i: int|
        0 <= i < reports.len() ==> (#[trigger] reports[i] matches Report::File(_, Ok(Ok(t)))
            ==> time::is_moment(t@))
}

/// A scan that does not fail brings up exactly the files that the journal does not know and
/// those that were modified since their backup, in the order in which they were reported.
pub proof fn lemma_scanned(journal: JournalView, reports: Seq<Report>)
    requires
        scanned(journal, reports) is Ok,
    ensures
        scanned(journal, reports)->Ok_0 == (FindingsView {
            new_files: reports.map_values(|r: Report| timed_file(r)).filter(
                |f: (Seq<u8>, u64)| is_new(journal, f.0),
            ).map_values(|f: (Seq<u8>, u64)| f.0),
            modified_files: reports.map_values(|r: Report| timed_file(r)).filter(
                |f: (Seq<u8>, u64)| is_newer(journal, f.0, f.1),
            ).map_values(|f: (Seq<u8>, u64)| f.0),
        }),
    decreases reports.len(),
{
    reveal(Seq::filter);
    let name = |f: (Seq<u8>, u64)| f.0;
    let new = |f: (Seq<u8>, u64)| is_new(journal, f.0);
    let newer = |f: (Seq<u8>, u64)| is_newer(journal, f.0, f.1);
    let timed = |r: Report| timed_file(r);
    let files = reports.map_values(timed);
    let all = scanned(journal, reports)->Ok_0;
    if reports.len() > 0 {
        let front = reports.drop_last();
        let last = timed_file(reports.last());
        lemma_scanned(journal, front);
        let before = front.map_values(timed);
        assert(files.drop_last() =~= before);
        assert(files.last() == last);
        assert(before.filter(new).push(last).map_values(name) =~= before.filter(new).map_values(
            name,
        ).push(last.0));
        assert(before.filter(newer).push(last).map_values(name) =~= before.filter(
            newer,
        ).map_values(name).push(last.0));
    }
    assert(all.new_files =~= files.filter(new).map_values(name));
    assert(all.modified_files =~= files.filter(newer).map_values(name));
}

/// A scan that does not fail brings up, of the files that were reported, those that have no
/// entry in the journal and those that have one with an earlier time, all of them and in order.
pub proof fn lemma_scan_complete(journal: JournalView, reports: Seq<Report>)
    requires
        scanned(journal, reports) is Ok,
        tells_moments(reports),
    ensures
        scanned(journal, reports)->Ok_0.new_files == without_entry(journal.entries, reports),
        scanned(journal, reports)->Ok_0.modified_files == with_older_entry(
            journal.entries,
            reports,
        ),
    decreases reports.len(),
{
    reveal(Seq::filter);
    let entries = journal.entries;
    let name = |f: (Seq<u8>, int)| f.0;
    let new = |f: (Seq<u8>, int)| !entries.contains_key(path::parts(f.0));
    let newer = |f: (Seq<u8>, int)|
        entries.contains_key(path::parts(f.0)) && f.1 > entries[path::parts(f.0)].last_modified;
    let told = |r: Report| told_of(r);
    let files = reports.map_values(told);
    let all = scanned(journal, reports)->Ok_0;
    if reports.len() > 0 {
        let front = reports.drop_last();
        let last = told_of(reports.last());
        assert(tells_moments(front)) by {
            assert forall|i: int| 0 <= i < front.len() implies (
            #[trigger] front[i] matches Report::File(_, Ok(Ok(t))) ==> time::is_moment(t@)) by {
                assert(front[i] == reports[i]);
            }
        }
        lemma_scan_complete(journal, front);
        assert(reports[reports.len() - 1] == reports.last());
        match reports.last() {
            Report::File(path, metadata) => {
                lemma_examined(scanned(journal, front)->Ok_0, journal, path, metadata);
            },
            Report::Unreadable(_) => {},
        }
        let before = front.map_values(told);
        assert(files.drop_last() =~= before);
        assert(files.last() == last);
        assert(before.filter(new).push(last).map_values(name) =~= before.filter(new).map_values(
            name,
        ).push(last.0));
        assert(before.filter(newer).push(last).map_values(name) =~= before.filter(
            newer,
        ).map_values(name).push(last.0));
    }
    assert(all.new_files =~= files.filter(new).map_values(name));
    assert(all.modified_files =~= files.filter(newer).map_values(name));
}

/// One round of a rescan: a question, and its answer.
pub enum Round {
    /// The files that were found in a directory.
    Dir(Seq<u8>, Seq<Seq<u8>>),
    /// What was told of a file.
    File(Seq<u8>, Metadata),
}

/// Whether a plan goes from `before` to `after` in `round`: the step that comes next is the
/// question, and the plan that takes the answer comes out as `after`.
pub open spec fn goes_on(
    before: RescanView,
    journal: JournalView,
    round: Round,
    after: RescanView,
) -> bool {
    exists|step: RescanStep| #[trigger]
        before.leads_to(step) && match (step, round) {
            (RescanStep::Enumerate(dir, plan), Round::Dir(path, files)) => {
                &&& dir@ == path
                &&& after == (RescanView { files: plan@.files + files, ..plan@ })
            },
            (RescanStep::Examine(file, plan), Round::File(path, metadata)) => {
                &&& file@ == path
                &&& plan@.findings.examined(journal, path, metadata) == Ok::<
                    FindingsView,
                    RescanError,
                >(after.findings)
                &&& after == (RescanView { findings: after.findings, ..plan@ })
            },
            _ => false,
        }
}

/// Whether a plan goes through `plans`, one after the other, in `rounds`.
pub open spec fn is_rescan(
    plans: Seq<RescanView>,
    journal: JournalView,
    rounds: Seq<Round>,
) -> bool {
    &&& plans.len() == rounds.len() + 1
    &&& forall|i: int|
        0 <= i < rounds.len() ==> goes_on(
            plans[i],
            journal,
            #[trigger] rounds[i],
            plans[i + 1],
        )
}

/// The directories that were looked through in `rounds`.
pub open spec fn dirs_of(rounds: Seq<Round>) -> Seq<Seq<u8>>
    decreases rounds.len(),
{
    if rounds.len() == 0 {
        Seq::empty()
    } else {
        match rounds.last() {
            Round::Dir(path, _) => dirs_of(rounds.drop_last()).push(path),
            Round::File(_, _) => dirs_of(rounds.drop_last()),
        }
    }
}

/// The files that were found in `rounds`.
pub open spec fn found_in(rounds: Seq<Round>) -> Seq<Seq<u8>>
    decreases rounds.len(),
{
    if rounds.len() == 0 {
        Seq::empty()
    } else {
        match rounds.last() {
            Round::Dir(_, files) => found_in(rounds.drop_last()) + files,
            Round::File(_, _) => found_in(rounds.drop_last()),
        }
    }
}

/// What was told of files in `rounds`.
pub open spec fn reports_of(rounds: Seq<Round>) -> Seq<Report>
    decreases rounds.len(),
{
    if rounds.len() == 0 {
        Seq::empty()
    } else {
        match rounds.last() {
            Round::Dir(_, _) => reports_of(rounds.drop_last()),
            Round::File(path, metadata) => reports_of(rounds.drop_last()).push(
                Report::File(path, metadata),
            ),
        }
    }
}

/// The files that `reports` are about.
pub open spec fn reported_files(reports: Seq<Report>) -> Seq<Seq<u8>> {
    reports.map_values(|r: Report| told_of(r).0)
}

/// In the course of a rescan, the directories that were looked through and those that are left
/// are all that there were; the files that were examined and those that are left are all that
/// were found; and what has been brought up is what the scan of the examined files brings up.
pub proof fn lemma_rescan_so_far(
    plans: Seq<RescanView>,
    journal: JournalView,
    rounds: Seq<Round>,
)
    requires
        is_rescan(plans, journal, rounds),
        plans[0].files.len() == 0,
        plans[0].findings.new_files.len() == 0,
        plans[0].findings.modified_files.len() == 0,
    ensures
        dirs_of(rounds) + plans.last().dirs == plans[0].dirs,
        reported_files(reports_of(rounds)) + plans.last().files == found_in(rounds),
        scanned(journal, reports_of(rounds)) == Ok::<FindingsView, RescanError>(
            plans.last().findings,
        ),
    decreases rounds.len(),
{
    let end = plans.last();
    if rounds.len() == 0 {
        assert(dirs_of(rounds) + end.dirs =~= end.dirs);
        assert(reported_files(reports_of(rounds)) + end.files =~= found_in(rounds));
        assert(end.findings =~= FindingsView::nothing());
    } else {
        let front = rounds.drop_last();
        let earlier = plans.drop_last();
        assert forall|i: int| 0 <= i < front.len() implies goes_on(
            earlier[i],
            journal,
            #[trigger] front[i],
            earlier[i + 1],
        ) by {
            assert(front[i] == rounds[i]);
        }
        lemma_rescan_so_far(earlier, journal, front);
        let n = rounds.len() - 1;
        assert(goes_on(plans[n], journal, rounds[n], plans[n + 1]));
        let v = plans[n];
        assert(earlier.last() == v);
        let step = choose|step: RescanStep| #[trigger]
            v.leads_to(step) && match (step, rounds[n]) {
                (RescanStep::Enumerate(dir, plan), Round::Dir(path, files)) => {
                    &&& dir@ == path
                    &&& end == (RescanView { files: plan@.files + files, ..plan@ })
                },
                (RescanStep::Examine(file, plan), Round::File(path, metadata)) => {
                    &&& file@ == path
                    &&& plan@.findings.examined(journal, path, metadata) == Ok::<
                        FindingsView,
                        RescanError,
                    >(end.findings)
                    &&& end == (RescanView { findings: end.findings, ..plan@ })
                },
                _ => false,
            };
        match rounds[n] {
            Round::Dir(path, files) => {
                assert(dirs_of(rounds) + end.dirs =~= dirs_of(front) + v.dirs);
                assert(reported_files(reports_of(rounds)) + end.files =~= found_in(rounds));
            },
            Round::File(path, metadata) => {
                lemma_scan_next(journal, reports_of(front), Report::File(path, metadata));
                assert(reported_files(reports_of(rounds)) =~= reported_files(
                    reports_of(front),
                ).push(path));
                assert(reported_files(reports_of(rounds)) + end.files =~= reported_files(
                    reports_of(front),
                ) + v.files);
            },
        }
    }
}

/// A whole rescan looks through each watched directory, in the order of the settings, and
/// examines each file that it finds there. What it hands out are, of those files, all that have
/// no entry in the journal and all that have one with an earlier time, in order.
pub proof fn lemma_rescan(
    config: ConfigView,
    plans: Seq<RescanView>,
    journal: JournalView,
    rounds: Seq<Round>,
    step: RescanStep,
)
    requires
        is_rescan(plans, journal, rounds),
        plans[0] == RescanView::start(config),
        plans.last().leads_to(step),
        step is Draw,
        tells_moments(reports_of(rounds)),
    ensures
        dirs_of(rounds).len() == config.watch_paths.len(),
        forall|i: int|
            0 <= i < config.watch_paths.len() ==> #[trigger] dirs_of(rounds)[i]
                == config.watch_paths[i].path,
        reported_files(reports_of(rounds)) == found_in(rounds),
        (step->Draw_0)@.new_files == without_entry(journal.entries, reports_of(rounds)),
        (step->Draw_0)@.modified_files == with_older_entry(journal.entries, reports_of(rounds)),
{
    lemma_rescan_so_far(plans, journal, rounds);
    lemma_scan_complete(journal, reports_of(rounds));
    let end = plans.last();
    assert(dirs_of(rounds) + end.dirs =~= dirs_of(rounds));
    assert(reported_files(reports_of(rounds)) + end.files =~= reported_files(reports_of(rounds)));
}

/// A rescan starts with all watched directories and nothing else.
pub proof fn lemma_rescan_start(config: ConfigView)
    ensures
        RescanView::start(config).dirs.len() == config.watch_paths.len(),
        forall|i: int|
            0 <= i < config.watch_paths.len() ==> #[trigger] RescanView::start(config).dirs[i]
                == config.watch_paths[i].path,
        RescanView::start(config).files.len() == 0,
        RescanView::start(config).findings.new_files.len() == 0,
        RescanView::start(config).findings.modified_files.len() == 0,
{
}

/// The files that were found are examined before another directory is looked through, each in
/// its turn, and the rescan hands out what it brought up when neither is left.
pub proof fn lemma_rescan_order(plan: RescanView, step: RescanStep)
    requires
        plan.leads_to(step),
    ensures
        plan.files.len() > 0 ==> (step matches RescanStep::Examine(file, next) && file@
            == plan.files[0] && next@.files == plan.files.skip(1) && next@.dirs == plan.dirs
            && next@.findings == plan.findings),
        plan.files.len() == 0 && plan.dirs.len() > 0 ==> (step matches RescanStep::Enumerate(
            dir,
            next,
        ) && dir@ == plan.dirs[0] && next@.dirs == plan.dirs.skip(1) && next@.files == plan.files
            && next@.findings == plan.findings),
        plan.files.len() == 0 && plan.dirs.len() == 0 ==> (step matches RescanStep::Draw(intents)
            && intents@.new_files == plan.findings.new_files && intents@.modified_files
            == plan.findings.modified_files),
{
}

/// Whether `intents` were drawn at `moments`, one after the other, until none was left, while
/// the files went through `left`.
pub open spec fn is_drawing(
    left: Seq<FindingsView>,
    moments: Seq<int>,
    intents: Seq<WorkerIntent>,
) -> bool {
    &&& left.len() == intents.len() + 1
    &&& moments.len() == intents.len() + 1
    &&& forall|i: int|
        0 <= i < intents.len() ==> drawn(
            left[i],
            left[i + 1],
            moments[i],
            Some(#[trigger] intents[i]),
        )
    &&& drawn(left.last(), left.last(), moments.last(), None)
}

/// What is left after `n` intents have been drawn.
proof fn lemma_left(
    left: Seq<FindingsView>,
    moments: Seq<int>,
    intents: Seq<WorkerIntent>,
    n: int,
)
    requires
        is_drawing(left, moments, intents),
        0 <= n <= intents.len(),
    ensures
        n <= left[0].new_files.len() + left[0].modified_files.len(),
        n <= left[0].new_files.len() ==> left[n].new_files == left[0].new_files.skip(n)
            && left[n].modified_files == left[0].modified_files,
        n > left[0].new_files.len() ==> left[n].new_files.len() == 0 && left[n].modified_files
            == left[0].modified_files.skip(n - left[0].new_files.len()),
    decreases n,
{
    let new = left[0].new_files;
    let modified = left[0].modified_files;
    if n == 0 {
        assert(new.skip(0) =~= new);
    } else {
        lemma_left(left, moments, intents, n - 1);
        assert(drawn(left[n - 1], left[n - 1 + 1], moments[n - 1], Some(intents[n - 1])));
        if n <= new.len() {
            assert(new.skip(n - 1).skip(1) =~= new.skip(n));
        } else {
            if n - 1 == new.len() {
                assert(modified.skip(0) =~= modified);
            } else {
                assert(modified.skip(n - 1 - new.len()).skip(1) =~= modified.skip(n - new.len()));
            }
        }
    }
}

/// Drawing until none is left gives an intent to create for each new file and then an intent to
/// modify for each modified one, each once, in order, and made when it was drawn.
pub proof fn lemma_drawn(
    left: Seq<FindingsView>,
    moments: Seq<int>,
    intents: Seq<WorkerIntent>,
)
    requires
        is_drawing(left, moments, intents),
    ensures
        intents.len() == left[0].new_files.len() + left[0].modified_files.len(),
        forall|i: int|
            0 <= i < intents.len() ==> {
                let new = left[0].new_files;
                let w = #[trigger] intents[i];
                &&& w.timestamp@ == moments[i]
                &&& i < new.len() ==> w.kind == IntentKind::Create && w.path@ == new[i]
                &&& i >= new.len() ==> w.kind == IntentKind::Modify && w.path@
                    == left[0].modified_files[i - new.len()]
            },
{
    let new = left[0].new_files;
    let modified = left[0].modified_files;
    lemma_left(left, moments, intents, intents.len() as int);
    assert forall|i: int| 0 <= i < intents.len() implies {
        let w = #[trigger] intents[i];
        &&& w.timestamp@ == moments[i]
        &&& i < new.len() ==> w.kind == IntentKind::Create && w.path@ == new[i]
        &&& i >= new.len() ==> w.kind == IntentKind::Modify && w.path@ == modified[i - new.len()]
    } by {
        lemma_left(left, moments, intents, i);
        assert(drawn(left[i], left[i + 1], moments[i], Some(intents[i])));
    }
}

} // verus!
