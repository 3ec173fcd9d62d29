//! Messages to the worker, and how it answers the events of the file system.
use vstd::prelude::*;

use crate::config::ConfigView;
use crate::journal::{Journal, JournalView};
use crate::path;
use crate::path::{FsPath, Part};
use crate::time;
use crate::time::Timestamp;
use crate::worker::file::FileHandler;
use crate::worker::intent::{
    HandleIntentError, IntentHandler, IntentKind, IntentList, IntentView, WorkerIntent,
};

verus! {

/// How a file was opened.
#[derive(Debug, PartialEq, Eq, Structural, Copy, Clone)]
pub enum AccessMode {
    Any,
    Execute,
    Read,
    Write,
    Other,
}

/// How a file was accessed.
#[derive(Debug, PartialEq, Eq, Structural, Copy, Clone)]
pub enum AccessKind {
    Any,
    Read,
    Open(AccessMode),
    Close(AccessMode),
    Other,
}

/// What was created.
#[derive(Debug, PartialEq, Eq, Structural, Copy, Clone)]
pub enum CreateKind {
    Any,
    File,
    Folder,
    Other,
}

/// What happened in the file system.
#[derive(Debug, PartialEq, Eq, Structural, Copy, Clone)]
pub enum EventKind {
    Any,
    Access(AccessKind),
    Create(CreateKind),
    Modify,
    Remove,
    Other,
}

/// What happened, and the files that are to be dealt with on that account.
#[verifier::ext_equal]
pub struct RunView {
    pub kind: EventKind,
    pub left: Seq<Seq<u8>>,
}

/// An event of the file system, and the files that it is about.
#[derive(Debug)]
pub struct Event {
    pub paths: Vec<FsPath>,
    pub kind: EventKind,
}

/// The spellings of `paths`.
pub open spec fn path_views(paths: Seq<FsPath>) -> Seq<Seq<u8>> {
    paths.map_values(|p: FsPath| p@)
}

impl View for Event {
    type V = RunView;

    open spec fn view(&self) -> RunView {
        RunView { kind: self.kind, left: path_views(self.paths@) }
    }
}

impl Clone for Event {
    fn clone(&self) -> (r: Self)
        ensures
            r@ == self@,
    {
        let mut paths: Vec<FsPath> = Vec::new();
        let mut i: usize = 0;
        while i < self.paths.len()
            invariant
                i <= self.paths@.len(),
                paths@.len() == i,
                forall|j: int| 0 <= j < i ==> (#[trigger] paths@[j])@ == self.paths@[j]@,
            decreases self.paths@.len() - i,
        {
            paths.push(self.paths[i].clone());
            i = i + 1;
        }
        assert(path_views(paths@) =~= path_views(self.paths@));
        Event { paths, kind: self.kind }
    }
}

/// A message to the worker.
#[derive(Debug)]
pub enum WorkerMessage {
    /// Something happened in the file system.
    FilesystemEvent(Event),
}

impl View for WorkerMessage {
    type V = RunView;

    open spec fn view(&self) -> RunView {
        match self {
            WorkerMessage::FilesystemEvent(event) => event@,
        }
    }
}

impl Clone for WorkerMessage {
    fn clone(&self) -> (r: Self)
        ensures
            r@ == self@,
    {
        match self {
            WorkerMessage::FilesystemEvent(event) => WorkerMessage::FilesystemEvent(event.clone()),
        }
    }
}

/// What can go wrong with a message.
#[derive(Debug)]
pub enum HandleMessageError {
    /// An intent could not be carried out.
    HandleIntent(HandleIntentError),
}

/// How long the worker sleeps between two looks for an intent, in seconds.
pub const WAIT_STEP_SECS: usize = 5;

/// How long the worker waits for an intent before it gives up, in seconds.
pub const WAIT_LIMIT_SECS: usize = 600;

/// The wait for the intent of a file that was closed before its intent was there.
#[derive(Debug)]
pub struct IntentWait {
    path: FsPath,
    waited_secs: usize,
}

/// The contents of an `IntentWait`.
#[verifier::ext_equal]
pub struct WaitView {
    pub path: Seq<u8>,
    pub waited_secs: nat,
}

impl View for IntentWait {
    type V = WaitView;

    closed spec fn view(&self) -> WaitView {
        WaitView { path: self.path@, waited_secs: self.waited_secs as nat }
    }
}

impl WaitView {
    /// The wait after one more look in vain.
    pub open spec fn longer(self) -> WaitView {
        WaitView { waited_secs: self.waited_secs + WAIT_STEP_SECS as nat, ..self }
    }

    /// Whether the wait has been too long.
    pub open spec fn timed_out(self) -> bool {
        self.waited_secs >= WAIT_LIMIT_SECS
    }
}

/// The wait for the intent of `path` after `n` looks in vain.
pub open spec fn looked_in_vain(path: Seq<u8>, n: nat) -> WaitView
    decreases n,
{
    if n == 0 {
        WaitView { path, waited_secs: 0 }
    } else {
        looked_in_vain(path, (n - 1) as nat).longer()
    }
}

/// Each look in vain has taken five seconds, and a wait gives up after ten minutes, not before.
pub proof fn lemma_wait(path: Seq<u8>, n: nat)
    ensures
        looked_in_vain(path, n).path == path,
        looked_in_vain(path, n).waited_secs == 5 * n,
        looked_in_vain(path, n).timed_out() <==> 5 * n >= 600,
    decreases n,
{
    if n > 0 {
        lemma_wait(path, (n - 1) as nat);
    }
}

/// A look in vain makes a wait five seconds longer, for the same file.
pub proof fn lemma_longer(wait: WaitView)
    ensures
        wait.longer().path == wait.path,
        wait.longer().waited_secs == wait.waited_secs + 5,
        wait.timed_out() <==> wait.waited_secs >= 600,
{
}

/// What a look for an intent came to.
#[derive(Debug)]
pub enum WaitPoll {
    /// The intent is there, and is to be carried out for the file.
    Found(FsPath, WorkerIntent),
    /// The intent is missing still.
    Missing(IntentWait),
}

impl IntentWait {
    /// The start of the wait for the intent of `path`.
    pub fn new(path: FsPath) -> (r: IntentWait)
        ensures
            r@ == (WaitView { path: path@, waited_secs: 0 }),
    {
        IntentWait { path, waited_secs: 0 }
    }

    /// How long to sleep before the next look, in seconds, unless the wait has been too long.
    pub fn sleep_secs(&self) -> (r: Option<u64>)
        ensures
            r == if self@.timed_out() {
                None::<u64>
            } else {
                Some(WAIT_STEP_SECS as u64)
            },
    {
        if self.waited_secs >= WAIT_LIMIT_SECS {
            None
        } else {
            Some(5)
        }
    }

    /// Looks for the intent, after a sleep.
    pub fn poll(self, intents: &mut IntentList) -> (r: WaitPoll)
        requires
            old(intents).wf(),
            !self@.timed_out(),
        ensures
            final(intents).wf(),
            final(intents)@ == old(intents)@.remove(path::parts(self@.path)),
            match r {
                WaitPoll::Found(p, w) => {
                    &&& old(intents)@.contains_key(path::parts(self@.path))
                    &&& p@ == self@.path
                    &&& w@ == old(intents)@[path::parts(self@.path)]
                },
                WaitPoll::Missing(next) => {
                    &&& !old(intents)@.contains_key(path::parts(self@.path))
                    &&& next@ == self@.longer()
                },
            },
    {
        match intents.remove(&self.path) {
            Some(intent) => WaitPoll::Found(self.path, intent),
            None => WaitPoll::Missing(
                IntentWait { path: self.path, waited_secs: self.waited_secs + WAIT_STEP_SECS },
            ),
        }
    }
}

/// Whether an event of the kind `kind` ends the writing to a file.
pub open spec fn is_close(kind: EventKind) -> bool {
    kind == EventKind::Access(AccessKind::Close(AccessMode::Write))
}

/// The intent that an event of the kind `kind` about `path` leads to, if it leads to one.
///
/// A new file is to be backed up unless the journal knows it or an intent is there. Opening a
/// file for writing always leads to an intent, which replaces one that is there. Another
/// change leads to an intent where none is there.
pub open spec fn intent_for(
    kind: EventKind,
    path: Seq<u8>,
    journal: JournalView,
    intents: Map<Seq<Part>, IntentView>,
    now: int,
) -> Option<IntentView> {
    let there = intents.contains_key(path::parts(path));
    match kind {
        EventKind::Create(CreateKind::File) => if journal.knows(path) || there {
            None
        } else {
            Some(IntentView { path, kind: IntentKind::Create, timestamp: now })
        },
        EventKind::Access(AccessKind::Open(AccessMode::Write)) => Some(
            IntentView { path, kind: IntentKind::Modify, timestamp: now },
        ),
        EventKind::Modify => if there {
            None
        } else {
            Some(IntentView { path, kind: IntentKind::Modify, timestamp: now })
        },
        _ => None,
    }
}

/// The intents after an event of the kind `kind` about `path`, which ends no writing.
pub open spec fn noted(
    kind: EventKind,
    path: Seq<u8>,
    journal: JournalView,
    intents: Map<Seq<Part>, IntentView>,
    now: int,
) -> Map<Seq<Part>, IntentView> {
    match intent_for(kind, path, journal, intents, now) {
        Some(w) => intents.insert(path::parts(path), w),
        None => intents,
    }
}

/// The intents after an event of the kind `kind` about each of `looks` in turn: a path, and
/// the time when it is dealt with.
pub open spec fn all_noted(
    kind: EventKind,
    looks: Seq<(Seq<u8>, int)>,
    journal: JournalView,
    intents: Map<Seq<Part>, IntentView>,
) -> Map<Seq<Part>, IntentView>
    decreases looks.len(),
{
    if looks.len() == 0 {
        intents
    } else {
        noted(
            kind,
            looks.last().0,
            journal,
            all_noted(kind, looks.drop_last(), journal, intents),
            looks.last().1,
        )
    }
}

/// Dealing with one more path of an event carries the intents one look further.
pub proof fn lemma_noted_next(
    kind: EventKind,
    looks: Seq<(Seq<u8>, int)>,
    journal: JournalView,
    intents: Map<Seq<Part>, IntentView>,
    path: Seq<u8>,
    now: int,
)
    ensures
        all_noted(kind, looks.push((path, now)), journal, intents) == noted(
            kind,
            path,
            journal,
            all_noted(kind, looks, journal, intents),
            now,
        ),
{
    assert(looks.push((path, now)).drop_last() =~= looks);
}

/// An event leaves the intents of files that it is not about as they are.
pub proof fn lemma_noted_elsewhere(
    kind: EventKind,
    looks: Seq<(Seq<u8>, int)>,
    journal: JournalView,
    intents: Map<Seq<Part>, IntentView>,
    key: Seq<Part>,
)
    requires
        forall|i: int| 0 <= i < looks.len() ==> path::parts((#[trigger] looks[i]).0) != key,
    ensures
        all_noted(kind, looks, journal, intents).contains_key(key) == intents.contains_key(key),
        intents.contains_key(key) ==> all_noted(kind, looks, journal, intents)[key]
            == intents[key],
    decreases looks.len(),
{
    if looks.len() > 0 {
        let front = looks.drop_last();
        assert forall|i: int| 0 <= i < front.len() implies path::parts((#[trigger] front[i]).0)
            != key by {
            assert(front[i] == looks[i]);
        }
        lemma_noted_elsewhere(kind, front, journal, intents, key);
        assert(looks[looks.len() - 1] == looks.last());
    }
}

/// An event takes no intent away. One that is there stays, unless a file was opened for
/// writing.
pub proof fn lemma_noted_keeps(
    kind: EventKind,
    looks: Seq<(Seq<u8>, int)>,
    journal: JournalView,
    intents: Map<Seq<Part>, IntentView>,
    key: Seq<Part>,
)
    requires
        intents.contains_key(key),
    ensures
        all_noted(kind, looks, journal, intents).contains_key(key),
        kind != EventKind::Access(AccessKind::Open(AccessMode::Write)) ==> all_noted(
            kind,
            looks,
            journal,
            intents,
        )[key] == intents[key],
    decreases looks.len(),
{
    if looks.len() > 0 {
        lemma_noted_keeps(kind, looks.drop_last(), journal, intents, key);
    }
}

/// Once files were opened for writing, each has an intent to back its new state up.
pub proof fn lemma_opened(
    looks: Seq<(Seq<u8>, int)>,
    journal: JournalView,
    intents: Map<Seq<Part>, IntentView>,
    i: int,
)
    requires
        0 <= i < looks.len(),
    ensures
        ({
            let kind = EventKind::Access(AccessKind::Open(AccessMode::Write));
            let after = all_noted(kind, looks, journal, intents);
            let key = path::parts(looks[i].0);
            &&& after.contains_key(key)
            &&& after[key].kind == IntentKind::Modify
            &&& path::parts(after[key].path) == key
        }),
    decreases looks.len(),
{
    if i < looks.len() - 1 {
        assert(looks.drop_last()[i] == looks[i]);
        lemma_opened(looks.drop_last(), journal, intents, i);
    }
}

/// Once files were modified, each has an intent.
pub proof fn lemma_modified(
    looks: Seq<(Seq<u8>, int)>,
    journal: JournalView,
    intents: Map<Seq<Part>, IntentView>,
    i: int,
)
    requires
        0 <= i < looks.len(),
    ensures
        all_noted(EventKind::Modify, looks, journal, intents).contains_key(
            path::parts(looks[i].0),
        ),
    decreases looks.len(),
{
    if i < looks.len() - 1 {
        assert(looks.drop_last()[i] == looks[i]);
        lemma_modified(looks.drop_last(), journal, intents, i);
    }
}

/// Once files were created, each that the journal does not know has an intent, and for those
/// that it knows none has come in.
pub proof fn lemma_created(
    looks: Seq<(Seq<u8>, int)>,
    journal: JournalView,
    intents: Map<Seq<Part>, IntentView>,
    i: int,
)
    requires
        0 <= i < looks.len(),
    ensures
        ({
            let kind = EventKind::Create(CreateKind::File);
            let after = all_noted(kind, looks, journal, intents);
            let key = path::parts(looks[i].0);
            if journal.knows(looks[i].0) {
                after.contains_key(key) == intents.contains_key(key)
            } else {
                after.contains_key(key)
            }
        }),
    decreases looks.len(),
{
    if looks.len() > 0 {
        let kind = EventKind::Create(CreateKind::File);
        let front = looks.drop_last();
        let key = path::parts(looks[i].0);
        if exists|j: int| 0 <= j < front.len() && path::parts((#[trigger] front[j]).0) == key {
            let j = choose|j: int|
                0 <= j < front.len() && path::parts((#[trigger] front[j]).0) == key;
            lemma_created(front, journal, intents, j);
        } else {
            lemma_noted_elsewhere(kind, front, journal, intents, key);
            if i < front.len() {
                assert(front[i] == looks[i]);
            }
        }
    }
}

/// What is noted last about a file stays, whatever is noted about others.
proof fn lemma_noted_last(
    kind: EventKind,
    looks: Seq<(Seq<u8>, int)>,
    journal: JournalView,
    intents: Map<Seq<Part>, IntentView>,
    i: int,
)
    requires
        0 <= i < looks.len(),
        forall|j: int|
            i < j < looks.len() ==> path::parts((#[trigger] looks[j]).0) != path::parts(
                looks[i].0,
            ),
    ensures
        ({
            let key = path::parts(looks[i].0);
            let there = all_noted(kind, looks.take(i + 1), journal, intents);
            let after = all_noted(kind, looks, journal, intents);
            &&& after.contains_key(key) == there.contains_key(key)
            &&& there.contains_key(key) ==> after[key] == there[key]
        }),
    decreases looks.len(),
{
    if i == looks.len() - 1 {
        assert(looks.take(i + 1) =~= looks);
    } else {
        let front = looks.drop_last();
        assert(front[i] == looks[i]);
        assert forall|j: int| i < j < front.len() implies path::parts((#[trigger] front[j]).0)
            != path::parts(front[i].0) by {
            assert(front[j] == looks[j]);
        }
        lemma_noted_last(kind, front, journal, intents, i);
        assert(front.take(i + 1) =~= looks.take(i + 1));
        assert(looks[looks.len() - 1] == looks.last());
    }
}

/// Once files were opened for writing, each has an intent to back its new state up, made when
/// the file was last dealt with.
pub proof fn lemma_opened_at(
    looks: Seq<(Seq<u8>, int)>,
    journal: JournalView,
    intents: Map<Seq<Part>, IntentView>,
    i: int,
)
    requires
        0 <= i < looks.len(),
        forall|j: int|
            i < j < looks.len() ==> path::parts((#[trigger] looks[j]).0) != path::parts(
                looks[i].0,
            ),
    ensures
        ({
            let kind = EventKind::Access(AccessKind::Open(AccessMode::Write));
            let after = all_noted(kind, looks, journal, intents);
            let key = path::parts(looks[i].0);
            &&& after.contains_key(key)
            &&& after[key].kind == IntentKind::Modify
            &&& after[key].path == looks[i].0
            &&& after[key].timestamp == looks[i].1
        }),
{
    let kind = EventKind::Access(AccessKind::Open(AccessMode::Write));
    lemma_noted_last(kind, looks, journal, intents, i);
    assert(looks.take(i + 1).last() == looks[i]);
}

/// Where nothing was planned for a file before an event, what the event plans for it is what it
/// planned when the file was first dealt with.
proof fn lemma_noted_first(
    kind: EventKind,
    looks: Seq<(Seq<u8>, int)>,
    journal: JournalView,
    intents: Map<Seq<Part>, IntentView>,
    i: int,
)
    requires
        kind != EventKind::Access(AccessKind::Open(AccessMode::Write)),
        0 <= i < looks.len(),
        !intents.contains_key(path::parts(looks[i].0)),
        forall|j: int|
            0 <= j < i ==> path::parts((#[trigger] looks[j]).0) != path::parts(looks[i].0),
        intent_for(kind, looks[i].0, journal, Map::empty(), looks[i].1) is Some,
    ensures
        all_noted(kind, looks, journal, intents).contains_key(path::parts(looks[i].0)),
        Some(all_noted(kind, looks, journal, intents)[path::parts(looks[i].0)]) == intent_for(
            kind,
            looks[i].0,
            journal,
            Map::empty(),
            looks[i].1,
        ),
    decreases looks.len(),
{
    let front = looks.drop_last();
    let key = path::parts(looks[i].0);
    if i == looks.len() - 1 {
        assert forall|j: int| 0 <= j < front.len() implies path::parts((#[trigger] front[j]).0)
            != key by {
            assert(front[j] == looks[j]);
        }
        lemma_noted_elsewhere(kind, front, journal, intents, key);
    } else {
        assert(front[i] == looks[i]);
        assert forall|j: int| 0 <= j < i implies path::parts((#[trigger] front[j]).0)
            != path::parts(front[i].0) by {
            assert(front[j] == looks[j]);
        }
        lemma_noted_first(kind, front, journal, intents, i);
    }
}

/// Once files were modified, each that nothing was planned for has an intent to back its new
/// state up, made when the file was first dealt with.
pub proof fn lemma_modified_at(
    looks: Seq<(Seq<u8>, int)>,
    journal: JournalView,
    intents: Map<Seq<Part>, IntentView>,
    i: int,
)
    requires
        0 <= i < looks.len(),
        !intents.contains_key(path::parts(looks[i].0)),
        forall|j: int|
            0 <= j < i ==> path::parts((#[trigger] looks[j]).0) != path::parts(looks[i].0),
    ensures
        ({
            let after = all_noted(EventKind::Modify, looks, journal, intents);
            let key = path::parts(looks[i].0);
            &&& after.contains_key(key)
            &&& after[key].kind == IntentKind::Modify
            &&& after[key].path == looks[i].0
            &&& after[key].timestamp == looks[i].1
        }),
{
    lemma_noted_first(EventKind::Modify, looks, journal, intents, i);
}

/// Once files were created, each that the journal does not know, and that nothing was planned
/// for, has an intent to back it up for the first time, made when it was first dealt with.
pub proof fn lemma_created_at(
    looks: Seq<(Seq<u8>, int)>,
    journal: JournalView,
    intents: Map<Seq<Part>, IntentView>,
    i: int,
)
    requires
        0 <= i < looks.len(),
        !intents.contains_key(path::parts(looks[i].0)),
        !journal.entries.contains_key(path::parts(looks[i].0)),
        forall|j: int|
            0 <= j < i ==> path::parts((#[trigger] looks[j]).0) != path::parts(looks[i].0),
    ensures
        ({
            let after = all_noted(EventKind::Create(CreateKind::File), looks, journal, intents);
            let key = path::parts(looks[i].0);
            &&& after.contains_key(key)
            &&& after[key].kind == IntentKind::Create
            &&& after[key].path == looks[i].0
            &&& after[key].timestamp == looks[i].1
        }),
{
    lemma_noted_first(EventKind::Create(CreateKind::File), looks, journal, intents, i);
}

/// Once files were created, nothing has been planned for those that the journal knows.
pub proof fn lemma_created_known(
    looks: Seq<(Seq<u8>, int)>,
    journal: JournalView,
    intents: Map<Seq<Part>, IntentView>,
    key: Seq<Part>,
)
    requires
        journal.entries.contains_key(key),
    ensures
        all_noted(EventKind::Create(CreateKind::File), looks, journal, intents).contains_key(key)
            == intents.contains_key(key),
    decreases looks.len(),
{
    if looks.len() > 0 {
        lemma_created_known(looks.drop_last(), journal, intents, key);
    }
}

/// Events of other kinds leave all intents as they are.
pub proof fn lemma_ignored(
    kind: EventKind,
    looks: Seq<(Seq<u8>, int)>,
    journal: JournalView,
    intents: Map<Seq<Part>, IntentView>,
)
    requires
        kind != EventKind::Create(CreateKind::File),
        kind != EventKind::Access(AccessKind::Open(AccessMode::Write)),
        kind != EventKind::Modify,
    ensures
        all_noted(kind, looks, journal, intents) == intents,
    decreases looks.len(),
{
    if looks.len() > 0 {
        lemma_ignored(kind, looks.drop_last(), journal, intents);
    }
}

/// A message that is being answered, path by path.
#[derive(Debug)]
pub struct MessageRun {
    kind: EventKind,
    paths: Vec<FsPath>,
    next: usize,
}

impl View for MessageRun {
    type V = RunView;

    closed spec fn view(&self) -> RunView {
        RunView { kind: self.kind, left: path_views(self.paths@.skip(self.next as int)) }
    }
}

/// What comes next when a message is answered.
#[derive(Debug)]
pub enum MessageStep {
    /// Carry the intent out for the file, and go on with `MessageRun::handled`.
    Handle(FsPath, WorkerIntent),
    /// Start a wait for an intent, and go on with the message.
    Await(IntentWait),
    /// An intent may have been noted down. Go on with the message.
    Noted,
    /// The message has been answered.
    Done,
}

/// What one step through a message at `now` comes to: what is left of the message, what becomes
/// of the intents, and what is to be done.
pub open spec fn advanced(
    before: RunView,
    after: RunView,
    journal: JournalView,
    intents: Map<Seq<Part>, IntentView>,
    intents_after: Map<Seq<Part>, IntentView>,
    now: int,
    step: MessageStep,
) -> bool {
    if before.left.len() == 0 {
        step is Done && after == before && intents_after == intents
    } else {
        let path = before.left[0];
        let key = path::parts(path);
        &&& after == (RunView { left: before.left.skip(1), ..before })
        &&& if !is_close(before.kind) {
            step is Noted && intents_after == noted(before.kind, path, journal, intents, now)
        } else if intents.contains_key(key) {
            &&& step matches MessageStep::Handle(p, w)
            &&& p@ == path
            &&& w@ == intents[key]
            &&& intents_after == intents.remove(key)
        } else {
            &&& step matches MessageStep::Await(wait)
            &&& wait@ == (WaitView { path, waited_secs: 0 })
            &&& intents_after == intents
        }
    }
}

/// Each step deals with the first path that is left, and with the intents of no other file.
pub proof fn lemma_advanced_one(
    before: RunView,
    after: RunView,
    journal: JournalView,
    intents: Map<Seq<Part>, IntentView>,
    intents_after: Map<Seq<Part>, IntentView>,
    now: int,
    step: MessageStep,
    key: Seq<Part>,
)
    requires
        advanced(before, after, journal, intents, intents_after, now, step),
    ensures
        after.kind == before.kind,
        before.left.len() == 0 <==> step is Done,
        before.left.len() == 0 ==> after.left.len() == 0 && intents_after == intents,
        before.left.len() > 0 ==> after.left == before.left.skip(1),
        before.left.len() > 0 && key != path::parts(before.left[0]) ==> {
            &&& intents_after.contains_key(key) == intents.contains_key(key)
            &&& intents.contains_key(key) ==> intents_after[key] == intents[key]
        },
{
}

/// A new file that the journal does not know, and that nothing is planned for, is going to be
/// backed up for the first time.
pub proof fn lemma_advanced_create(
    before: RunView,
    after: RunView,
    journal: JournalView,
    intents: Map<Seq<Part>, IntentView>,
    intents_after: Map<Seq<Part>, IntentView>,
    now: int,
    step: MessageStep,
)
    requires
        advanced(before, after, journal, intents, intents_after, now, step),
        before.kind == EventKind::Create(CreateKind::File),
        before.left.len() > 0,
    ensures
        step is Noted,
        ({
            let file = before.left[0];
            let key = path::parts(file);
            if journal.entries.contains_key(key) || intents.contains_key(key) {
                intents_after == intents
            } else {
                &&& intents_after.contains_key(key)
                &&& intents_after[key].kind == IntentKind::Create
                &&& intents_after[key].path == file
                &&& intents_after[key].timestamp == now
            }
        }),
{
}

/// A file that is modified, and that nothing is planned for, is going to have its new state
/// backed up, whether or not the journal knows it.
pub proof fn lemma_advanced_modify(
    before: RunView,
    after: RunView,
    journal: JournalView,
    intents: Map<Seq<Part>, IntentView>,
    intents_after: Map<Seq<Part>, IntentView>,
    now: int,
    step: MessageStep,
)
    requires
        advanced(before, after, journal, intents, intents_after, now, step),
        before.kind == EventKind::Modify,
        before.left.len() > 0,
    ensures
        step is Noted,
        ({
            let file = before.left[0];
            let key = path::parts(file);
            if intents.contains_key(key) {
                intents_after == intents
            } else {
                &&& intents_after.contains_key(key)
                &&& intents_after[key].kind == IntentKind::Modify
                &&& intents_after[key].path == file
                &&& intents_after[key].timestamp == now
            }
        }),
{
}

/// A file that is opened for writing is going to have its new state backed up, whatever was
/// planned for it.
pub proof fn lemma_advanced_open(
    before: RunView,
    after: RunView,
    journal: JournalView,
    intents: Map<Seq<Part>, IntentView>,
    intents_after: Map<Seq<Part>, IntentView>,
    now: int,
    step: MessageStep,
)
    requires
        advanced(before, after, journal, intents, intents_after, now, step),
        before.kind == EventKind::Access(AccessKind::Open(AccessMode::Write)),
        before.left.len() > 0,
    ensures
        step is Noted,
        ({
            let file = before.left[0];
            let key = path::parts(file);
            &&& intents_after.contains_key(key)
            &&& intents_after[key].kind == IntentKind::Modify
            &&& intents_after[key].path == file
            &&& intents_after[key].timestamp == now
        }),
{
}

/// When a file that was written to is closed, what is planned for it is carried out for it and
/// is then no longer planned. Where nothing is planned, a wait starts.
pub proof fn lemma_advanced_close(
    before: RunView,
    after: RunView,
    journal: JournalView,
    intents: Map<Seq<Part>, IntentView>,
    intents_after: Map<Seq<Part>, IntentView>,
    now: int,
    step: MessageStep,
)
    requires
        advanced(before, after, journal, intents, intents_after, now, step),
        before.kind == EventKind::Access(AccessKind::Close(AccessMode::Write)),
        before.left.len() > 0,
    ensures
        ({
            let file = before.left[0];
            let key = path::parts(file);
            if intents.contains_key(key) {
                &&& step matches MessageStep::Handle(p, w)
                &&& p@ == file
                &&& w.path@ == intents[key].path
                &&& w.kind == intents[key].kind
                &&& w.timestamp@ == intents[key].timestamp
                &&& !intents_after.contains_key(key)
            } else {
                &&& step matches MessageStep::Await(wait)
                &&& wait@.path == file
                &&& wait@.waited_secs == 0
                &&& intents_after == intents
            }
        }),
{
}

/// An event of another kind is passed over.
pub proof fn lemma_advanced_other(
    before: RunView,
    after: RunView,
    journal: JournalView,
    intents: Map<Seq<Part>, IntentView>,
    intents_after: Map<Seq<Part>, IntentView>,
    now: int,
    step: MessageStep,
)
    requires
        advanced(before, after, journal, intents, intents_after, now, step),
        before.kind != EventKind::Create(CreateKind::File),
        before.kind != EventKind::Modify,
        before.kind != EventKind::Access(AccessKind::Open(AccessMode::Write)),
        before.kind != EventKind::Access(AccessKind::Close(AccessMode::Write)),
        before.left.len() > 0,
    ensures
        step is Noted,
        intents_after == intents,
{
}

/// A file that was opened for writing is backed up when it is closed: the intent that the
/// opening led to is carried out, and is then gone.
pub proof fn lemma_opened_then_closed(
    journal: JournalView,
    intents: Map<Seq<Part>, IntentView>,
    opened: Seq<u8>,
    at: int,
    closing: RunView,
    after: RunView,
    intents_after: Map<Seq<Part>, IntentView>,
    now: int,
    step: MessageStep,
)
    requires
        is_close(closing.kind),
        closing.left.len() > 0,
        path::parts(closing.left[0]) == path::parts(opened),
        advanced(
            closing,
            after,
            journal,
            noted(
                EventKind::Access(AccessKind::Open(AccessMode::Write)),
                opened,
                journal,
                intents,
                at,
            ),
            intents_after,
            now,
            step,
        ),
    ensures
        step matches MessageStep::Handle(p, w) && p@ == closing.left[0] && w@ == (IntentView {
            path: opened,
            kind: IntentKind::Modify,
            timestamp: at,
        }),
        intents_after == intents.remove(path::parts(opened)),
{
    assert(intents_after =~= intents.remove(path::parts(opened)));
}

impl MessageRun {
    /// The next path is one of the message's, or there is none.
    pub closed spec fn wf(&self) -> bool {
        self.next <= self.paths@.len()
    }

    /// Notes down the intent that the event leads to for `path`.
    fn note(
        kind: EventKind,
        path: &FsPath,
        journal: &Journal,
        intents: &mut IntentList,
        now: &Timestamp,
    )
        requires
            journal.wf(),
            old(intents).wf(),
        ensures
            final(intents).wf(),
            final(intents)@ == noted(kind, path@, journal@, old(intents)@, now@),
    {
        let intent_kind: Option<IntentKind> = match kind {
            EventKind::Create(CreateKind::File) => {
                if journal.find_entry(path).is_some() || intents.has_intent_for(path) {
                    None
                } else {
                    Some(IntentKind::Create)
                }
            },
            EventKind::Access(AccessKind::Open(AccessMode::Write)) => Some(IntentKind::Modify),
            EventKind::Modify => {
                if intents.has_intent_for(path) {
                    None
                } else {
                    Some(IntentKind::Modify)
                }
            },
            _ => None,
        };
        if let Some(kind) = intent_kind {
            intents.create(WorkerIntent { path: path.clone(), kind, timestamp: *now });
        }
    }

    /// Goes on with the next path of the message, at the time `now`. Where a file was closed,
    /// its intent is to be carried out, or waited for.
    pub fn advance_at(
        &mut self,
        journal: &Journal,
        intents: &mut IntentList,
        now: &Timestamp,
    ) -> (r: MessageStep)
        requires
            old(self).wf(),
            journal.wf(),
            old(intents).wf(),
        ensures
            final(self).wf(),
            final(intents).wf(),
            advanced(
                old(self)@,
                final(self)@,
                journal@,
                old(intents)@,
                final(intents)@,
                now@,
                r,
            ),
    {
        let ghost left = self@.left;
        if self.next == self.paths.len() {
            return MessageStep::Done;
        }
        let path: FsPath = self.paths[self.next].clone();
        assert(left[0] == path@);
        self.next = self.next + 1;
        assert(self@.left =~= left.skip(1));
        match self.kind {
            EventKind::Access(AccessKind::Close(AccessMode::Write)) => {
                match intents.remove(&path) {
                    Some(intent) => MessageStep::Handle(path, intent),
                    None => {
                        assert(intents@ =~= old(intents)@);
                        MessageStep::Await(IntentWait::new(path))
                    },
                }
            },
            _ => {
                MessageRun::note(self.kind, &path, journal, intents, now);
                MessageStep::Noted
            },
        }
    }

    /// Goes on with the next path of the message, at the time that the clock shows.
    pub fn advance(&mut self, journal: &Journal, intents: &mut IntentList) -> (r: MessageStep)
        requires
            old(self).wf(),
            journal.wf(),
            old(intents).wf(),
        ensures
            final(self).wf(),
            final(intents).wf(),
            exists|now: int|
                time::is_moment(now) && #[trigger] advanced(
                    old(self)@,
                    final(self)@,
                    journal@,
                    old(intents)@,
                    final(intents)@,
                    now,
                    r,
                ),
    {
        let now: Timestamp = Timestamp::now();
        self.advance_at(journal, intents, &now)
    }

    /// Takes note of how an intent was carried out. A failure ends the message.
    pub fn handled(&mut self, outcome: Result<(), HandleIntentError>) -> (r: Result<
        (),
        HandleMessageError,
    >)
        requires
            old(self).wf(),
        ensures
            final(self).wf(),
            final(self)@.kind == old(self)@.kind,
            match outcome {
                Ok(_) => r == Ok::<(), HandleMessageError>(()) && final(self)@ == old(self)@,
                Err(e) => r == Err::<(), HandleMessageError>(HandleMessageError::HandleIntent(e))
                    && final(self)@.left.len() == 0,
            },
    {
        match outcome {
            Ok(_) => Ok(()),
            Err(e) => {
                self.next = self.paths.len();
                Err(HandleMessageError::HandleIntent(e))
            },
        }
    }
}

/// Answers messages.
#[derive(Debug)]
pub struct MessageHandler {
    intent_handler: IntentHandler,
    file_handler: FileHandler,
}

/// The settings by which a `MessageHandler` carries intents out and backs files up.
#[verifier::ext_equal]
pub struct MessageHandlerView {
    pub intent_handler: ConfigView,
    pub file_handler: ConfigView,
}

impl View for MessageHandler {
    type V = MessageHandlerView;

    closed spec fn view(&self) -> MessageHandlerView {
        MessageHandlerView {
            intent_handler: self.intent_handler@,
            file_handler: self.file_handler@,
        }
    }
}

impl Clone for MessageHandler {
    fn clone(&self) -> (r: Self)
        ensures
            r@ == self@,
    {
        MessageHandler {
            intent_handler: self.intent_handler.clone(),
            file_handler: self.file_handler.clone(),
        }
    }
}

impl MessageHandler {
    /// A handler that carries intents out by `intent_handler`.
    pub fn new(intent_handler: IntentHandler, file_handler: FileHandler) -> (r: MessageHandler)
        ensures
            r@ == (MessageHandlerView {
                intent_handler: intent_handler@,
                file_handler: file_handler@,
            }),
    {
        MessageHandler { intent_handler, file_handler }
    }

    /// What carries out the intents that a message leads to.
    pub fn intent_handler(&self) -> (r: &IntentHandler)
        ensures
            r@ == self@.intent_handler,
    {
        &self.intent_handler
    }

    /// Starts to answer `message`. There is no answer to the removal of a file.
    pub fn handle(&self, message: WorkerMessage) -> (r: MessageRun)
        requires
            message@.kind != EventKind::Remove,
        ensures
            r.wf(),
            r@ == message@,
    {
        match message {
            WorkerMessage::FilesystemEvent(event) => {
                let r: MessageRun = MessageRun { kind: event.kind, paths: event.paths, next: 0 };
                assert(r.paths@.skip(0) =~= r.paths@);
                r
            },
        }
    }
}

/// An event is about each of its paths, in order.
pub proof fn lemma_event_view(event: Event)
    ensures
        event@.kind == event.kind,
        event@.left.len() == event.paths@.len(),
        forall|i: int|
            0 <= i < event.paths@.len() ==> #[trigger] event@.left[i] == event.paths@[i]@,
{
}

/// A message about an event of the file system is about that event.
pub proof fn lemma_message_view(event: Event)
    ensures
        WorkerMessage::FilesystemEvent(event)@ == event@,
{
}

} // verus!
