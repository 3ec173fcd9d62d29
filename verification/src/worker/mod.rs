//! The worker: what is done about changes of files.
use vstd::prelude::*;

use crate::config::Config;
use crate::path;
use crate::path::{FsPath, Part};
use crate::time;
use crate::time::Timestamp;
use crate::worker::intent::{IntentList, IntentView, WorkerIntent};
use crate::worker::message::WorkerMessage;
use crate::worker::scan::{FileWalk, RescanPlan, RescanView, WalkStep, WalkView};

pub mod error;
pub mod file;
pub mod intent;
pub mod message;
pub mod scan;

verus! {

/// How many messages wait for the worker at most.
pub const CHANNEL_CAPACITY: usize = 32;

/// The time between two ticks of the worker, in seconds.
pub const TICK_SECS: u64 = 10;

/// The age from which on an intent is stale, in nanoseconds: 20 seconds.
pub const STALE_NANOS: u128 = 20_000_000_000;

/// What the worker is woken up by.
#[derive(Debug)]
pub enum WorkerEvent {
    /// A message, or the end of the messages.
    Message(Option<WorkerMessage>),
    /// Some time has gone by.
    Tick,
    /// The worker is to stop.
    Cancelled,
}

/// What the worker does next.
#[derive(Debug)]
pub enum WorkerAction {
    /// Start to answer a message, and wait for the next event.
    Handle(WorkerMessage),
    /// Start to carry out intents that have waited too long, and wait for the next event.
    HandleStale(Vec<WorkerIntent>),
    /// Stop, once what was started has ended.
    Stop,
}

/// The worker, which turns events into actions.
#[derive(Debug)]
pub struct Worker {
    intents: IntentList,
}

impl View for Worker {
    type V = Map<Seq<Part>, IntentView>;

    /// The intents that the worker looks after.
    closed spec fn view(&self) -> Map<Seq<Part>, IntentView> {
        self.intents@
    }
}

impl Worker {
    /// The worker's intents are in order.
    pub closed spec fn wf(&self) -> bool {
        self.intents.wf()
    }

    /// A worker with no intents to look after.
    pub fn new() -> (r: Worker)
        ensures
            r.wf(),
            r@ == Map::<Seq<Part>, IntentView>::empty(),
    {
        Worker { intents: IntentList::new() }
    }

    /// A worker that looks after `intents`.
    pub fn with_intents(intents: IntentList) -> (r: Worker)
        requires
            intents.wf(),
        ensures
            r.wf(),
            r@ == intents@,
    {
        Worker { intents }
    }

    /// What the worker does about `event`, at the time `now`. Where an intent was made after
    /// `now`, there is no telling what a tick leads to.
    pub fn step_at(&mut self, event: WorkerEvent, now: &Timestamp) -> (r: Option<WorkerAction>)
        requires
            old(self).wf(),
        ensures
            final(self).wf(),
            stepped(old(self)@, event, now@, final(self)@, r),
            !(event is Tick) || r is None ==> *final(self) == *old(self),
    {
        match event {
            WorkerEvent::Message(Some(message)) => Some(WorkerAction::Handle(message)),
            WorkerEvent::Message(None) => Some(WorkerAction::Stop),
            WorkerEvent::Cancelled => Some(WorkerAction::Stop),
            WorkerEvent::Tick => match self.intents.remove_stale_at(now, STALE_NANOS) {
                Some(stale) => Some(WorkerAction::HandleStale(stale)),
                None => None,
            },
        }
    }

    /// What the worker does about `event`, at the time that the clock shows.
    pub fn step(&mut self, event: WorkerEvent) -> (r: Option<WorkerAction>)
        requires
            old(self).wf(),
        ensures
            final(self).wf(),
            exists|now: int|
                time::is_moment(now) && #[trigger] stepped(
                    old(self)@,
                    event,
                    now,
                    final(self)@,
                    r,
                ),
            !(event is Tick) || r is None ==> *final(self) == *old(self),
            r is None ==> old(self)@.dom() != Set::<Seq<Part>>::empty(),
    {
        let now: Timestamp = Timestamp::now();
        self.step_at(event, &now)
    }

    /// Starts to look for the files in `path`, and those in its directories.
    pub fn enumerate_files(path: &FsPath) -> (r: WalkStep)
        ensures
            r matches WalkStep::Probe(p, walk) && p@ == path@ && walk@ == WalkView::start(),
    {
        WalkStep::Probe(path.clone(), FileWalk::new())
    }

    /// Starts to look through the watched directories of `config` for files that need a
    /// backup.
    pub fn rescan(config: &Config) -> (r: RescanPlan)
        ensures
            r@ == RescanView::start(config@),
    {
        RescanPlan::new(config)
    }
}

/// What a worker that looks after the intents `before` does about `event` at `now`, and the
/// intents `after` that it then looks after. It does nothing only on a tick at a time before
/// one of its intents was made.
pub open spec fn stepped(
    before: Map<Seq<Part>, IntentView>,
    event: WorkerEvent,
    now: int,
    after: Map<Seq<Part>, IntentView>,
    action: Option<WorkerAction>,
) -> bool {
    match event {
        WorkerEvent::Message(Some(message)) => action == Some(WorkerAction::Handle(message))
            && after == before,
        WorkerEvent::Message(None) => action == Some(WorkerAction::Stop) && after == before,
        WorkerEvent::Cancelled => action == Some(WorkerAction::Stop) && after == before,
        WorkerEvent::Tick => if intent::made_by(before, now) {
            &&& action matches Some(WorkerAction::HandleStale(stale))
            &&& intent::took_stale(
                before,
                after,
                intent::intent_views(stale@),
                now,
                STALE_NANOS as int,
            )
        } else {
            action is None && after == before
        },
    }
}

/// A worker with no intents to look after finds none to be stale.
pub proof fn lemma_idle(
    after: Map<Seq<Part>, IntentView>,
    taken: Seq<IntentView>,
    now: int,
    max_age: int,
)
    requires
        intent::took_stale(Map::empty(), after, taken, now, max_age),
    ensures
        after == Map::<Seq<Part>, IntentView>::empty(),
        taken.len() == 0,
{
    if taken.len() > 0 {
        assert(Map::<Seq<Part>, IntentView>::empty().contains_key(path::parts(taken[0].path)));
    }
    assert(after =~= Map::<Seq<Part>, IntentView>::empty());
}

/// On a tick the worker brings up an intent, of whatever kind, just where it was made twenty
/// seconds ago or earlier, and it then no longer looks after that intent. Where one was made
/// later than the tick it does nothing.
pub proof fn lemma_ticked(
    before: Map<Seq<Part>, IntentView>,
    now: int,
    after: Map<Seq<Part>, IntentView>,
    action: Option<WorkerAction>,
    key: Seq<Part>,
)
    requires
        stepped(before, WorkerEvent::Tick, now, after, action),
        before.contains_key(key),
        path::parts(before[key].path) == key,
    ensures
        match action {
            Some(action) => {
                &&& action matches WorkerAction::HandleStale(stale)
                &&& now - before[key].timestamp >= 20_000_000_000 <==> intent::intent_views(
                    stale@,
                ).contains(before[key])
                &&& now - before[key].timestamp >= 20_000_000_000 <==> !after.contains_key(key)
                &&& after.contains_key(key) ==> after[key] == before[key]
            },
            None => after == before,
        },
        action is None <==> exists|k: Seq<Part>| #[trigger]
            before.contains_key(k) && before[k].timestamp > now,
{
    intent::lemma_made_by(before, now);
    if let Some(WorkerAction::HandleStale(stale)) = action {
        intent::lemma_taken_by_age(
            before,
            after,
            intent::intent_views(stale@),
            now,
            20_000_000_000,
            key,
        );
    }
}

/// A message is handed on as it came. The worker stops when there are no more, or when it is
/// told to. Neither touches its intents.
pub proof fn lemma_stepped(
    before: Map<Seq<Part>, IntentView>,
    event: WorkerEvent,
    now: int,
    after: Map<Seq<Part>, IntentView>,
    action: Option<WorkerAction>,
)
    requires
        stepped(before, event, now, after, action),
        !(event is Tick),
    ensures
        after == before,
        event matches WorkerEvent::Message(Some(message)) ==> action == Some(
            WorkerAction::Handle(message),
        ),
        event == WorkerEvent::Message(None) || event is Cancelled ==> action == Some(
            WorkerAction::Stop,
        ),
{
}

} // verus!
