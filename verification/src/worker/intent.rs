//! Intents: what is going to be done about a file, once whoever writes to it is done.
use vstd::prelude::*;

use crate::config::ConfigView;
use crate::journal::Journal;
use crate::path;
use crate::path::{FsPath, Part};
use crate::pathmap::PathMap;
use crate::time;
use crate::time::Timestamp;
use crate::worker::file;
use crate::worker::file::{CreateStep, FileHandler, HandleFileError, ModifyStep};

verus! {

/// What is going to be done about a file.
#[derive(Debug, PartialEq, Eq, Structural, Copy, Clone)]
pub enum IntentKind {
    /// Back the file up for the first time.
    Create,
    /// Take note that the file is gone.
    Remove,
    /// Back a new state of the file up.
    Modify,
}

/// The plan to do something about a file, and when it was made.
#[derive(Debug)]
pub struct WorkerIntent {
    pub path: FsPath,
    pub kind: IntentKind,
    pub timestamp: Timestamp,
}

/// The contents of a `WorkerIntent`.
#[verifier::ext_equal]
pub struct IntentView {
    pub path: Seq<u8>,
    pub kind: IntentKind,
    pub timestamp: int,
}

impl View for WorkerIntent {
    type V = IntentView;

    open spec fn view(&self) -> IntentView {
        IntentView { path: self.path@, kind: self.kind, timestamp: self.timestamp@ }
    }
}

impl Clone for WorkerIntent {
    fn clone(&self) -> (r: Self)
        ensures
            r@ == self@,
    {
        WorkerIntent { path: self.path.clone(), kind: self.kind, timestamp: self.timestamp }
    }
}

/// The contents of the intents of `ws`.
pub open spec fn intent_views(ws: Seq<WorkerIntent>) -> Seq<IntentView> {
    ws.map_values(|w: WorkerIntent| w@)
}

/// The intents that wait to be carried out, at most one for each file.
#[derive(Debug)]
pub struct IntentList {
    map: PathMap<WorkerIntent>,
}

impl View for IntentList {
    type V = Map<Seq<Part>, IntentView>;

    closed spec fn view(&self) -> Map<Seq<Part>, IntentView> {
        self.map@.map_values(|w: WorkerIntent| w@)
    }
}

/// Whether an intent is `max_age` nanoseconds old, or older.
pub open spec fn is_stale(w: IntentView, now: int, max_age: int) -> bool {
    now - w.timestamp >= max_age
}

/// Whether no intent was made after `now`.
pub open spec fn made_by(intents: Map<Seq<Part>, IntentView>, now: int) -> bool {
    forall|k: Seq<Part>| #[trigger] intents.contains_key(k) ==> intents[k].timestamp <= now
}

/// The intents that are not stale.
pub open spec fn fresh(intents: Map<Seq<Part>, IntentView>, now: int, max_age: int) -> Map<
    Seq<Part>,
    IntentView,
> {
    Map::new(
        |k: Seq<Part>| intents.contains_key(k) && !is_stale(intents[k], now, max_age),
        |k: Seq<Part>| intents[k],
    )
}

/// Whether `taken` holds the stale ones of `intents`, each once, and nothing else.
pub open spec fn are_the_stale(
    taken: Seq<IntentView>,
    intents: Map<Seq<Part>, IntentView>,
    now: int,
    max_age: int,
) -> bool {
    &&& forall|i: int|
        0 <= i < taken.len() ==> {
            let k = path::parts((#[trigger] taken[i]).path);
            intents.contains_key(k) && taken[i] == intents[k] && is_stale(taken[i], now, max_age)
        }
    &&& forall|i: int, j: int|
        0 <= i < j < taken.len() ==> path::parts((#[trigger] taken[i]).path) != path::parts(
            (#[trigger] taken[j]).path,
        )
    &&& forall|k: Seq<Part>| #[trigger]
        intents.contains_key(k) && is_stale(intents[k], now, max_age) ==> exists|i: int|
            0 <= i < taken.len() && #[trigger] taken[i] == intents[k]
}

/// Whether taking the stale ones out of `before` at `now` gave `taken` and left `after`.
pub open spec fn took_stale(
    before: Map<Seq<Part>, IntentView>,
    after: Map<Seq<Part>, IntentView>,
    taken: Seq<IntentView>,
    now: int,
    max_age: int,
) -> bool {
    &&& made_by(before, now)
    &&& after == fresh(before, now, max_age)
    &&& are_the_stale(taken, before, now, max_age)
}

impl IntentList {
    /// No file has two intents, and each intent is found under the path that it is about.
    pub closed spec fn wf(&self) -> bool {
        &&& self.map.wf()
        &&& forall|k: Seq<Part>| #[trigger]
            self.map@.contains_key(k) ==> path::parts(self.map@[k].path@) == k
    }

    /// What `wf` says of the contents.
    pub proof fn lemma_keys(&self)
        requires
            self.wf(),
        ensures
            self@.dom().finite(),
            forall|k: Seq<Part>| #[trigger]
                self@.contains_key(k) ==> path::parts(self@[k].path) == k,
    {
        self.map.lemma_pairs();
        assert(self@.dom() =~= self.map@.dom());
    }

    /// An empty list.
    pub fn new() -> (r: IntentList)
        ensures
            r.wf(),
            r@ == Map::<Seq<Part>, IntentView>::empty(),
    {
        let r: IntentList = IntentList { map: PathMap::new() };
        assert(r@ =~= Map::<Seq<Part>, IntentView>::empty());
        r
    }

    /// Puts `intent` in the list, in the place of one for the same file.
    pub fn create(&mut self, intent: WorkerIntent)
        requires
            old(self).wf(),
        ensures
            final(self).wf(),
            final(self)@ == old(self)@.insert(path::parts(intent@.path), intent@),
    {
        let replaced: Option<WorkerIntent> = self.map.insert(intent.path.clone(), intent);
        assert(self@ =~= old(self)@.insert(path::parts(intent@.path), intent@));
    }

    /// Takes the intent for `path` out.
    pub fn remove(&mut self, path: &FsPath) -> (r: Option<WorkerIntent>)
        requires
            old(self).wf(),
        ensures
            final(self).wf(),
            final(self)@ == old(self)@.remove(path.key()),
            r is Some <==> old(self)@.contains_key(path.key()),
            r matches Some(w) ==> w@ == old(self)@[path.key()],
    {
        let r: Option<WorkerIntent> = self.map.remove(path);
        assert(self@ =~= old(self)@.remove(path.key()));
        r
    }

    /// Whether there is an intent for `path`.
    pub fn has_intent_for(&self, path: &FsPath) -> (r: bool)
        requires
            self.wf(),
        ensures
            r == self@.contains_key(path.key()),
    {
        self.map.contains_key(path)
    }

    /// How many intents there are.
    pub fn len(&self) -> (r: usize)
        requires
            self.wf(),
        ensures
            r == self@.len(),
            self@.dom().finite(),
    {
        let r: usize = self.map.len();
        assert(self@.dom() =~= self.map@.dom());
        r
    }

    /// Whether there are no intents.
    pub fn is_empty(&self) -> (r: bool)
        requires
            self.wf(),
        ensures
            r == (self@ == Map::<Seq<Part>, IntentView>::empty()),
            r == (self@.len() == 0),
    {
        let r: bool = self.len() == 0;
        proof {
            if r {
                assert(self@ =~= Map::<Seq<Part>, IntentView>::empty()) by {
                    assert forall|k: Seq<Part>| !self@.contains_key(k) by {
                        if self@.dom().contains(k) {
                            assert(self@.dom().len() != 0);
                        }
                    }
                }
            }
        }
        r
    }

    /// Whether all intents were made at `now` or before.
    fn all_made_by(&self, now: &Timestamp) -> (r: bool)
        requires
            self.wf(),
        ensures
            r == made_by(self@, now@),
    {
        let pairs: &Vec<(FsPath, WorkerIntent)> = self.map.as_pairs();
        proof {
            self.map.lemma_pairs();
        }
        let mut i: usize = 0;
        while i < pairs.len()
            invariant
                self.wf(),
                pairs@ == self.map.pairs(),
                i <= pairs@.len(),
                forall|j: int| 0 <= j < i ==> (#[trigger] pairs@[j]).1.timestamp@ <= now@,
            decreases pairs@.len() - i,
        {
            if now.nanos_since(&pairs[i].1.timestamp).is_none() {
                proof {
                    self.map.lemma_pairs();
                    let k = pairs@[i as int].0.key();
                    assert(self@.contains_key(k));
                    assert(self@[k].timestamp == pairs@[i as int].1.timestamp@);
                }
                return false;
            }
            i = i + 1;
        }
        proof {
            assert forall|k: Seq<Part>| #[trigger] self@.contains_key(k) implies self@[k].timestamp
                <= now@ by {
                assert(self.map@.contains_key(k));
                let j = choose|j: int|
                    0 <= j < pairs@.len() && (#[trigger] pairs@[j]).0.key() == k;
                assert(self.map@[k] == pairs@[j].1);
            }
        }
        true
    }

    /// The paths of the intents that are stale at `now`.
    fn stale_paths(&self, now: &Timestamp, max_age: u128) -> (r: Vec<FsPath>)
        requires
            self.wf(),
            made_by(self@, now@),
        ensures
            forall|i: int|
                0 <= i < r@.len() ==> self@.contains_key((#[trigger] r@[i]).key()) && is_stale(
                    self@[r@[i].key()],
                    now@,
                    max_age as int,
                ),
            forall|i: int, j: int|
                0 <= i < j < r@.len() ==> (#[trigger] r@[i]).key() != (#[trigger] r@[j]).key(),
            forall|k: Seq<Part>| #[trigger]
                self@.contains_key(k) && is_stale(self@[k], now@, max_age as int) ==> exists|i: int|
                    0 <= i < r@.len() && (#[trigger] r@[i]).key() == k,
    {
        let pairs: &Vec<(FsPath, WorkerIntent)> = self.map.as_pairs();
        proof {
            self.map.lemma_pairs();
        }
        let mut r: Vec<FsPath> = Vec::new();
        let mut i: usize = 0;
        let ghost mut from: Seq<int> = Seq::empty();
        while i < pairs.len()
            invariant
                self.wf(),
                made_by(self@, now@),
                pairs@ == self.map.pairs(),
                i <= pairs@.len(),
                from.len() == r@.len(),
                forall|a: int|
                    0 <= a < r@.len() ==> 0 <= #[trigger] from[a] < i && r@[a].key()
                        == pairs@[from[a]].0.key() && is_stale(
                        pairs@[from[a]].1@,
                        now@,
                        max_age as int,
                    ),
                forall|a: int, b: int|
                    0 <= a < b < r@.len() ==> #[trigger] from[a] < #[trigger] from[b],
                forall|j: int|
                    0 <= j < i && is_stale((#[trigger] pairs@[j]).1@, now@, max_age as int)
                        ==> exists|a: int| 0 <= a < r@.len() && #[trigger] from[a] == j,
            decreases pairs@.len() - i,
        {
            let age: Option<u128> = now.nanos_since(&pairs[i].1.timestamp);
            proof {
                self.map.lemma_pairs();
                let k = pairs@[i as int].0.key();
                assert(self@.contains_key(k));
                assert(self@[k].timestamp == pairs@[i as int].1.timestamp@);
            }
            let stale: bool = match age {
                Some(nanos) => nanos >= max_age,
                None => false,
            };
            if stale {
                let ghost before = from;
                let ghost count = r@.len() as int;
                r.push(pairs[i].0.clone());
                proof {
                    from = from.push(i as int);
                    assert(forall|a: int| 0 <= a < count ==> #[trigger] from[a] == before[a]);
                    assert forall|j: int|
                        0 <= j < i + 1 && is_stale(
                            (#[trigger] pairs@[j]).1@,
                            now@,
                            max_age as int,
                        ) implies exists|a: int| 0 <= a < r@.len() && #[trigger] from[a] == j by {
                        if j == i {
                            assert(from[count] == j);
                        } else {
                            let a = choose|a: int| 0 <= a < count && #[trigger] before[a] == j;
                            assert(from[a] == j);
                        }
                    }
                }
            }
            i = i + 1;
        }
        proof {
            self.map.lemma_pairs();
            assert forall|a: int| 0 <= a < r@.len() implies self@.contains_key(
                (#[trigger] r@[a]).key(),
            ) && is_stale(self@[r@[a].key()], now@, max_age as int) by {
                let j = from[a];
                assert(self.map@.contains_key(pairs@[j].0.key()));
            }
            assert forall|a: int, b: int| 0 <= a < b < r@.len() implies (#[trigger] r@[a]).key()
                != (#[trigger] r@[b]).key() by {
                assert(from[a] < from[b]);
            }
            assert forall|k: Seq<Part>| #[trigger]
                self@.contains_key(k) && is_stale(
                    self@[k],
                    now@,
                    max_age as int,
                ) implies exists|a: int| 0 <= a < r@.len() && (#[trigger] r@[a]).key() == k by {
                assert(self.map@.contains_key(k));
                let j = choose|j: int|
                    0 <= j < pairs@.len() && (#[trigger] pairs@[j]).0.key() == k;
                assert(self.map@[k] == pairs@[j].1);
                let a = choose|a: int| 0 <= a < r@.len() && #[trigger] from[a] == j;
                assert(r@[a].key() == k);
            }
        }
        r
    }

    /// Takes out the intents that are at least `max_age` nanoseconds old at `now`, where none
    /// was made after `now`.
    fn take_stale(&mut self, now: &Timestamp, max_age: u128) -> (r: Vec<WorkerIntent>)
        requires
            old(self).wf(),
            made_by(old(self)@, now@),
        ensures
            final(self).wf(),
            took_stale(old(self)@, final(self)@, intent_views(r@), now@, max_age as int),
    {
        let ghost before = self@;
        proof {
            self.lemma_keys();
        }
        let keys: Vec<FsPath> = self.stale_paths(now, max_age);
        let mut r: Vec<WorkerIntent> = Vec::new();
        let mut i: usize = 0;
        while i < keys.len()
            invariant
                i <= keys@.len(),
                self.wf(),
                r@.len() == i,
                forall|a: int|
                    0 <= a < keys@.len() ==> before.contains_key((#[trigger] keys@[a]).key()),
                forall|a: int, b: int|
                    0 <= a < b < keys@.len() ==> (#[trigger] keys@[a]).key() != (
                    #[trigger] keys@[b]).key(),
                forall|a: int| 0 <= a < i ==> (#[trigger] r@[a])@ == before[keys@[a].key()],
                forall|k: Seq<Part>| #[trigger]
                    self@.contains_key(k) <==> before.contains_key(k) && forall|a: int|
                        0 <= a < i ==> (#[trigger] keys@[a]).key() != k,
                forall|k: Seq<Part>| #[trigger] self@.contains_key(k) ==> self@[k] == before[k],
            decreases keys@.len() - i,
        {
            let ghost here = keys@[i as int].key();
            assert(self@.contains_key(here)) by {
                assert(before.contains_key(here));
                assert forall|a: int| 0 <= a < i implies (#[trigger] keys@[a]).key() != here by {
                    assert(keys@[a].key() != keys@[i as int].key());
                }
            }
            let ghost prior = self@;
            let removed: Option<WorkerIntent> = self.remove(&keys[i]);
            match removed {
                Some(intent) => r.push(intent),
                None => assert(false),
            }
            proof {
                assert forall|k: Seq<Part>| #[trigger] self@.contains_key(k) <==> (
                before.contains_key(k) && forall|a: int|
                    0 <= a < i + 1 ==> (#[trigger] keys@[a]).key() != k) by {
                    if k == here {
                        assert(keys@[i as int].key() == k);
                    } else {
                        assert(self@.contains_key(k) == prior.contains_key(k));
                    }
                }
            }
            i = i + 1;
        }
        proof {
            let taken = intent_views(r@);
            let max = max_age as int;
            assert(self@ =~= fresh(before, now@, max)) by {
                assert forall|k: Seq<Part>| self@.contains_key(k) <==> fresh(
                    before,
                    now@,
                    max,
                ).contains_key(k) by {
                    if before.contains_key(k) && is_stale(before[k], now@, max) {
                        let a = choose|a: int|
                            0 <= a < keys@.len() && (#[trigger] keys@[a]).key() == k;
                        assert(keys@[a].key() == k);
                    }
                }
            }
            assert forall|a: int| 0 <= a < taken.len() implies path::parts(
                (#[trigger] taken[a]).path,
            ) == keys@[a].key() && taken[a] == before[keys@[a].key()] by {
                assert(taken[a] == r@[a]@);
                assert(before.contains_key(keys@[a].key()));
            }
            assert forall|k: Seq<Part>| #[trigger]
                before.contains_key(k) && is_stale(before[k], now@, max) implies exists|a: int|
                0 <= a < taken.len() && #[trigger] taken[a] == before[k] by {
                let a = choose|a: int| 0 <= a < keys@.len() && (#[trigger] keys@[a]).key() == k;
                assert(taken[a] == before[k]);
            }
            assert forall|a: int, b: int| 0 <= a < b < taken.len() implies path::parts(
                (#[trigger] taken[a]).path,
            ) != path::parts((#[trigger] taken[b]).path) by {
                assert(keys@[a].key() != keys@[b].key());
            }
        }
        r
    }

    /// Takes out the intents that are at least `max_age` nanoseconds old at `now`. Where an
    /// intent was made after `now`, there is no telling how old it is, and the list stays as
    /// it is.
    pub fn remove_stale_at(&mut self, now: &Timestamp, max_age: u128) -> (r: Option<
        Vec<WorkerIntent>,
    >)
        requires
            old(self).wf(),
        ensures
            final(self).wf(),
            if made_by(old(self)@, now@) {
                r matches Some(taken) && took_stale(
                    old(self)@,
                    final(self)@,
                    intent_views(taken@),
                    now@,
                    max_age as int,
                )
            } else {
                r is None && *final(self) == *old(self)
            },
    {
        if self.all_made_by(now) {
            Some(self.take_stale(now, max_age))
        } else {
            None
        }
    }

    /// Takes out the intents that are at least `max_age` nanoseconds old by the system clock.
    /// Where the clock shows a time before an intent was made, the list stays as it is.
    pub fn remove_stale(&mut self, max_age: u128) -> (r: Option<Vec<WorkerIntent>>)
        requires
            old(self).wf(),
        ensures
            final(self).wf(),
            match r {
                Some(taken) => exists|now: int|
                    time::is_moment(now) && #[trigger] made_by(old(self)@, now) && took_stale(
                        old(self)@,
                        final(self)@,
                        intent_views(taken@),
                        now,
                        max_age as int,
                    ),
                None => {
                    &&& *final(self) == *old(self)
                    &&& old(self)@.dom() != Set::<Seq<Part>>::empty()
                    &&& exists|now: int|
                        time::is_moment(now) && !#[trigger] made_by(old(self)@, now)
                },
            },
    {
        let now: Timestamp = Timestamp::now();
        let r: Option<Vec<WorkerIntent>> = self.remove_stale_at(&now, max_age);
        assert(made_by(old(self)@, now@) == r is Some);
        r
    }
}

/// An intent that was put in the list is what is taken out for its file, in whatever spelling,
/// and leaves the list as if there had been none for the file.
pub proof fn lemma_created_removed(
    intents: Map<Seq<Part>, IntentView>,
    intent: IntentView,
    spelling: Seq<u8>,
)
    requires
        path::parts(spelling) == path::parts(intent.path),
    ensures
        ({
            let after = intents.insert(path::parts(intent.path), intent);
            &&& after.contains_key(path::parts(spelling))
            &&& after[path::parts(spelling)] == intent
            &&& after.remove(path::parts(spelling)) == intents.remove(path::parts(spelling))
        }),
{
    let key = path::parts(spelling);
    assert(intents.insert(key, intent).remove(key) =~= intents.remove(key));
}

/// Of each intent it holds that it is either taken out as stale or stays, never both.
pub proof fn lemma_stale_or_fresh(
    before: Map<Seq<Part>, IntentView>,
    after: Map<Seq<Part>, IntentView>,
    taken: Seq<IntentView>,
    now: int,
    max_age: int,
    key: Seq<Part>,
)
    requires
        took_stale(before, after, taken, now, max_age),
        before.contains_key(key),
        path::parts(before[key].path) == key,
    ensures
        after.contains_key(key) <==> !is_stale(before[key], now, max_age),
        after.contains_key(key) <==> !taken.contains(before[key]),
        after.contains_key(key) ==> after[key] == before[key],
{
    if is_stale(before[key], now, max_age) {
        let i = choose|i: int| 0 <= i < taken.len() && #[trigger] taken[i] == before[key];
        assert(taken.contains(before[key]));
    } else if taken.contains(before[key]) {
        let i = choose|i: int| 0 <= i < taken.len() && taken[i] == before[key];
        assert(is_stale(taken[i], now, max_age));
    }
}

/// Once the stale intents have been taken out, there are none left at that time.
pub proof fn lemma_stale_taken_once(
    before: Map<Seq<Part>, IntentView>,
    after: Map<Seq<Part>, IntentView>,
    taken: Seq<IntentView>,
    again: Map<Seq<Part>, IntentView>,
    taken_again: Seq<IntentView>,
    now: int,
    max_age: int,
)
    requires
        took_stale(before, after, taken, now, max_age),
        took_stale(after, again, taken_again, now, max_age),
    ensures
        again == after,
        taken_again.len() == 0,
{
    if taken_again.len() > 0 {
        let k = path::parts(taken_again[0].path);
        assert(after.contains_key(k));
    }
    assert(again =~= after);
}

/// What can go wrong with an intent.
#[derive(Debug)]
pub enum HandleIntentError {
    /// The file could not be backed up.
    HandleFile(HandleFileError),
}

/// What carrying an intent out comes to.
#[derive(Debug)]
pub enum IntentStep {
    /// Back a new state of the file up.
    Modify(ModifyStep),
    /// Back the file up for the first time.
    Create(CreateStep),
    /// Nothing is to be done.
    Nothing,
}

/// Carries intents out.
#[derive(Debug)]
pub struct IntentHandler {
    file_handler: FileHandler,
}

impl View for IntentHandler {
    type V = ConfigView;

    closed spec fn view(&self) -> ConfigView {
        self.file_handler@
    }
}

impl Clone for IntentHandler {
    fn clone(&self) -> (r: Self)
        ensures
            r@ == self@,
    {
        IntentHandler { file_handler: self.file_handler.clone() }
    }
}

impl IntentHandler {
    /// A handler that backs files up by `file_handler`.
    pub fn new(file_handler: FileHandler) -> (r: IntentHandler)
        ensures
            r@ == file_handler@,
    {
        IntentHandler { file_handler }
    }

    /// Starts to carry `intent` out for the file `file_path`.
    pub fn handle(&self, journal: &mut Journal, file_path: &FsPath, intent: &WorkerIntent) -> (r:
        Result<IntentStep, HandleIntentError>)
        requires
            old(journal).wf(),
            old(journal)@.knows(file_path@) ==> old(journal)@.dirty_count < usize::MAX,
        ensures
            final(journal).wf(),
            match intent.kind {
                IntentKind::Modify => {
                    &&& r matches Ok(IntentStep::Modify(step))
                    &&& file::modifies(old(journal)@, final(journal)@, file_path@, step)
                },
                IntentKind::Create => {
                    &&& *final(journal) == *old(journal)
                    &&& match r {
                        Ok(step) => step is Create && file::creates(
                            self@,
                            old(journal)@,
                            file_path@,
                            Ok(step->Create_0),
                        ),
                        Err(HandleIntentError::HandleFile(e)) => file::creates(
                            self@,
                            old(journal)@,
                            file_path@,
                            Err(e),
                        ),
                    }
                },
                IntentKind::Remove => {
                    &&& *final(journal) == *old(journal)
                    &&& r matches Ok(IntentStep::Nothing)
                },
            },
    {
        match intent.kind {
            IntentKind::Modify => Ok(
                IntentStep::Modify(self.file_handler.modify(journal, file_path)),
            ),
            IntentKind::Create => {
                match self.file_handler.create(journal, file_path) {
                    Ok(step) => Ok(IntentStep::Create(step)),
                    Err(e) => Err(HandleIntentError::HandleFile(e)),
                }
            },
            _ => Ok(IntentStep::Nothing),
        }
    }
}

/// An intent is about a file, of a kind, and was made at a time.
pub proof fn lemma_intent_view(intents: Seq<WorkerIntent>)
    ensures
        intent_views(intents).len() == intents.len(),
        forall|i: int|
            0 <= i < intents.len() ==> {
                let w = #[trigger] intent_views(intents)[i];
                &&& w.path == intents[i].path@
                &&& w.kind == intents[i].kind
                &&& w.timestamp == intents[i].timestamp@
            },
{
}

/// There is no telling the age of intents only where one was made later.
pub proof fn lemma_made_by(intents: Map<Seq<Part>, IntentView>, now: int)
    ensures
        !made_by(intents, now) <==> exists|k: Seq<Part>| #[trigger]
            intents.contains_key(k) && intents[k].timestamp > now,
{
    if !made_by(intents, now) {
        let k = choose|k: Seq<Part>| #[trigger]
            intents.contains_key(k) && !(intents[k].timestamp <= now);
        assert(intents.contains_key(k) && intents[k].timestamp > now);
    }
}

/// Age alone decides: an intent, of whatever kind, is among those taken out, and no longer in
/// the list, just where it was made `max_age` or longer before `now`. The others stay as they
/// are.
pub proof fn lemma_taken_by_age(
    before: Map<Seq<Part>, IntentView>,
    after: Map<Seq<Part>, IntentView>,
    taken: Seq<IntentView>,
    now: int,
    max_age: int,
    key: Seq<Part>,
)
    requires
        took_stale(before, after, taken, now, max_age),
        before.contains_key(key),
    ensures
        now - before[key].timestamp >= max_age <==> !after.contains_key(key),
        now - before[key].timestamp >= max_age ==> taken.contains(before[key]),
        path::parts(before[key].path) == key && taken.contains(before[key]) ==> now
            - before[key].timestamp >= max_age,
        now - before[key].timestamp < max_age ==> after[key] == before[key],
        before[key].timestamp <= now,
{
    if now - before[key].timestamp >= max_age {
        assert(before.contains_key(key) && is_stale(before[key], now, max_age));
        let i = choose|i: int| 0 <= i < taken.len() && #[trigger] taken[i] == before[key];
        assert(taken.contains(before[key]));
    }
    if taken.contains(before[key]) {
        let i = choose|i: int| 0 <= i < taken.len() && taken[i] == before[key];
        assert(is_stale(taken[i], now, max_age));
    }
}

/// Nothing is made up: each intent that is taken out was in the list under its own path, was made
/// `max_age` or longer before `now`, and is taken out once; and nothing comes into the list.
pub proof fn lemma_taken_was_there(
    before: Map<Seq<Part>, IntentView>,
    after: Map<Seq<Part>, IntentView>,
    taken: Seq<IntentView>,
    now: int,
    max_age: int,
)
    requires
        took_stale(before, after, taken, now, max_age),
    ensures
        forall|i: int|
            0 <= i < taken.len() ==> {
                let w = #[trigger] taken[i];
                &&& before.contains_key(path::parts(w.path))
                &&& before[path::parts(w.path)] == w
                &&& now - w.timestamp >= max_age
                &&& !after.contains_key(path::parts(w.path))
            },
        forall|i: int, j: int|
            0 <= i < j < taken.len() ==> path::parts((#[trigger] taken[i]).path) != path::parts(
                (#[trigger] taken[j]).path,
            ),
        forall|k: Seq<Part>| #[trigger] after.contains_key(k) ==> before.contains_key(k),
{
}

} // verus!
