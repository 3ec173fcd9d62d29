//! A map whose keys are paths. Spellings of the same path are the same key.
use vstd::prelude::*;

use crate::path::{FsPath, Part};

verus! {

/// A map from paths to values.
#[derive(Debug)]
pub struct PathMap<V> {
    slots: Vec<(FsPath, V)>,
}

/// The map that results when the pairs of `slots` are put in one after the other.
pub open spec fn collected<V>(slots: Seq<(FsPath, V)>) -> Map<Seq<Part>, V>
    decreases slots.len(),
{
    if slots.len() == 0 {
        Map::empty()
    } else {
        collected(slots.drop_last()).insert(slots.last().0.key(), slots.last().1)
    }
}

/// How the keys of that map are spelled: of spellings of the same key the first counts.
pub open spec fn spelled<V>(slots: Seq<(FsPath, V)>) -> Map<Seq<Part>, Seq<u8>>
    decreases slots.len(),
{
    if slots.len() == 0 {
        Map::empty()
    } else {
        let front = slots.drop_last();
        let path = slots.last().0;
        if collected(front).contains_key(path.key()) {
            spelled(front)
        } else {
            spelled(front).insert(path.key(), path@)
        }
    }
}

/// Whether no key occurs twice.
pub open spec fn distinct<V>(slots: Seq<(FsPath, V)>) -> bool {
    forall|i: int, j: int|
        0 <= i < j < slots.len() ==> (#[trigger] slots[i]).0.key() != (#[trigger] slots[j]).0.key()
}

/// Where keys are distinct, each pair is in the map, and nothing else is.
pub proof fn lemma_collected<V>(slots: Seq<(FsPath, V)>)
    requires
        distinct(slots),
    ensures
        forall|i: int|
            0 <= i < slots.len() ==> collected(slots).contains_key(
                (#[trigger] slots[i]).0.key(),
            ) && collected(slots)[slots[i].0.key()] == slots[i].1,
        forall|k: Seq<Part>| #[trigger]
            collected(slots).contains_key(k) ==> exists|i: int|
                0 <= i < slots.len() && (#[trigger] slots[i]).0.key() == k,
        collected(slots).dom().finite(),
        collected(slots).len() == slots.len(),
    decreases slots.len(),
{
    if slots.len() > 0 {
        let front = slots.drop_last();
        lemma_collected(front);
        assert forall|k: Seq<Part>| #[trigger] collected(slots).contains_key(k) implies exists|
            i: int,
        |
            0 <= i < slots.len() && (#[trigger] slots[i]).0.key() == k by {
            if k == slots.last().0.key() {
                assert(slots[slots.len() - 1].0.key() == k);
            } else {
                let i = choose|i: int| 0 <= i < front.len() && (#[trigger] front[i]).0.key() == k;
                assert(slots[i].0.key() == k);
            }
        }
        assert forall|i: int| 0 <= i < slots.len() implies collected(slots).contains_key(
            (#[trigger] slots[i]).0.key(),
        ) && collected(slots)[slots[i].0.key()] == slots[i].1 by {
            if i < front.len() {
                assert(front[i] == slots[i]);
            }
        }
        if collected(front).contains_key(slots.last().0.key()) {
            let i = choose|i: int|
                0 <= i < front.len() && (#[trigger] front[i]).0.key() == slots.last().0.key();
            assert(slots[i].0.key() == slots[slots.len() - 1].0.key());
        }
    }
}

/// Each key of the map is that of a pair, and its value is that of a pair with that key.
pub proof fn lemma_collected_from<V>(slots: Seq<(FsPath, V)>, k: Seq<Part>)
    ensures
        collected(slots).contains_key(k) <==> exists|i: int|
            0 <= i < slots.len() && (#[trigger] slots[i]).0.key() == k,
        collected(slots).contains_key(k) ==> exists|i: int|
            0 <= i < slots.len() && (#[trigger] slots[i]).0.key() == k && slots[i].1 == collected(
                slots,
            )[k],
    decreases slots.len(),
{
    if slots.len() > 0 {
        let front = slots.drop_last();
        lemma_collected_from(front, k);
        assert(slots[slots.len() - 1] == slots.last());
        assert(forall|i: int| 0 <= i < front.len() ==> #[trigger] front[i] == slots[i]);
        if exists|i: int| 0 <= i < slots.len() && (#[trigger] slots[i]).0.key() == k {
            let i = choose|i: int| 0 <= i < slots.len() && (#[trigger] slots[i]).0.key() == k;
            if i < front.len() {
                assert(front[i].0.key() == k);
            }
        }
        if collected(slots).contains_key(k) && slots.last().0.key() != k {
            let i = choose|i: int|
                0 <= i < front.len() && (#[trigger] front[i]).0.key() == k && front[i].1
                    == collected(front)[k];
            assert(slots[i].0.key() == k);
        }
    }
}

/// Of pairs with the same key the last value counts.
pub proof fn lemma_last_counts<V>(slots: Seq<(FsPath, V)>, i: int)
    requires
        0 <= i < slots.len(),
        forall|j: int| i < j < slots.len() ==> (#[trigger] slots[j]).0.key() != slots[i].0.key(),
    ensures
        collected(slots).contains_key(slots[i].0.key()),
        collected(slots)[slots[i].0.key()] == slots[i].1,
    decreases slots.len(),
{
    if i < slots.len() - 1 {
        let front = slots.drop_last();
        assert(front[i] == slots[i]);
        assert forall|j: int| i < j < front.len() implies (#[trigger] front[j]).0.key()
            != front[i].0.key() by {
            assert(front[j] == slots[j]);
        }
        lemma_last_counts(front, i);
        assert(slots[slots.len() - 1].0.key() != slots[i].0.key());
    }
}

/// Of spellings of the same key the first counts.
pub proof fn lemma_first_spelling_counts<V>(slots: Seq<(FsPath, V)>, i: int)
    requires
        0 <= i < slots.len(),
        forall|j: int| 0 <= j < i ==> (#[trigger] slots[j]).0.key() != slots[i].0.key(),
    ensures
        spelled(slots).contains_key(slots[i].0.key()),
        spelled(slots)[slots[i].0.key()] == slots[i].0@,
    decreases slots.len(),
{
    let front = slots.drop_last();
    lemma_collected_from(front, slots.last().0.key());
    if i < slots.len() - 1 {
        assert(front[i] == slots[i]);
        assert forall|j: int| 0 <= j < i implies (#[trigger] front[j]).0.key()
            != front[i].0.key() by {
            assert(front[j] == slots[j]);
        }
        lemma_first_spelling_counts(front, i);
    } else if collected(front).contains_key(slots.last().0.key()) {
        let j = choose|j: int|
            0 <= j < front.len() && (#[trigger] front[j]).0.key() == slots.last().0.key();
        assert(slots[j] == front[j]);
    }
}

/// Where keys are distinct, each is spelled as in its pair.
pub proof fn lemma_spelled<V>(slots: Seq<(FsPath, V)>)
    requires
        distinct(slots),
    ensures
        spelled(slots).dom() == collected(slots).dom(),
        forall|i: int|
            0 <= i < slots.len() ==> spelled(slots)[(#[trigger] slots[i]).0.key()] == slots[i].0@,
    decreases slots.len(),
{
    if slots.len() > 0 {
        let front = slots.drop_last();
        lemma_spelled(front);
        lemma_collected(front);
        let last = slots.last().0.key();
        if collected(front).contains_key(last) {
            let i = choose|i: int| 0 <= i < front.len() && (#[trigger] front[i]).0.key() == last;
            assert(slots[i].0.key() == slots[slots.len() - 1].0.key());
        }
        assert forall|i: int| 0 <= i < slots.len() implies spelled(slots)[(
        #[trigger] slots[i]).0.key()] == slots[i].0@ by {
            if i < front.len() {
                assert(front[i] == slots[i]);
                assert(slots[i].0.key() != slots[slots.len() - 1].0.key());
            }
        }
    }
    assert(spelled(slots).dom() =~= collected(slots).dom());
}

/// Replacing values does not change how keys are spelled.
proof fn lemma_spelled_update<V>(slots: Seq<(FsPath, V)>, i: int, value: V)
    requires
        distinct(slots),
        0 <= i < slots.len(),
    ensures
        spelled(slots.update(i, (slots[i].0, value))) == spelled(slots),
{
    let after = slots.update(i, (slots[i].0, value));
    lemma_collected_update(slots, i, value);
    lemma_collected(slots);
    lemma_spelled(slots);
    lemma_spelled(after);
    assert forall|k: Seq<Part>| spelled(slots).contains_key(k) implies spelled(after)[k]
        == spelled(slots)[k] by {
        let j = choose|j: int| 0 <= j < slots.len() && (#[trigger] slots[j]).0.key() == k;
        assert(after[j].0 == slots[j].0);
    }
    assert(spelled(after) =~= spelled(slots));
}

/// Taking a pair out takes the spelling of its key out.
proof fn lemma_spelled_remove<V>(slots: Seq<(FsPath, V)>, i: int)
    requires
        distinct(slots),
        0 <= i < slots.len(),
    ensures
        spelled(slots.remove(i)) == spelled(slots).remove(slots[i].0.key()),
{
    let after = slots.remove(i);
    lemma_collected_remove(slots, i);
    lemma_collected(after);
    lemma_spelled(slots);
    lemma_spelled(after);
    let m = spelled(slots).remove(slots[i].0.key());
    assert forall|k: Seq<Part>| spelled(after).contains_key(k) implies spelled(after)[k]
        == m[k] by {
        let j = choose|j: int| 0 <= j < after.len() && (#[trigger] after[j]).0.key() == k;
        let x = if j < i {
            j
        } else {
            j + 1
        };
        assert(after[j] == slots[x]);
    }
    assert(spelled(after) =~= m);
}

/// Replacing the value at `i` replaces the value of its key.
proof fn lemma_collected_update<V>(slots: Seq<(FsPath, V)>, i: int, value: V)
    requires
        distinct(slots),
        0 <= i < slots.len(),
    ensures
        distinct(slots.update(i, (slots[i].0, value))),
        collected(slots.update(i, (slots[i].0, value))) == collected(slots).insert(
            slots[i].0.key(),
            value,
        ),
{
    let after = slots.update(i, (slots[i].0, value));
    assert(forall|j: int| 0 <= j < slots.len() ==> after[j].0 == (#[trigger] slots[j]).0);
    assert(distinct(after)) by {
        assert forall|a: int, b: int| 0 <= a < b < after.len() implies (#[trigger] after[a]).0.key()
            != (#[trigger] after[b]).0.key() by {
            assert(slots[a].0.key() != slots[b].0.key());
        }
    }
    lemma_collected(slots);
    lemma_collected(after);
    let m = collected(slots).insert(slots[i].0.key(), value);
    assert forall|k: Seq<Part>| collected(after).contains_key(k) <==> m.contains_key(k) by {
        if collected(after).contains_key(k) {
            let j = choose|j: int| 0 <= j < after.len() && (#[trigger] after[j]).0.key() == k;
            assert(slots[j].0.key() == k);
        }
        if m.contains_key(k) {
            if k == slots[i].0.key() {
                assert(after[i].0.key() == k);
            } else {
                let j = choose|j: int| 0 <= j < slots.len() && (#[trigger] slots[j]).0.key() == k;
                assert(after[j].0.key() == k);
            }
        }
    }
    assert forall|k: Seq<Part>| collected(after).contains_key(k) implies collected(after)[k]
        == m[k] by {
        let j = choose|j: int| 0 <= j < after.len() && (#[trigger] after[j]).0.key() == k;
        assert(slots[j].0.key() == k);
        if j != i {
            assert(slots[i].0.key() != k);
        }
    }
    assert(collected(after) =~= m);
}

/// Taking the pair at `i` out takes its key out.
proof fn lemma_collected_remove<V>(slots: Seq<(FsPath, V)>, i: int)
    requires
        distinct(slots),
        0 <= i < slots.len(),
    ensures
        distinct(slots.remove(i)),
        collected(slots.remove(i)) == collected(slots).remove(slots[i].0.key()),
{
    let after = slots.remove(i);
    assert(forall|j: int|
        0 <= j < after.len() ==> #[trigger] after[j] == slots[if j < i {
            j
        } else {
            j + 1
        }]);
    assert(distinct(after)) by {
        assert forall|a: int, b: int| 0 <= a < b < after.len() implies (#[trigger] after[a]).0.key()
            != (#[trigger] after[b]).0.key() by {
            let x = if a < i {
                a
            } else {
                a + 1
            };
            let y = if b < i {
                b
            } else {
                b + 1
            };
            assert(slots[x].0.key() != slots[y].0.key());
        }
    }
    lemma_collected(slots);
    lemma_collected(after);
    let m = collected(slots).remove(slots[i].0.key());
    assert forall|k: Seq<Part>| collected(after).contains_key(k) <==> m.contains_key(k) by {
        if collected(after).contains_key(k) {
            let j = choose|j: int| 0 <= j < after.len() && (#[trigger] after[j]).0.key() == k;
            let x = if j < i {
                j
            } else {
                j + 1
            };
            assert(slots[x].0.key() == k);
            assert(k != slots[i].0.key());
        }
        if m.contains_key(k) {
            let j = choose|j: int| 0 <= j < slots.len() && (#[trigger] slots[j]).0.key() == k;
            let x = if j < i {
                j
            } else {
                j - 1
            };
            assert(after[x].0.key() == k);
        }
    }
    assert forall|k: Seq<Part>| collected(after).contains_key(k) implies collected(after)[k]
        == m[k] by {
        let j = choose|j: int| 0 <= j < after.len() && (#[trigger] after[j]).0.key() == k;
        let x = if j < i {
            j
        } else {
            j + 1
        };
        assert(slots[x].0.key() == k);
    }
    assert(collected(after) =~= m);
}

impl<V> View for PathMap<V> {
    type V = Map<Seq<Part>, V>;

    closed spec fn view(&self) -> Map<Seq<Part>, V> {
        collected(self.slots@)
    }
}

impl<V> PathMap<V> {
    /// No path is a key twice.
    pub closed spec fn wf(&self) -> bool {
        distinct(self.slots@)
    }

    /// How the keys are spelled: as when they came in.
    pub closed spec fn spellings(&self) -> Map<Seq<Part>, Seq<u8>> {
        spelled(self.slots@)
    }

    /// The pairs, in some order.
    pub closed spec fn pairs(&self) -> Seq<(FsPath, V)> {
        self.slots@
    }

    /// The pairs make up the map.
    pub proof fn lemma_pairs(&self)
        requires
            self.wf(),
        ensures
            self@ == collected(self.pairs()),
            self.spellings() == spelled(self.pairs()),
            distinct(self.pairs()),
            self@.dom().finite(),
            self@.len() == self.pairs().len(),
            forall|i: int|
                0 <= i < self.pairs().len() ==> self@.contains_key(
                    (#[trigger] self.pairs()[i]).0.key(),
                ) && self@[self.pairs()[i].0.key()] == self.pairs()[i].1,
            forall|k: Seq<Part>| #[trigger]
                self@.contains_key(k) ==> exists|i: int|
                    0 <= i < self.pairs().len() && (#[trigger] self.pairs()[i]).0.key() == k,
    {
        lemma_collected(self.slots@);
        assert forall|k: Seq<Part>| #[trigger] self@.contains_key(k) implies exists|i: int|
            0 <= i < self.pairs().len() && (#[trigger] self.pairs()[i]).0.key() == k by {
            assert(collected(self.slots@).contains_key(k));
            let i = choose|i: int|
                0 <= i < self.slots@.len() && (#[trigger] self.slots@[i]).0.key() == k;
            assert(self.pairs()[i].0.key() == k);
        }
    }

    /// The empty map.
    pub fn new() -> (r: PathMap<V>)
        ensures
            r.wf(),
            r@ == Map::<Seq<Part>, V>::empty(),
            r.spellings() == Map::<Seq<Part>, Seq<u8>>::empty(),
    {
        PathMap { slots: Vec::new() }
    }

    /// The map of `pairs`: of pairs with the same key the last value and the first spelling
    /// count.
    pub fn from_pairs(pairs: Vec<(FsPath, V)>) -> (r: PathMap<V>)
        ensures
            r.wf(),
            r@ == collected(pairs@),
            r.spellings() == spelled(pairs@),
    {
        let ghost all = pairs@;
        let mut pairs: Vec<(FsPath, V)> = pairs;
        let mut r: PathMap<V> = PathMap::new();
        let ghost mut done: int = 0;
        while pairs.len() > 0
            invariant
                0 <= done,
                done + pairs@.len() == all.len(),
                pairs@ == all.skip(done),
                r.wf(),
                r@ == collected(all.take(done)),
                r.spellings() == spelled(all.take(done)),
            decreases pairs@.len(),
        {
            let (key, value) = pairs.remove(0);
            let old_value: Option<V> = r.insert(key, value);
            proof {
                assert(all[done] == (key, value));
                assert(all.take(done + 1).drop_last() =~= all.take(done));
                done = done + 1;
                assert(pairs@ =~= all.skip(done));
            }
        }
        assert(all.take(done) =~= all);
        r
    }

    /// The index of the pair with the key `path`.
    fn position(&self, path: &FsPath) -> (r: Option<usize>)
        requires
            self.wf(),
        ensures
            r is Some <==> self@.contains_key(path.key()),
            r matches Some(i) ==> i < self.slots@.len() && self.slots@[i as int].0.key()
                == path.key() && self@[path.key()] == self.slots@[i as int].1,
    {
        proof {
            lemma_collected(self.slots@);
        }
        let mut i: usize = 0;
        while i < self.slots.len()
            invariant
                self.wf(),
                i <= self.slots@.len(),
                forall|j: int| 0 <= j < i ==> (#[trigger] self.slots@[j]).0.key() != path.key(),
            decreases self.slots@.len() - i,
        {
            if self.slots[i].0.same_path(path) {
                proof {
                    lemma_collected(self.slots@);
                }
                return Some(i);
            }
            i = i + 1;
        }
        None
    }

    /// The value of `path`.
    pub fn get(&self, path: &FsPath) -> (r: Option<&V>)
        requires
            self.wf(),
        ensures
            r is Some <==> self@.contains_key(path.key()),
            r matches Some(v) ==> *v == self@[path.key()],
    {
        match self.position(path) {
            Some(i) => Some(&self.slots[i].1),
            None => None,
        }
    }

    /// Whether `path` has a value.
    pub fn contains_key(&self, path: &FsPath) -> (r: bool)
        requires
            self.wf(),
        ensures
            r == self@.contains_key(path.key()),
    {
        self.position(path).is_some()
    }

    /// The value of `path`, to be changed.
    pub fn get_mut(&mut self, path: &FsPath) -> (r: Option<&mut V>)
        requires
            old(self).wf(),
        ensures
            r is Some <==> old(self)@.contains_key(path.key()),
            r matches Some(v) ==> {
                &&& *v == old(self)@[path.key()]
                &&& final(self).wf()
                &&& final(self)@ == old(self)@.insert(path.key(), *final(v))
                &&& final(self).spellings() == old(self).spellings()
            },
            r is None ==> *final(self) == *old(self),
    {
        match self.position(path) {
            Some(i) => {
                let ghost slots = self.slots@;
                let pair: &mut (FsPath, V) = &mut self.slots[i];
                let v: &mut V = &mut pair.1;
                proof {
                    lemma_collected_update(slots, i as int, *final(v));
                    lemma_spelled_update(slots, i as int, *final(v));
                }
                Some(v)
            },
            None => None,
        }
    }

    /// Gives `path` the value `value` and hands out the value that it had.
    pub fn insert(&mut self, path: FsPath, value: V) -> (r: Option<V>)
        requires
            old(self).wf(),
        ensures
            final(self).wf(),
            final(self)@ == old(self)@.insert(path.key(), value),
            final(self).spellings() == if old(self)@.contains_key(path.key()) {
                old(self).spellings()
            } else {
                old(self).spellings().insert(path.key(), path@)
            },
            r is Some <==> old(self)@.contains_key(path.key()),
            r matches Some(v) ==> v == old(self)@[path.key()],
    {
        let ghost slots = self.slots@;
        match self.position(&path) {
            Some(i) => {
                proof {
                    lemma_collected_update(slots, i as int, value);
                    lemma_spelled_update(slots, i as int, value);
                }
                let (key, before) = self.slots.remove(i);
                self.slots.insert(i, (key, value));
                assert(self.slots@ =~= slots.update(i as int, (slots[i as int].0, value)));
                Some(before)
            },
            None => {
                proof {
                    lemma_collected(slots);
                    assert(slots.push((path, value)).drop_last() =~= slots);
                    assert(distinct(slots.push((path, value)))) by {
                        let after = slots.push((path, value));
                        assert forall|a: int, b: int| 0 <= a < b < after.len() implies (
                        #[trigger] after[a]).0.key() != (#[trigger] after[b]).0.key() by {
                            assert(slots[a].0.key() == after[a].0.key());
                            if b < slots.len() {
                                assert(slots[b].0.key() == after[b].0.key());
                            }
                        }
                    }
                }
                self.slots.push((path, value));
                None
            },
        }
    }

    /// Takes the value of `path` out.
    pub fn remove(&mut self, path: &FsPath) -> (r: Option<V>)
        requires
            old(self).wf(),
        ensures
            final(self).wf(),
            final(self)@ == old(self)@.remove(path.key()),
            final(self).spellings() == old(self).spellings().remove(path.key()),
            r is Some <==> old(self)@.contains_key(path.key()),
            r matches Some(v) ==> v == old(self)@[path.key()],
    {
        let ghost slots = self.slots@;
        match self.position(path) {
            Some(i) => {
                proof {
                    lemma_collected_remove(slots, i as int);
                    lemma_spelled_remove(slots, i as int);
                }
                let (key, value) = self.slots.remove(i);
                Some(value)
            },
            None => {
                proof {
                    lemma_spelled(slots);
                }
                assert(self@.remove(path.key()) =~= self@);
                assert(self.spellings().remove(path.key()) =~= self.spellings());
                None
            },
        }
    }

    /// How many paths have a value.
    pub fn len(&self) -> (r: usize)
        requires
            self.wf(),
        ensures
            r == self@.len(),
            self@.dom().finite(),
    {
        proof {
            lemma_collected(self.slots@);
        }
        self.slots.len()
    }

    /// The pairs.
    pub fn as_pairs(&self) -> (r: &Vec<(FsPath, V)>)
        requires
            self.wf(),
        ensures
            r@ == self.pairs(),
    {
        &self.slots
    }
}

} // verus!
