//! A memo of work done in the background: what was asked for is pending, then
//! ready or failed, for the rest of the process.

use vstd::prelude::*;

verus! {

/// What a memo can be keyed by.
pub trait Key: View + Sized {
    /// Whether two keys are the same.
    fn same(&self, other: &Self) -> (r: bool)
        ensures
            r == (self@ == other@),
    ;
}

impl Key for String {
    fn same(&self, other: &Self) -> (r: bool) {
        *self == *other
    }
}

/// How far a piece of work has come.
pub enum Slot<V> {
    /// It is under way.
    Pending,
    Ready(V),
    Failed,
}

/// A slot, with what is ready taken by its view.
pub open spec fn slot_view<V: View>(s: Slot<V>) -> Slot<V::V> {
    match s {
        Slot::Pending => Slot::Pending,
        Slot::Ready(v) => Slot::Ready(v@),
        Slot::Failed => Slot::Failed,
    }
}

/// The slots by key, and whether work has finished that nobody has looked at.
pub struct Memo<K, V> {
    entries: Vec<(K, Slot<V>)>,
    dirty: bool,
}

#[verifier::ext_equal]
#[verifier::reject_recursive_types(K)]
pub struct MemoView<K, V> {
    pub slots: Map<K, Slot<V>>,
    pub dirty: bool,
}

/// The slots that entries stand for; a later entry hides an earlier one.
spec fn slots_of<K: View, V: View>(entries: Seq<(K, Slot<V>)>) -> Map<K::V, Slot<V::V>>
    decreases entries.len(),
{
    if entries.len() == 0 {
        Map::empty()
    } else {
        slots_of(entries.drop_last()).insert(entries.last().0@, slot_view(entries.last().1))
    }
}

impl<K: View, V: View> View for Memo<K, V> {
    type V = MemoView<K::V, V::V>;

    closed spec fn view(&self) -> MemoView<K::V, V::V> {
        MemoView { slots: slots_of(self.entries@), dirty: self.dirty }
    }
}

proof fn slots_lookup<K: View, V: View>(entries: Seq<(K, Slot<V>)>, i: int, key: K::V)
    requires
        0 <= i <= entries.len(),
        forall|j: int| i <= j < entries.len() ==> (#[trigger] entries[j]).0@ != key,
    ensures
        slots_of(entries).dom().contains(key) == slots_of(entries.take(i)).dom().contains(key),
        slots_of(entries).dom().contains(key) ==> slots_of(entries)[key] == slots_of(
            entries.take(i),
        )[key],
    decreases entries.len(),
{
    if i == entries.len() {
        assert(entries.take(i) =~= entries);
    } else {
        assert(entries.last() == entries[entries.len() - 1]);
        assert(entries.drop_last().take(i) =~= entries.take(i));
        slots_lookup(entries.drop_last(), i, key);
    }
}

proof fn slots_update<K: View, V: View>(
    entries: Seq<(K, Slot<V>)>,
    i: int,
    entry: (K, Slot<V>),
)
    requires
        0 <= i < entries.len(),
        entries[i].0@ == entry.0@,
        forall|j: int| i < j < entries.len() ==> (#[trigger] entries[j]).0@ != entry.0@,
    ensures
        slots_of(entries.update(i, entry)) == slots_of(entries).insert(
            entry.0@,
            slot_view(entry.1),
        ),
    decreases entries.len(),
{
    let r = entries.update(i, entry);
    let k = entry.0@;
    let v = slot_view(entry.1);
    if i == entries.len() - 1 {
        assert(r.drop_last() =~= entries.drop_last());
        let m = slots_of(entries.drop_last());
        assert(m.insert(k, slot_view(entries.last().1)).insert(k, v) =~= m.insert(k, v));
    } else {
        let last = entries.last();
        assert(last == entries[entries.len() - 1]);
        assert(r.last() == last);
        assert(r.drop_last() =~= entries.drop_last().update(i, entry));
        slots_update(entries.drop_last(), i, entry);
        let m = slots_of(entries.drop_last());
        let lv = slot_view(last.1);
        assert(m.insert(k, v).insert(last.0@, lv) =~= m.insert(last.0@, lv).insert(k, v));
    }
}

impl<K: Key, V: View> Memo<K, V> {
    /// A memo that knows of no work.
    pub fn new() -> (r: Memo<K, V>)
        ensures
            r@.slots == Map::<K::V, Slot<V::V>>::empty(),
            !r@.dirty,
    {
        Memo { entries: Vec::new(), dirty: false }
    }

    fn position(&self, key: &K) -> (r: Option<usize>)
        ensures
            match r {
                Some(i) => i < self.entries@.len() && self.entries@[i as int].0@ == key@ && forall|
                    j: int,
                |
                    i < j < self.entries@.len() ==> (#[trigger] self.entries@[j]).0@ != key@,
                None => forall|j: int|
                    0 <= j < self.entries@.len() ==> (#[trigger] self.entries@[j]).0@ != key@,
            },
    {
        let mut i: usize = self.entries.len();
        while i > 0
            invariant
                i <= self.entries@.len(),
                forall|j: int|
                    i <= j < self.entries@.len() ==> (#[trigger] self.entries@[j]).0@ != key@,
            decreases i,
        {
            if self.entries[i - 1].0.same(key) {
                return Some(i - 1);
            }
            i = i - 1;
        }
        None
    }

    /// How far the work under a key has come, if any was asked for.
    pub fn get(&self, key: &K) -> (r: Option<&Slot<V>>)
        ensures
            match r {
                Some(s) => self@.slots.dom().contains(key@) && self@.slots[key@] == slot_view(*s),
                None => !self@.slots.dom().contains(key@),
            },
    {
        match self.position(key) {
            Some(i) => {
                proof {
                    slots_lookup(self.entries@, i + 1, key@);
                    assert(self.entries@.take(i + 1).last() == self.entries@[i as int]);
                }
                Some(&self.entries[i].1)
            },
            None => {
                proof {
                    slots_lookup(self.entries@, 0, key@);
                    assert(self.entries@.take(0) =~= seq![]);
                }
                None
            },
        }
    }

    /// Files a slot under a key, in place of the one that was there.
    pub fn insert(&mut self, key: K, slot: Slot<V>)
        ensures
            final(self)@.slots == old(self)@.slots.insert(key@, slot_view(slot)),
            final(self)@.dirty == old(self)@.dirty,
    {
        let ghost before = self.entries@;
        match self.position(&key) {
            Some(i) => {
                proof {
                    slots_update(before, i as int, (key, slot));
                }
                self.entries.set(i, (key, slot));
            },
            None => {
                assert(before.push((key, slot)).drop_last() =~= before);
                self.entries.push((key, slot));
            },
        }
    }

    /// Files the outcome of the work under a key, and raises the flag that
    /// `take_dirty` lowers.
    pub fn finish(&mut self, key: K, outcome: Option<V>)
        ensures
            final(self)@.slots == old(self)@.slots.insert(
                key@,
                match outcome {
                    Some(v) => Slot::Ready(v@),
                    None => Slot::Failed,
                },
            ),
            final(self)@.dirty,
    {
        let slot = match outcome {
            Some(v) => Slot::Ready(v),
            None => Slot::Failed,
        };
        self.insert(key, slot);
        self.dirty = true;
    }

    /// Whether any work has finished since this was last asked.
    pub fn take_dirty(&mut self) -> (r: bool)
        ensures
            r == old(self)@.dirty,
            !final(self)@.dirty,
            final(self)@.slots == old(self)@.slots,
    {
        let was = self.dirty;
        self.dirty = false;
        was
    }
}

} // verus!
