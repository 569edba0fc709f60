//! A small association table keyed by raw component handles.
//!
//! Snapshots, accumulated deltas and the wire-to-local handle dictionary
//! are all maps keyed by `RawComponentHandle`; this table stores them as a
//! vector of pairs with pairwise-distinct keys, and is specified against
//! the mathematical `Map` it denotes.

use vstd::prelude::*;

use crate::component::RawComponentHandle;

verus! {

/// The map denoted by an association list: later entries win, though with
/// distinct keys every entry is visible.
pub open spec fn map_of<V>(entries: Seq<(RawComponentHandle, V)>) -> Map<RawComponentHandle, V>
    decreases entries.len(),
{
    if entries.len() == 0 {
        Map::empty()
    } else {
        map_of(entries.drop_last()).insert(entries.last().0, entries.last().1)
    }
}

/// All keys of the association list are pairwise distinct.
pub open spec fn keys_distinct<V>(entries: Seq<(RawComponentHandle, V)>) -> bool {
    forall|i: int, j: int|
        0 <= i < j < entries.len() ==> (#[trigger] entries[i]).0 != (#[trigger] entries[j]).0
}

/// A key is in the denoted map exactly when some entry carries it, and the
/// map yields that entry's value.
pub proof fn lemma_map_of_entries<V>(entries: Seq<(RawComponentHandle, V)>)
    requires
        keys_distinct(entries),
    ensures
        forall|k: RawComponentHandle|
            map_of(entries).contains_key(k) <==> exists|i: int|
                0 <= i < entries.len() && (#[trigger] entries[i]).0 == k,
        forall|i: int|
            0 <= i < entries.len() ==> map_of(entries).contains_key((#[trigger] entries[i]).0)
                && map_of(entries)[entries[i].0] == entries[i].1,
    decreases entries.len(),
{
    if entries.len() > 0 {
        lemma_map_of_entries(entries.drop_last());
        assert forall|i: int| 0 <= i < entries.len() implies map_of(entries).contains_key(
            (#[trigger] entries[i]).0,
        ) && map_of(entries)[entries[i].0] == entries[i].1 by {
            if i < entries.len() - 1 {
                assert(entries.drop_last()[i] == entries[i]);
                assert(entries[i].0 != entries.last().0);
            }
        }
        assert forall|k: RawComponentHandle| map_of(entries).contains_key(k) implies exists|i: int|
            0 <= i < entries.len() && (#[trigger] entries[i]).0 == k by {
            if k == entries.last().0 {
                assert(entries[entries.len() - 1].0 == k);
            } else {
                assert(map_of(entries.drop_last()).contains_key(k));
                let i = choose|i: int|
                    0 <= i < entries.drop_last().len() && (#[trigger] entries.drop_last()[i]).0
                        == k;
                assert(entries.drop_last()[i] == entries[i]);
                assert(entries[i].0 == k);
            }
        }
    }
}

/// Replacing the value at an existing key denotes an `insert`.
pub proof fn lemma_map_of_update<V>(entries: Seq<(RawComponentHandle, V)>, i: int, v: V)
    requires
        keys_distinct(entries),
        0 <= i < entries.len(),
    ensures
        map_of(entries.update(i, (entries[i].0, v))) == map_of(entries).insert(entries[i].0, v),
    decreases entries.len(),
{
    let k = entries[i].0;
    let updated = entries.update(i, (k, v));
    if i == entries.len() - 1 {
        assert(updated.drop_last() =~= entries.drop_last());
        assert(map_of(updated) == map_of(entries.drop_last()).insert(k, v));
        assert(map_of(entries).insert(k, v) =~= map_of(entries.drop_last()).insert(k, v));
    } else {
        lemma_map_of_update(entries.drop_last(), i, v);
        assert(updated.drop_last() =~= entries.drop_last().update(i, (k, v)));
        assert(updated.last() == entries.last());
        assert(entries.last().0 != k);
        assert(map_of(updated) == map_of(entries.drop_last()).insert(k, v).insert(
            entries.last().0,
            entries.last().1,
        ));
        assert(map_of(entries.drop_last()).insert(k, v).insert(entries.last().0, entries.last().1)
            =~= map_of(entries).insert(k, v));
    }
}

/// Dropping the entry at an existing key denotes a `remove`.
pub proof fn lemma_map_of_remove<V>(entries: Seq<(RawComponentHandle, V)>, i: int)
    requires
        keys_distinct(entries),
        0 <= i < entries.len(),
    ensures
        map_of(entries.remove(i)) == map_of(entries).remove(entries[i].0),
    decreases entries.len(),
{
    let k = entries[i].0;
    if i == entries.len() - 1 {
        assert(entries.remove(i) =~= entries.drop_last());
        lemma_map_of_entries(entries.drop_last());
        assert(!map_of(entries.drop_last()).contains_key(k));
        assert(map_of(entries.remove(i)) =~= map_of(entries).remove(k));
    } else {
        lemma_map_of_remove(entries.drop_last(), i);
        assert(entries.remove(i).drop_last() =~= entries.drop_last().remove(i));
        assert(entries.remove(i).last() == entries.last());
        assert(map_of(entries.remove(i)) == map_of(entries.drop_last().remove(i)).insert(
            entries.last().0,
            entries.last().1,
        ));
        assert(entries.last().0 != k);
        assert(map_of(entries.drop_last()).remove(k).insert(entries.last().0, entries.last().1)
            =~= map_of(entries).remove(k));
    }
}

/// An association table keyed by raw handles, with pairwise-distinct keys.
pub struct HandleMap<V> {
    pub entries: Vec<(RawComponentHandle, V)>,
}

impl<V> View for HandleMap<V> {
    type V = Map<RawComponentHandle, V>;

    open spec fn view(&self) -> Map<RawComponentHandle, V> {
        map_of(self.entries@)
    }
}

impl<V: Copy> HandleMap<V> {
    /// Keys are pairwise distinct.
    pub open spec fn wf(self) -> bool {
        keys_distinct(self.entries@)
    }

    /// An empty table.
    pub fn new() -> (r: HandleMap<V>)
        ensures
            r.wf(),
            r@ == Map::<RawComponentHandle, V>::empty(),
            r.entries@.len() == 0,
    {
        HandleMap { entries: Vec::new() }
    }

    /// The number of keys held.
    pub fn len(&self) -> (r: usize)
        ensures
            r == self.entries@.len(),
    {
        self.entries.len()
    }

    /// The entry at position `i`, for walking the table.
    pub fn entry_at(&self, i: usize) -> (r: (RawComponentHandle, V))
        requires
            (i as int) < self.entries@.len(),
        ensures
            r == self.entries@[i as int],
    {
        self.entries[i]
    }

    /// The position of `key`, if it is held.
    fn position_of(&self, key: RawComponentHandle) -> (r: Option<usize>)
        requires
            self.wf(),
        ensures
            match r {
                Some(i) => (i as int) < self.entries@.len() && self.entries@[i as int].0 == key,
                None => forall|i: int|
                    0 <= i < self.entries@.len() ==> (#[trigger] self.entries@[i]).0 != key,
            },
    {
        let mut i: usize = 0;
        while i < self.entries.len()
            invariant
                i <= self.entries@.len(),
                forall|j: int| 0 <= j < i ==> (#[trigger] self.entries@[j]).0 != key,
            decreases self.entries@.len() - i,
        {
            if self.entries[i].0 == key {
                return Some(i);
            }
            i = i + 1;
        }
        None
    }

    /// The value at `key`, if the table holds it.
    pub fn find(&self, key: RawComponentHandle) -> (r: Option<V>)
        requires
            self.wf(),
        ensures
            r == if self@.contains_key(key) {
                Some(self@[key])
            } else {
                None::<V>
            },
    {
        proof {
            lemma_map_of_entries(self.entries@);
        }
        match self.position_of(key) {
            Some(i) => Some(self.entries[i].1),
            None => None,
        }
    }

    /// Bind `key` to `value`, replacing any earlier binding.
    pub fn set(&mut self, key: RawComponentHandle, value: V)
        requires
            old(self).wf(),
        ensures
            final(self).wf(),
            final(self)@ == old(self)@.insert(key, value),
            final(self).entries@.len() <= old(self).entries@.len() + 1,
    {
        proof {
            lemma_map_of_entries(self.entries@);
        }
        match self.position_of(key) {
            Some(i) => {
                self.entries[i] = (key, value);
                proof {
                    lemma_map_of_update(old(self).entries@, i as int, value);
                }
            },
            None => {
                self.entries.push((key, value));
                proof {
                    assert(self.entries@.drop_last() =~= old(self).entries@);
                }
            },
        }
    }

    /// Drop the binding of `key`, if any.
    pub fn remove(&mut self, key: RawComponentHandle)
        requires
            old(self).wf(),
        ensures
            final(self).wf(),
            final(self)@ == old(self)@.remove(key),
            final(self).entries@.len() <= old(self).entries@.len(),
    {
        proof {
            lemma_map_of_entries(self.entries@);
        }
        match self.position_of(key) {
            Some(i) => {
                self.entries.remove(i);
                proof {
                    lemma_map_of_remove(old(self).entries@, i as int);
                }
            },
            None => {
                proof {
                    assert(self@ =~= old(self)@.remove(key));
                }
            },
        }
    }
}

} // verus!
