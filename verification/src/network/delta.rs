//! History-bounded snapshot retention and delta computation.
//!
//! The encoder keeps a ring of marshalled world snapshots, newest first.
//! Asked for a look-back window it either emits the minimal set of
//! per-handle changes that carries a receiver from the snapshot `window`
//! ticks back to the newest one, or, when the window exceeds retained
//! history, promotes to a full dump of the newest snapshot.

use vstd::prelude::*;

use crate::component::{ComponentBookkeeper, ComponentStore, EntityComponent, RawComponentHandle};
use crate::component::components::{spec_to_nohandle, NoHandleEntityComponent};
use crate::network::handle_map::HandleMap;
use crate::network::{ComponentUpdate, ComponentUpdateType};

verus! {

/// The marshalled contents of the occupied slots among the first `n` of `v`:
/// each live component keyed by its wire handle.
pub open spec fn marshal_prefix(
    v: Seq<ComponentBookkeeper<EntityComponent>>,
    n: int,
) -> Map<RawComponentHandle, NoHandleEntityComponent> {
    Map::new(
        |k: RawComponentHandle|
            k.id < n && k.id < v.len() && v[k.id as int].serial == k.serial && v[
                k.id as int
            ].component is Some,
        |k: RawComponentHandle| spec_to_nohandle(v[k.id as int].component.unwrap()),
    )
}

/// The marshalled contents of a whole store.
pub open spec fn marshal_store_map(
    v: Seq<ComponentBookkeeper<EntityComponent>>,
) -> Map<RawComponentHandle, NoHandleEntityComponent> {
    marshal_prefix(v, v.len() as int)
}

/// The per-handle difference between an older and a newer snapshot: a
/// `Change` for every handle the newer snapshot adds or alters, a `Destroy`
/// for every handle it drops.
pub open spec fn diff_map(
    prev: Map<RawComponentHandle, NoHandleEntityComponent>,
    curr: Map<RawComponentHandle, NoHandleEntityComponent>,
) -> Map<RawComponentHandle, ComponentUpdateType> {
    Map::new(
        |k: RawComponentHandle|
            (curr.contains_key(k) && (!prev.contains_key(k) || prev[k] != curr[k])) || (
            prev.contains_key(k) && !curr.contains_key(k)),
        |k: RawComponentHandle|
            if curr.contains_key(k) {
                ComponentUpdateType::Change(curr[k])
            } else {
                ComponentUpdateType::Destroy
            },
    )
}

/// The snapshot a receiver holds after applying a set of per-handle updates
/// to a base snapshot: `Change` overwrites or inserts, `Destroy` removes.
pub open spec fn apply_delta_map(
    base: Map<RawComponentHandle, NoHandleEntityComponent>,
    ups: Map<RawComponentHandle, ComponentUpdateType>,
) -> Map<RawComponentHandle, NoHandleEntityComponent> {
    Map::new(
        |k: RawComponentHandle|
            (ups.contains_key(k) && ups[k] is Change) || (!ups.contains_key(k)
                && base.contains_key(k)),
        |k: RawComponentHandle|
            if ups.contains_key(k) {
                match ups[k] {
                    ComponentUpdateType::Change(m) => m,
                    ComponentUpdateType::Destroy => arbitrary(),
                }
            } else {
                base[k]
            },
    )
}

/// Applying no updates changes nothing.
proof fn lemma_apply_empty(base: Map<RawComponentHandle, NoHandleEntityComponent>)
    ensures
        apply_delta_map(base, Map::empty()) == base,
{
    assert(apply_delta_map(base, Map::empty()) =~= base);
}

/// Merging the difference toward a newer snapshot into an update set that
/// reconstructs the older one gives an update set that reconstructs the
/// newer one: later pair-comparisons overwrite earlier ones soundly.
proof fn lemma_apply_merge(
    base: Map<RawComponentHandle, NoHandleEntityComponent>,
    ups: Map<RawComponentHandle, ComponentUpdateType>,
    prev: Map<RawComponentHandle, NoHandleEntityComponent>,
    curr: Map<RawComponentHandle, NoHandleEntityComponent>,
)
    requires
        apply_delta_map(base, ups) == prev,
    ensures
        apply_delta_map(base, ups.union_prefer_right(diff_map(prev, curr))) == curr,
{
    let d = diff_map(prev, curr);
    let merged = ups.union_prefer_right(d);
    assert forall|k: RawComponentHandle|
        apply_delta_map(base, merged).contains_key(k) == curr.contains_key(k) && (
        curr.contains_key(k) ==> apply_delta_map(base, merged)[k] == curr[k]) by {
        if d.contains_key(k) {
            assert(merged.contains_key(k) && merged[k] == d[k]);
        } else {
            assert(apply_delta_map(base, ups).contains_key(k) == prev.contains_key(k));
            if prev.contains_key(k) {
                assert(apply_delta_map(base, ups)[k] == prev[k]);
            }
        }
    }
    assert(apply_delta_map(base, merged) =~= curr);
}

/// The map denoted by a sequence of component updates: later entries win.
pub open spec fn updates_map(r: Seq<ComponentUpdate>) -> Map<
    RawComponentHandle,
    ComponentUpdateType,
>
    decreases r.len(),
{
    if r.len() == 0 {
        Map::empty()
    } else {
        updates_map(r.drop_last()).insert(r.last().target, r.last().data)
    }
}

/// No two updates of the sequence aim at the same handle, so a receiver may
/// apply them in any order.
pub open spec fn targets_distinct(r: Seq<ComponentUpdate>) -> bool {
    forall|i: int, j: int|
        0 <= i < j < r.len() ==> (#[trigger] r[i]).target != (#[trigger] r[j]).target
}

/// A sequence of updates that mirrors an association table entry for entry
/// denotes the same map.
proof fn lemma_updates_map_mirror(
    entries: Seq<(RawComponentHandle, ComponentUpdateType)>,
    r: Seq<ComponentUpdate>,
)
    requires
        r.len() == entries.len(),
        forall|i: int|
            0 <= i < entries.len() ==> (#[trigger] r[i]).target == (#[trigger] entries[i]).0
                && r[i].data == entries[i].1,
    ensures
        updates_map(r) == crate::network::handle_map::map_of(entries),
    decreases entries.len(),
{
    if entries.len() > 0 {
        lemma_updates_map_mirror(entries.drop_last(), r.drop_last());
    }
}

/// Retains a bounded ring of past marshalled snapshots, newest first.
pub struct DeltaEncoder {
    states: Vec<HandleMap<NoHandleEntityComponent>>,
    max_states: usize,
}

impl DeltaEncoder {
    /// The retained snapshots, newest first.
    pub closed spec fn spec_states(self) -> Seq<HandleMap<NoHandleEntityComponent>> {
        self.states@
    }

    /// How many snapshots the ring retains at most.
    pub closed spec fn spec_max_states(self) -> int {
        self.max_states as int
    }

    /// Every retained snapshot is a well-formed table, and the ring respects
    /// its bound.
    pub open spec fn wf(self) -> bool {
        &&& self.spec_states().len() <= self.spec_max_states()
        &&& forall|i: int|
            0 <= i < self.spec_states().len() ==> (#[trigger] self.spec_states()[i]).wf()
    }

    /// An encoder retaining at most `max_states` snapshots, none yet.
    pub fn new(max_states: usize) -> (r: DeltaEncoder)
        ensures
            r.wf(),
            r.spec_states().len() == 0,
            r.spec_max_states() == max_states,
    {
        DeltaEncoder { states: Vec::new(), max_states }
    }

    /// Marshal every live component of `components` into a fresh snapshot,
    /// push it to the front of the ring, and evict the oldest snapshots once
    /// the ring is over capacity.
    pub fn add_state(&mut self, components: &ComponentStore<EntityComponent>)
        requires
            old(self).wf(),
            components.wf(),
        ensures
            final(self).wf(),
            final(self).spec_max_states() == old(self).spec_max_states(),
            final(self).spec_states().len() == if old(self).spec_states().len() + 1 <= old(
                self,
            ).spec_max_states() {
                old(self).spec_states().len() + 1
            } else {
                old(self).spec_max_states() as nat
            },
            final(self).spec_states().len() > 0 ==> final(self).spec_states()[0]@
                == marshal_store_map(components@),
            forall|i: int|
                1 <= i < final(self).spec_states().len() ==> final(self).spec_states()[i]
                    == old(self).spec_states()[i - 1],
    {
        let mut state: HandleMap<NoHandleEntityComponent> = HandleMap::new();
        let mut i: usize = 0;
        let capacity = components.capacity();
        proof {
            assert(state@ =~= marshal_prefix(components@, 0));
        }
        while i < capacity
            invariant
                components.wf(),
                capacity == components@.len(),
                i <= capacity,
                state.wf(),
                state@ == marshal_prefix(components@, i as int),
            decreases capacity - i,
        {
            match components.handle_at(i) {
                Some(h) => {
                    let payload = match components.find(h) {
                        Some(c) => c.to_nohandle(),
                        None => {
                            proof {
                                assert(false);
                            }
                            NoHandleEntityComponent {
                                pos: crate::math::Vec3 { x: 0, y: 0, z: 0 },
                                rot: crate::math::Quat { w: 0, x: 0, y: 0, z: 0 },
                            }
                        },
                    };
                    state.set(h.to_raw(), payload);
                    proof {
                        assert(state@ =~= marshal_prefix(components@, i + 1 as int));
                    }
                },
                None => {
                    proof {
                        assert(state@ =~= marshal_prefix(components@, i + 1 as int));
                    }
                },
            }
            i = i + 1;
        }

        self.states.insert(0, state);
        while self.states.len() > self.max_states
            invariant
                self.max_states == old(self).max_states,
                self.states@.len() <= old(self).states@.len() + 1,
                self.states@.len() >= self.max_states || self.states@.len() == old(
                    self,
                ).states@.len() + 1,
                self.states@ == old(self).states@.insert(0, state).take(self.states@.len() as int),
            decreases self.states@.len(),
        {
            self.states.pop();
            proof {
                assert(self.states@ =~= old(self).states@.insert(0, state).take(
                    self.states@.len() as int,
                ));
            }
        }
        proof {
            assert(self.states@ =~= old(self).states@.insert(0, state).take(
                self.states@.len() as int,
            ));
        }
    }

    /// Every live handle of the newest snapshot, as a `Change` carrying its
    /// marshalled value: what a receiver with no usable history needs.
    fn create_full_update(&self) -> (r: Vec<ComponentUpdate>)
        requires
            self.wf(),
            self.spec_states().len() >= 1,
        ensures
            r@.len() == self.spec_states()[0].entries@.len(),
            forall|i: int|
                0 <= i < r@.len() ==> (#[trigger] r@[i]) == (ComponentUpdate {
                    target: self.spec_states()[0].entries@[i].0,
                    data: ComponentUpdateType::Change(self.spec_states()[0].entries@[i].1),
                }),
            targets_distinct(r@),
            updates_map(r@) == diff_map(Map::empty(), self.spec_states()[0]@),
    {
        let mut updates: Vec<ComponentUpdate> = Vec::new();
        let newest = &self.states[0];
        let mut i: usize = 0;
        while i < newest.len()
            invariant
                newest.wf(),
                newest == self.spec_states()[0],
                i <= newest.entries@.len(),
                updates@.len() == i,
                forall|j: int|
                    0 <= j < i ==> (#[trigger] updates@[j]) == (ComponentUpdate {
                        target: newest.entries@[j].0,
                        data: ComponentUpdateType::Change(newest.entries@[j].1),
                    }),
            decreases newest.entries@.len() - i,
        {
            let (target, payload) = newest.entry_at(i);
            updates.push(ComponentUpdate { target, data: ComponentUpdateType::Change(payload) });
            i = i + 1;
        }
        proof {
            let s0 = self.spec_states()[0];
            crate::network::handle_map::lemma_map_of_entries(s0.entries@);
            lemma_full_update_map(s0.entries@, updates@, s0@);
        }
        updates
    }

    /// The set of per-handle changes that carries a receiver holding the
    /// snapshot `length` ticks back to the newest snapshot; or, when
    /// `length` is at least the retained history, a full dump of the newest
    /// snapshot. Applied to what the receiver holds, the result reproduces
    /// exactly the newest snapshot's live handles and values.
    pub fn create_delta(&self, length: u64) -> (r: Vec<ComponentUpdate>)
        requires
            self.wf(),
            length >= 1,
            self.spec_states().len() >= 1,
        ensures
            targets_distinct(r@),
            length < self.spec_states().len() ==> apply_delta_map(
                self.spec_states()[length as int]@,
                updates_map(r@),
            ) == self.spec_states()[0]@,
            length >= self.spec_states().len() ==> r@.len()
                == self.spec_states()[0].entries@.len() && forall|i: int|
                0 <= i < r@.len() ==> (#[trigger] r@[i]) == (ComponentUpdate {
                    target: self.spec_states()[0].entries@[i].0,
                    data: ComponentUpdateType::Change(self.spec_states()[0].entries@[i].1),
                }),
    {
        if length >= self.states.len() as u64 {
            return self.create_full_update();
        }

        let mut updates: HandleMap<ComponentUpdateType> = HandleMap::new();
        let mut j: usize = length as usize;
        proof {
            lemma_apply_empty(self.spec_states()[j as int]@);
        }
        while j > 0
            invariant
                self.wf(),
                (length as int) < self.spec_states().len(),
                j <= length,
                updates.wf(),
                apply_delta_map(self.spec_states()[length as int]@, updates@)
                    == self.spec_states()[j as int]@,
            decreases j,
        {
            let ghost prev_updates = updates@;
            merge_diff(&mut updates, &self.states[j], &self.states[j - 1]);
            proof {
                lemma_apply_merge(
                    self.spec_states()[length as int]@,
                    prev_updates,
                    self.spec_states()[j as int]@,
                    self.spec_states()[j - 1]@,
                );
            }
            j = j - 1;
        }

        let mut result: Vec<ComponentUpdate> = Vec::new();
        let mut i: usize = 0;
        while i < updates.len()
            invariant
                updates.wf(),
                i <= updates.entries@.len(),
                result@.len() == i,
                forall|k: int|
                    0 <= k < i ==> (#[trigger] result@[k]).target == (
                    #[trigger] updates.entries@[k]).0 && result@[k].data == updates.entries@[k].1,
            decreases updates.entries@.len() - i,
        {
            let (target, data) = updates.entry_at(i);
            result.push(ComponentUpdate { target, data });
            i = i + 1;
        }
        proof {
            lemma_updates_map_mirror(updates.entries@, result@);
            assert forall|a: int, b: int| 0 <= a < b < result@.len() implies (
            #[trigger] result@[a]).target != (#[trigger] result@[b]).target by {
                assert(updates.entries@[a].0 != updates.entries@[b].0);
            }
        }
        result
    }
}

/// A full dump of a snapshot denotes exactly the difference from an empty
/// snapshot: a `Change` per held key.
proof fn lemma_full_update_map(
    entries: Seq<(RawComponentHandle, NoHandleEntityComponent)>,
    r: Seq<ComponentUpdate>,
    m: Map<RawComponentHandle, NoHandleEntityComponent>,
)
    requires
        crate::network::handle_map::keys_distinct(entries),
        m == crate::network::handle_map::map_of(entries),
        r.len() == entries.len(),
        forall|i: int|
            0 <= i < r.len() ==> (#[trigger] r[i]) == (ComponentUpdate {
                target: entries[i].0,
                data: ComponentUpdateType::Change(entries[i].1),
            }),
    ensures
        targets_distinct(r),
        updates_map(r) == diff_map(Map::empty(), m),
{
    crate::network::handle_map::lemma_map_of_entries(entries);
    lemma_updates_change_of_map(entries, r);
    assert(updates_map(r) =~= diff_map(Map::empty(), m));
}

/// A sequence of `Change` updates mirroring an association table denotes
/// the `Change`-image of the table's map.
proof fn lemma_updates_change_of_map(
    entries: Seq<(RawComponentHandle, NoHandleEntityComponent)>,
    r: Seq<ComponentUpdate>,
)
    requires
        r.len() == entries.len(),
        forall|i: int|
            0 <= i < r.len() ==> (#[trigger] r[i]) == (ComponentUpdate {
                target: entries[i].0,
                data: ComponentUpdateType::Change(entries[i].1),
            }),
    ensures
        updates_map(r).dom() == crate::network::handle_map::map_of(entries).dom(),
        forall|k: RawComponentHandle|
            crate::network::handle_map::map_of(entries).contains_key(k)
                ==> #[trigger] updates_map(r)[k] == ComponentUpdateType::Change(
                crate::network::handle_map::map_of(entries)[k],
            ),
    decreases entries.len(),
{
    if entries.len() > 0 {
        lemma_updates_change_of_map(entries.drop_last(), r.drop_last());
        assert(updates_map(r).dom() =~= crate::network::handle_map::map_of(entries).dom());
    } else {
        assert(updates_map(r).dom() =~= crate::network::handle_map::map_of(entries).dom());
    }
}

/// Overwrite `updates` with the per-handle difference between the older
/// snapshot `prev` and the newer snapshot `curr`.
fn merge_diff(
    updates: &mut HandleMap<ComponentUpdateType>,
    prev: &HandleMap<NoHandleEntityComponent>,
    curr: &HandleMap<NoHandleEntityComponent>,
)
    requires
        old(updates).wf(),
        prev.wf(),
        curr.wf(),
    ensures
        final(updates).wf(),
        final(updates)@ == old(updates)@.union_prefer_right(diff_map(prev@, curr@)),
{
    let ghost d = diff_map(prev@, curr@);
    let mut i: usize = 0;
    proof {
        crate::network::handle_map::lemma_map_of_entries(curr.entries@);
        crate::network::handle_map::lemma_map_of_entries(prev.entries@);
    }
    while i < curr.len()
        invariant
            updates.wf(),
            prev.wf(),
            curr.wf(),
            d == diff_map(prev@, curr@),
            i <= curr.entries@.len(),
            // keys among the processed entries that changed now carry their Change
            forall|k: RawComponentHandle|
                (exists|idx: int|
                    0 <= idx < i && (#[trigger] curr.entries@[idx]).0 == k) && #[trigger] d.contains_key(k)
                    && d[k] is Change ==> updates@.contains_key(k) && updates@[k]
                    == d[k],
            // all other keys are untouched
            forall|k: RawComponentHandle|
                !((exists|idx: int|
                    0 <= idx < i && (#[trigger] curr.entries@[idx]).0 == k) && #[trigger] d.contains_key(k)
                    && d[k] is Change) ==> (updates@.contains_key(k) == old(
                    updates,
                )@.contains_key(k) && (updates@.contains_key(k) ==> updates@[k] == old(
                    updates,
                )@[k])),
        decreases curr.entries@.len() - i,
    {
        let ghost upd0 = updates@;
        let (k, m) = curr.entry_at(i);
        let changed = match prev.find(k) {
            Some(prev_m) => !(prev_m == m),
            None => true,
        };
        if changed {
            updates.set(k, ComponentUpdateType::Change(m));
        }
        proof {
            crate::network::handle_map::lemma_map_of_entries(curr.entries@);
            assert forall|k2: RawComponentHandle|
                (exists|idx: int|
                    0 <= idx < i + 1 && (#[trigger] curr.entries@[idx]).0 == k2)
                    && #[trigger] d.contains_key(k2) && d[k2] is Change implies
                updates@.contains_key(k2) && updates@[k2] == d[k2] by {
                if k2 == k {
                    assert(curr@.contains_key(k) && curr@[k] == m);
                    assert(changed);
                } else {
                    let idx = choose|idx: int|
                        0 <= idx < i + 1 && (#[trigger] curr.entries@[idx]).0 == k2;
                    assert(idx < i);
                }
            }
            assert forall|k2: RawComponentHandle|
                !((exists|idx: int|
                    0 <= idx < i + 1 && (#[trigger] curr.entries@[idx]).0 == k2)
                    && #[trigger] d.contains_key(k2) && d[k2] is Change) implies (
            updates@.contains_key(k2) == old(updates)@.contains_key(k2) && (updates@.contains_key(
                k2,
            ) ==> updates@[k2] == old(updates)@[k2])) by {
                if changed && k2 == k {
                    assert(curr.entries@[i as int].0 == k2);
                    assert(curr@.contains_key(k) && curr@[k] == m);
                    assert(d.contains_key(k2) && d[k2] is Change);
                } else {
                    assert(upd0.contains_key(k2) == old(updates)@.contains_key(k2) && (
                    upd0.contains_key(k2) ==> upd0[k2] == old(updates)@[k2]));
                }
            }
        }
        i = i + 1;
    }

    let mut j: usize = 0;
    while j < prev.len()
        invariant
            updates.wf(),
            prev.wf(),
            curr.wf(),
            d == diff_map(prev@, curr@),
            j <= prev.entries@.len(),
            // all Change-keys carry their Change
            forall|k: RawComponentHandle|
                #[trigger] d.contains_key(k) && d[k] is Change ==> updates@.contains_key(k)
                    && updates@[k] == d[k],
            // destroyed keys among the processed entries carry Destroy
            forall|k: RawComponentHandle|
                (exists|idx: int|
                    0 <= idx < j && (#[trigger] prev.entries@[idx]).0 == k) && #[trigger] d.contains_key(k)
                    && d[k] is Destroy ==> updates@.contains_key(k) && updates@[k]
                    == d[k],
            // all other keys are untouched
            forall|k: RawComponentHandle|
                !(#[trigger] d.contains_key(k) && (d[k] is Change || ((exists|idx: int|
                    0 <= idx < j && (#[trigger] prev.entries@[idx]).0 == k) && d[k] is Destroy)))
                    ==> (#[trigger] updates@.contains_key(k) == old(updates)@.contains_key(k) && (
                updates@.contains_key(k) ==> updates@[k] == old(updates)@[k])),
        decreases prev.entries@.len() - j,
    {
        let ghost upd0 = updates@;
        let (k, _unused) = prev.entry_at(j);
        let gone = match curr.find(k) {
            Some(_still) => false,
            None => true,
        };
        if gone {
            updates.set(k, ComponentUpdateType::Destroy);
        }
        proof {
            crate::network::handle_map::lemma_map_of_entries(prev.entries@);
            assert forall|k2: RawComponentHandle|
                d.contains_key(k2) && d[k2] is Change implies #[trigger] updates@.contains_key(k2)
                && updates@[k2] == d[k2] by {
                assert(upd0.contains_key(k2) && upd0[k2] == d[k2]);
                if gone {
                    assert(curr@.contains_key(k2));
                    assert(k2 != k);
                }
            }
            assert forall|k2: RawComponentHandle|
                (exists|idx: int|
                    0 <= idx < j + 1 && (#[trigger] prev.entries@[idx]).0 == k2)
                    && d.contains_key(k2) && d[k2] is Destroy implies
                #[trigger] updates@.contains_key(k2) && updates@[k2] == d[k2] by {
                if k2 == k {
                    assert(!curr@.contains_key(k));
                    assert(gone);
                } else {
                    let idx = choose|idx: int|
                        0 <= idx < j + 1 && (#[trigger] prev.entries@[idx]).0 == k2;
                    assert(idx < j);
                    assert(upd0.contains_key(k2) && upd0[k2] == d[k2]);
                }
            }
            assert forall|k2: RawComponentHandle|
                !(d.contains_key(k2) && (d[k2] is Change || ((exists|idx: int|
                    0 <= idx < j + 1 && (#[trigger] prev.entries@[idx]).0 == k2)
                    && d[k2] is Destroy))) implies (#[trigger] updates@.contains_key(k2) == old(
                updates,
            )@.contains_key(k2) && (updates@.contains_key(k2) ==> updates@[k2] == old(
                updates,
            )@[k2])) by {
                if gone && k2 == k {
                    assert(prev.entries@[j as int].0 == k2);
                    assert(prev@.contains_key(k2));
                    assert(d.contains_key(k2) && d[k2] is Destroy);
                } else {
                    assert(upd0.contains_key(k2) == old(updates)@.contains_key(k2) && (
                    upd0.contains_key(k2) ==> upd0[k2] == old(updates)@[k2]));
                }
            }
        }
        j = j + 1;
    }
    proof {
        crate::network::handle_map::lemma_map_of_entries(prev.entries@);
        crate::network::handle_map::lemma_map_of_entries(curr.entries@);
        let target = old(updates)@.union_prefer_right(d);
        assert forall|k: RawComponentHandle|
            #![trigger updates@.dom().contains(k)]
            #![trigger target.dom().contains(k)]
            updates@.dom().contains(k) == target.dom().contains(k) && (target.contains_key(k)
                ==> updates@[k] == target[k]) by {
            assert(updates@.dom().contains(k) == updates@.contains_key(k));
            assert(target.dom().contains(k) == target.contains_key(k));
            if d.contains_key(k) {
                if d[k] is Destroy {
                    assert(prev@.contains_key(k));
                }
            }
        }
        assert(updates@.dom() =~= target.dom());
        assert(updates@ =~= target);
    }
}

} // verus!
