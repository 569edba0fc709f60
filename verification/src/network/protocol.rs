//! Receiver-side application of update packets.
//!
//! A receiver keeps a dictionary from wire handles to its own local
//! handles; `apply_update` walks an update packet and brings the local
//! store and the dictionary in line with it, change by change.

use vstd::prelude::*;

use crate::component::components::{spec_from_nohandle, spec_to_nohandle, NoHandleEntityComponent};
use crate::component::{
    is_first_free, resolves, ComponentBookkeeper, ComponentHandle, ComponentStore,
    EntityComponent, EntityHandle, RawComponentHandle, StoreError,
};
use crate::network::delta::{apply_delta_map, updates_map};
use crate::network::handle_map::HandleMap;
use crate::network::{ComponentUpdate, ComponentUpdateType};

verus! {

/// Every local handle the dictionary hands out resolves in the store.
pub open spec fn dict_resolves(
    dict: Map<RawComponentHandle, EntityHandle>,
    v: Seq<ComponentBookkeeper<EntityComponent>>,
) -> bool {
    forall|k: RawComponentHandle|
        #[trigger] dict.contains_key(k) ==> resolves(v, dict[k])
}

/// No two wire handles share a local handle.
pub open spec fn dict_injective(dict: Map<RawComponentHandle, EntityHandle>) -> bool {
    forall|k1: RawComponentHandle, k2: RawComponentHandle|
        #[trigger] dict.contains_key(k1) && #[trigger] dict.contains_key(k2) && k1 != k2
            ==> dict[k1].id != dict[k2].id
}

/// The first free slot of `v`, where an unknown component will be inserted.
pub open spec fn first_free_of(v: Seq<ComponentBookkeeper<EntityComponent>>) -> int {
    choose|i: int| is_first_free(v, i)
}

/// Whether `v` has a free slot at all.
pub open spec fn has_free(v: Seq<ComponentBookkeeper<EntityComponent>>) -> bool {
    exists|i: int| is_first_free(v, i)
}

/// The dictionary and store after one component update: a change to a known
/// handle overwrites in place; a change to an unknown handle inserts a new
/// component and records the mapping; a destroy removes the component and
/// forgets the mapping; a destroy of an unknown handle does nothing. `None`
/// when an insertion finds the store full.
pub open spec fn apply_step(
    dict: Map<RawComponentHandle, EntityHandle>,
    v: Seq<ComponentBookkeeper<EntityComponent>>,
    up: ComponentUpdate,
) -> Option<(Map<RawComponentHandle, EntityHandle>, Seq<ComponentBookkeeper<EntityComponent>>)> {
    match up.data {
        ComponentUpdateType::Change(m) => {
            if dict.contains_key(up.target) {
                let h = dict[up.target];
                Some(
                    (
                        dict,
                        v.update(
                            h.id as int,
                            ComponentBookkeeper {
                                serial: h.serial,
                                component: Some(spec_from_nohandle(m, h)),
                            },
                        ),
                    ),
                )
            } else if has_free(v) {
                let i = first_free_of(v);
                let h = EntityHandle {
                    id: i as u16,
                    serial: v[i].serial,
                    marker: core::marker::PhantomData,
                };
                Some(
                    (
                        dict.insert(up.target, h),
                        v.update(
                            i,
                            ComponentBookkeeper {
                                serial: h.serial,
                                component: Some(spec_from_nohandle(m, h)),
                            },
                        ),
                    ),
                )
            } else {
                None
            }
        },
        ComponentUpdateType::Destroy => {
            if dict.contains_key(up.target) {
                let h = dict[up.target];
                Some(
                    (
                        dict.remove(up.target),
                        v.update(
                            h.id as int,
                            ComponentBookkeeper { serial: (h.serial + 1) as u32, component: None },
                        ),
                    ),
                )
            } else {
                Some((dict, v))
            }
        },
    }
}

/// The dictionary and store after a whole sequence of updates, applied in
/// order; `None` as soon as one insertion finds the store full.
pub open spec fn apply_seq(
    dict: Map<RawComponentHandle, EntityHandle>,
    v: Seq<ComponentBookkeeper<EntityComponent>>,
    ups: Seq<ComponentUpdate>,
) -> Option<(Map<RawComponentHandle, EntityHandle>, Seq<ComponentBookkeeper<EntityComponent>>)>
    decreases ups.len(),
{
    if ups.len() == 0 {
        Some((dict, v))
    } else {
        match apply_step(dict, v, ups[0]) {
            Some((d2, v2)) => apply_seq(d2, v2, ups.skip(1)),
            None => None,
        }
    }
}

/// Apply an update packet to the local store: overwrite known components,
/// insert unknown ones and record their wire handle, drop destroyed ones.
/// Fails only when the store has no room left for a new component — a
/// fatal condition for the receiver.
pub fn apply_update(
    updates: &Vec<ComponentUpdate>,
    hdict: &mut HandleMap<EntityHandle>,
    store: &mut ComponentStore<EntityComponent>,
) -> (r: Result<(), StoreError>)
    requires
        old(hdict).wf(),
        old(store).wf(),
        dict_resolves(old(hdict)@, old(store)@),
        dict_injective(old(hdict)@),
        forall|i: int|
            0 <= i < old(store)@.len() ==> (#[trigger] old(store)@[i]).serial + updates@.len()
                <= u32::MAX,
    ensures
        final(hdict).wf(),
        final(store).wf(),
        final(store)@.len() == old(store)@.len(),
        dict_resolves(final(hdict)@, final(store)@),
        dict_injective(final(hdict)@),
        match r {
            Ok(()) => apply_seq(old(hdict)@, old(store)@, updates@) == Some(
                (final(hdict)@, final(store)@),
            ),
            Err(e) => e == StoreError::StoreFull && apply_seq(old(hdict)@, old(store)@, updates@)
                is None,
        },
{
    let mut k: usize = 0;
    proof {
        assert(updates@.skip(0) =~= updates@);
    }
    while k < updates.len()
        invariant
            hdict.wf(),
            store.wf(),
            store@.len() == old(store)@.len(),
            dict_resolves(hdict@, store@),
            dict_injective(hdict@),
            k <= updates@.len(),
            forall|i: int|
                0 <= i < store@.len() ==> (#[trigger] store@[i]).serial + (updates@.len() - k)
                    <= u32::MAX,
            apply_seq(old(hdict)@, old(store)@, updates@) == apply_seq(
                hdict@,
                store@,
                updates@.skip(k as int),
            ),
        decreases updates@.len() - k,
    {
        let ghost dict0 = hdict@;
        let ghost store0 = store@;
        let ghost rest0 = updates@.skip(k as int);
        proof {
            assert(rest0[0] == updates@[k as int]);
            assert(rest0.skip(1) =~= updates@.skip(k + 1 as int));
        }
        let up = updates[k];
        match up.data {
            ComponentUpdateType::Change(m) => {
                match hdict.find(up.target) {
                    Some(handle) => {
                        match store.find_mut(handle) {
                            Some(c) => {
                                *c = EntityComponent::from_nohandle(&m, handle);
                            },
                            None => {
                                proof {
                                    assert(resolves(store0, dict0[up.target]));
                                    assert(false);
                                }
                            },
                        }
                        proof {
                            assert(apply_step(dict0, store0, updates@[k as int]) == Some(
                                (hdict@, store@),
                            ));
                        }
                    },
                    None => {
                        let constructor = |h: EntityHandle| -> (c: EntityComponent)
                            ensures
                                c == spec_from_nohandle(m, h),
                            {
                                EntityComponent::from_nohandle(&m, h)
                            };
                        match store.add_with_handle(constructor) {
                            Ok(h) => {
                                proof {
                                    assert(is_first_free(store0, h.id as int));
                                    assert(has_free(store0));
                                    crate::component::lemma_first_free_unique(
                                        store0,
                                        first_free_of(store0),
                                        h.id as int,
                                    );
                                }
                                hdict.set(up.target, h);
                                proof {
                                    assert(apply_step(dict0, store0, updates@[k as int]) == Some(
                                        (hdict@, store@),
                                    ));
                                }
                            },
                            Err(e) => {
                                proof {
                                    assert(!has_free(store0));
                                    assert(apply_step(dict0, store0, updates@[k as int]) is None);
                                    assert(apply_seq(old(hdict)@, old(store)@, updates@) is None);
                                }
                                return Err(e);
                            },
                        }
                    },
                }
            },
            ComponentUpdateType::Destroy => {
                match hdict.find(up.target) {
                    Some(handle) => {
                        hdict.remove(up.target);
                        store.remove(handle);
                        proof {
                            assert(apply_step(dict0, store0, updates@[k as int]) == Some(
                                (hdict@, store@),
                            ));
                        }
                    },
                    None => {
                        proof {
                            assert(apply_step(dict0, store0, updates@[k as int]) == Some(
                                (hdict@, store@),
                            ));
                        }
                    },
                }
            },
        }
        k = k + 1;
        proof {
            assert(updates@.skip(k as int) =~= rest0.skip(1));
        }
    }
    proof {
        assert(updates@.skip(updates@.len() as int) =~= Seq::<ComponentUpdate>::empty());
    }
    Ok(())
}

/// The world a receiver sees through its dictionary: each known wire handle
/// mapped to the marshalled value of the local component it names.
pub open spec fn receiver_view(
    dict: Map<RawComponentHandle, EntityHandle>,
    v: Seq<ComponentBookkeeper<EntityComponent>>,
) -> Map<RawComponentHandle, NoHandleEntityComponent> {
    Map::new(
        |k: RawComponentHandle| dict.contains_key(k) && resolves(v, dict[k]),
        |k: RawComponentHandle| spec_to_nohandle(v[dict[k].id as int].component.unwrap()),
    )
}

/// The update map of a single component update.
pub open spec fn single_update(up: ComponentUpdate) -> Map<RawComponentHandle, ComponentUpdateType> {
    Map::empty().insert(up.target, up.data)
}

/// An update sequence denotes its first update overridden by the rest.
proof fn lemma_updates_map_cons(r: Seq<ComponentUpdate>)
    requires
        r.len() > 0,
    ensures
        updates_map(r) == single_update(r[0]).union_prefer_right(updates_map(r.skip(1))),
    decreases r.len(),
{
    if r.len() == 1 {
        assert(r.skip(1) =~= Seq::<ComponentUpdate>::empty());
        assert(r.drop_last() =~= Seq::<ComponentUpdate>::empty());
        assert(r.last() == r[0]);
        assert(updates_map(r) =~= single_update(r[0]).union_prefer_right(
            updates_map(r.skip(1)),
        ));
    } else {
        let rp = r.drop_last();
        lemma_updates_map_cons(rp);
        assert(rp[0] == r[0]);
        assert(r.skip(1).drop_last() =~= rp.skip(1));
        assert(r.skip(1).last() == r.last());
        assert(updates_map(r.skip(1)) == updates_map(rp.skip(1)).insert(
            r.last().target,
            r.last().data,
        ));
        assert(updates_map(r) =~= single_update(r[0]).union_prefer_right(
            updates_map(r.skip(1)),
        ));
    }
}

/// Applying two update maps in turn applies their overriding union.
proof fn lemma_apply_delta_compose(
    base: Map<RawComponentHandle, NoHandleEntityComponent>,
    first: Map<RawComponentHandle, ComponentUpdateType>,
    second: Map<RawComponentHandle, ComponentUpdateType>,
)
    ensures
        apply_delta_map(apply_delta_map(base, first), second) == apply_delta_map(
            base,
            first.union_prefer_right(second),
        ),
{
    assert(apply_delta_map(apply_delta_map(base, first), second) =~= apply_delta_map(
        base,
        first.union_prefer_right(second),
    ));
}

/// One update moves the receiver's view exactly as the delta semantics say,
/// and keeps the dictionary sound: changes land under their wire handle,
/// destroys drop it, and no other handle's view moves.
proof fn lemma_step_preserves_view(
    dict: Map<RawComponentHandle, EntityHandle>,
    v: Seq<ComponentBookkeeper<EntityComponent>>,
    up: ComponentUpdate,
)
    requires
        dict_resolves(dict, v),
        dict_injective(dict),
        v.len() <= 0x1_0000,
        apply_step(dict, v, up) is Some,
    ensures
        ({
            let (d2, v2) = apply_step(dict, v, up).unwrap();
            &&& v2.len() == v.len()
            &&& dict_resolves(d2, v2)
            &&& dict_injective(d2)
            &&& receiver_view(d2, v2) == apply_delta_map(receiver_view(dict, v), single_update(up))
        }),
{
    let (d2, v2) = apply_step(dict, v, up).unwrap();
    let base = receiver_view(dict, v);
    let target = apply_delta_map(base, single_update(up));
    match up.data {
        ComponentUpdateType::Change(m) => {
            if dict.contains_key(up.target) {
                let h = dict[up.target];
                assert forall|k: RawComponentHandle| #[trigger] d2.contains_key(k) implies resolves(
                    v2,
                    d2[k],
                ) by {
                    if k != up.target {
                        assert(dict[k].id != h.id);
                    }
                }
                assert(receiver_view(d2, v2) =~= target);
            } else {
                let i = first_free_of(v);
                assert(is_first_free(v, i));
                let h = d2[up.target];
                assert(h.id as int == i);
                assert forall|k: RawComponentHandle| #[trigger] dict.contains_key(k) implies dict[
                    k
                ].id as int != i by {
                    assert(resolves(v, dict[k]));
                }
                assert forall|k: RawComponentHandle| #[trigger] d2.contains_key(k) implies resolves(
                    v2,
                    d2[k],
                ) by {
                    if k != up.target {
                        assert(dict[k].id as int != i);
                    }
                }
                assert forall|k1: RawComponentHandle, k2: RawComponentHandle|
                    #[trigger] d2.contains_key(k1) && #[trigger] d2.contains_key(k2) && k1
                        != k2 implies d2[k1].id != d2[k2].id by {
                    if k1 == up.target {
                        assert(dict[k2].id as int != i);
                    } else if k2 == up.target {
                        assert(dict[k1].id as int != i);
                    }
                }
                assert(receiver_view(d2, v2) =~= target);
            }
        },
        ComponentUpdateType::Destroy => {
            if dict.contains_key(up.target) {
                let h = dict[up.target];
                assert forall|k: RawComponentHandle| #[trigger] d2.contains_key(k) implies resolves(
                    v2,
                    d2[k],
                ) by {
                    assert(dict[k].id != h.id);
                }
                assert(receiver_view(d2, v2) =~= target);
            } else {
                assert(receiver_view(d2, v2) =~= target);
            }
        },
    }
}

/// Applying a whole update sequence carries the receiver's view to exactly
/// the delta semantics' result, and keeps the dictionary sound throughout.
pub proof fn lemma_apply_seq_reconstructs(
    dict: Map<RawComponentHandle, EntityHandle>,
    v: Seq<ComponentBookkeeper<EntityComponent>>,
    ups: Seq<ComponentUpdate>,
)
    requires
        dict_resolves(dict, v),
        dict_injective(dict),
        v.len() <= 0x1_0000,
        apply_seq(dict, v, ups) is Some,
    ensures
        ({
            let (d2, v2) = apply_seq(dict, v, ups).unwrap();
            &&& v2.len() == v.len()
            &&& dict_resolves(d2, v2)
            &&& dict_injective(d2)
            &&& receiver_view(d2, v2) == apply_delta_map(receiver_view(dict, v), updates_map(ups))
        }),
    decreases ups.len(),
{
    if ups.len() == 0 {
        assert(updates_map(ups) =~= Map::<RawComponentHandle, ComponentUpdateType>::empty());
        assert(apply_delta_map(receiver_view(dict, v), updates_map(ups)) =~= receiver_view(
            dict,
            v,
        ));
    } else {
        lemma_step_preserves_view(dict, v, ups[0]);
        let (d1, v1) = apply_step(dict, v, ups[0]).unwrap();
        lemma_apply_seq_reconstructs(d1, v1, ups.skip(1));
        lemma_updates_map_cons(ups);
        lemma_apply_delta_compose(
            receiver_view(dict, v),
            single_update(ups[0]),
            updates_map(ups.skip(1)),
        );
    }
}

/// Delta correctness, end to end: a receiver whose dictionary view equals
/// an older snapshot, applying a delta whose update map carries that
/// snapshot to the newest one, ends with its dictionary view equal to
/// exactly the newest snapshot's live handles and values.
pub proof fn lemma_delta_reconstructs_receiver(
    base_map: Map<RawComponentHandle, NoHandleEntityComponent>,
    newest_map: Map<RawComponentHandle, NoHandleEntityComponent>,
    dict: Map<RawComponentHandle, EntityHandle>,
    v: Seq<ComponentBookkeeper<EntityComponent>>,
    ups: Seq<ComponentUpdate>,
)
    requires
        receiver_view(dict, v) == base_map,
        apply_delta_map(base_map, updates_map(ups)) == newest_map,
        dict_resolves(dict, v),
        dict_injective(dict),
        v.len() <= 0x1_0000,
        apply_seq(dict, v, ups) is Some,
    ensures
        receiver_view(
            apply_seq(dict, v, ups).unwrap().0,
            apply_seq(dict, v, ups).unwrap().1,
        ) == newest_map,
{
    lemma_apply_seq_reconstructs(dict, v, ups);
}

} // verus!
