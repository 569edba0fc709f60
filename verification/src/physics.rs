//! The velocity-integration stub of the simulation.

use vstd::prelude::*;

pub use self::collision::CollisionComponent;
pub mod collision;

use crate::component::{
    resolves, ComponentBookkeeper, ComponentHandle, ComponentStore, EntityComponent, EntityHandle,
};
use crate::math::{spec_add_clamped, Vec3};

verus! {

/// Attaches a velocity to an entity.
#[derive(Clone, Copy, Debug)]
pub struct PhysicsComponent {
    pub velocity: Vec3,
    pub entity: EntityHandle,
}

impl PhysicsComponent {
    /// A new physics component at rest.
    pub fn new(entity: EntityHandle) -> (r: PhysicsComponent)
        ensures
            r.entity == entity,
            r.velocity == (Vec3 { x: 0i64, y: 0i64, z: 0i64 }),
    {
        PhysicsComponent { velocity: Vec3::zero(), entity }
    }
}

/// The entity states after integrating the velocities held in the first
/// `n` physics slots, in slot order: each physical entity that resolves
/// moves by its velocity; the rest stay put.
pub open spec fn sim_ents(
    phys: Seq<ComponentBookkeeper<PhysicsComponent>>,
    ents: Seq<ComponentBookkeeper<EntityComponent>>,
    n: int,
) -> Seq<ComponentBookkeeper<EntityComponent>>
    decreases n,
{
    if n <= 0 {
        ents
    } else {
        let prev = sim_ents(phys, ents, n - 1);
        if phys[n - 1].component is Some {
            let pc = phys[n - 1].component.unwrap();
            if resolves(prev, pc.entity) {
                let e = prev[pc.entity.id as int].component.unwrap();
                prev.update(
                    pc.entity.id as int,
                    ComponentBookkeeper {
                        serial: pc.entity.serial,
                        component: Some(
                            EntityComponent {
                                handle: e.handle,
                                pos: spec_add_clamped(e.pos, pc.velocity),
                                rot: e.rot,
                            },
                        ),
                    },
                )
            } else {
                prev
            }
        } else {
            prev
        }
    }
}

/// A physics slot is dead when it holds a component whose entity no longer
/// resolves.
pub open spec fn phys_slot_dead(
    phys: Seq<ComponentBookkeeper<PhysicsComponent>>,
    ents: Seq<ComponentBookkeeper<EntityComponent>>,
    i: int,
) -> bool {
    phys[i].component is Some && !resolves(ents, phys[i].component.unwrap().entity)
}

/// Integrating velocities never changes which entity handles resolve.
proof fn lemma_sim_ents_keeps_resolution(
    phys: Seq<ComponentBookkeeper<PhysicsComponent>>,
    ents: Seq<ComponentBookkeeper<EntityComponent>>,
    n: int,
)
    ensures
        sim_ents(phys, ents, n).len() == ents.len(),
        forall|h: EntityHandle| resolves(sim_ents(phys, ents, n), h) == resolves(ents, h),
    decreases n,
{
    if n > 0 {
        lemma_sim_ents_keeps_resolution(phys, ents, n - 1);
    }
}

/// Run one tick of simulation: move every physical entity by its velocity,
/// and drop every physics component whose entity is gone.
pub fn simulate_tick(
    physics: &mut ComponentStore<PhysicsComponent>,
    entities: &mut ComponentStore<EntityComponent>,
)
    requires
        old(physics).wf(),
        old(entities).wf(),
        forall|i: int|
            0 <= i < old(physics)@.len() ==> (#[trigger] old(physics)@[i]).serial < u32::MAX,
        forall|i: int|
            0 <= i < old(physics)@.len() && (#[trigger] old(physics)@[i]).component is Some ==> (
            old(physics)@[i].component.unwrap().entity.id as int) < old(entities)@.len(),
    ensures
        final(physics).wf(),
        final(entities).wf(),
        final(entities)@ == sim_ents(old(physics)@, old(entities)@, old(physics)@.len() as int),
        final(physics)@.len() == old(physics)@.len(),
        forall|i: int|
            0 <= i < old(physics)@.len() ==> final(physics)@[i] == if phys_slot_dead(
                old(physics)@,
                old(entities)@,
                i,
            ) {
                ComponentBookkeeper {
                    serial: (old(physics)@[i].serial + 1) as u32,
                    component: None::<PhysicsComponent>,
                }
            } else {
                old(physics)@[i]
            },
{
    let mut dead: Vec<ComponentHandle<PhysicsComponent>> = Vec::new();
    let capacity = physics.capacity();
    let mut i: usize = 0;
    while i < capacity
        invariant
            physics.wf(),
            entities.wf(),
            capacity == physics@.len(),
            physics@ == old(physics)@,
            i <= capacity,
            forall|j: int|
                0 <= j < physics@.len() && (#[trigger] physics@[j]).component is Some ==> (
                physics@[j].component.unwrap().entity.id as int) < old(entities)@.len(),
            entities@ == sim_ents(old(physics)@, old(entities)@, i as int),
            entities@.len() == old(entities)@.len(),
            // dead holds, in slot order, the handles of the dead slots seen so far
            forall|k: int|
                0 <= k < dead@.len() ==> {
                    let h = #[trigger] dead@[k];
                    &&& (h.id as int) < i
                    &&& h.serial == physics@[h.id as int].serial
                    &&& phys_slot_dead(physics@, old(entities)@, h.id as int)
                },
            forall|k1: int, k2: int|
                0 <= k1 < k2 < dead@.len() ==> (#[trigger] dead@[k1]).id < (#[trigger] dead@[k2]).id,
            forall|j: int|
                0 <= j < i && phys_slot_dead(physics@, old(entities)@, j) ==> exists|k: int|
                    0 <= k < dead@.len() && (#[trigger] dead@[k]).id as int == j,
        decreases capacity - i,
    {
        proof {
            lemma_sim_ents_keeps_resolution(old(physics)@, old(entities)@, i as int);
        }
        match physics.handle_at(i) {
            Some(ph) => {
                let pc = match physics.find(ph) {
                    Some(c) => *c,
                    None => {
                        proof {
                            assert(false);
                        }
                        PhysicsComponent {
                            velocity: Vec3 { x: 0, y: 0, z: 0 },
                            entity: ComponentHandle::from_raw(
                                crate::component::RawComponentHandle { id: 0, serial: 0 },
                            ),
                        }
                    },
                };
                match entities.find_mut(pc.entity) {
                    Some(e) => {
                        let new_pos = crate::math::add_clamped(e.pos, pc.velocity);
                        *e = EntityComponent { handle: e.handle, pos: new_pos, rot: e.rot };
                        proof {
                            assert(entities@ =~= sim_ents(
                                old(physics)@,
                                old(entities)@,
                                i + 1 as int,
                            ));
                            assert(!phys_slot_dead(physics@, old(entities)@, i as int));
                        }
                    },
                    None => {
                        let ghost dead0 = dead@;
                        dead.push(ph);
                        proof {
                            assert(entities@ =~= sim_ents(
                                old(physics)@,
                                old(entities)@,
                                i + 1 as int,
                            ));
                            assert(phys_slot_dead(physics@, old(entities)@, i as int));
                            assert(dead@[dead@.len() - 1] == ph);
                            assert forall|j: int|
                                0 <= j < i + 1 && phys_slot_dead(physics@, old(entities)@, j)
                                implies exists|k2: int|
                                0 <= k2 < dead@.len() && (#[trigger] dead@[k2]).id as int == j by {
                                if j < i {
                                    let k2 = choose|k2: int|
                                        0 <= k2 < dead0.len() && (#[trigger] dead0[k2]).id as int
                                            == j;
                                    assert(dead@[k2].id as int == j);
                                } else {
                                    assert(dead@[dead@.len() - 1].id as int == j);
                                }
                            }
                        }
                    },
                }
            },
            None => {
                proof {
                    assert(entities@ =~= sim_ents(old(physics)@, old(entities)@, i + 1 as int));
                    assert(!phys_slot_dead(physics@, old(entities)@, i as int));
                }
            },
        }
        i = i + 1;
    }

    let mut k: usize = 0;
    while k < dead.len()
        invariant
            physics.wf(),
            physics@.len() == old(physics)@.len(),
            k <= dead@.len(),
            forall|j: int|
                0 <= j < dead@.len() ==> {
                    let h = #[trigger] dead@[j];
                    &&& (h.id as int) < old(physics)@.len()
                    &&& h.serial == old(physics)@[h.id as int].serial
                    &&& phys_slot_dead(old(physics)@, old(entities)@, h.id as int)
                },
            forall|k1: int, k2: int|
                0 <= k1 < k2 < dead@.len() ==> (#[trigger] dead@[k1]).id < (#[trigger] dead@[k2]).id,
            forall|j: int|
                0 <= j < old(physics)@.len() && phys_slot_dead(old(physics)@, old(entities)@, j)
                    ==> exists|m: int|
                    0 <= m < dead@.len() && (#[trigger] dead@[m]).id as int == j,
            forall|i2: int|
                0 <= i2 < old(physics)@.len() ==> (#[trigger] old(physics)@[i2]).serial < u32::MAX,
            // slots of processed dead handles are cleared, others untouched
            forall|i2: int|
                0 <= i2 < old(physics)@.len() ==> #[trigger] physics@[i2] == if exists|m: int|
                    0 <= m < k && (#[trigger] dead@[m]).id as int == i2 {
                    ComponentBookkeeper {
                        serial: (old(physics)@[i2].serial + 1) as u32,
                        component: None::<PhysicsComponent>,
                    }
                } else {
                    old(physics)@[i2]
                },
        decreases dead@.len() - k,
    {
        let h = dead[k];
        proof {
            assert(forall|m: int|
                0 <= m < k ==> (#[trigger] dead@[m]).id != h.id);
            assert(physics@[h.id as int] == old(physics)@[h.id as int]);
            assert(resolves(physics@, h));
        }
        physics.remove(h);
        k = k + 1;
        proof {
            assert forall|i2: int| 0 <= i2 < old(physics)@.len() implies #[trigger] physics@[i2]
                == if exists|m: int| 0 <= m < k && (#[trigger] dead@[m]).id as int == i2 {
                ComponentBookkeeper {
                    serial: (old(physics)@[i2].serial + 1) as u32,
                    component: None::<PhysicsComponent>,
                }
            } else {
                old(physics)@[i2]
            } by {
                if i2 == h.id as int {
                    assert(dead@[k - 1].id as int == i2);
                }
            }
        }
    }
    proof {
        assert forall|i2: int| 0 <= i2 < old(physics)@.len() implies #[trigger] physics@[i2]
            == if phys_slot_dead(old(physics)@, old(entities)@, i2) {
            ComponentBookkeeper {
                serial: (old(physics)@[i2].serial + 1) as u32,
                component: None::<PhysicsComponent>,
            }
        } else {
            old(physics)@[i2]
        } by {
            if phys_slot_dead(old(physics)@, old(entities)@, i2) {
                let m = choose|m: int|
                    0 <= m < dead@.len() && (#[trigger] dead@[m]).id as int == i2;
                assert(exists|m2: int|
                    0 <= m2 < dead@.len() && (#[trigger] dead@[m2]).id as int == i2);
            } else {
                assert(!(exists|m: int|
                    0 <= m < dead@.len() && (#[trigger] dead@[m]).id as int == i2));
            }
        }
    }
}

} // verus!
