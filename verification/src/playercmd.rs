//! Player commands and their deterministic execution.

use vstd::prelude::*;

use crate::component::{
    find_spec, resolves, ComponentBookkeeper, ComponentStore, EntityComponent, EntityHandle,
};
use crate::math::{spec_add_clamped, spec_rotate, Quat, Vec3, MOVE_MAX};

verus! {

/// Marks an entity as controlled by a player.
#[derive(Clone, Copy, Debug)]
pub struct ControllableComponent {
    pub entity: EntityHandle,
}

impl ControllableComponent {
    pub fn new(entity: EntityHandle) -> (r: ControllableComponent)
        ensures
            r.entity == entity,
    {
        ControllableComponent { entity }
    }
}

/// An input from a player, roughly abstracting over their inputs during the
/// course of a single game tick: the tick it answers, the view orientation,
/// and the movement relative to that orientation.
#[derive(Clone, Copy, PartialEq, Eq, Structural, Debug)]
pub struct PlayerCommand {
    pub tick: u64,
    pub angles: Quat,
    pub movement: Vec3,
}

impl PlayerCommand {
    /// A command the simulation accepts: a sane orientation and a bounded
    /// movement. Commands straight off the wire are checked against this
    /// before they run.
    pub open spec fn wf(self) -> bool {
        self.angles.wf() && self.movement.bounded(MOVE_MAX as int)
    }

    /// Whether the simulation accepts this command.
    pub fn is_wf(&self) -> (r: bool)
        ensures
            r == self.wf(),
    {
        let a = self.angles;
        let m = self.movement;
        -crate::math::QUAT_UNIT <= a.w && a.w <= crate::math::QUAT_UNIT
            && -crate::math::QUAT_UNIT <= a.x && a.x <= crate::math::QUAT_UNIT
            && -crate::math::QUAT_UNIT <= a.y && a.y <= crate::math::QUAT_UNIT
            && -crate::math::QUAT_UNIT <= a.z && a.z <= crate::math::QUAT_UNIT
            && -MOVE_MAX <= m.x && m.x <= MOVE_MAX && -MOVE_MAX <= m.y && m.y <= MOVE_MAX
            && -MOVE_MAX <= m.z && m.z <= MOVE_MAX
    }
}

/// The entity state a command leaves behind: orientation taken from the
/// command, position advanced by the movement rotated into world space.
pub open spec fn spec_apply_command(cmd: PlayerCommand, e: EntityComponent) -> EntityComponent {
    EntityComponent {
        handle: e.handle,
        pos: spec_add_clamped(e.pos, spec_rotate(cmd.angles, cmd.movement)),
        rot: cmd.angles,
    }
}

/// The store state after running `cmd` for the entity `target`.
pub open spec fn spec_run_command(
    v: Seq<ComponentBookkeeper<EntityComponent>>,
    target: EntityHandle,
    cmd: PlayerCommand,
) -> Seq<ComponentBookkeeper<EntityComponent>>
    recommends
        resolves(v, target),
{
    v.update(
        target.id as int,
        ComponentBookkeeper {
            serial: target.serial,
            component: Some(spec_apply_command(cmd, v[target.id as int].component.unwrap())),
        },
    )
}

/// Run a player's command for a single game tick: the controlled entity
/// takes the command's orientation and moves by the command's movement
/// vector, rotated by that orientation.
pub fn run_command(
    cmd: PlayerCommand,
    controllable: &mut ControllableComponent,
    positions: &mut ComponentStore<EntityComponent>,
)
    requires
        cmd.wf(),
        resolves(old(positions)@, old(controllable).entity),
    ensures
        *final(controllable) == *old(controllable),
        final(positions)@ == spec_run_command(old(positions)@, old(controllable).entity, cmd),
        resolves(final(positions)@, old(controllable).entity),
{
    let target = controllable.entity;
    match positions.find_mut(target) {
        Some(pos) => {
            let moved = crate::math::rotate_vector(cmd.angles, cmd.movement);
            let new_pos = crate::math::add_clamped(pos.pos, moved);
            *pos = EntityComponent { handle: pos.handle, pos: new_pos, rot: cmd.angles };
        },
        None => {
            proof {
                assert(false);
            }
        },
    }
}

} // verus!
