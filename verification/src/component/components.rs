//! The entity component: the world-state payload every peer synchronizes.

use vstd::prelude::*;

use crate::component::{ComponentHandle, ComponentStore, RawComponentHandle, StoreError};
use crate::math::{Quat, Vec3};

verus! {

/// A handle to an entity component.
pub type EntityHandle = ComponentHandle<EntityComponent>;

/// Represents an entity in the world. It knows its own handle, held in raw
/// form; `get_handle` yields it with its component type attached again.
#[derive(Clone, Copy, PartialEq, Eq, Structural, Debug)]
pub struct EntityComponent {
    pub handle: RawComponentHandle,
    pub pos: Vec3,
    pub rot: Quat,
}

/// An entity component stripped of its handle, as it travels in snapshots
/// and update packets; each peer re-attaches its own local handle.
#[derive(Clone, Copy, PartialEq, Eq, Structural, Debug)]
pub struct NoHandleEntityComponent {
    pub pos: Vec3,
    pub rot: Quat,
}

/// What `to_nohandle` yields.
pub open spec fn spec_to_nohandle(e: EntityComponent) -> NoHandleEntityComponent {
    NoHandleEntityComponent { pos: e.pos, rot: e.rot }
}

/// What `from_nohandle` yields.
pub open spec fn spec_from_nohandle(e: NoHandleEntityComponent, handle: EntityHandle) -> EntityComponent {
    EntityComponent {
        handle: RawComponentHandle { id: handle.id, serial: handle.serial },
        pos: e.pos,
        rot: e.rot,
    }
}

impl EntityComponent {
    /// This entity's own handle.
    pub fn get_handle(&self) -> (r: EntityHandle)
        ensures
            r.id == self.handle.id,
            r.serial == self.handle.serial,
    {
        ComponentHandle::from_raw(self.handle)
    }

    /// Strip the handle off, leaving the wire form.
    pub fn to_nohandle(&self) -> (r: NoHandleEntityComponent)
        ensures
            r == spec_to_nohandle(*self),
    {
        NoHandleEntityComponent { pos: self.pos, rot: self.rot }
    }

    /// Attach a local handle to a wire-form component.
    pub fn from_nohandle(e: &NoHandleEntityComponent, handle: EntityHandle) -> (r: EntityComponent)
        ensures
            r == spec_from_nohandle(*e, handle),
    {
        EntityComponent {
            handle: handle.to_raw(),
            pos: e.pos,
            rot: e.rot,
        }
    }

    /// Construct an entity inside a store; the stored component carries the
    /// handle it was issued.
    pub fn new(ents: &mut ComponentStore<EntityComponent>, pos: Vec3, rot: Quat) -> (r: Result<
        EntityHandle,
        StoreError,
    >)
        requires
            old(ents).wf(),
        ensures
            final(ents).wf(),
            crate::component::serials_monotone(old(ents)@, final(ents)@),
            match r {
                Ok(h) => {
                    &&& crate::component::is_first_free(old(ents)@, h.id as int)
                    &&& h.serial == old(ents)@[h.id as int].serial
                    &&& final(ents)@ == old(ents)@.update(
                        h.id as int,
                        crate::component::ComponentBookkeeper {
                            serial: h.serial,
                            component: Some(
                                EntityComponent {
                                    handle: RawComponentHandle { id: h.id, serial: h.serial },
                                    pos: pos,
                                    rot: rot,
                                },
                            ),
                        },
                    )
                    &&& crate::component::resolves(final(ents)@, h)
                },
                Err(e) => {
                    &&& e == StoreError::StoreFull
                    &&& final(ents)@ == old(ents)@
                    &&& forall|i: int|
                        0 <= i < old(ents)@.len() ==> (#[trigger] old(ents)@[i]).component
                            is Some
                },
            },
    {
        let constructor = |handle: EntityHandle| -> (c: EntityComponent)
            ensures
                c == (EntityComponent {
                    handle: RawComponentHandle { id: handle.id, serial: handle.serial },
                    pos: pos,
                    rot: rot,
                }),
            {
                EntityComponent { handle: handle.to_raw(), pos, rot }
            };
        ents.add_with_handle(constructor)
    }
}

} // verus!
