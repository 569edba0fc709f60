//! Entity identifiers and entity-attached component storage.
//!
//! Components held here carry the `EntityID` they are attached to; the
//! storage itself is the same generational slot store, so every guarantee
//! about handles and serials carries over.

use vstd::prelude::*;

pub use self::components::PositionComponent;
pub mod components;

use crate::component::{
    find_spec, is_first_free, resolves, serials_monotone, ComponentBookkeeper, Components,
    StoreError,
};

verus! {

/// A globally unique entity identifier.
#[derive(Eq, PartialEq, Structural, Ord, PartialOrd, Clone, Copy, Debug, Hash)]
pub struct EntityID(pub u32);

/// A handle to an entity-attached component.
pub type ComponentHandle<Payload> = crate::component::ComponentHandle<Component<Payload>>;

/// A component attached to an entity.
pub struct Component<Payload> {
    pub entity: EntityID,
    pub payload: Payload,
}

impl<Payload> Component<Payload> {
    /// The ID of the entity this component is attached to.
    pub fn get_entity_id(&self) -> (r: EntityID)
        ensures
            r == self.entity,
    {
        self.entity
    }
}

/// Stores entity-attached components.
pub struct ComponentStore<Payload> {
    components: crate::component::ComponentStore<Component<Payload>>,
}

impl<Payload> View for ComponentStore<Payload> {
    type V = Seq<ComponentBookkeeper<Component<Payload>>>;

    closed spec fn view(&self) -> Seq<ComponentBookkeeper<Component<Payload>>> {
        self.components@
    }
}

impl<Payload> ComponentStore<Payload> {
    /// Slot numbers fit in a handle's `u16`.
    pub open spec fn wf(self) -> bool {
        self@.len() <= 0x1_0000
    }

    /// A fresh store: every slot free, every serial zero.
    pub fn new() -> (r: ComponentStore<Payload>)
        ensures
            r.wf(),
            r@.len() == crate::component::STORE_CAPACITY,
            forall|i: int| 0 <= i < r@.len() ==> r@[i].serial == 0 && (#[trigger] r@[i]).component is None,
    {
        ComponentStore { components: crate::component::ComponentStore::new() }
    }

    /// Number of slots the store was built with: never grows.
    pub fn capacity(&self) -> (r: usize)
        ensures
            r == self@.len(),
    {
        self.components.capacity()
    }

    /// Walk the live components: yields each live handle once, lowest slot first.
    pub fn iter(&self) -> (r: Components<Component<Payload>>)
        requires
            self.wf(),
        ensures
            r.remaining() == crate::component::live_handles(self@, self@.len() as int),
            forall|k: int| 0 <= k < r.remaining().len() ==> resolves(self@, #[trigger] r.remaining()[k]),
    {
        self.components.iter()
    }

    /// Add a component, by payload and the entity it belongs to, in the
    /// lowest free slot. The slot's serial is not bumped on insertion.
    pub fn add_component(&mut self, entity: EntityID, payload: Payload) -> (r: Result<
        ComponentHandle<Payload>,
        StoreError,
    >)
        requires
            old(self).wf(),
        ensures
            final(self).wf(),
            serials_monotone(old(self)@, final(self)@),
            match r {
                Ok(h) => {
                    &&& is_first_free(old(self)@, h.id as int)
                    &&& h.serial == old(self)@[h.id as int].serial
                    &&& final(self)@ == old(self)@.update(
                        h.id as int,
                        ComponentBookkeeper {
                            serial: h.serial,
                            component: Some(Component { entity, payload }),
                        },
                    )
                    &&& resolves(final(self)@, h)
                    &&& find_spec(final(self)@, h) == Some(Component { entity, payload })
                },
                Err(e) => {
                    &&& e == StoreError::StoreFull
                    &&& final(self)@ == old(self)@
                    &&& forall|i: int|
                        0 <= i < old(self)@.len() ==> (#[trigger] old(self)@[i]).component
                            is Some
                },
            },
    {
        self.components.add(Component { entity, payload })
    }

    /// Remove a component by handle; succeeds only while the handle still
    /// resolves, and leaves it permanently stale afterwards.
    pub fn remove(&mut self, handle: ComponentHandle<Payload>) -> (r: bool)
        requires
            (handle.id as int) < old(self)@.len(),
            resolves(old(self)@, handle) ==> old(self)@[handle.id as int].serial < u32::MAX,
        ensures
            r == resolves(old(self)@, handle),
            serials_monotone(old(self)@, final(self)@),
            r ==> final(self)@ == old(self)@.update(
                handle.id as int,
                ComponentBookkeeper { serial: (handle.serial + 1) as u32, component: None },
            ),
            !r ==> final(self)@ == old(self)@,
            find_spec(final(self)@, handle) is None,
    {
        self.components.remove(handle)
    }

    /// Look a handle up: `None` once the slot's serial moved on.
    pub fn find(&self, handle: ComponentHandle<Payload>) -> (r: Option<&Component<Payload>>)
        requires
            (handle.id as int) < self@.len(),
        ensures
            match r {
                Some(c) => find_spec(self@, handle) == Some(*c),
                None => find_spec(self@, handle) is None,
            },
    {
        self.components.find(handle)
    }

    /// Look a handle up mutably.
    pub fn find_mut(&mut self, handle: ComponentHandle<Payload>) -> (r: Option<
        &mut Component<Payload>,
    >)
        requires
            (handle.id as int) < old(self)@.len(),
        ensures
            match r {
                Some(c) => {
                    &&& find_spec(old(self)@, handle) == Some(*c)
                    &&& final(self)@ == old(self)@.update(
                        handle.id as int,
                        ComponentBookkeeper { serial: handle.serial, component: Some(*final(c)) },
                    )
                },
                None => {
                    &&& find_spec(old(self)@, handle) is None
                    &&& final(self)@ == old(self)@
                },
            },
    {
        self.components.find_mut(handle)
    }
}

/// Manages entity IDs; stores only liveness bookkeeping.
pub struct EntityStore {
    ents: Vec<bool>,
}

impl View for EntityStore {
    type V = Seq<bool>;

    closed spec fn view(&self) -> Seq<bool> {
        self.ents@
    }
}

impl EntityStore {
    /// A store with no entities yet.
    pub fn new() -> (r: EntityStore)
        ensures
            r@ == Seq::<bool>::empty(),
    {
        EntityStore { ents: Vec::new() }
    }

    /// Allocate a new entity ID: the next unused number, marked alive.
    pub fn create_entity(&mut self) -> (r: EntityID)
        requires
            old(self)@.len() < u32::MAX,
        ensures
            r == EntityID(old(self)@.len() as u32),
            final(self)@ == old(self)@.push(true),
    {
        let id = self.ents.len();
        self.ents.push(true);
        EntityID(id as u32)
    }

    /// Whether an entity ID refers to a living entity.
    pub fn is_alive(&self, id: EntityID) -> (r: bool)
        requires
            (id.0 as int) < self@.len(),
        ensures
            r == self@[id.0 as int],
    {
        self.ents[id.0 as usize]
    }

    /// Mark an entity as dead.
    pub fn kill(&mut self, id: EntityID)
        requires
            (id.0 as int) < old(self)@.len(),
        ensures
            final(self)@ == old(self)@.update(id.0 as int, false),
    {
        self.ents[id.0 as usize] = false;
    }
}

} // verus!
