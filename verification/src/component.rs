//! Generational component storage.
//!
//! A `ComponentStore` maps a `ComponentHandle { id, serial }` to an optional
//! payload. A slot's serial only ever increases, and only on removal of a
//! live component, so a handle issued while a slot is occupied can never
//! alias a later occupant of the same slot: once stale, always stale.

use vstd::prelude::*;

pub use self::components::{EntityComponent, EntityHandle, NoHandleEntityComponent};
pub mod components;

verus! {

/// Number of slots in a store.
pub const STORE_CAPACITY: usize = 2048;

/// A handle to a component: valid while the store's serial at slot `id`
/// still equals `serial`.
#[derive(Debug)]
pub struct ComponentHandle<Component> {
    pub id: u16,
    pub serial: u32,
    pub marker: core::marker::PhantomData<Component>,
}

impl<Component> Clone for ComponentHandle<Component> {
    fn clone(&self) -> (r: Self)
        ensures
            r == *self,
    {
        ComponentHandle { id: self.id, serial: self.serial, marker: core::marker::PhantomData }
    }
}

impl<Component> Copy for ComponentHandle<Component> {

}

/// A handle stripped of its component type, safe to put on the wire.
#[derive(Debug, PartialEq, Eq, Structural, Clone, Copy, Hash)]
pub struct RawComponentHandle {
    pub id: u16,
    pub serial: u32,
}

impl<Component> ComponentHandle<Component> {
    /// Reinterpret this handle as a handle to another component type.
    pub fn cast<NewComponent>(self) -> (r: ComponentHandle<NewComponent>)
        ensures
            r.id == self.id,
            r.serial == self.serial,
    {
        ComponentHandle { id: self.id, serial: self.serial, marker: core::marker::PhantomData }
    }

    /// Strip the component type off this handle.
    pub fn to_raw(self) -> (r: RawComponentHandle)
        ensures
            r == (RawComponentHandle { id: self.id, serial: self.serial }),
    {
        RawComponentHandle { id: self.id, serial: self.serial }
    }

    /// Attach a component type to a raw handle again.
    pub fn from_raw(raw: RawComponentHandle) -> (r: ComponentHandle<Component>)
        ensures
            r.id == raw.id,
            r.serial == raw.serial,
    {
        ComponentHandle { id: raw.id, serial: raw.serial, marker: core::marker::PhantomData }
    }
}

/// One slot of a store: the slot's serial and its payload, if any.
#[derive(Clone, Copy)]
pub struct ComponentBookkeeper<Component> {
    pub serial: u32,
    pub component: Option<Component>,
}

impl<Component> ComponentBookkeeper<Component> {
    /// Advance the slot's serial, invalidating all handles carrying the old one.
    pub fn bump_serial(&mut self)
        requires
            old(self).serial < u32::MAX,
        ensures
            final(self).serial == old(self).serial + 1,
            final(self).component == old(self).component,
    {
        self.serial = self.serial + 1;
    }
}

/// The payload that `find` yields for handle `h` against the slots `v`.
pub open spec fn find_spec<C>(v: Seq<ComponentBookkeeper<C>>, h: ComponentHandle<C>) -> Option<C> {
    if h.id < v.len() && v[h.id as int].serial == h.serial {
        v[h.id as int].component
    } else {
        None
    }
}

/// Handle `h` currently resolves to a live component in the slots `v`.
pub open spec fn resolves<C>(v: Seq<ComponentBookkeeper<C>>, h: ComponentHandle<C>) -> bool {
    h.id < v.len() && v[h.id as int].serial == h.serial && v[h.id as int].component is Some
}

/// Slot `i` of `v` is free and every slot below it is occupied.
pub open spec fn is_first_free<C>(v: Seq<ComponentBookkeeper<C>>, i: int) -> bool {
    &&& 0 <= i < v.len()
    &&& v[i].component is None
    &&& forall|j: int| 0 <= j < i ==> v[j].component is Some
}

/// Serial numbers never decrease from `v1` to `v2`.
pub open spec fn serials_monotone<C>(v1: Seq<ComponentBookkeeper<C>>, v2: Seq<ComponentBookkeeper<C>>) -> bool {
    v2.len() == v1.len() && forall|i: int| 0 <= i < v1.len() ==> v1[i].serial <= v2[i].serial
}

/// The handles of the live components among the first `n` slots of `v`,
/// in increasing slot order.
pub open spec fn live_handles<C>(v: Seq<ComponentBookkeeper<C>>, n: int) -> Seq<ComponentHandle<C>>
    decreases n,
{
    if n <= 0 {
        Seq::empty()
    } else if v[n - 1].component is Some {
        live_handles(v, n - 1).push(ComponentHandle { id: (n - 1) as u16, serial: v[n - 1].serial, marker: core::marker::PhantomData })
    } else {
        live_handles(v, n - 1)
    }
}

/// Every handle listed by `live_handles` resolves, their slot numbers increase
/// strictly, and every occupied slot is listed.
pub proof fn lemma_live_handles_props<C>(v: Seq<ComponentBookkeeper<C>>, n: int)
    requires
        0 <= n <= v.len(),
        n <= 0x1_0000,
    ensures
        forall|k: int| 0 <= k < live_handles(v, n).len() ==> resolves(v, #[trigger] live_handles(v, n)[k]),
        forall|k1: int, k2: int|
            0 <= k1 < k2 < live_handles(v, n).len()
                ==> #[trigger] live_handles(v, n)[k1].id < #[trigger] live_handles(v, n)[k2].id,
        forall|k: int| 0 <= k < live_handles(v, n).len() ==> #[trigger] live_handles(v, n)[k].id < n,
        forall|i: int|
            0 <= i < n && v[i].component is Some
                ==> exists|k: int|
                    0 <= k < live_handles(v, n).len() && (#[trigger] live_handles(v, n)[k]).id == i,
    decreases n,
{
    if n > 0 {
        lemma_live_handles_props(v, n - 1);
        if v[n - 1].component is Some {
            assert forall|i: int| 0 <= i < n && v[i].component is Some implies exists|k: int|
                0 <= k < live_handles(v, n).len() && (#[trigger] live_handles(v, n)[k]).id == i by {
                if i == n - 1 {
                    let k = live_handles(v, n).len() - 1;
                    assert(live_handles(v, n)[k].id == i);
                } else {
                    let k = choose|k: int|
                        0 <= k < live_handles(v, n - 1).len() && (#[trigger] live_handles(v, n - 1)[k]).id == i;
                    assert(live_handles(v, n)[k].id == i);
                }
            }
        }
    }
}

/// Failure of a store operation.
#[derive(Debug, PartialEq, Eq, Structural, Clone, Copy)]
pub enum StoreError {
    /// Every slot of the store is occupied.
    StoreFull,
}

/// A restartable walk over the live components of a store: yields each live
/// handle once, in increasing slot order.
pub struct Components<Component> {
    handles: Vec<ComponentHandle<Component>>,
    pos: usize,
}

impl<Component> Components<Component> {
    /// The handles this walk will still yield.
    pub closed spec fn remaining(self) -> Seq<ComponentHandle<Component>> {
        if self.pos as int <= self.handles@.len() {
            self.handles@.skip(self.pos as int)
        } else {
            Seq::empty()
        }
    }

    /// The next live handle, or `None` once the walk is done.
    pub fn next(&mut self) -> (r: Option<ComponentHandle<Component>>)
        ensures
            old(self).remaining().len() == 0 ==> r is None && final(self).remaining() == old(self).remaining(),
            old(self).remaining().len() > 0 ==> r == Some(old(self).remaining()[0])
                && final(self).remaining() == old(self).remaining().skip(1),
    {
        if self.pos < self.handles.len() {
            let h = self.handles[self.pos];
            self.pos = self.pos + 1;
            proof {
                assert(old(self).remaining()[0] == old(self).handles@[old(self).pos as int]);
                assert(self.remaining() =~= old(self).remaining().skip(1));
            }
            Some(h)
        } else {
            None
        }
    }
}

/// A restartable walk over the live components of a mutably borrowed
/// store: yields each live handle once, in increasing slot order, to be
/// fed to `find_mut`.
pub struct MutComponents<Component> {
    handles: Vec<ComponentHandle<Component>>,
    pos: usize,
}

impl<Component> MutComponents<Component> {
    /// The handles this walk will still yield.
    pub closed spec fn remaining(self) -> Seq<ComponentHandle<Component>> {
        if self.pos as int <= self.handles@.len() {
            self.handles@.skip(self.pos as int)
        } else {
            Seq::empty()
        }
    }

    /// The next live handle, or `None` once the walk is done.
    pub fn next(&mut self) -> (r: Option<ComponentHandle<Component>>)
        ensures
            old(self).remaining().len() == 0 ==> r is None
                && final(self).remaining() == old(self).remaining(),
            old(self).remaining().len() > 0 ==> r == Some(old(self).remaining()[0])
                && final(self).remaining() == old(self).remaining().skip(1),
    {
        if self.pos < self.handles.len() {
            let h = self.handles[self.pos];
            self.pos = self.pos + 1;
            proof {
                assert(old(self).remaining()[0] == old(self).handles@[old(self).pos as int]);
                assert(self.remaining() =~= old(self).remaining().skip(1));
            }
            Some(h)
        } else {
            None
        }
    }
}

/// Stores components, one optional payload per slot.
pub struct ComponentStore<Component> {
    components: Vec<ComponentBookkeeper<Component>>,
}

impl<Component> View for ComponentStore<Component> {
    type V = Seq<ComponentBookkeeper<Component>>;

    closed spec fn view(&self) -> Seq<ComponentBookkeeper<Component>> {
        self.components@
    }
}

impl<Component> ComponentStore<Component> {
    /// Slot numbers fit in a handle's `u16`.
    pub open spec fn wf(self) -> bool {
        self@.len() <= 0x1_0000
    }

    /// A fresh store: every slot free, every serial zero.
    pub fn new() -> (r: ComponentStore<Component>)
        ensures
            r.wf(),
            r@.len() == STORE_CAPACITY,
            forall|i: int| 0 <= i < r@.len() ==> r@[i].serial == 0 && (#[trigger] r@[i]).component is None,
    {
        let mut components: Vec<ComponentBookkeeper<Component>> = Vec::new();
        let mut i: usize = 0;
        while i < STORE_CAPACITY
            invariant
                i == components@.len(),
                i <= STORE_CAPACITY,
                forall|j: int| 0 <= j < i ==> components@[j].serial == 0 && (#[trigger] components@[j]).component is None,
            decreases STORE_CAPACITY - i,
        {
            components.push(ComponentBookkeeper { serial: 0, component: None });
            i = i + 1;
        }
        ComponentStore { components }
    }

    /// Number of slots the store was built with: never grows.
    pub fn capacity(&self) -> (r: usize)
        ensures
            r == self@.len(),
    {
        self.components.len()
    }

    /// The lowest free slot, if any slot is free.
    fn find_free_bookkeeper(&self) -> (r: Option<usize>)
        ensures
            match r {
                Some(i) => is_first_free(self@, i as int),
                None => forall|i: int| 0 <= i < self@.len() ==> (#[trigger] self@[i]).component is Some,
            },
    {
        let mut i: usize = 0;
        while i < self.components.len()
            invariant
                i <= self@.len(),
                forall|j: int| 0 <= j < i ==> (#[trigger] self@[j]).component is Some,
            decreases self@.len() - i,
        {
            if self.components[i].component.is_none() {
                return Some(i);
            }
            i = i + 1;
        }
        None
    }

    /// Add a component in the lowest free slot and hand back a handle that
    /// carries the slot's current serial. The serial is not bumped here: it
    /// only moves on removal, so a freshly issued handle always resolves.
    pub fn add(&mut self, component: Component) -> (r: Result<ComponentHandle<Component>, StoreError>)
        requires
            old(self).wf(),
        ensures
            final(self).wf(),
            serials_monotone(old(self)@, final(self)@),
            match r {
                Ok(h) => {
                    &&& is_first_free(old(self)@, h.id as int)
                    &&& h.serial == old(self)@[h.id as int].serial
                    &&& final(self)@ == old(self)@.update(
                        h.id as int,
                        ComponentBookkeeper { serial: h.serial, component: Some(component) },
                    )
                    &&& resolves(final(self)@, h)
                    &&& find_spec(final(self)@, h) == Some(component)
                },
                Err(e) => {
                    &&& e == StoreError::StoreFull
                    &&& final(self)@ == old(self)@
                    &&& forall|i: int| 0 <= i < old(self)@.len() ==> (#[trigger] old(self)@[i]).component is Some
                },
            },
    {
        match self.find_free_bookkeeper() {
            Some(pos) => {
                let serial = self.components[pos].serial;
                self.components[pos] = ComponentBookkeeper { serial, component: Some(component) };
                Ok(ComponentHandle { id: pos as u16, serial, marker: core::marker::PhantomData })
            },
            None => Err(StoreError::StoreFull),
        }
    }

    /// Add a component built by a constructor that receives its own future
    /// handle, for components that must know their own identity.
    pub fn add_with_handle<F: FnOnce(ComponentHandle<Component>) -> Component>(
        &mut self,
        constructor: F,
    ) -> (r: Result<ComponentHandle<Component>, StoreError>)
        requires
            old(self).wf(),
            forall|h: ComponentHandle<Component>|
                is_first_free(old(self)@, h.id as int) && h.serial == old(self)@[h.id as int].serial
                    ==> call_requires(constructor, (h,)),
        ensures
            final(self).wf(),
            serials_monotone(old(self)@, final(self)@),
            match r {
                Ok(h) => {
                    &&& is_first_free(old(self)@, h.id as int)
                    &&& h.serial == old(self)@[h.id as int].serial
                    &&& exists|c: Component|
                        #[trigger] call_ensures(constructor, (h,), c)
                            && final(self)@ == old(self)@.update(
                            h.id as int,
                            ComponentBookkeeper { serial: h.serial, component: Some(c) },
                        )
                    &&& resolves(final(self)@, h)
                },
                Err(e) => {
                    &&& e == StoreError::StoreFull
                    &&& final(self)@ == old(self)@
                    &&& forall|i: int| 0 <= i < old(self)@.len() ==> (#[trigger] old(self)@[i]).component is Some
                },
            },
    {
        match self.find_free_bookkeeper() {
            Some(pos) => {
                let serial = self.components[pos].serial;
                let handle = ComponentHandle { id: pos as u16, serial, marker: core::marker::PhantomData };
                proof {
                    assert(handle.id as int == pos as int);
                    assert(is_first_free(old(self)@, handle.id as int));
                    assert(handle.serial == old(self)@[handle.id as int].serial);
                }
                let component = constructor(handle);
                self.components[pos] = ComponentBookkeeper { serial, component: Some(component) };
                Ok(handle)
            },
            None => Err(StoreError::StoreFull),
        }
    }

    /// Remove the component `handle` refers to. Succeeds only if the slot's
    /// serial still equals the handle's and a live component is there; on
    /// success the payload is cleared and the serial bumped, so the handle
    /// (and every copy of it) never resolves again.
    pub fn remove(&mut self, handle: ComponentHandle<Component>) -> (r: bool)
        requires
            (handle.id as int) < old(self)@.len(),
            resolves(old(self)@, handle) ==> old(self)@[handle.id as int].serial < u32::MAX,
        ensures
            r == resolves(old(self)@, handle),
            serials_monotone(old(self)@, final(self)@),
            r ==> final(self)@ == old(self)@.update(
                handle.id as int,
                ComponentBookkeeper { serial: (handle.serial + 1) as u32, component: None },
            ),
            !r ==> final(self)@ == old(self)@,
            find_spec(final(self)@, handle) is None,
            final(self)@.len() == old(self)@.len(),
    {
        let bookkeeper = &mut self.components[handle.id as usize];
        if bookkeeper.serial == handle.serial && bookkeeper.component.is_some() {
            bookkeeper.bump_serial();
            bookkeeper.component = None;
            true
        } else {
            false
        }
    }

    /// Look a handle up: the component it was issued for, or `None` once the
    /// slot's serial moved on (including after the slot was recycled).
    pub fn find(&self, handle: ComponentHandle<Component>) -> (r: Option<&Component>)
        requires
            (handle.id as int) < self@.len(),
        ensures
            match r {
                Some(c) => find_spec(self@, handle) == Some(*c),
                None => find_spec(self@, handle) is None,
            },
    {
        let bookkeeper = &self.components[handle.id as usize];
        if bookkeeper.serial == handle.serial {
            bookkeeper.component.as_ref()
        } else {
            None
        }
    }

    /// Look a handle up mutably.
    pub fn find_mut(&mut self, handle: ComponentHandle<Component>) -> (r: Option<&mut Component>)
        requires
            (handle.id as int) < old(self)@.len(),
        ensures
            match r {
                Some(c) => {
                    &&& find_spec(old(self)@, handle) == Some(*c)
                    &&& final(self)@ == old(self)@.update(
                        handle.id as int,
                        ComponentBookkeeper { serial: handle.serial, component: Some(*final(c)) },
                    )
                },
                None => {
                    &&& find_spec(old(self)@, handle) is None
                    &&& final(self)@ == old(self)@
                },
            },
    {
        let bookkeeper = &mut self.components[handle.id as usize];
        if bookkeeper.serial == handle.serial {
            match &mut bookkeeper.component {
                Some(c) => Some(c),
                None => None,
            }
        } else {
            None
        }
    }

    /// Whether every slot's serial is at least `n` steps away from
    /// overflowing: room for `n` more removals anywhere in the store.
    pub fn serial_headroom(&self, n: usize) -> (r: bool)
        ensures
            r == forall|i: int|
                0 <= i < self@.len() ==> (#[trigger] self@[i]).serial + n <= u32::MAX,
    {
        if n > (u32::MAX as usize) {
            proof {
                if self@.len() > 0 {
                    assert(self@[0].serial + n > u32::MAX);
                }
            }
            return self.components.len() == 0;
        }
        let mut i: usize = 0;
        while i < self.components.len()
            invariant
                i <= self@.len(),
                n <= u32::MAX,
                forall|j: int| 0 <= j < i ==> (#[trigger] self@[j]).serial + n <= u32::MAX,
            decreases self@.len() - i,
        {
            if !((self.components[i].serial as u64) + (n as u64) <= u32::MAX as u64) {
                proof {
                    assert(self@[i as int].serial + n > u32::MAX);
                }
                return false;
            }
            i = i + 1;
        }
        true
    }

    /// The handle of the component in slot `i`, if one is live there.
    pub fn handle_at(&self, i: usize) -> (r: Option<ComponentHandle<Component>>)
        requires
            self.wf(),
            (i as int) < self@.len(),
        ensures
            match r {
                Some(h) => h.id == i as u16 && h.serial == self@[i as int].serial && resolves(
                    self@,
                    h,
                ),
                None => self@[i as int].component is None,
            },
    {
        if self.components[i].component.is_some() {
            Some(
                ComponentHandle {
                    id: i as u16,
                    serial: self.components[i].serial,
                    marker: core::marker::PhantomData,
                },
            )
        } else {
            None
        }
    }

    /// Walk the live components: yields each live handle once, lowest slot
    /// first. Payloads are read through `find` with the yielded handles, so
    /// a caller may mark entries for removal while walking.
    pub fn iter(&self) -> (r: Components<Component>)
        requires
            self.wf(),
        ensures
            r.remaining() == live_handles(self@, self@.len() as int),
            forall|k: int| 0 <= k < r.remaining().len() ==> resolves(self@, #[trigger] r.remaining()[k]),
    {
        let mut handles: Vec<ComponentHandle<Component>> = Vec::new();
        let mut i: usize = 0;
        while i < self.components.len()
            invariant
                self.wf(),
                i <= self@.len(),
                handles@ == live_handles(self@, i as int),
            decreases self@.len() - i,
        {
            if self.components[i].component.is_some() {
                handles.push(ComponentHandle { id: i as u16, serial: self.components[i].serial, marker: core::marker::PhantomData });
            }
            i = i + 1;
        }
        proof {
            lemma_live_handles_props(self@, self@.len() as int);
        }
        Components { handles, pos: 0 }
    }

    /// Walk the live components of a store that is borrowed mutably; the
    /// yielded handles are then fed to `find_mut`.
    pub fn iter_mut(&mut self) -> (r: MutComponents<Component>)
        requires
            old(self).wf(),
        ensures
            final(self)@ == old(self)@,
            r.remaining() == live_handles(old(self)@, old(self)@.len() as int),
            forall|k: int| 0 <= k < r.remaining().len() ==> resolves(old(self)@, #[trigger] r.remaining()[k]),
    {
        let walk = self.iter();
        MutComponents { handles: walk.handles, pos: walk.pos }
    }
}

impl<Component: Copy> ComponentStore<Component> {
    /// An independent copy of the store, slot for slot.
    pub fn duplicate(&self) -> (r: ComponentStore<Component>)
        ensures
            r@ == self@,
    {
        let mut components: Vec<ComponentBookkeeper<Component>> = Vec::new();
        let mut i: usize = 0;
        while i < self.components.len()
            invariant
                i <= self@.len(),
                components@ == self@.take(i as int),
            decreases self@.len() - i,
        {
            components.push(self.components[i]);
            proof {
                assert(components@ =~= self@.take(i + 1 as int));
            }
            i = i + 1;
        }
        proof {
            assert(components@ =~= self@);
        }
        ComponentStore { components }
    }
}

/// There is at most one first free slot.
pub proof fn lemma_first_free_unique<C>(v: Seq<ComponentBookkeeper<C>>, a: int, b: int)
    requires
        is_first_free(v, a),
        is_first_free(v, b),
    ensures
        a == b,
{
    if a < b {
        assert(v[a].component is Some);
    } else if b < a {
        assert(v[b].component is Some);
    }
}

/// Some slot of `v` is free.
pub open spec fn has_free_slot<C>(v: Seq<ComponentBookkeeper<C>>) -> bool {
    exists|i: int| is_first_free(v, i)
}

/// The lowest free slot of `v`, where the next addition lands.
pub open spec fn first_free_slot<C>(v: Seq<ComponentBookkeeper<C>>) -> int {
    choose|i: int| is_first_free(v, i)
}

/// One operation on a store, as the public contracts describe it: an
/// addition (by `add` or `add_with_handle`), a removal by handle, or a
/// payload overwrite through `find_mut`.
pub enum StoreOp<Component> {
    Add(Component),
    Remove(ComponentHandle<Component>),
    Write(ComponentHandle<Component>, Component),
}

/// The slots after one operation, exactly the transition the corresponding
/// executable function's contract describes. A removal only moves where its
/// contract admits it: its precondition excludes serial overflow.
pub open spec fn apply_store_op<C>(
    v: Seq<ComponentBookkeeper<C>>,
    op: StoreOp<C>,
) -> Seq<ComponentBookkeeper<C>> {
    match op {
        StoreOp::Add(c) => if has_free_slot(v) {
            let i = first_free_slot(v);
            v.update(i, ComponentBookkeeper { serial: v[i].serial, component: Some(c) })
        } else {
            v
        },
        StoreOp::Remove(h) => if resolves(v, h) && v[h.id as int].serial < u32::MAX {
            v.update(
                h.id as int,
                ComponentBookkeeper { serial: (h.serial + 1) as u32, component: None },
            )
        } else {
            v
        },
        StoreOp::Write(h, c) => if resolves(v, h) {
            v.update(h.id as int, ComponentBookkeeper { serial: h.serial, component: Some(c) })
        } else {
            v
        },
    }
}

/// The slots after a whole sequence of operations, applied in order.
pub open spec fn apply_store_ops<C>(
    v: Seq<ComponentBookkeeper<C>>,
    ops: Seq<StoreOp<C>>,
) -> Seq<ComponentBookkeeper<C>>
    decreases ops.len(),
{
    if ops.len() == 0 {
        v
    } else {
        apply_store_ops(apply_store_op(v, ops[0]), ops.skip(1))
    }
}

/// Whether an operation is the removal matching handle `h`.
pub open spec fn removes_handle<C>(op: StoreOp<C>, h: ComponentHandle<C>) -> bool {
    match op {
        StoreOp::Remove(h2) => h2.id == h.id && h2.serial == h.serial,
        _ => false,
    }
}

/// A single operation other than the matching removal keeps a live handle
/// resolved: additions land in a free slot, which cannot be the handle's
/// occupied one; foreign removals and writes either miss the slot or fail
/// the serial check; a write through the handle itself keeps it live.
proof fn lemma_op_preserves_resolution<C>(
    v: Seq<ComponentBookkeeper<C>>,
    h: ComponentHandle<C>,
    op: StoreOp<C>,
)
    requires
        resolves(v, h),
        !removes_handle(op, h),
    ensures
        resolves(apply_store_op(v, op), h),
        apply_store_op(v, op).len() == v.len(),
{
    match op {
        StoreOp::Add(_) => {
            if has_free_slot(v) {
                assert(is_first_free(v, first_free_slot(v)));
            }
        },
        StoreOp::Remove(h2) => {
            if resolves(v, h2) && h2.id == h.id {
                assert(h2.serial == h.serial);
            }
        },
        StoreOp::Write(_, _) => {
        },
    }
}

/// Every operation keeps every slot's serial from decreasing.
proof fn lemma_op_serials_monotone<C>(v: Seq<ComponentBookkeeper<C>>, op: StoreOp<C>)
    ensures
        serials_monotone(v, apply_store_op(v, op)),
{
    match op {
        StoreOp::Add(_) => {
            if has_free_slot(v) {
                assert(is_first_free(v, first_free_slot(v)));
            }
        },
        StoreOp::Remove(_) => {
        },
        StoreOp::Write(_, _) => {
        },
    }
}

/// P1's positive half, over arbitrary operation sequences: a handle that
/// resolves keeps resolving, whatever is added, removed or overwritten
/// meanwhile, until the operation that removes it.
pub proof fn lemma_handle_resolves_until_removed<C>(
    v: Seq<ComponentBookkeeper<C>>,
    h: ComponentHandle<C>,
    ops: Seq<StoreOp<C>>,
)
    requires
        resolves(v, h),
        forall|i: int| 0 <= i < ops.len() ==> !removes_handle(#[trigger] ops[i], h),
    ensures
        resolves(apply_store_ops(v, ops), h),
    decreases ops.len(),
{
    if ops.len() > 0 {
        lemma_op_preserves_resolution(v, h, ops[0]);
        assert forall|i: int| 0 <= i < ops.skip(1).len() implies !removes_handle(
            #[trigger] ops.skip(1)[i],
            h,
        ) by {
            assert(ops.skip(1)[i] == ops[i + 1]);
        }
        lemma_handle_resolves_until_removed(apply_store_op(v, ops[0]), h, ops.skip(1));
    }
}

/// P1's negative half, over arbitrary operation sequences: a stale handle —
/// one whose slot serial has passed its own — never resolves again, even
/// when later additions reuse the slot.
pub proof fn lemma_stale_handle_stays_stale_over_ops<C>(
    v: Seq<ComponentBookkeeper<C>>,
    h: ComponentHandle<C>,
    ops: Seq<StoreOp<C>>,
)
    requires
        (h.id as int) < v.len(),
        v[h.id as int].serial > h.serial,
    ensures
        apply_store_ops(v, ops).len() == v.len(),
        apply_store_ops(v, ops)[h.id as int].serial > h.serial,
        !resolves(apply_store_ops(v, ops), h),
    decreases ops.len(),
{
    if ops.len() > 0 {
        lemma_op_serials_monotone(v, ops[0]);
        lemma_stale_handle_stays_stale_over_ops(apply_store_op(v, ops[0]), h, ops.skip(1));
    }
}

/// Handle safety, in one statement: for any sequence of store operations, a
/// live handle resolves until the matching removal, and never again after
/// it, even if the same slot is reused by a later addition.
pub proof fn lemma_handle_safety<C>(
    v: Seq<ComponentBookkeeper<C>>,
    h: ComponentHandle<C>,
    before: Seq<StoreOp<C>>,
    after: Seq<StoreOp<C>>,
)
    requires
        resolves(v, h),
        h.serial < u32::MAX,
        forall|i: int| 0 <= i < before.len() ==> !removes_handle(#[trigger] before[i], h),
    ensures
        resolves(apply_store_ops(v, before), h),
        !resolves(
            apply_store_ops(
                apply_store_op(apply_store_ops(v, before), StoreOp::Remove(h)),
                after,
            ),
            h,
        ),
{
    lemma_handle_resolves_until_removed(v, h, before);
    let v_live = apply_store_ops(v, before);
    let v_removed = apply_store_op(v_live, StoreOp::Remove(h));
    assert(v_removed[h.id as int].serial > h.serial);
    lemma_stale_handle_stays_stale_over_ops(v_removed, h, after);
}

/// The executable `add` performs exactly the modelled `Add` operation: the
/// handle its contract returns names the slot the model fills.
pub proof fn lemma_add_matches_op<C>(v: Seq<ComponentBookkeeper<C>>, c: C, h: ComponentHandle<C>)
    requires
        is_first_free(v, h.id as int),
        h.serial == v[h.id as int].serial,
    ensures
        apply_store_op(v, StoreOp::Add(c)) == v.update(
            h.id as int,
            ComponentBookkeeper { serial: h.serial, component: Some(c) },
        ),
{
    assert(has_free_slot(v));
    lemma_first_free_unique(v, first_free_slot(v), h.id as int);
}

/// Serial monotonicity composes across any sequence of operations: every
/// operation's contract guarantees it from state to state, and chaining
/// them covers a whole history of adds and removals.
pub proof fn lemma_serials_monotone_trans<C>(
    v1: Seq<ComponentBookkeeper<C>>,
    v2: Seq<ComponentBookkeeper<C>>,
    v3: Seq<ComponentBookkeeper<C>>,
)
    requires
        serials_monotone(v1, v2),
        serials_monotone(v2, v3),
    ensures
        serials_monotone(v1, v3),
{
}

/// Staleness is permanent: once a slot's serial has passed a handle's, no
/// later state whose serials have only grown can resolve that handle again,
/// whichever components were added to or removed from the store meanwhile.
pub proof fn lemma_stale_handle_never_resolves<C>(
    v_stale: Seq<ComponentBookkeeper<C>>,
    v_later: Seq<ComponentBookkeeper<C>>,
    h: ComponentHandle<C>,
)
    requires
        (h.id as int) < v_stale.len(),
        v_stale[h.id as int].serial > h.serial,
        serials_monotone(v_stale, v_later),
    ensures
        !resolves(v_later, h),
        find_spec(v_later, h) is None,
{
}

/// Removing a live component leaves its handle permanently stale: the slot's
/// serial strictly exceeds the handle's serial afterwards.
pub proof fn lemma_remove_makes_stale<C>(
    v_before: Seq<ComponentBookkeeper<C>>,
    v_after: Seq<ComponentBookkeeper<C>>,
    h: ComponentHandle<C>,
)
    requires
        resolves(v_before, h),
        h.serial < u32::MAX,
        v_after == v_before.update(
            h.id as int,
            ComponentBookkeeper::<C> { serial: (h.serial + 1) as u32, component: None },
        ),
    ensures
        v_after[h.id as int].serial > h.serial,
        !resolves(v_after, h),
{
}

/// A live handle stays resolved, with its payload untouched, by any
/// operation that only changes other slots.
pub proof fn lemma_unrelated_update_keeps_handle<C>(
    v: Seq<ComponentBookkeeper<C>>,
    h: ComponentHandle<C>,
    i: int,
    b: ComponentBookkeeper<C>,
)
    requires
        resolves(v, h),
        0 <= i < v.len(),
        i != h.id as int,
    ensures
        resolves(v.update(i, b), h),
        find_spec(v.update(i, b), h) == find_spec(v, h),
{
}

} // verus!
