use netsync::component::components::{EntityComponent, NoHandleEntityComponent};
use netsync::component::{ComponentStore, StoreError};
use netsync::math::{Quat, Vec3};
use netsync::network::delta::DeltaEncoder;
use netsync::network::handle_map::HandleMap;
use netsync::network::protocol::apply_update;
use netsync::network::{ComponentUpdate, ComponentUpdateType};

fn quat_identity() -> Quat {
    Quat { w: 4096, x: 0, y: 0, z: 0 }
}

fn spawn(store: &mut ComponentStore<EntityComponent>, x: i64) -> netsync::component::EntityHandle {
    EntityComponent::new(store, Vec3 { x, y: 0, z: 0 }, quat_identity()).unwrap()
}

fn move_entity(store: &mut ComponentStore<EntityComponent>, h: netsync::component::EntityHandle, x: i64) {
    let e = *store.find(h).unwrap();
    let moved = EntityComponent { handle: e.handle, pos: Vec3 { x, ..e.pos }, rot: e.rot };
    match store.find_mut(h) {
        Some(slot) => *slot = moved,
        None => panic!("entity vanished"),
    }
}

/// The receiver's picture of the world: applies updates through the handle
/// dictionary into its own store.
struct Receiver {
    dict: HandleMap<netsync::component::EntityHandle>,
    store: ComponentStore<EntityComponent>,
}

impl Receiver {
    fn new() -> Receiver {
        Receiver { dict: HandleMap::new(), store: ComponentStore::new() }
    }

    fn apply(&mut self, updates: &Vec<ComponentUpdate>) {
        apply_update(updates, &mut self.dict, &mut self.store).unwrap();
    }

    fn position_of(&self, wire: netsync::component::RawComponentHandle) -> Option<i64> {
        let local = self.dict.find(wire)?;
        self.store.find(local).map(|e| e.pos.x)
    }
}

#[test]
fn delta_carries_receiver_to_newest_snapshot() {
    let mut server = ComponentStore::new();
    let mut encoder = DeltaEncoder::new(8);

    let a = spawn(&mut server, 1);
    let b = spawn(&mut server, 10);
    encoder.add_state(&server); // S0: a=1, b=10

    move_entity(&mut server, a, 2);
    encoder.add_state(&server); // S1: a=2, b=10

    server.remove(b);
    move_entity(&mut server, a, 3);
    let c = spawn(&mut server, 100);
    encoder.add_state(&server); // S2: a=3, c=100 (c reuses b's slot)

    // A receiver that saw S0 needs a window of 2.
    let mut receiver = Receiver::new();
    let full = encoder.create_delta(99); // bootstrap with a full dump of S2... but first sync to S0
    // Build the S0 receiver by applying a full update computed when only S0 existed.
    let mut bootstrap_encoder = DeltaEncoder::new(8);
    let mut s0_server = ComponentStore::new();
    let a0 = spawn(&mut s0_server, 1);
    let b0 = spawn(&mut s0_server, 10);
    assert_eq!(a0.id, a.id);
    assert_eq!(b0.id, b.id);
    bootstrap_encoder.add_state(&s0_server);
    let s0_full = bootstrap_encoder.create_delta(5);
    receiver.apply(&s0_full);
    assert_eq!(receiver.position_of(a.to_raw()), Some(1));
    assert_eq!(receiver.position_of(b.to_raw()), Some(10));

    // The delta across the whole window reproduces exactly S2.
    let delta = encoder.create_delta(2);
    receiver.apply(&delta);
    assert_eq!(receiver.position_of(a.to_raw()), Some(3));
    assert_eq!(receiver.position_of(b.to_raw()), None);
    assert_eq!(receiver.position_of(c.to_raw()), Some(100));

    // And the full dump equals S2's live handles as changes.
    assert_eq!(full.len(), 2);
    for up in full.iter() {
        assert!(matches!(up.data, ComponentUpdateType::Change(_)));
    }
}

#[test]
fn window_of_one_covers_latest_pair() {
    let mut server = ComponentStore::new();
    let mut encoder = DeltaEncoder::new(8);
    let a = spawn(&mut server, 5);
    encoder.add_state(&server); // S0: a=5
    move_entity(&mut server, a, 6);
    encoder.add_state(&server); // S1: a=6

    let delta = encoder.create_delta(1);
    assert_eq!(delta.len(), 1);
    assert_eq!(delta[0].target, a.to_raw());
    match delta[0].data {
        ComponentUpdateType::Change(m) => assert_eq!(m.pos.x, 6),
        ComponentUpdateType::Destroy => panic!("expected a change"),
    }
}

#[test]
fn unchanged_entities_stay_out_of_the_delta() {
    let mut server = ComponentStore::new();
    let mut encoder = DeltaEncoder::new(8);
    let a = spawn(&mut server, 5);
    let _b = spawn(&mut server, 7);
    encoder.add_state(&server);
    move_entity(&mut server, a, 6);
    encoder.add_state(&server);

    let delta = encoder.create_delta(1);
    assert_eq!(delta.len(), 1);
    assert_eq!(delta[0].target, a.to_raw());
}

#[test]
fn window_beyond_history_promotes_to_full_update() {
    let mut server = ComponentStore::new();
    let mut encoder = DeltaEncoder::new(3);
    let a = spawn(&mut server, 1);
    encoder.add_state(&server);
    encoder.add_state(&server);
    encoder.add_state(&server);

    // Ring length is three; a window of three cannot be served as a delta.
    let updates = encoder.create_delta(3);
    assert_eq!(updates.len(), 1);
    assert_eq!(updates[0].target, a.to_raw());
    assert!(matches!(updates[0].data, ComponentUpdateType::Change(_)));
}

#[test]
fn ring_evicts_oldest_snapshot() {
    let mut server = ComponentStore::new();
    let mut encoder = DeltaEncoder::new(2);
    let a = spawn(&mut server, 1);
    encoder.add_state(&server); // evicted below
    move_entity(&mut server, a, 2);
    encoder.add_state(&server);
    move_entity(&mut server, a, 3);
    encoder.add_state(&server); // ring now holds x=3 (newest) and x=2

    // With only two snapshots retained, a window of two is already beyond
    // history and promotes to a full update.
    let updates = encoder.create_delta(2);
    assert_eq!(updates.len(), 1);
    assert!(matches!(updates[0].data, ComponentUpdateType::Change(m) if m.pos.x == 3));
}

#[test]
fn apply_change_for_unknown_handle_inserts() {
    let mut receiver = Receiver::new();
    let wire = netsync::component::RawComponentHandle { id: 7, serial: 3 };
    let m = NoHandleEntityComponent { pos: Vec3 { x: 42, y: 0, z: 0 }, rot: quat_identity() };
    let updates = vec![ComponentUpdate { target: wire, data: ComponentUpdateType::Change(m) }];
    receiver.apply(&updates);
    assert_eq!(receiver.position_of(wire), Some(42));
}

#[test]
fn apply_change_for_known_handle_overwrites() {
    let mut receiver = Receiver::new();
    let wire = netsync::component::RawComponentHandle { id: 7, serial: 3 };
    let m1 = NoHandleEntityComponent { pos: Vec3 { x: 1, y: 0, z: 0 }, rot: quat_identity() };
    let m2 = NoHandleEntityComponent { pos: Vec3 { x: 2, y: 0, z: 0 }, rot: quat_identity() };
    receiver.apply(&vec![ComponentUpdate { target: wire, data: ComponentUpdateType::Change(m1) }]);
    let local_before = receiver.dict.find(wire).unwrap();
    receiver.apply(&vec![ComponentUpdate { target: wire, data: ComponentUpdateType::Change(m2) }]);
    let local_after = receiver.dict.find(wire).unwrap();
    assert_eq!(local_before.id, local_after.id);
    assert_eq!(local_before.serial, local_after.serial);
    assert_eq!(receiver.position_of(wire), Some(2));
}

#[test]
fn apply_destroy_for_known_handle_removes_and_forgets() {
    let mut receiver = Receiver::new();
    let wire = netsync::component::RawComponentHandle { id: 7, serial: 3 };
    let m = NoHandleEntityComponent { pos: Vec3 { x: 1, y: 0, z: 0 }, rot: quat_identity() };
    receiver.apply(&vec![ComponentUpdate { target: wire, data: ComponentUpdateType::Change(m) }]);
    let local = receiver.dict.find(wire).unwrap();
    receiver.apply(&vec![ComponentUpdate { target: wire, data: ComponentUpdateType::Destroy }]);
    assert!(receiver.dict.find(wire).is_none());
    assert!(receiver.store.find(local).is_none());
}

#[test]
fn apply_destroy_for_unknown_handle_is_a_noop() {
    let mut receiver = Receiver::new();
    let wire = netsync::component::RawComponentHandle { id: 9, serial: 1 };
    receiver.apply(&vec![ComponentUpdate { target: wire, data: ComponentUpdateType::Destroy }]);
    assert!(receiver.dict.find(wire).is_none());
}

#[test]
fn apply_to_full_store_fails() {
    let mut dict = HandleMap::new();
    let mut store = ComponentStore::new();
    for _ in 0..netsync::component::STORE_CAPACITY {
        spawn(&mut store, 0);
    }
    let wire = netsync::component::RawComponentHandle { id: 0, serial: 99 };
    let m = NoHandleEntityComponent { pos: Vec3 { x: 1, y: 0, z: 0 }, rot: quat_identity() };
    let updates = vec![ComponentUpdate { target: wire, data: ComponentUpdateType::Change(m) }];
    assert_eq!(apply_update(&updates, &mut dict, &mut store), Err(StoreError::StoreFull));
}
