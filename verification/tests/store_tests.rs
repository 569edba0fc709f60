use netsync::component::ComponentStore;
use netsync::component::StoreError;
use netsync::entity::ComponentStore as EntityComponentStore;
use netsync::entity::EntityStore;

struct TestStringComponent {
    name: String,
}

#[derive(Clone, Copy)]
struct TrivialComponent;

#[test]
fn smoke_componentstore() {
    let mut cstore = ComponentStore::new();
    let comp = cstore.add(TestStringComponent { name: "Hello, world!".to_string() }).unwrap();
    assert_eq!(cstore.find(comp).unwrap().name, "Hello, world!");
}

#[test]
fn component_removal() {
    let mut cstore = ComponentStore::new();
    let comp = cstore.add(TrivialComponent).unwrap();
    assert!(cstore.remove(comp));

    assert!(cstore.find(comp).is_none());
    assert!(cstore.iter().next().is_none());
    assert_eq!(cstore.remove(comp), false);

    // Now make sure serials do their job
    // and prevent an old handle from referencing a new component.
    let new_comp = cstore.add(TrivialComponent).unwrap();
    assert_eq!(new_comp.id, comp.id); // just checking
    assert!(cstore.find(comp).is_none());
}

#[test]
// Make sure the underlying storage does not grow if there is free space
fn component_leak_check() {
    let mut cstore = ComponentStore::new();

    let mut comp = cstore.add(TrivialComponent).unwrap();
    let first_len = cstore.capacity();

    for _ in 0..10000 {
        cstore.remove(comp);
        comp = cstore.add(TrivialComponent).unwrap();
    }

    assert_eq!(cstore.capacity(), first_len);
}

#[test]
fn mod_smoke_componentstore() {
    let mut cstore = EntityComponentStore::new();
    let mut estore = EntityStore::new();
    let ent = estore.create_entity();
    let comp = cstore.add_component(ent, TestStringComponent { name: "Hello, world!".to_string() }).unwrap();
    assert_eq!(cstore.find(comp).unwrap().payload.name, "Hello, world!");
}

#[test]
fn mod_component_removal() {
    let mut cstore = EntityComponentStore::new();
    let mut estore = EntityStore::new();
    let ent = estore.create_entity();
    let comp = cstore.add_component(ent, TrivialComponent).unwrap();
    assert!(cstore.remove(comp));

    assert!(cstore.find(comp).is_none());
    assert!(cstore.iter().next().is_none());
    assert_eq!(cstore.remove(comp), false);

    // Now make sure serials do their job
    // and prevent an old handle from referencing a new component.
    let new_comp = cstore.add_component(ent, TrivialComponent).unwrap();
    assert_eq!(new_comp.id, comp.id); // just checking
    assert!(cstore.find(comp).is_none());
}

#[test]
// Make sure the underlying storage does not grow if there is free space
fn mod_component_leak_check() {
    let mut cstore = EntityComponentStore::new();
    let mut estore = EntityStore::new();
    let ent = estore.create_entity();

    let mut comp = cstore.add_component(ent, TrivialComponent).unwrap();
    let first_len = cstore.capacity();

    for _ in 0..10000 {
        cstore.remove(comp);
        comp = cstore.add_component(ent, TrivialComponent).unwrap();
    }

    assert_eq!(cstore.capacity(), first_len);
}

#[test]
fn store_full_reports_error() {
    let mut cstore = ComponentStore::new();
    for _ in 0..netsync::component::STORE_CAPACITY {
        cstore.add(TrivialComponent).unwrap();
    }
    match cstore.add(TrivialComponent) {
        Err(e) => assert_eq!(e, StoreError::StoreFull),
        Ok(_) => panic!("a full store accepted a component"),
    }
}

#[test]
fn handle_survives_other_removals() {
    let mut cstore = ComponentStore::new();
    let a = cstore.add(1u64).unwrap();
    let b = cstore.add(2u64).unwrap();
    let c = cstore.add(3u64).unwrap();
    assert!(cstore.remove(b));
    assert_eq!(*cstore.find(a).unwrap(), 1);
    assert_eq!(*cstore.find(c).unwrap(), 3);
    assert!(cstore.find(b).is_none());
    // The freed slot is reused by the next add, with a new serial.
    let d = cstore.add(4u64).unwrap();
    assert_eq!(d.id, b.id);
    assert!(d.serial > b.serial);
    assert!(cstore.find(b).is_none());
    assert_eq!(*cstore.find(d).unwrap(), 4);
}

#[test]
fn iter_yields_live_handles_in_slot_order() {
    let mut cstore = ComponentStore::new();
    let a = cstore.add(10u64).unwrap();
    let b = cstore.add(20u64).unwrap();
    let c = cstore.add(30u64).unwrap();
    cstore.remove(b);
    let mut walk = cstore.iter();
    assert_eq!(walk.next().unwrap().id, a.id);
    assert_eq!(walk.next().unwrap().id, c.id);
    assert!(walk.next().is_none());
}

#[test]
fn serial_headroom_tracks_removals() {
    let mut cstore = ComponentStore::new();
    assert!(cstore.serial_headroom(1));
    let comp = cstore.add(TrivialComponent).unwrap();
    cstore.remove(comp);
    // One slot's serial is now 1: room for u32::MAX - 1 more removals
    // there, but not for u32::MAX.
    assert!(cstore.serial_headroom((u32::MAX - 1) as usize));
    assert!(!cstore.serial_headroom(u32::MAX as usize));
}

#[test]
fn entity_store_liveness() {
    let mut estore = EntityStore::new();
    let e0 = estore.create_entity();
    let e1 = estore.create_entity();
    assert!(estore.is_alive(e0));
    assert!(estore.is_alive(e1));
    estore.kill(e0);
    assert!(!estore.is_alive(e0));
    assert!(estore.is_alive(e1));
}

#[test]
fn test() {}
