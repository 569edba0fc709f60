use netsync::component::components::EntityComponent;
use netsync::component::ComponentStore;
use netsync::math::{rotate_vector, Quat, Vec3, QUAT_UNIT};
use netsync::network::delta::DeltaEncoder;
use netsync::physics::{simulate_tick, PhysicsComponent};
use netsync::playercmd::{run_command, ControllableComponent, PlayerCommand};
use netsync::prediction::Prediction;

fn quat_identity() -> Quat {
    Quat { w: QUAT_UNIT, x: 0, y: 0, z: 0 }
}

/// A half-turn about the z axis, exactly representable in fixed point.
fn quat_half_turn_z() -> Quat {
    Quat { w: 0, x: 0, y: 0, z: QUAT_UNIT }
}

fn cmd(tick: u64, angles: Quat, movement: Vec3) -> PlayerCommand {
    PlayerCommand { tick, angles, movement }
}

fn spawn(store: &mut ComponentStore<EntityComponent>, pos: Vec3) -> netsync::component::EntityHandle {
    EntityComponent::new(store, pos, quat_identity()).unwrap()
}

#[test]
fn rotation_by_identity_keeps_the_vector() {
    let v = Vec3 { x: 1000, y: -2000, z: 3000 };
    assert_eq!(rotate_vector(quat_identity(), v), v);
}

#[test]
fn rotation_by_half_turn_negates_x_and_y() {
    let v = Vec3 { x: 1000, y: 2000, z: 3000 };
    let r = rotate_vector(quat_half_turn_z(), v);
    assert_eq!(r, Vec3 { x: -1000, y: -2000, z: 3000 });
}

#[test]
fn run_command_moves_and_orients() {
    let mut ents = ComponentStore::new();
    let h = spawn(&mut ents, Vec3 { x: 10, y: 20, z: 30 });
    let mut ctl = ControllableComponent::new(h);
    let c = cmd(1, quat_half_turn_z(), Vec3 { x: 5, y: 0, z: 0 });
    run_command(c, &mut ctl, &mut ents);
    let e = ents.find(h).unwrap();
    // Movement is relative to the commanded orientation: x is mirrored.
    assert_eq!(e.pos, Vec3 { x: 5, y: 20, z: 30 });
    assert_eq!(e.rot, quat_half_turn_z());
}

#[test]
fn prediction_replays_deterministically() {
    // The same confirmed base and the same ordered command list always
    // yield the same predicted state.
    let mut base = ComponentStore::new();
    let h = spawn(&mut base, Vec3 { x: 0, y: 0, z: 0 });
    let commands = [
        cmd(1, quat_identity(), Vec3 { x: 1, y: 0, z: 0 }),
        cmd(2, quat_identity(), Vec3 { x: 0, y: 2, z: 0 }),
        cmd(3, quat_half_turn_z(), Vec3 { x: 4, y: 0, z: 0 }),
    ];

    let mut results: Vec<Vec3> = Vec::new();
    for _ in 0..2 {
        let mut prediction = Prediction::new(ControllableComponent::new(h));
        prediction.update(0, &base);
        for (i, c) in commands.iter().enumerate() {
            assert!(prediction.predict(*c, (i + 1) as u32));
        }
        let predicted = prediction.get_entities().unwrap();
        results.push(predicted.find(h).unwrap().pos);
    }
    assert_eq!(results[0], results[1]);
    // And the fold equals running the commands by hand.
    let mut by_hand = base.duplicate();
    let mut ctl = ControllableComponent::new(h);
    for c in commands.iter() {
        run_command(*c, &mut ctl, &mut by_hand);
    }
    assert_eq!(results[0], by_hand.find(h).unwrap().pos);
}

#[test]
fn reconciliation_scenario() {
    // The server retains three snapshots and stands at tick 4 while the
    // client has acknowledged only tick 1: the window equals the ring
    // length, so a full update is returned.
    let mut server = ComponentStore::new();
    let server_handle = spawn(&mut server, Vec3 { x: 0, y: 0, z: 0 });
    let mut encoder = DeltaEncoder::new(3);
    encoder.add_state(&server); // tick 2
    encoder.add_state(&server); // tick 3
    encoder.add_state(&server); // tick 4
    let window = 4 - 1;
    let updates = encoder.create_delta(window);
    assert_eq!(updates.len(), 1);
    assert!(matches!(
        updates[0].data,
        netsync::network::ComponentUpdateType::Change(_)
    ));
    assert_eq!(updates[0].target, server_handle.to_raw());

    // The client predicts ticks 2, 3 and 4 locally with commands C2, C3
    // and C4; the server then confirms tick 2 with authoritative state A2.
    let mut client = ComponentStore::new();
    let h = spawn(&mut client, Vec3 { x: 0, y: 0, z: 0 });
    let c2 = cmd(2, quat_identity(), Vec3 { x: 1, y: 0, z: 0 });
    let c3 = cmd(3, quat_identity(), Vec3 { x: 0, y: 10, z: 0 });
    let c4 = cmd(4, quat_identity(), Vec3 { x: 0, y: 0, z: 100 });

    let mut prediction = Prediction::new(ControllableComponent::new(h));
    prediction.update(1, &client);
    assert!(prediction.predict(c2, 2));
    assert!(prediction.predict(c3, 3));
    assert!(prediction.predict(c4, 4));

    let mut a2 = ComponentStore::new();
    let a2_handle = spawn(&mut a2, Vec3 { x: 7, y: 0, z: 0 });
    assert_eq!(a2_handle.id, h.id);
    prediction.update(2, &a2);

    // The predicted state at tick 4 is A2 with C3 and C4 replayed on top.
    let mut expected = a2.duplicate();
    let mut ctl = ControllableComponent::new(h);
    run_command(c3, &mut ctl, &mut expected);
    run_command(c4, &mut ctl, &mut expected);
    let predicted = prediction.get_entities().unwrap();
    assert_eq!(predicted.find(h).unwrap().pos, expected.find(h).unwrap().pos);
    assert_eq!(predicted.find(h).unwrap().pos, Vec3 { x: 7, y: 10, z: 100 });
}

#[test]
fn prediction_without_base_state_stays_empty() {
    let mut client = ComponentStore::new();
    let h = spawn(&mut client, Vec3 { x: 0, y: 0, z: 0 });
    let mut prediction = Prediction::new(ControllableComponent::new(h));
    assert!(prediction.get_entities().is_none());
    // Without a tracked base entry the command is refused and nothing is
    // recorded: a later authoritative update replays an empty history.
    assert!(!prediction.predict(cmd(1, quat_identity(), Vec3 { x: 1, y: 0, z: 0 }), 1));
    assert!(prediction.get_entities().is_none());
    prediction.update(0, &client);
    let predicted = prediction.get_entities().unwrap();
    assert_eq!(predicted.find(h).unwrap().pos, Vec3 { x: 0, y: 0, z: 0 });
}

#[test]
fn simulate_tick_integrates_velocity() {
    let mut entities = ComponentStore::new();
    let mut physics = ComponentStore::new();
    let e = spawn(&mut entities, Vec3 { x: 1, y: 2, z: 3 });
    let mut pc = PhysicsComponent::new(e);
    pc.velocity = Vec3 { x: 10, y: 0, z: -1 };
    physics.add(pc).unwrap();

    simulate_tick(&mut physics, &mut entities);
    assert_eq!(entities.find(e).unwrap().pos, Vec3 { x: 11, y: 2, z: 2 });
    simulate_tick(&mut physics, &mut entities);
    assert_eq!(entities.find(e).unwrap().pos, Vec3 { x: 21, y: 2, z: 1 });
}

#[test]
fn simulate_tick_drops_orphaned_physics() {
    let mut entities = ComponentStore::new();
    let mut physics = ComponentStore::new();
    let e = spawn(&mut entities, Vec3 { x: 0, y: 0, z: 0 });
    let p = physics.add(PhysicsComponent::new(e)).unwrap();

    entities.remove(e);
    simulate_tick(&mut physics, &mut entities);
    assert!(physics.find(p).is_none());
    assert!(physics.iter().next().is_none());
}
