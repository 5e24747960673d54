//! World Store semantics: entities, components, resources, timing.

use antigen_core::model::Timing;
use antigen_core::world::World;

const HEALTH: u64 = 1;
const MANA: u64 = 2;
const SCORE: u64 = 50;

#[test]
fn fresh_world_is_empty() {
    let world = World::new();
    let snap = world.snapshot();
    assert_eq!(snap.entities, 0);
    assert_eq!(snap.components, 0);
    assert_eq!(snap.resources, 0);
    assert_eq!(
        snap.timing,
        Timing {
            delta_ns: 0,
            elapsed_ns: 0,
        }
    );
}

#[test]
fn entity_identifiers_are_never_reused() {
    let mut world = World::new();
    let e0 = world.create_entity();
    let e1 = world.create_entity();
    assert_ne!(e0, e1);
    world.destroy_entity(e0);
    let e2 = world.create_entity();
    assert_ne!(e2, e0);
    assert_ne!(e2, e1);
}

#[test]
fn attach_and_get_component() {
    let mut world = World::new();
    let e = world.create_entity();
    assert_eq!(world.get_component(e, HEALTH), None);
    assert!(world.attach_component(e, HEALTH, 100));
    assert_eq!(world.get_component(e, HEALTH), Some(100));
    // Attaching again overwrites.
    assert!(world.attach_component(e, HEALTH, 75));
    assert_eq!(world.get_component(e, HEALTH), Some(75));
    assert_eq!(world.snapshot().components, 1);
}

#[test]
fn attach_to_dead_entity_is_refused() {
    let mut world = World::new();
    let e = world.create_entity();
    world.destroy_entity(e);
    assert!(!world.attach_component(e, HEALTH, 1));
    assert_eq!(world.get_component(e, HEALTH), None);
    assert!(!world.attach_component(9999, HEALTH, 1));
}

#[test]
fn detach_component_removes_exactly_one_cell() {
    let mut world = World::new();
    let e = world.create_entity();
    world.attach_component(e, HEALTH, 10);
    world.attach_component(e, MANA, 20);
    assert!(world.detach_component(e, HEALTH));
    assert!(!world.detach_component(e, HEALTH));
    assert_eq!(world.get_component(e, HEALTH), None);
    assert_eq!(world.get_component(e, MANA), Some(20));
}

#[test]
fn destroy_entity_removes_its_components() {
    let mut world = World::new();
    let keep = world.create_entity();
    let gone = world.create_entity();
    world.attach_component(keep, HEALTH, 1);
    world.attach_component(gone, HEALTH, 2);
    world.attach_component(gone, MANA, 3);
    world.destroy_entity(gone);
    assert!(!world.has_entity(gone));
    assert!(world.has_entity(keep));
    assert_eq!(world.get_component(gone, HEALTH), None);
    assert_eq!(world.get_component(keep, HEALTH), Some(1));
    assert_eq!(world.snapshot().components, 1);
}

#[test]
fn resources_insert_and_overwrite() {
    let mut world = World::new();
    assert_eq!(world.get_resource(SCORE), None);
    assert!(!world.has_resource(SCORE));
    world.insert_resource(SCORE, -5);
    assert_eq!(world.get_resource(SCORE), Some(-5));
    world.insert_resource(SCORE, 12);
    assert_eq!(world.get_resource(SCORE), Some(12));
    assert_eq!(world.snapshot().resources, 1);
}

#[test]
fn timing_accumulates_and_saturates() {
    let mut world = World::new();
    world.update_timing(16_000_000);
    assert_eq!(
        world.timing(),
        Timing {
            delta_ns: 16_000_000,
            elapsed_ns: 16_000_000,
        }
    );
    world.update_timing(4_000_000);
    assert_eq!(
        world.timing(),
        Timing {
            delta_ns: 4_000_000,
            elapsed_ns: 20_000_000,
        }
    );
    world.update_timing(u64::MAX);
    assert_eq!(world.timing().elapsed_ns, u64::MAX);
    world.update_timing(1);
    assert_eq!(world.timing().elapsed_ns, u64::MAX);
    assert_eq!(world.timing().delta_ns, 1);
}

#[test]
fn components_are_per_entity() {
    let mut world = World::new();
    let a = world.create_entity();
    let b = world.create_entity();
    world.attach_component(a, HEALTH, 1);
    world.attach_component(b, HEALTH, 2);
    assert_eq!(world.get_component(a, HEALTH), Some(1));
    assert_eq!(world.get_component(b, HEALTH), Some(2));
}
