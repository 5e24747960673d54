//! Schedule building and execution: barriers, order independence, failure.

use antigen_core::schedule::{compatible_ops, Operation, Schedule, ScheduleOperationFailure};
use antigen_core::world::World;

const POS_X: u64 = 1;
const POS_Y: u64 = 2;
const VEL_X: u64 = 3;
const SUM: u64 = 100;
const FLAG: u64 = 101;

#[test]
fn builder_accepts_disjoint_writes() {
    let mut b = Schedule::builder();
    assert!(b.add_operation(Operation::SetComponent {
        component: POS_X,
        value: 1,
    }));
    assert!(b.add_operation(Operation::SetComponent {
        component: POS_Y,
        value: 2,
    }));
    assert!(b.add_operation(Operation::SetResource {
        resource: FLAG,
        value: 3,
    }));
}

#[test]
fn builder_rejects_write_write_conflict() {
    let mut b = Schedule::builder();
    assert!(b.add_operation(Operation::SetComponent {
        component: POS_X,
        value: 1,
    }));
    assert!(!b.add_operation(Operation::SetComponent {
        component: POS_X,
        value: 2,
    }));
    // After a barrier the same write is welcome again.
    b.flush();
    assert!(b.add_operation(Operation::SetComponent {
        component: POS_X,
        value: 2,
    }));
}

#[test]
fn builder_rejects_read_write_conflict() {
    let mut b = Schedule::builder();
    assert!(b.add_operation(Operation::SetComponent {
        component: VEL_X,
        value: 1,
    }));
    // Reads VEL_X, which the first operation writes.
    assert!(!b.add_operation(Operation::AddComponent {
        source: VEL_X,
        target: POS_X,
    }));
}

#[test]
fn compatible_ops_matches_tags() {
    let a = Operation::SetComponent {
        component: POS_X,
        value: 0,
    };
    let b = Operation::SumIntoResource {
        component: POS_X,
        resource: SUM,
    };
    // b reads what a writes.
    assert!(!compatible_ops(&a, &b));
    let c = Operation::SumIntoResource {
        component: POS_Y,
        resource: SUM,
    };
    assert!(compatible_ops(&a, &c));
}

fn one_entity_world() -> (World, u64) {
    let mut world = World::new();
    let e = world.create_entity();
    world.attach_component(e, POS_X, 0);
    (world, e)
}

#[test]
fn two_stage_position_into_sum() {
    let (mut world, e) = one_entity_world();
    world.insert_resource(SUM, 0);
    let mut b = Schedule::builder();
    b.add_operation(Operation::SetComponent {
        component: POS_X,
        value: 5,
    });
    b.flush();
    b.add_operation(Operation::SumIntoResource {
        component: POS_X,
        resource: SUM,
    });
    let schedule = b.build();
    schedule.execute(&mut world).unwrap();
    assert_eq!(world.get_component(e, POS_X), Some(5));
    assert_eq!(world.get_resource(SUM), Some(5));
}

#[test]
fn second_stage_observes_first_stage_writes() {
    let mut world = World::new();
    let e = world.create_entity();
    world.attach_component(e, POS_X, 0);
    world.attach_component(e, POS_Y, 0);
    let mut b = Schedule::builder();
    b.add_operation(Operation::SetComponent {
        component: POS_X,
        value: 7,
    });
    b.flush();
    // POS_Y accumulates POS_X: it must see 7, not the stale 0.
    b.add_operation(Operation::AddComponent {
        source: POS_X,
        target: POS_Y,
    });
    let schedule = b.build();
    schedule.execute(&mut world).unwrap();
    assert_eq!(world.get_component(e, POS_Y), Some(7));
}

#[test]
fn disjoint_operations_commute() {
    let run = |first: Operation, second: Operation| -> (Option<i64>, Option<i64>) {
        let (mut world, e) = one_entity_world();
        world.attach_component(e, POS_Y, 10);
        world.insert_resource(FLAG, 0);
        let mut b = Schedule::builder();
        assert!(b.add_operation(first));
        assert!(b.add_operation(second));
        let schedule = b.build();
        schedule.execute(&mut world).unwrap();
        (world.get_component(e, POS_X), world.get_resource(FLAG))
    };
    let a = Operation::SetComponent {
        component: POS_X,
        value: 42,
    };
    let b = Operation::SetResource {
        resource: FLAG,
        value: 9,
    };
    assert_eq!(run(a, b), run(b, a));
    assert_eq!(run(a, b), (Some(42), Some(9)));
}

#[test]
fn missing_resource_fails_operation() {
    let (mut world, e) = one_entity_world();
    let mut b = Schedule::builder();
    b.add_operation(Operation::SetComponent {
        component: POS_X,
        value: 3,
    });
    b.flush();
    // SUM was never inserted: the tick is abandoned at this operation.
    b.add_operation(Operation::SumIntoResource {
        component: POS_X,
        resource: SUM,
    });
    b.flush();
    b.add_operation(Operation::SetComponent {
        component: POS_X,
        value: 9,
    });
    let schedule = b.build();
    assert_eq!(schedule.execute(&mut world), Err(ScheduleOperationFailure));
    // The first stage's write survives; the stage after the failure never ran.
    assert_eq!(world.get_component(e, POS_X), Some(3));
}

#[test]
fn sum_wraps_like_the_component_arithmetic() {
    let mut world = World::new();
    let e1 = world.create_entity();
    let e2 = world.create_entity();
    world.attach_component(e1, POS_X, i64::MAX);
    world.attach_component(e2, POS_X, 1);
    world.insert_resource(SUM, 0);
    let mut b = Schedule::builder();
    b.add_operation(Operation::SumIntoResource {
        component: POS_X,
        resource: SUM,
    });
    let schedule = b.build();
    schedule.execute(&mut world).unwrap();
    assert_eq!(world.get_resource(SUM), Some(i64::MIN));
}

#[test]
fn add_component_skips_entities_missing_the_source() {
    let mut world = World::new();
    let with_both = world.create_entity();
    let target_only = world.create_entity();
    world.attach_component(with_both, VEL_X, 3);
    world.attach_component(with_both, POS_X, 10);
    world.attach_component(target_only, POS_X, 50);
    let mut b = Schedule::builder();
    b.add_operation(Operation::AddComponent {
        source: VEL_X,
        target: POS_X,
    });
    let schedule = b.build();
    schedule.execute(&mut world).unwrap();
    assert_eq!(world.get_component(with_both, POS_X), Some(13));
    assert_eq!(world.get_component(target_only, POS_X), Some(50));
}

#[test]
fn empty_schedule_runs_and_changes_nothing() {
    let (mut world, e) = one_entity_world();
    let schedule = Schedule::builder().build();
    schedule.execute(&mut world).unwrap();
    assert_eq!(world.get_component(e, POS_X), Some(0));
}
