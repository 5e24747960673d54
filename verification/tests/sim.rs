//! The simulation step end to end: response ingestion, schedule execution,
//! snapshot export and the stop flag.

use antigen_core::channel::open;
use antigen_core::resource::{
    DeviceCommand, DeviceManager, DeviceResponse, WindowCommand, WindowManager, WindowResponse,
};
use antigen_core::schedule::{Operation, Schedule};
use antigen_core::sim::{
    Simulation, RES_LAST_BUFFER, RES_LAST_SUBMISSION, RES_SURFACE_HEIGHT, RES_SURFACE_WIDTH,
};
use antigen_core::world::World;

const POS_X: u64 = 1;
const VEL_X: u64 = 2;
const SUM: u64 = 100;

fn motion_schedule() -> Schedule {
    let mut b = Schedule::builder();
    b.add_operation(Operation::AddComponent {
        source: VEL_X,
        target: POS_X,
    });
    b.flush();
    b.add_operation(Operation::SumIntoResource {
        component: POS_X,
        resource: SUM,
    });
    b.build()
}

#[test]
fn tick_integrates_motion_and_ingests_responses() {
    let mut world = World::new();
    let e = world.create_entity();
    world.attach_component(e, POS_X, 0);
    world.attach_component(e, VEL_X, 3);
    world.insert_resource(SUM, 0);

    let (win_req, mut win_resp) =
        open::<WindowCommand, WindowResponse, WindowManager>(WindowManager::new(640, 480));
    let (dev_req, mut dev_resp) =
        open::<DeviceCommand, DeviceResponse, DeviceManager>(DeviceManager::new());

    let mut sim = Simulation::new(world, motion_schedule(), win_req, dev_req);

    // The simulation queues commands; the owning threads service them at
    // their own pace (here: the same thread, between ticks).
    sim.send_window_command(WindowCommand::Resize {
        width: 1920,
        height: 1080,
    })
    .unwrap();
    sim.send_device_command(DeviceCommand::CreateBuffer { size: 64 })
        .unwrap();
    sim.send_device_command(DeviceCommand::SubmitCommandBuffer)
        .unwrap();
    assert_eq!(win_resp.drain_and_apply(), 1);
    assert_eq!(dev_resp.drain_and_apply(), 2);

    let (snapshot, stop) = sim.tick_step(16_000_000, false).unwrap();
    assert!(!stop);

    // The owners' acknowledgements landed in the resource side-table.
    assert_eq!(sim.world().get_resource(RES_SURFACE_WIDTH), Some(1920));
    assert_eq!(sim.world().get_resource(RES_SURFACE_HEIGHT), Some(1080));
    assert_eq!(sim.world().get_resource(RES_LAST_BUFFER), Some(0));
    assert_eq!(sim.world().get_resource(RES_LAST_SUBMISSION), Some(0));

    // The schedule integrated one step of motion and summed the result.
    assert_eq!(sim.world().get_component(e, POS_X), Some(3));
    assert_eq!(sim.world().get_resource(SUM), Some(3));

    // The snapshot summarizes the post-tick store.
    assert_eq!(snapshot.entities, 1);
    assert_eq!(snapshot.components, 2);
    assert_eq!(snapshot.resources, 5);
    assert_eq!(snapshot.timing.delta_ns, 16_000_000);
    assert_eq!(snapshot.timing.elapsed_ns, 16_000_000);
}

#[test]
fn two_ticks_accumulate_timing_and_motion() {
    let mut world = World::new();
    let e = world.create_entity();
    world.attach_component(e, POS_X, 0);
    world.attach_component(e, VEL_X, 5);
    world.insert_resource(SUM, 0);
    let (win_req, _win_resp) =
        open::<WindowCommand, WindowResponse, WindowManager>(WindowManager::new(1, 1));
    let (dev_req, _dev_resp) =
        open::<DeviceCommand, DeviceResponse, DeviceManager>(DeviceManager::new());
    let mut sim = Simulation::new(world, motion_schedule(), win_req, dev_req);

    sim.tick_step(16_000_000, false).unwrap();
    let (snapshot, _) = sim.tick_step(16_000_000, false).unwrap();
    assert_eq!(sim.world().get_component(e, POS_X), Some(10));
    assert_eq!(sim.world().get_resource(SUM), Some(10));
    assert_eq!(snapshot.timing.delta_ns, 16_000_000);
    assert_eq!(snapshot.timing.elapsed_ns, 32_000_000);
}

#[test]
fn stop_flag_passes_through_the_step() {
    let world = World::new();
    let (win_req, _win_resp) =
        open::<WindowCommand, WindowResponse, WindowManager>(WindowManager::new(1, 1));
    let (dev_req, _dev_resp) =
        open::<DeviceCommand, DeviceResponse, DeviceManager>(DeviceManager::new());
    let mut sim = Simulation::new(world, Schedule::builder().build(), win_req, dev_req);
    let (_, stop) = sim.tick_step(1, true).unwrap();
    assert!(stop);
    let (_, go_on) = sim.tick_step(1, false).unwrap();
    assert!(!go_on);
}

#[test]
fn failed_tick_reports_and_preserves_the_store() {
    let mut world = World::new();
    let e = world.create_entity();
    world.attach_component(e, POS_X, 1);
    // SUM missing: the schedule's second stage must fail.
    let (win_req, _win_resp) =
        open::<WindowCommand, WindowResponse, WindowManager>(WindowManager::new(1, 1));
    let (dev_req, _dev_resp) =
        open::<DeviceCommand, DeviceResponse, DeviceManager>(DeviceManager::new());
    let mut sim = Simulation::new(world, motion_schedule(), win_req, dev_req);
    assert!(sim.tick_step(1, false).is_err());
    // Safe to read, not fully updated: the first stage had no velocity to
    // integrate, so the position still reads back.
    assert_eq!(sim.world().get_component(e, POS_X), Some(1));
}
