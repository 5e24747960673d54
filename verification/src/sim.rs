//! The simulation thread's per-tick step: drain remote responses into the
//! World Store, execute the schedule, export a snapshot, report the stop
//! flag.
//!
//! The thread that runs this owns the `Simulation` for the whole tick (the
//! caller holds whatever lock guards the store across threads and releases
//! it between ticks); the window and device subsystems are reached only
//! through their Remote Channel requesters, so neither owning thread is
//! ever blocked on the simulation.

use crate::channel::{Requester, ResourceResponse};
use crate::model::{res_upsert, timing_advance, WorldModel};
use crate::resource::{DeviceCommand, DeviceResponse, WindowCommand, WindowResponse};
use crate::schedule::{run_stages, Operation, Schedule, ScheduleOperationFailure};
use crate::world::{World, WorldSnapshot};
use crate::ChannelClosed;
use vstd::prelude::*;

verus! {

/// Reserved resource tag: the surface width last acknowledged by the window
/// subsystem.  User component and resource tags should stay below the
/// reserved range.
pub const RES_SURFACE_WIDTH: u64 = 0xffff_ffff_0000_0001;

/// Reserved resource tag: the surface height last acknowledged by the
/// window subsystem.
pub const RES_SURFACE_HEIGHT: u64 = 0xffff_ffff_0000_0002;

/// Reserved resource tag: the buffer handle most recently created by the
/// graphics device.
pub const RES_LAST_BUFFER: u64 = 0xffff_ffff_0000_0003;

/// Reserved resource tag: the submission index most recently completed by
/// the graphics device.
pub const RES_LAST_SUBMISSION: u64 = 0xffff_ffff_0000_0004;

/// A u64 identifier stored into an i64-valued resource cell, saturating at
/// the largest representable value.
pub open spec fn id_as_value(v: u64) -> i64 {
    if v <= i64::MAX as u64 {
        v as i64
    } else {
        i64::MAX
    }
}

/// How one drained window response lands in the store: a resize
/// acknowledgement records the dimensions now in force; a rejection during
/// shutdown changes nothing.
pub open spec fn ingest_window_response(
    w: WorldModel,
    r: ResourceResponse<WindowResponse>,
) -> WorldModel {
    match r {
        ResourceResponse::Applied(WindowResponse::Resized { width, height }) => WorldModel {
            entities: w.entities,
            next_entity: w.next_entity,
            components: w.components,
            resources: res_upsert(
                res_upsert(w.resources, RES_SURFACE_WIDTH, width as i64),
                RES_SURFACE_HEIGHT,
                height as i64,
            ),
            timing: w.timing,
        },
        ResourceResponse::Rejected => w,
    }
}

/// Window responses land in the store in the order the owner produced them.
pub open spec fn ingest_window(w: WorldModel, rs: Seq<ResourceResponse<WindowResponse>>) -> WorldModel
    decreases rs.len(),
{
    if rs.len() <= 0 {
        w
    } else {
        ingest_window(ingest_window_response(w, rs[0]), rs.drop_first())
    }
}

/// How one drained device response lands in the store.
pub open spec fn ingest_device_response(
    w: WorldModel,
    r: ResourceResponse<DeviceResponse>,
) -> WorldModel {
    match r {
        ResourceResponse::Applied(DeviceResponse::BufferCreated { buffer }) => WorldModel {
            entities: w.entities,
            next_entity: w.next_entity,
            components: w.components,
            resources: res_upsert(w.resources, RES_LAST_BUFFER, id_as_value(buffer)),
            timing: w.timing,
        },
        ResourceResponse::Applied(DeviceResponse::Submitted { index }) => WorldModel {
            entities: w.entities,
            next_entity: w.next_entity,
            components: w.components,
            resources: res_upsert(w.resources, RES_LAST_SUBMISSION, id_as_value(index)),
            timing: w.timing,
        },
        ResourceResponse::Rejected => w,
    }
}

/// Device responses land in the store in the order the owner produced them.
pub open spec fn ingest_device(w: WorldModel, rs: Seq<ResourceResponse<DeviceResponse>>) -> WorldModel
    decreases rs.len(),
{
    if rs.len() <= 0 {
        w
    } else {
        ingest_device(ingest_device_response(w, rs[0]), rs.drop_first())
    }
}

/// Ingesting one more window response applies it to the store the batch
/// before it produced.
proof fn lemma_ingest_window_snoc(
    w: WorldModel,
    rs: Seq<ResourceResponse<WindowResponse>>,
    r: ResourceResponse<WindowResponse>,
)
    ensures
        ingest_window(w, rs.push(r)) == ingest_window_response(ingest_window(w, rs), r),
    decreases rs.len(),
{
    if rs.len() <= 0 {
        assert(rs.push(r)[0] == r);
        assert(rs.push(r).drop_first() =~= Seq::<ResourceResponse<WindowResponse>>::empty());
        assert(ingest_window(ingest_window_response(w, r), Seq::empty())
            == ingest_window_response(w, r));
    } else {
        assert(rs.push(r)[0] == rs[0]);
        assert(rs.push(r).drop_first() =~= rs.drop_first().push(r));
        lemma_ingest_window_snoc(ingest_window_response(w, rs[0]), rs.drop_first(), r);
    }
}

/// Ingesting one more device response applies it to the store the batch
/// before it produced.
proof fn lemma_ingest_device_snoc(
    w: WorldModel,
    rs: Seq<ResourceResponse<DeviceResponse>>,
    r: ResourceResponse<DeviceResponse>,
)
    ensures
        ingest_device(w, rs.push(r)) == ingest_device_response(ingest_device(w, rs), r),
    decreases rs.len(),
{
    if rs.len() <= 0 {
        assert(rs.push(r)[0] == r);
        assert(rs.push(r).drop_first() =~= Seq::<ResourceResponse<DeviceResponse>>::empty());
        assert(ingest_device(ingest_device_response(w, r), Seq::empty())
            == ingest_device_response(w, r));
    } else {
        assert(rs.push(r)[0] == rs[0]);
        assert(rs.push(r).drop_first() =~= rs.drop_first().push(r));
        lemma_ingest_device_snoc(ingest_device_response(w, rs[0]), rs.drop_first(), r);
    }
}

/// What one tick leaves behind, given what the two owning threads had
/// pushed back: timing refreshed, the drained window and device responses
/// ingested in order, then the schedule run against the result.
pub open spec fn tick_outcome(
    w: WorldModel,
    sched: Seq<Seq<Operation>>,
    delta_ns: u64,
    ws: Seq<ResourceResponse<WindowResponse>>,
    ds: Seq<ResourceResponse<DeviceResponse>>,
) -> (WorldModel, bool) {
    let w0 = WorldModel {
        entities: w.entities,
        next_entity: w.next_entity,
        components: w.components,
        resources: w.resources,
        timing: timing_advance(w.timing, delta_ns),
    };
    run_stages(ingest_device(ingest_window(w0, ws), ds), sched)
}

/// The simulation thread's bundle: the store it owns, the schedule it runs
/// every tick, and the requesters of the two thread-owned resources.
pub struct Simulation {
    world: World,
    schedule: Schedule,
    window: Requester<WindowCommand, WindowResponse>,
    device: Requester<DeviceCommand, DeviceResponse>,
}

impl Simulation {
    /// The store as the simulation holds it.
    pub closed spec fn world_model(self) -> WorldModel {
        self.world@
    }

    /// The schedule run every tick.
    pub closed spec fn schedule_view(self) -> Seq<Seq<Operation>> {
        self.schedule@
    }

    /// Assemble a simulation from an initialized store, a built schedule
    /// and the requesters of the window and device subsystems.
    pub fn new(
        world: World,
        schedule: Schedule,
        window: Requester<WindowCommand, WindowResponse>,
        device: Requester<DeviceCommand, DeviceResponse>,
    ) -> (s: Simulation)
        ensures
            s.world_model() == world@,
            s.schedule_view() == schedule@,
    {
        Simulation { world, schedule, window, device }
    }

    /// Read the store, e.g. to inspect a component between ticks.
    pub fn world(&self) -> (w: &World)
        ensures
            w@ == self.world_model(),
    {
        &self.world
    }

    /// Queue a command to the window subsystem; never blocks.
    pub fn send_window_command(&self, c: WindowCommand) -> (r: Result<(), ChannelClosed>)
        ensures
            r matches Err(e) ==> e == ChannelClosed,
    {
        self.window.send(c)
    }

    /// Queue a command to the graphics device; never blocks.
    pub fn send_device_command(&self, c: DeviceCommand) -> (r: Result<(), ChannelClosed>)
        ensures
            r matches Err(e) ==> e == ChannelClosed,
    {
        self.device.send(c)
    }

    /// One tick of the simulation thread, run while the caller holds the
    /// store: refresh timing, drain the responses both owning threads have
    /// pushed since the last tick into the store, execute the schedule, and
    /// hand back a read-only snapshot together with the stop flag the
    /// caller observed.  A failing operation abandons the tick
    /// ([`ScheduleOperationFailure`]): the store is safe to read but not
    /// fully updated.
    pub fn tick_step(&mut self, delta_ns: u64, stop_requested: bool) -> (r: Result<
        (WorldSnapshot, bool),
        ScheduleOperationFailure,
    >)
        requires
            old(self).world_model().wf(),
        ensures
            final(self).schedule_view() == old(self).schedule_view(),
            final(self).world_model().wf(),
            exists|ws: Seq<ResourceResponse<WindowResponse>>, ds: Seq<
                ResourceResponse<DeviceResponse>,
            >|
                {
                    let run = #[trigger] tick_outcome(
                        old(self).world_model(),
                        old(self).schedule_view(),
                        delta_ns,
                        ws,
                        ds,
                    );
                    final(self).world_model() == run.0 && ((r is Ok) == run.1)
                },
            r matches Ok(p) ==> ({
                let fw = final(self).world_model();
                &&& p.1 == stop_requested
                &&& p.0.entities == fw.entities.len()
                &&& p.0.components == fw.components.len()
                &&& p.0.resources == fw.resources.len()
                &&& p.0.timing == fw.timing
            }),
    {
        self.world.update_timing(delta_ns);
        let ghost w0 = self.world@;
        let wresps = self.window.try_recv_responses();
        let ghost ws = wresps@;
        let wn = wresps.len();
        let mut i: usize = 0;
        while i < wn
            invariant
                i <= wn,
                wn == ws.len(),
                wresps@ == ws,
                self.world@.wf(),
                self.world@ == ingest_window(w0, ws.take(i as int)),
                self.schedule == old(self).schedule,
            decreases wn - i,
        {
            let resp = wresps[i];
            proof {
                assert(ws.take(i + 1) =~= ws.take(i as int).push(ws[i as int]));
                lemma_ingest_window_snoc(w0, ws.take(i as int), ws[i as int]);
            }
            match resp {
                ResourceResponse::Applied(WindowResponse::Resized { width, height }) => {
                    self.world.insert_resource(RES_SURFACE_WIDTH, width as i64);
                    self.world.insert_resource(RES_SURFACE_HEIGHT, height as i64);
                },
                ResourceResponse::Rejected => {},
            }
            i += 1;
        }
        proof {
            assert(ws.take(wn as int) =~= ws);
        }
        let ghost wmid = self.world@;
        let dresps = self.device.try_recv_responses();
        let ghost ds = dresps@;
        let dn = dresps.len();
        let mut j: usize = 0;
        while j < dn
            invariant
                j <= dn,
                dn == ds.len(),
                dresps@ == ds,
                self.world@.wf(),
                self.world@ == ingest_device(wmid, ds.take(j as int)),
                self.schedule == old(self).schedule,
            decreases dn - j,
        {
            let resp = dresps[j];
            proof {
                assert(ds.take(j + 1) =~= ds.take(j as int).push(ds[j as int]));
                lemma_ingest_device_snoc(wmid, ds.take(j as int), ds[j as int]);
            }
            match resp {
                ResourceResponse::Applied(DeviceResponse::BufferCreated { buffer }) => {
                    let value = if buffer <= 0x7fff_ffff_ffff_ffff {
                        buffer as i64
                    } else {
                        i64::MAX
                    };
                    self.world.insert_resource(RES_LAST_BUFFER, value);
                },
                ResourceResponse::Applied(DeviceResponse::Submitted { index }) => {
                    let value = if index <= 0x7fff_ffff_ffff_ffff {
                        index as i64
                    } else {
                        i64::MAX
                    };
                    self.world.insert_resource(RES_LAST_SUBMISSION, value);
                },
                ResourceResponse::Rejected => {},
            }
            j += 1;
        }
        proof {
            assert(ds.take(dn as int) =~= ds);
        }
        let ghost pre_exec = self.world@;
        let outcome = self.schedule.execute(&mut self.world);
        proof {
            let om = old(self).world_model();
            assert(w0 =~= WorldModel {
                entities: om.entities,
                next_entity: om.next_entity,
                components: om.components,
                resources: om.resources,
                timing: timing_advance(om.timing, delta_ns),
            });
            assert(ingest_window(w0, ws) == wmid);
            assert(ingest_device(wmid, ds) == pre_exec);
            assert(tick_outcome(om, old(self).schedule_view(), delta_ns, ws, ds) == run_stages(
                pre_exec,
                old(self).schedule_view(),
            ));
            assert(tick_outcome(om, old(self).schedule_view(), delta_ns, ws, ds).0
                == self.world@);
            assert(tick_outcome(om, old(self).schedule_view(), delta_ns, ws, ds).1 == (
            outcome is Ok));
        }
        match outcome {
            Result::Ok(()) => Result::Ok((self.world.snapshot(), stop_requested)),
            Result::Err(e) => Result::Err(e),
        }
    }
}

} // verus!
