//! Schedule / stage / barrier executor.
//!
//! A schedule is an ordered list of stages, built once at startup and reused
//! every tick.  A stage is a set of operations with declared read and write
//! sets; the builder refuses an operation whose accesses conflict with one
//! already in the current stage, which is exactly what makes the operations
//! of one stage order-independent (proved here as
//! [`lemma_ops_commute`]).  A `flush` closes the current stage with a
//! barrier: all writes of the stage are visible to the next stage and to
//! nothing earlier.

use crate::model::{
    add_comp_effect, lemma_comp_value_agree, lemma_res_index_agree, lemma_sum_agree,
    res_update_effect, res_value, set_comp_effect, sum_comp, WorldModel,
};
use crate::world::World;
use vstd::prelude::*;

verus! {

/// Fatal for the current tick: an operation within a stage failed (it wrote
/// a singleton resource that was never inserted).  The whole tick's schedule
/// execution is abandoned; the store stays consistent but not fully updated.
#[derive(Clone, Copy, Debug, PartialEq, Eq, Structural)]
pub struct ScheduleOperationFailure;

/// One data-parallel operation over the World Store.  Each operation visits
/// the entities carrying its required component tags; its read and write
/// sets are derived from the tags at schedule-build time.
#[derive(Clone, Copy, Debug, PartialEq, Eq, Structural)]
pub enum Operation {
    /// Overwrite component `component` with `value` on every entity carrying
    /// it.
    SetComponent { component: u64, value: i64 },
    /// On every entity carrying both, accumulate `source` into `target`
    /// (wrapping).
    AddComponent { source: u64, target: u64 },
    /// Overwrite resource `resource` with the wrapping sum of `component`
    /// over all entities carrying it.
    SumIntoResource { component: u64, resource: u64 },
    /// Overwrite resource `resource` with `value`.
    SetResource { resource: u64, value: i64 },
}

/// A component tag or a singleton-resource tag, the currency of read/write
/// sets.  Singleton resources follow the same shared-read / exclusive-write
/// rules as components.
#[derive(Clone, Copy, Debug, PartialEq, Eq, Structural)]
pub enum Access {
    Component(u64),
    Resource(u64),
}

impl Operation {
    /// The tags whose values the operation reads.
    pub open spec fn reads(self) -> Set<Access> {
        match self {
            Operation::SetComponent { .. } => Set::empty(),
            Operation::AddComponent { source, target } => Set::empty().insert(
                Access::Component(source),
            ).insert(Access::Component(target)),
            Operation::SumIntoResource { component, .. } => Set::empty().insert(
                Access::Component(component),
            ),
            Operation::SetResource { .. } => Set::empty(),
        }
    }

    /// The single tag the operation writes.
    pub open spec fn write(self) -> Access {
        match self {
            Operation::SetComponent { component, .. } => Access::Component(component),
            Operation::AddComponent { target, .. } => Access::Component(target),
            Operation::SumIntoResource { resource, .. } => Access::Resource(resource),
            Operation::SetResource { resource, .. } => Access::Resource(resource),
        }
    }

    /// Whether the operation can be applied to `w`: writing a singleton
    /// resource requires its cell to have been inserted.
    pub open spec fn allowed(self, w: WorldModel) -> bool {
        match self {
            Operation::SumIntoResource { resource, .. } => res_value(w.resources, resource) is Some,
            Operation::SetResource { resource, .. } => res_value(w.resources, resource) is Some,
            _ => true,
        }
    }

    /// The operation's effect on the world model.
    pub open spec fn apply(self, w: WorldModel) -> WorldModel {
        match self {
            Operation::SetComponent { component, value } => WorldModel {
                entities: w.entities,
                next_entity: w.next_entity,
                components: set_comp_effect(w.components, component, value),
                resources: w.resources,
                timing: w.timing,
            },
            Operation::AddComponent { source, target } => WorldModel {
                entities: w.entities,
                next_entity: w.next_entity,
                components: add_comp_effect(w.components, source, target),
                resources: w.resources,
                timing: w.timing,
            },
            Operation::SumIntoResource { component, resource } => WorldModel {
                entities: w.entities,
                next_entity: w.next_entity,
                components: w.components,
                resources: res_update_effect(
                    w.resources,
                    resource,
                    sum_comp(w.components, component),
                ),
                timing: w.timing,
            },
            Operation::SetResource { resource, value } => WorldModel {
                entities: w.entities,
                next_entity: w.next_entity,
                components: w.components,
                resources: res_update_effect(w.resources, resource, value),
                timing: w.timing,
            },
        }
    }
}

/// Two operations may share a stage exactly when neither writes what the
/// other reads or writes.
pub open spec fn compatible(a: Operation, b: Operation) -> bool {
    &&& a.write() != b.write()
    &&& !a.reads().contains(b.write())
    &&& !b.reads().contains(a.write())
}

/// A stage is internally conflict-free: its operations are pairwise
/// compatible.
pub open spec fn stage_wf(ops: Seq<Operation>) -> bool {
    forall|i: int, j: int| 0 <= i < j < ops.len() ==> compatible(ops[i], ops[j])
}

/// Every stage of the schedule is internally conflict-free.
pub open spec fn sched_wf(stages: Seq<Seq<Operation>>) -> bool {
    forall|i: int| 0 <= i < stages.len() ==> stage_wf(#[trigger] stages[i])
}

/// Run the operations of one stage in declaration order, stopping at the
/// first operation that is not allowed.  Returns the resulting world and
/// whether every operation was applied.
pub open spec fn run_ops(w: WorldModel, ops: Seq<Operation>) -> (WorldModel, bool)
    decreases ops.len(),
{
    if ops.len() <= 0 {
        (w, true)
    } else if !ops[0].allowed(w) {
        (w, false)
    } else {
        run_ops(ops[0].apply(w), ops.drop_first())
    }
}

/// Run the stages in declaration order, each against the world its
/// predecessor produced; a failing stage abandons the rest of the schedule.
pub open spec fn run_stages(w: WorldModel, stages: Seq<Seq<Operation>>) -> (WorldModel, bool)
    decreases stages.len(),
{
    if stages.len() <= 0 {
        (w, true)
    } else {
        let first = run_ops(w, stages[0]);
        if !first.1 {
            (first.0, false)
        } else {
            run_stages(first.0, stages.drop_first())
        }
    }
}

/// Two stores with the same entities and the same component and resource
/// keys, cell for cell; only values may differ.
pub open spec fn same_shape(w1: WorldModel, w2: WorldModel) -> bool {
    &&& w1.entities == w2.entities
    &&& w1.components.len() == w2.components.len()
    &&& forall|i: int|
        0 <= i < w1.components.len() ==> (#[trigger] w1.components[i]).entity
            == w2.components[i].entity && w1.components[i].component == w2.components[i].component
    &&& w1.resources.len() == w2.resources.len()
    &&& forall|i: int|
        0 <= i < w1.resources.len() ==> (#[trigger] w1.resources[i]).resource
            == w2.resources[i].resource
}

/// An operation only rewrites values under its single write tag: entities,
/// timing and every cell key survive, and any cell outside the write tag is
/// untouched.
pub proof fn lemma_apply_structure(w: WorldModel, op: Operation)
    ensures
        op.apply(w).entities == w.entities,
        op.apply(w).next_entity == w.next_entity,
        op.apply(w).timing == w.timing,
        op.apply(w).components.len() == w.components.len(),
        forall|i: int|
            0 <= i < w.components.len() ==> (#[trigger] op.apply(w).components[i]).entity
                == w.components[i].entity && op.apply(w).components[i].component
                == w.components[i].component,
        forall|i: int|
            0 <= i < w.components.len() && op.write() != Access::Component(
                #[trigger] w.components[i].component,
            ) ==> op.apply(w).components[i] == w.components[i],
        op.apply(w).resources.len() == w.resources.len(),
        forall|i: int|
            0 <= i < w.resources.len() ==> (#[trigger] op.apply(w).resources[i]).resource
                == w.resources[i].resource,
        forall|i: int|
            0 <= i < w.resources.len() && op.write() != Access::Resource(
                #[trigger] w.resources[i].resource,
            ) ==> op.apply(w).resources[i] == w.resources[i],
        same_shape(w, op.apply(w)),
{
}

/// What an operation writes depends only on what it reads: two stores of the
/// same shape that agree on the values under the operation's read tags get
/// identical cells written under its write tag.
pub proof fn lemma_apply_reads(w1: WorldModel, w2: WorldModel, op: Operation)
    requires
        same_shape(w1, w2),
        forall|i: int|
            0 <= i < w1.components.len() && op.reads().contains(
                Access::Component(#[trigger] w1.components[i].component),
            ) ==> w1.components[i].value == w2.components[i].value,
    ensures
        forall|i: int|
            0 <= i < w1.components.len() && op.write() == Access::Component(
                #[trigger] w1.components[i].component,
            ) ==> op.apply(w1).components[i] == op.apply(w2).components[i],
        forall|i: int|
            0 <= i < w1.resources.len() && op.write() == Access::Resource(
                #[trigger] w1.resources[i].resource,
            ) ==> op.apply(w1).resources[i] == op.apply(w2).resources[i],
{
    match op {
        Operation::SetComponent { component, value } => {},
        Operation::AddComponent { source, target } => {
            assert forall|i: int|
                0 <= i < w1.components.len() && op.write() == Access::Component(
                    #[trigger] w1.components[i].component,
                ) implies op.apply(w1).components[i] == op.apply(w2).components[i] by {
                lemma_comp_value_agree(w1.components, w2.components, w1.components[i].entity, source);
            }
        },
        Operation::SumIntoResource { component, resource } => {
            lemma_sum_agree(w1.components, w2.components, component);
        },
        Operation::SetResource { resource, value } => {},
    }
}

/// Admissibility of an operation is decided by the resource keys alone, so
/// stores of the same shape allow the same operations.
pub proof fn lemma_allowed_shape(w1: WorldModel, w2: WorldModel, op: Operation)
    requires
        same_shape(w1, w2),
    ensures
        op.allowed(w1) == op.allowed(w2),
{
    match op {
        Operation::SumIntoResource { resource, .. } => {
            lemma_res_index_agree(w1.resources, w2.resources, resource);
        },
        Operation::SetResource { resource, .. } => {
            lemma_res_index_agree(w1.resources, w2.resources, resource);
        },
        _ => {},
    }
}

/// Order independence within a stage: two operations the builder would admit
/// together (disjoint writes, neither reading the other's write) produce the
/// same store whichever of the two runs first.
pub proof fn lemma_ops_commute(w: WorldModel, a: Operation, b: Operation)
    requires
        compatible(a, b),
    ensures
        b.apply(a.apply(w)) == a.apply(b.apply(w)),
{
    let wa = a.apply(w);
    let wb = b.apply(w);
    let wab = b.apply(wa);
    let wba = a.apply(wb);
    lemma_apply_structure(w, a);
    lemma_apply_structure(w, b);
    lemma_apply_structure(wa, b);
    lemma_apply_structure(wb, a);
    assert forall|i: int|
        0 <= i < w.components.len() && a.reads().contains(
            Access::Component(#[trigger] w.components[i].component),
        ) implies w.components[i].value == wb.components[i].value by {
        assert(b.write() != Access::Component(w.components[i].component));
    }
    lemma_apply_reads(w, wb, a);
    assert forall|i: int|
        0 <= i < w.components.len() && b.reads().contains(
            Access::Component(#[trigger] w.components[i].component),
        ) implies w.components[i].value == wa.components[i].value by {
        assert(a.write() != Access::Component(w.components[i].component));
    }
    lemma_apply_reads(w, wa, b);
    assert forall|i: int| 0 <= i < w.components.len() implies wab.components[i]
        == wba.components[i] by {
        let tag = Access::Component(w.components[i].component);
        assert(wa.components[i].component == w.components[i].component);
        assert(wb.components[i].component == w.components[i].component);
        if a.write() == tag {
            assert(wab.components[i] == wa.components[i]);
            assert(wba.components[i] == wa.components[i]);
        } else if b.write() == tag {
            assert(wba.components[i] == wb.components[i]);
            assert(wab.components[i] == wb.components[i]);
        } else {
            assert(wab.components[i] == wa.components[i]);
            assert(wa.components[i] == w.components[i]);
            assert(wba.components[i] == wb.components[i]);
            assert(wb.components[i] == w.components[i]);
        }
    }
    assert forall|i: int| 0 <= i < w.resources.len() implies wab.resources[i]
        == wba.resources[i] by {
        let tag = Access::Resource(w.resources[i].resource);
        assert(wa.resources[i].resource == w.resources[i].resource);
        assert(wb.resources[i].resource == w.resources[i].resource);
        if a.write() == tag {
            assert(wab.resources[i] == wa.resources[i]);
            assert(wba.resources[i] == wa.resources[i]);
        } else if b.write() == tag {
            assert(wba.resources[i] == wb.resources[i]);
            assert(wab.resources[i] == wb.resources[i]);
        } else {
            assert(wab.resources[i] == wa.resources[i]);
            assert(wa.resources[i] == w.resources[i]);
            assert(wba.resources[i] == wb.resources[i]);
            assert(wb.resources[i] == w.resources[i]);
        }
    }
    assert(wab.components =~= wba.components);
    assert(wab.resources =~= wba.resources);
    assert(wab =~= wba);
}

/// Order independence as the executor sees it: a stage holding two
/// compatible operations reaches the same verdict whichever order they are
/// declared in, and when it succeeds it produces the same store.
pub proof fn lemma_stage_order_independent(w: WorldModel, a: Operation, b: Operation)
    requires
        compatible(a, b),
    ensures
        run_ops(w, seq![a, b]).1 == run_ops(w, seq![b, a]).1,
        run_ops(w, seq![a, b]).1 ==> run_ops(w, seq![a, b]).0 == run_ops(w, seq![b, a]).0,
{
    let ab = seq![a, b];
    let ba = seq![b, a];
    assert(ab[0] == a && ba[0] == b);
    assert(ab.drop_first() =~= seq![b]);
    assert(ba.drop_first() =~= seq![a]);
    assert(seq![a][0] == a && seq![b][0] == b);
    assert(seq![a].drop_first() =~= Seq::<Operation>::empty());
    assert(seq![b].drop_first() =~= Seq::<Operation>::empty());
    let wa = a.apply(w);
    let wb = b.apply(w);
    lemma_apply_structure(w, a);
    lemma_apply_structure(w, b);
    lemma_allowed_shape(w, wa, b);
    lemma_allowed_shape(w, wb, a);
    if a.allowed(w) && b.allowed(w) {
        assert(run_ops(b.apply(wa), Seq::<Operation>::empty()) == (b.apply(wa), true));
        assert(run_ops(a.apply(wb), Seq::<Operation>::empty()) == (a.apply(wb), true));
        assert(run_ops(wa, seq![b]) == (b.apply(wa), true));
        assert(run_ops(wb, seq![a]) == (a.apply(wb), true));
        lemma_ops_commute(w, a, b);
    }
    if a.allowed(w) && !b.allowed(w) {
        assert(run_ops(wa, seq![b]) == (wa, false));
    }
    if !a.allowed(w) && b.allowed(w) {
        assert(run_ops(wb, seq![a]) == (wb, false));
    }
}

/// Barrier visibility: in a two-stage schedule the second stage runs against
/// exactly the store the first stage produced, so stage two observes every
/// write stage one performed in the same tick, never a stale value; and a
/// failing first stage abandons the second entirely.
pub proof fn lemma_barrier_visibility(w: WorldModel, s1: Seq<Operation>, s2: Seq<Operation>)
    ensures
        run_ops(w, s1).1 ==> run_stages(w, seq![s1, s2]).0 == run_ops(run_ops(w, s1).0, s2).0,
        run_ops(w, s1).1 ==> run_stages(w, seq![s1, s2]).1 == run_ops(run_ops(w, s1).0, s2).1,
        !run_ops(w, s1).1 ==> run_stages(w, seq![s1, s2]) == (run_ops(w, s1).0, false),
{
    let pair = seq![s1, s2];
    assert(pair[0] == s1);
    assert(pair.drop_first() =~= seq![s2]);
    if run_ops(w, s1).1 {
        let w1 = run_ops(w, s1).0;
        assert(seq![s2][0] == s2);
        assert(seq![s2].drop_first() =~= Seq::<Seq<Operation>>::empty());
        assert(run_stages(w1, seq![s2]) == if run_ops(w1, s2).1 {
            run_stages(run_ops(w1, s2).0, Seq::<Seq<Operation>>::empty())
        } else {
            (run_ops(w1, s2).0, false)
        });
    }
}

/// `same_shape` is transitive.
pub proof fn lemma_same_shape_trans(w1: WorldModel, w2: WorldModel, w3: WorldModel)
    requires
        same_shape(w1, w2),
        same_shape(w2, w3),
    ensures
        same_shape(w1, w3),
{
    assert forall|i: int|
        0 <= i < w1.components.len() implies (#[trigger] w1.components[i]).entity
        == w3.components[i].entity && w1.components[i].component
        == w3.components[i].component by {
        assert(w1.components[i].entity == w2.components[i].entity);
        assert(w2.components[i].entity == w3.components[i].entity);
        assert(w1.components[i].component == w2.components[i].component);
        assert(w2.components[i].component == w3.components[i].component);
    }
    assert forall|i: int|
        0 <= i < w1.resources.len() implies (#[trigger] w1.resources[i]).resource
        == w3.resources[i].resource by {
        assert(w1.resources[i].resource == w2.resources[i].resource);
        assert(w2.resources[i].resource == w3.resources[i].resource);
    }
}

/// A stage succeeds exactly when every one of its operations is admissible
/// in the store the stage started from: operations never create or destroy
/// cells, so admissibility never changes mid-stage.
pub proof fn lemma_run_ops_success(w: WorldModel, ops: Seq<Operation>)
    ensures
        same_shape(w, run_ops(w, ops).0),
        run_ops(w, ops).1 <==> (forall|j: int|
            0 <= j < ops.len() ==> (#[trigger] ops[j]).allowed(w)),
    decreases ops.len(),
{
    if ops.len() <= 0 {
    } else if !ops[0].allowed(w) {
    } else {
        let wa = ops[0].apply(w);
        let rest = ops.drop_first();
        lemma_apply_structure(w, ops[0]);
        lemma_run_ops_success(wa, rest);
        lemma_same_shape_trans(w, wa, run_ops(wa, rest).0);
        assert forall|j: int|
            0 <= j < rest.len() implies ((#[trigger] rest[j]).allowed(wa) == rest[j].allowed(
            w,
        )) by {
            lemma_allowed_shape(w, wa, rest[j]);
        }
        if run_ops(w, ops).1 {
            assert forall|j: int| 0 <= j < ops.len() implies (#[trigger] ops[j]).allowed(w) by {
                if j >= 1 {
                    assert(ops[j] == rest[j - 1]);
                    assert(rest[j - 1].allowed(wa));
                }
            }
        } else {
            assert(!run_ops(wa, rest).1);
            let j = choose|j: int| 0 <= j < rest.len() && !(#[trigger] rest[j]).allowed(wa);
            assert(ops[j + 1] == rest[j]);
            assert(!ops[j + 1].allowed(w));
        }
    }
}

/// A schedule execution succeeds exactly when every operation of every stage
/// is admissible in the starting store: success is owed whenever each
/// resource-writing operation names a resource inserted before the tick.
pub proof fn lemma_run_stages_success(w: WorldModel, stages: Seq<Seq<Operation>>)
    ensures
        same_shape(w, run_stages(w, stages).0),
        run_stages(w, stages).1 <==> (forall|i: int, j: int|
            0 <= i < stages.len() && 0 <= j < stages[i].len() ==> (#[trigger] stages[i][j]).allowed(
                w,
            )),
    decreases stages.len(),
{
    if stages.len() <= 0 {
    } else {
        let first = run_ops(w, stages[0]);
        let rest = stages.drop_first();
        lemma_run_ops_success(w, stages[0]);
        if !first.1 {
            let j = choose|j: int| 0 <= j < stages[0].len() && !(#[trigger] stages[0][j]).allowed(w);
            assert(!stages[0][j].allowed(w));
        } else {
            lemma_run_stages_success(first.0, rest);
            lemma_same_shape_trans(w, first.0, run_stages(first.0, rest).0);
            assert forall|i: int, j: int|
                0 <= i < rest.len() && 0 <= j < rest[i].len() implies ((#[trigger] rest[i][j]).allowed(
                first.0,
            ) == rest[i][j].allowed(w)) by {
                lemma_allowed_shape(w, first.0, rest[i][j]);
            }
            if run_stages(w, stages).1 {
                assert forall|i: int, j: int|
                    0 <= i < stages.len() && 0 <= j < stages[i].len() implies (
                #[trigger] stages[i][j]).allowed(w) by {
                    if i >= 1 {
                        assert(stages[i] == rest[i - 1]);
                        assert(rest[i - 1][j].allowed(first.0));
                    }
                }
            } else {
                assert(!run_stages(first.0, rest).1);
                let (i, j) = choose|i: int, j: int|
                    0 <= i < rest.len() && 0 <= j < rest[i].len() && !(#[trigger] rest[i][j]).allowed(
                        first.0,
                    );
                assert(stages[i + 1] == rest[i]);
                assert(!stages[i + 1][j].allowed(w));
            }
        }
    }
}

/// Whether the write of `b` conflicts with anything `a` reads.
fn reads_contains(op: &Operation, t: Access) -> (r: bool)
    ensures
        r == op.reads().contains(t),
{
    match op {
        Operation::SetComponent { .. } => false,
        Operation::AddComponent { source, target } => t == Access::Component(*source) || t
            == Access::Component(*target),
        Operation::SumIntoResource { component, .. } => t == Access::Component(*component),
        Operation::SetResource { .. } => false,
    }
}

/// The single tag the operation writes.
fn write_of(op: &Operation) -> (t: Access)
    ensures
        t == op.write(),
{
    match op {
        Operation::SetComponent { component, .. } => Access::Component(*component),
        Operation::AddComponent { target, .. } => Access::Component(*target),
        Operation::SumIntoResource { resource, .. } => Access::Resource(*resource),
        Operation::SetResource { resource, .. } => Access::Resource(*resource),
    }
}

/// Whether two operations may share a stage.
pub fn compatible_ops(a: &Operation, b: &Operation) -> (r: bool)
    ensures
        r == compatible(*a, *b),
{
    let wa = write_of(a);
    let wb = write_of(b);
    wa != wb && !reads_contains(a, wb) && !reads_contains(b, wa)
}

/// One closed stage.
pub struct Stage {
    ops: Vec<Operation>,
}

impl View for Stage {
    type V = Seq<Operation>;

    closed spec fn view(&self) -> Seq<Operation> {
        self.ops@
    }
}

impl Stage {
    /// Apply every operation of the stage, in declaration order, stopping at
    /// the first failure.
    fn execute(&self, world: &mut World) -> (r: Result<(), ScheduleOperationFailure>)
        requires
            old(world)@.wf(),
        ensures
            final(world)@ == run_ops(old(world)@, self@).0,
            (r is Ok) == run_ops(old(world)@, self@).1,
            final(world)@.wf(),
    {
        let ghost w0 = world@;
        proof {
            assert(self.ops@.skip(0) =~= self.ops@);
        }
        let n = self.ops.len();
        let mut i: usize = 0;
        while i < n
            invariant
                i <= n,
                n == self.ops@.len(),
                w0 == old(world)@,
                world@.wf(),
                run_ops(w0, self.ops@) == run_ops(world@, self.ops@.skip(i as int)),
            decreases n - i,
        {
            let ghost before = world@;
            let ghost rest = self.ops@.skip(i as int);
            proof {
                assert(rest[0] == self.ops@[i as int]);
            }
            let op = self.ops[i];
            let allowed = match &op {
                Operation::SumIntoResource { resource, .. } => world.has_resource(*resource),
                Operation::SetResource { resource, .. } => world.has_resource(*resource),
                _ => true,
            };
            proof {
                assert(allowed == op.allowed(before));
            }
            if !allowed {
                proof {
                    assert(run_ops(before, rest) == (before, false));
                }
                return Result::Err(ScheduleOperationFailure);
            }
            match op {
                Operation::SetComponent { component, value } => {
                    world.apply_set_component(component, value);
                },
                Operation::AddComponent { source, target } => {
                    world.apply_add_component(source, target);
                },
                Operation::SumIntoResource { component, resource } => {
                    world.apply_sum_into_resource(component, resource);
                },
                Operation::SetResource { resource, value } => {
                    world.apply_set_resource(resource, value);
                },
            }
            proof {
                assert(world@ =~= op.apply(before));
                assert(rest.drop_first() =~= self.ops@.skip(i + 1));
                assert(run_ops(before, rest) == run_ops(world@, self.ops@.skip(i + 1)));
            }
            i += 1;
        }
        proof {
            assert(self.ops@.skip(n as int) =~= Seq::<Operation>::empty());
        }
        Result::Ok(())
    }
}

/// An ordered sequence of stages, built once and reused every tick.
pub struct Schedule {
    stages: Vec<Stage>,
}

impl View for Schedule {
    type V = Seq<Seq<Operation>>;

    closed spec fn view(&self) -> Seq<Seq<Operation>> {
        self.stages@.map_values(|s: Stage| s@)
    }
}

impl Schedule {
    /// Start building a schedule.
    pub fn builder() -> (b: ScheduleBuilder)
        ensures
            b.inv(),
            b.stages_view().len() == 0,
            b.current_view().len() == 0,
    {
        ScheduleBuilder { stages: Vec::new(), current: Vec::new() }
    }

    /// Execute the schedule against the store: stages strictly in
    /// declaration order, a barrier between stages, the rest of the schedule
    /// abandoned as soon as one operation fails.
    pub fn execute(&self, world: &mut World) -> (r: Result<(), ScheduleOperationFailure>)
        requires
            old(world)@.wf(),
        ensures
            final(world)@ == run_stages(old(world)@, self@).0,
            (r is Ok) == run_stages(old(world)@, self@).1,
            final(world)@.wf(),
    {
        let ghost w0 = world@;
        proof {
            assert(self@.skip(0) =~= self@);
        }
        let n = self.stages.len();
        let mut i: usize = 0;
        while i < n
            invariant
                i <= n,
                n == self.stages@.len(),
                self@.len() == n,
                forall|k: int| 0 <= k < n ==> self@[k] == self.stages@[k]@,
                w0 == old(world)@,
                world@.wf(),
                run_stages(w0, self@) == run_stages(world@, self@.skip(i as int)),
            decreases n - i,
        {
            let ghost before = world@;
            let ghost rest = self@.skip(i as int);
            proof {
                assert(rest[0] == self@[i as int]);
            }
            let r = self.stages[i].execute(world);
            proof {
                assert(rest.drop_first() =~= self@.skip(i + 1));
            }
            if r.is_err() {
                proof {
                    assert(run_ops(before, self@[i as int]).1 == false);
                    assert(run_stages(before, rest) == (world@, false));
                }
                return Result::Err(ScheduleOperationFailure);
            }
            proof {
                assert(run_ops(before, self@[i as int]).1 == true);
                assert(run_stages(before, rest) == run_stages(world@, self@.skip(i + 1)));
            }
            i += 1;
        }
        proof {
            assert(self@.skip(n as int) =~= Seq::<Seq<Operation>>::empty());
        }
        Result::Ok(())
    }
}

/// Builds a schedule stage by stage, refusing conflicting operations.
pub struct ScheduleBuilder {
    stages: Vec<Stage>,
    current: Vec<Operation>,
}

impl ScheduleBuilder {
    /// The stages closed so far.
    pub closed spec fn stages_view(self) -> Seq<Seq<Operation>> {
        self.stages@.map_values(|s: Stage| s@)
    }

    /// The operations of the stage currently being filled.
    pub closed spec fn current_view(self) -> Seq<Operation> {
        self.current@
    }

    /// Every closed stage, and the open one, is internally conflict-free.
    pub closed spec fn inv(self) -> bool {
        sched_wf(self.stages_view()) && stage_wf(self.current@)
    }

    /// Add an operation to the current stage.  Returns false (and changes
    /// nothing) when the operation conflicts with one already in the stage:
    /// the caller must `flush` first.
    pub fn add_operation(&mut self, op: Operation) -> (added: bool)
        requires
            old(self).inv(),
        ensures
            final(self).inv(),
            added == (forall|i: int|
                0 <= i < old(self).current_view().len() ==> compatible(
                    #[trigger] old(self).current_view()[i],
                    op,
                )),
            added ==> final(self).current_view() == old(self).current_view().push(op),
            !added ==> final(self).current_view() == old(self).current_view(),
            final(self).stages_view() == old(self).stages_view(),
    {
        let n = self.current.len();
        let mut i: usize = 0;
        while i < n
            invariant
                i <= n,
                n == self.current@.len(),
                self.inv(),
                self.current_view() == old(self).current_view(),
                self.stages_view() == old(self).stages_view(),
                forall|k: int| 0 <= k < i ==> compatible(#[trigger] self.current@[k], op),
            decreases n - i,
        {
            if !compatible_ops(&self.current[i], &op) {
                proof {
                    assert(!compatible(old(self).current_view()[i as int], op));
                }
                return false;
            }
            i += 1;
        }
        self.current.push(op);
        proof {
            assert forall|i: int, j: int|
                0 <= i < j < self.current@.len() implies compatible(
                self.current@[i],
                self.current@[j],
            ) by {
                if j < old(self).current@.len() {
                    assert(self.current@[i] == old(self).current@[i]);
                    assert(self.current@[j] == old(self).current@[j]);
                } else {
                    assert(self.current@[j] == op);
                    assert(self.current@[i] == old(self).current@[i]);
                }
            }
        }
        true
    }

    /// Close the current stage with a barrier: all of its writes become
    /// visible before anything later runs.  An empty stage is not recorded.
    pub fn flush(&mut self)
        requires
            old(self).inv(),
        ensures
            final(self).inv(),
            final(self).current_view().len() == 0,
            old(self).current_view().len() == 0 ==> final(self).stages_view() == old(
                self,
            ).stages_view(),
            old(self).current_view().len() > 0 ==> final(self).stages_view() == old(
                self,
            ).stages_view().push(old(self).current_view()),
    {
        if self.current.len() == 0 {
            return ;
        }
        let mut ops: Vec<Operation> = Vec::new();
        core::mem::swap(&mut ops, &mut self.current);
        self.stages.push(Stage { ops });
        proof {
            assert(self.stages_view() =~= old(self).stages_view().push(old(self).current@));
            assert forall|i: int|
                0 <= i < self.stages_view().len() implies stage_wf(
                #[trigger] self.stages_view()[i],
            ) by {
                if i < old(self).stages_view().len() {
                    assert(self.stages_view()[i] == old(self).stages_view()[i]);
                } else {
                    assert(self.stages_view()[i] == old(self).current@);
                }
            }
        }
    }

    /// Close any open stage and hand over the finished schedule.
    pub fn build(self) -> (s: Schedule)
        requires
            self.inv(),
        ensures
            self.current_view().len() == 0 ==> s@ == self.stages_view(),
            self.current_view().len() > 0 ==> s@ == self.stages_view().push(self.current_view()),
            sched_wf(s@),
    {
        let mut b = self;
        b.flush();
        let s = Schedule { stages: b.stages };
        proof {
            assert(s@ =~= b.stages_view());
        }
        s
    }
}

} // verus!
