//! The World Store: the entity/component database plus singleton resources,
//! exclusively owned by the simulation thread during schedule execution.
//!
//! The store is a flat table of component cells and a side-table of singleton
//! resources, both keyed by numeric tags ([`crate::model`]).  Entity
//! identifiers come from a monotone allocator, so a destroyed identifier is
//! never reused within one store.

use crate::model::{
    add_comp_effect, comp_index, comp_upsert, comp_value, detach_effect, entities_without,
    lemma_comp_index, lemma_res_index, remove_entity_effect, res_index, res_update_effect,
    res_upsert, res_value, set_comp_effect, sum_comp, timing_advance, ComponentCell, ResourceCell,
    Timing, WorldModel,
};
use vstd::prelude::*;

verus! {

/// A read-only summary of world-derived state, exported after a tick for the
/// debug/inspection thread.
#[derive(Clone, Copy, Debug, PartialEq, Eq, Structural)]
pub struct WorldSnapshot {
    pub entities: usize,
    pub components: usize,
    pub resources: usize,
    pub timing: Timing,
}

/// The entity/component database.  At most one thread may hold it at a time;
/// the simulation thread keeps it for the full duration of one tick.
pub struct World {
    entities: Vec<u64>,
    next_entity: u64,
    components: Vec<ComponentCell>,
    resources: Vec<ResourceCell>,
    timing: Timing,
}

impl View for World {
    type V = WorldModel;

    closed spec fn view(&self) -> WorldModel {
        WorldModel {
            entities: self.entities@,
            next_entity: self.next_entity,
            components: self.components@,
            resources: self.resources@,
            timing: self.timing,
        }
    }
}

impl World {
    /// An empty store: no entities, no components, no resources, timing at
    /// zero.
    pub fn new() -> (w: World)
        ensures
            w@.entities.len() == 0,
            w@.next_entity == 0,
            w@.components.len() == 0,
            w@.resources.len() == 0,
            w@.timing == (Timing { delta_ns: 0, elapsed_ns: 0 }),
            w@.wf(),
    {
        World {
            entities: Vec::new(),
            next_entity: 0,
            components: Vec::new(),
            resources: Vec::new(),
            timing: Timing { delta_ns: 0, elapsed_ns: 0 },
        }
    }

    /// Whether entity `e` is live.
    pub fn has_entity(&self, e: u64) -> (r: bool)
        ensures
            r == self@.entities.contains(e),
    {
        let n = self.entities.len();
        let mut i: usize = 0;
        while i < n
            invariant
                i <= n,
                n == self.entities@.len(),
                forall|j: int| 0 <= j < i ==> self.entities@[j] != e,
            decreases n - i,
        {
            if self.entities[i] == e {
                return true;
            }
            i += 1;
        }
        false
    }

    /// Allocate a fresh entity identifier.  The identifier has never been
    /// live in this store before.
    pub fn create_entity(&mut self) -> (e: u64)
        requires
            old(self)@.wf(),
            old(self)@.next_entity < u64::MAX,
        ensures
            final(self)@.wf(),
            e == old(self)@.next_entity,
            !old(self)@.entities.contains(e),
            final(self)@.entities == old(self)@.entities.push(e),
            final(self)@.entities.contains(e),
            final(self)@.next_entity == e + 1,
            final(self)@.components == old(self)@.components,
            final(self)@.resources == old(self)@.resources,
            final(self)@.timing == old(self)@.timing,
    {
        let e = self.next_entity;
        self.next_entity = e + 1;
        self.entities.push(e);
        proof {
            if old(self)@.entities.contains(e) {
                let i = choose|i: int|
                    0 <= i < old(self)@.entities.len() && old(self)@.entities[i] == e;
                assert(false);
            }
            let oldm = old(self)@;
            let newm = self@;
            assert(newm.entities[oldm.entities.len() as int] == e);
            assert(newm.entities.contains(e));
            assert forall|i: int, j: int| 0 <= i < j < newm.entities.len() implies newm.entities[i]
                != newm.entities[j] by {
                if j < oldm.entities.len() {
                    assert(newm.entities[i] == oldm.entities[i]);
                    assert(newm.entities[j] == oldm.entities[j]);
                } else {
                    assert(newm.entities[j] == e);
                    assert(newm.entities[i] == oldm.entities[i]);
                }
            }
            assert forall|i: int| 0 <= i < newm.entities.len() implies newm.entities[i]
                < newm.next_entity by {
                if i < oldm.entities.len() {
                    assert(newm.entities[i] == oldm.entities[i]);
                }
            }
            assert forall|i: int|
                0 <= i < newm.components.len() implies newm.entities.contains(
                #[trigger] newm.components[i].entity,
            ) by {
                assert(newm.components[i] == oldm.components[i]);
                assert(oldm.entities.contains(oldm.components[i].entity));
                let k = choose|k: int|
                    0 <= k < oldm.entities.len() && oldm.entities[k] == oldm.components[i].entity;
                assert(newm.entities[k] == oldm.entities[k]);
            }
            assert forall|i: int, j: int|
                0 <= i < j < newm.components.len() implies !(newm.components[i].entity
                == newm.components[j].entity && newm.components[i].component
                == newm.components[j].component) by {
                assert(newm.components[i] == oldm.components[i]);
                assert(newm.components[j] == oldm.components[j]);
            }
            assert forall|i: int, j: int|
                0 <= i < j < newm.resources.len() implies newm.resources[i].resource
                != newm.resources[j].resource by {
                assert(newm.resources[i] == oldm.resources[i]);
                assert(newm.resources[j] == oldm.resources[j]);
            }
        }
        e
    }

    /// Find the position of the cell for `(e, c)`, if attached.
    fn find_component(&self, e: u64, c: u64) -> (r: Option<usize>)
        ensures
            match r {
                Option::Some(k) => k == comp_index(self@.components, e, c) && k
                    < self@.components.len(),
                Option::None => comp_index(self@.components, e, c) < 0,
            },
    {
        let n = self.components.len();
        let mut i: usize = 0;
        while i < n
            invariant
                i <= n,
                n == self.components@.len(),
                forall|j: int|
                    0 <= j < i ==> !(self.components@[j].entity == e && self.components@[j].component
                        == c),
            decreases n - i,
        {
            let cell = self.components[i];
            if cell.entity == e && cell.component == c {
                proof {
                    lemma_comp_index(self@.components, e, c);
                }
                return Option::Some(i);
            }
            i += 1;
        }
        proof {
            lemma_comp_index(self@.components, e, c);
        }
        Option::None
    }

    /// The value of component `c` on entity `e`, if attached.
    pub fn get_component(&self, e: u64, c: u64) -> (r: Option<i64>)
        ensures
            r == comp_value(self@.components, e, c),
    {
        match self.find_component(e, c) {
            Option::Some(k) => Option::Some(self.components[k].value),
            Option::None => Option::None,
        }
    }

    /// Attach component `c` with `value` to entity `e`, overwriting any
    /// previous value.  Returns false (and changes nothing) when `e` is not
    /// live.
    pub fn attach_component(&mut self, e: u64, c: u64, value: i64) -> (attached: bool)
        requires
            old(self)@.wf(),
        ensures
            final(self)@.wf(),
            attached == old(self)@.entities.contains(e),
            attached ==> final(self)@.components == comp_upsert(old(self)@.components, e, c, value),
            attached ==> comp_value(final(self)@.components, e, c) == Option::Some(value),
            !attached ==> final(self)@.components == old(self)@.components,
            final(self)@.entities == old(self)@.entities,
            final(self)@.next_entity == old(self)@.next_entity,
            final(self)@.resources == old(self)@.resources,
            final(self)@.timing == old(self)@.timing,
    {
        if !self.has_entity(e) {
            return false;
        }
        proof {
            lemma_comp_index(self@.components, e, c);
        }
        match self.find_component(e, c) {
            Option::Some(k) => {
                self.components[k] = ComponentCell { entity: e, component: c, value };
            },
            Option::None => {
                self.components.push(ComponentCell { entity: e, component: c, value });
            },
        }
        proof {
            crate::model::lemma_wf_upsert(old(self)@, self@, e, c, value);
            crate::model::lemma_comp_upsert_value(old(self)@.components, e, c, value);
        }
        true
    }

    /// Detach component `c` from entity `e`.  Returns whether a cell was
    /// removed.
    pub fn detach_component(&mut self, e: u64, c: u64) -> (detached: bool)
        requires
            old(self)@.wf(),
        ensures
            final(self)@.wf(),
            detached == (comp_value(old(self)@.components, e, c) is Some),
            final(self)@.components == detach_effect(old(self)@.components, e, c),
            final(self)@.entities == old(self)@.entities,
            final(self)@.next_entity == old(self)@.next_entity,
            final(self)@.resources == old(self)@.resources,
            final(self)@.timing == old(self)@.timing,
    {
        proof {
            lemma_comp_index(self@.components, e, c);
        }
        let found = match self.find_component(e, c) {
            Option::Some(_) => true,
            Option::None => false,
        };
        let n = self.components.len();
        let mut kept: Vec<ComponentCell> = Vec::new();
        let mut i: usize = 0;
        while i < n
            invariant
                i <= n,
                n == self.components@.len(),
                kept@ == detach_effect(self.components@.take(i as int), e, c),
            decreases n - i,
        {
            let cell = self.components[i];
            proof {
                assert(self.components@.take(i + 1).drop_last() =~= self.components@.take(i as int));
                assert(self.components@.take(i + 1).last() == cell);
            }
            if !(cell.entity == e && cell.component == c) {
                kept.push(cell);
            }
            i += 1;
        }
        proof {
            assert(self.components@.take(n as int) =~= self.components@);
        }
        self.components = kept;
        proof {
            crate::model::lemma_wf_detach(old(self)@, self@, e, c);
        }
        found
    }

    /// Destroy entity `e`: its identifier stops being live and every one of
    /// its components is removed.  Destroying a non-live identifier changes
    /// nothing.
    pub fn destroy_entity(&mut self, e: u64)
        requires
            old(self)@.wf(),
        ensures
            final(self)@.wf(),
            final(self)@.entities == entities_without(old(self)@.entities, e),
            final(self)@.components == remove_entity_effect(old(self)@.components, e),
            final(self)@.next_entity == old(self)@.next_entity,
            final(self)@.resources == old(self)@.resources,
            final(self)@.timing == old(self)@.timing,
            !final(self)@.entities.contains(e),
    {
        let n = self.entities.len();
        let mut kept_entities: Vec<u64> = Vec::new();
        let mut i: usize = 0;
        while i < n
            invariant
                i <= n,
                n == self.entities@.len(),
                kept_entities@ == entities_without(self.entities@.take(i as int), e),
            decreases n - i,
        {
            let id = self.entities[i];
            proof {
                assert(self.entities@.take(i + 1).drop_last() =~= self.entities@.take(i as int));
                assert(self.entities@.take(i + 1).last() == id);
            }
            if id != e {
                kept_entities.push(id);
            }
            i += 1;
        }
        let m = self.components.len();
        let mut kept_components: Vec<ComponentCell> = Vec::new();
        let mut j: usize = 0;
        while j < m
            invariant
                j <= m,
                m == self.components@.len(),
                kept_components@ == remove_entity_effect(self.components@.take(j as int), e),
            decreases m - j,
        {
            let cell = self.components[j];
            proof {
                assert(self.components@.take(j + 1).drop_last() =~= self.components@.take(
                    j as int,
                ));
                assert(self.components@.take(j + 1).last() == cell);
            }
            if cell.entity != e {
                kept_components.push(cell);
            }
            j += 1;
        }
        proof {
            assert(self.entities@.take(n as int) =~= self.entities@);
            assert(self.components@.take(m as int) =~= self.components@);
        }
        self.entities = kept_entities;
        self.components = kept_components;
        proof {
            crate::model::lemma_wf_destroy(old(self)@, self@, e);
            crate::model::lemma_entities_without(old(self)@.entities, e);
        }
    }

    /// Find the position of the cell for resource `r`, if inserted.
    fn find_resource(&self, r: u64) -> (pos: Option<usize>)
        ensures
            match pos {
                Option::Some(k) => k == res_index(self@.resources, r) && k
                    < self@.resources.len(),
                Option::None => res_index(self@.resources, r) < 0,
            },
    {
        let n = self.resources.len();
        let mut i: usize = 0;
        while i < n
            invariant
                i <= n,
                n == self.resources@.len(),
                forall|j: int| 0 <= j < i ==> self.resources@[j].resource != r,
            decreases n - i,
        {
            if self.resources[i].resource == r {
                proof {
                    lemma_res_index(self@.resources, r);
                }
                return Option::Some(i);
            }
            i += 1;
        }
        proof {
            lemma_res_index(self@.resources, r);
        }
        Option::None
    }

    /// The value of singleton resource `r`, if inserted.
    pub fn get_resource(&self, r: u64) -> (v: Option<i64>)
        ensures
            v == res_value(self@.resources, r),
    {
        match self.find_resource(r) {
            Option::Some(k) => Option::Some(self.resources[k].value),
            Option::None => Option::None,
        }
    }

    /// Whether singleton resource `r` has been inserted.
    pub fn has_resource(&self, r: u64) -> (present: bool)
        ensures
            present == (res_value(self@.resources, r) is Some),
    {
        match self.find_resource(r) {
            Option::Some(_) => true,
            Option::None => false,
        }
    }

    /// Insert singleton resource `r` with `value`, overwriting any previous
    /// value.
    pub fn insert_resource(&mut self, r: u64, value: i64)
        requires
            old(self)@.wf(),
        ensures
            final(self)@.wf(),
            final(self)@.resources == res_upsert(old(self)@.resources, r, value),
            res_value(final(self)@.resources, r) == Option::Some(value),
            forall|r2: u64|
                r2 != r ==> res_value(final(self)@.resources, r2) == res_value(
                    old(self)@.resources,
                    r2,
                ),
            final(self)@.entities == old(self)@.entities,
            final(self)@.next_entity == old(self)@.next_entity,
            final(self)@.components == old(self)@.components,
            final(self)@.timing == old(self)@.timing,
    {
        proof {
            lemma_res_index(self@.resources, r);
        }
        match self.find_resource(r) {
            Option::Some(k) => {
                self.resources[k] = ResourceCell { resource: r, value };
            },
            Option::None => {
                self.resources.push(ResourceCell { resource: r, value });
            },
        }
        proof {
            crate::model::lemma_wf_res_upsert(old(self)@, self@, r, value);
            lemma_res_index(self@.resources, r);
            crate::model::lemma_res_upsert_value(old(self)@.resources, r, value);
            assert forall|r2: u64| r2 != r implies res_value(self@.resources, r2) == res_value(
                old(self)@.resources,
                r2,
            ) by {
                crate::model::lemma_res_upsert_other(old(self)@.resources, r, value, r2);
            }
        }
    }

    /// Refresh the timing resource at the head of a tick: record the delta
    /// and accumulate it (saturating) into the elapsed total.
    pub fn update_timing(&mut self, delta_ns: u64)
        ensures
            final(self)@.timing == timing_advance(old(self)@.timing, delta_ns),
            final(self)@.entities == old(self)@.entities,
            final(self)@.next_entity == old(self)@.next_entity,
            final(self)@.components == old(self)@.components,
            final(self)@.resources == old(self)@.resources,
            old(self)@.wf() ==> final(self)@.wf(),
    {
        self.timing.delta_ns = delta_ns;
        self.timing.elapsed_ns = if self.timing.elapsed_ns <= u64::MAX - delta_ns {
            self.timing.elapsed_ns + delta_ns
        } else {
            u64::MAX
        };
        proof {
            if old(self)@.wf() {
                crate::model::lemma_wf_preserved(old(self)@, self@);
            }
        }
    }

    /// The current timing record.
    pub fn timing(&self) -> (t: Timing)
        ensures
            t == self@.timing,
    {
        self.timing
    }

    /// Overwrite every cell of component `c` with `v`.
    pub(crate) fn apply_set_component(&mut self, c: u64, v: i64)
        ensures
            final(self)@.components == set_comp_effect(old(self)@.components, c, v),
            final(self)@.entities == old(self)@.entities,
            final(self)@.next_entity == old(self)@.next_entity,
            final(self)@.resources == old(self)@.resources,
            final(self)@.timing == old(self)@.timing,
            old(self)@.wf() ==> final(self)@.wf(),
    {
        let ghost om = self@;
        let n = self.components.len();
        let mut i: usize = 0;
        while i < n
            invariant
                i <= n,
                n == self.components@.len(),
                om.components.len() == n,
                self@.entities == om.entities,
                self@.next_entity == om.next_entity,
                self@.resources == om.resources,
                self@.timing == om.timing,
                forall|k: int|
                    0 <= k < i ==> self.components@[k] == set_comp_effect(om.components, c, v)[k],
                forall|k: int| i <= k < n ==> self.components@[k] == om.components[k],
            decreases n - i,
        {
            let cell = self.components[i];
            if cell.component == c {
                self.components[i] = ComponentCell {
                    entity: cell.entity,
                    component: cell.component,
                    value: v,
                };
            }
            i += 1;
        }
        proof {
            assert(self@.components =~= set_comp_effect(om.components, c, v));
            if old(self)@.wf() {
                assert forall|k: int|
                    0 <= k < self@.components.len() implies (#[trigger] self@.components[k]).entity
                    == om.components[k].entity && self@.components[k].component
                    == om.components[k].component by {}
                crate::model::lemma_wf_preserved(old(self)@, self@);
            }
        }
    }

    /// On every entity carrying both components, accumulate `source` into
    /// `target` (wrapping); all source values are read from the state at the
    /// start of the operation.
    pub(crate) fn apply_add_component(&mut self, source: u64, target: u64)
        ensures
            final(self)@.components == add_comp_effect(old(self)@.components, source, target),
            final(self)@.entities == old(self)@.entities,
            final(self)@.next_entity == old(self)@.next_entity,
            final(self)@.resources == old(self)@.resources,
            final(self)@.timing == old(self)@.timing,
            old(self)@.wf() ==> final(self)@.wf(),
    {
        let ghost om = self@;
        let n = self.components.len();
        let mut src_vals: Vec<Option<i64>> = Vec::new();
        let mut i: usize = 0;
        while i < n
            invariant
                i <= n,
                n == self.components@.len(),
                self@ == om,
                src_vals@.len() == i,
                forall|k: int|
                    0 <= k < i ==> src_vals@[k] == comp_value(
                        om.components,
                        om.components[k].entity,
                        source,
                    ),
            decreases n - i,
        {
            let e = self.components[i].entity;
            let sv = self.get_component(e, source);
            src_vals.push(sv);
            i += 1;
        }
        let mut i: usize = 0;
        while i < n
            invariant
                i <= n,
                n == self.components@.len(),
                om.components.len() == n,
                self@.entities == om.entities,
                self@.next_entity == om.next_entity,
                self@.resources == om.resources,
                self@.timing == om.timing,
                src_vals@.len() == n,
                forall|k: int|
                    0 <= k < n ==> src_vals@[k] == comp_value(
                        om.components,
                        om.components[k].entity,
                        source,
                    ),
                forall|k: int|
                    0 <= k < i ==> self.components@[k] == add_comp_effect(
                        om.components,
                        source,
                        target,
                    )[k],
                forall|k: int| i <= k < n ==> self.components@[k] == om.components[k],
            decreases n - i,
        {
            let cell = self.components[i];
            if cell.component == target {
                match src_vals[i] {
                    Option::Some(sv) => {
                        self.components[i] = ComponentCell {
                            entity: cell.entity,
                            component: cell.component,
                            value: cell.value.wrapping_add(sv),
                        };
                    },
                    Option::None => {},
                }
            }
            i += 1;
        }
        proof {
            assert(self@.components =~= add_comp_effect(om.components, source, target));
            if old(self)@.wf() {
                assert forall|k: int|
                    0 <= k < self@.components.len() implies (#[trigger] self@.components[k]).entity
                    == om.components[k].entity && self@.components[k].component
                    == om.components[k].component by {}
                crate::model::lemma_wf_preserved(old(self)@, self@);
            }
        }
    }

    /// Overwrite resource `r` with the wrapping sum of every cell of
    /// component `c`.  The resource cell must already exist; the executor
    /// checks that before applying the operation.
    pub(crate) fn apply_sum_into_resource(&mut self, c: u64, r: u64)
        ensures
            final(self)@.resources == res_update_effect(
                old(self)@.resources,
                r,
                sum_comp(old(self)@.components, c),
            ),
            final(self)@.entities == old(self)@.entities,
            final(self)@.next_entity == old(self)@.next_entity,
            final(self)@.components == old(self)@.components,
            final(self)@.timing == old(self)@.timing,
            old(self)@.wf() ==> final(self)@.wf(),
    {
        let ghost om = self@;
        let n = self.components.len();
        let mut acc: i64 = 0;
        let mut i: usize = 0;
        while i < n
            invariant
                i <= n,
                n == self.components@.len(),
                self@ == om,
                acc == sum_comp(om.components.take(i as int), c),
            decreases n - i,
        {
            let cell = self.components[i];
            proof {
                assert(om.components.take(i + 1).drop_last() =~= om.components.take(i as int));
                assert(om.components.take(i + 1).last() == cell);
            }
            if cell.component == c {
                acc = acc.wrapping_add(cell.value);
            } else {
                acc = acc.wrapping_add(0);
            }
            i += 1;
        }
        proof {
            assert(om.components.take(n as int) =~= om.components);
        }
        self.write_resource_cells(r, acc);
    }

    /// Overwrite resource `r` with `v`.  The resource cell must already
    /// exist; the executor checks that before applying the operation.
    pub(crate) fn apply_set_resource(&mut self, r: u64, v: i64)
        ensures
            final(self)@.resources == res_update_effect(old(self)@.resources, r, v),
            final(self)@.entities == old(self)@.entities,
            final(self)@.next_entity == old(self)@.next_entity,
            final(self)@.components == old(self)@.components,
            final(self)@.timing == old(self)@.timing,
            old(self)@.wf() ==> final(self)@.wf(),
    {
        self.write_resource_cells(r, v);
    }

    /// Overwrite every cell of resource `r` with `v`.
    fn write_resource_cells(&mut self, r: u64, v: i64)
        ensures
            final(self)@.resources == res_update_effect(old(self)@.resources, r, v),
            final(self)@.entities == old(self)@.entities,
            final(self)@.next_entity == old(self)@.next_entity,
            final(self)@.components == old(self)@.components,
            final(self)@.timing == old(self)@.timing,
            old(self)@.wf() ==> final(self)@.wf(),
    {
        let ghost om = self@;
        let n = self.resources.len();
        let mut i: usize = 0;
        while i < n
            invariant
                i <= n,
                n == self.resources@.len(),
                om.resources.len() == n,
                self@.entities == om.entities,
                self@.next_entity == om.next_entity,
                self@.components == om.components,
                self@.timing == om.timing,
                forall|k: int|
                    0 <= k < i ==> self.resources@[k] == res_update_effect(om.resources, r, v)[k],
                forall|k: int| i <= k < n ==> self.resources@[k] == om.resources[k],
            decreases n - i,
        {
            let cell = self.resources[i];
            if cell.resource == r {
                self.resources[i] = ResourceCell { resource: cell.resource, value: v };
            }
            i += 1;
        }
        proof {
            assert(self@.resources =~= res_update_effect(om.resources, r, v));
            if old(self)@.wf() {
                assert forall|k: int|
                    0 <= k < self@.resources.len() implies (#[trigger] self@.resources[k]).resource
                    == om.resources[k].resource by {}
                crate::model::lemma_wf_preserved(old(self)@, self@);
            }
        }
    }

    /// Export a read-only summary of the store for the inspection thread.
    pub fn snapshot(&self) -> (s: WorldSnapshot)
        ensures
            s.entities == self@.entities.len(),
            s.components == self@.components.len(),
            s.resources == self@.resources.len(),
            s.timing == self@.timing,
    {
        WorldSnapshot {
            entities: self.entities.len(),
            components: self.components.len(),
            resources: self.resources.len(),
            timing: self.timing,
        }
    }
}

} // verus!
