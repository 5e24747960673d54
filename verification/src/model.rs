//! Mathematical model of the World Store.
//!
//! The entity/component database is modelled as three sequences: live entity
//! identifiers, component cells (one per entity/component pair) and singleton
//! resource cells, together with the timing record that a dedicated step
//! refreshes at the head of every tick.  The spec functions here are the
//! vocabulary in which every contract of [`crate::world`] and
//! [`crate::schedule`] is stated.

use vstd::prelude::*;

verus! {

/// One component value attached to one entity.  Component types are a closed
/// set of tagged descriptors, so a component is identified by a numeric tag
/// rather than by open-ended runtime reflection.
#[derive(Clone, Copy, Debug, PartialEq, Eq, Structural)]
pub struct ComponentCell {
    pub entity: u64,
    pub component: u64,
    pub value: i64,
}

/// One process-wide singleton value from the World Store's resource
/// side-table.
#[derive(Clone, Copy, Debug, PartialEq, Eq, Structural)]
pub struct ResourceCell {
    pub resource: u64,
    pub value: i64,
}

/// Wall-clock delta since the previous tick and accumulated elapsed time,
/// both in nanoseconds.  Updated once per tick at the head of the schedule;
/// read by any later operation needing frame-relative values.
#[derive(Clone, Copy, Debug, PartialEq, Eq, Structural)]
pub struct Timing {
    pub delta_ns: u64,
    pub elapsed_ns: u64,
}

/// The abstract state of a World Store.
#[verifier::ext_equal]
pub struct WorldModel {
    pub entities: Seq<u64>,
    pub next_entity: u64,
    pub components: Seq<ComponentCell>,
    pub resources: Seq<ResourceCell>,
    pub timing: Timing,
}

impl WorldModel {
    /// Well-formedness: entity identifiers are unique and below the allocator
    /// cursor, each component belongs to a live entity, component keys and
    /// resource keys are unique.
    pub open spec fn wf(self) -> bool {
        &&& forall|i: int, j: int|
            0 <= i < j < self.entities.len() ==> self.entities[i] != self.entities[j]
        &&& forall|i: int| 0 <= i < self.entities.len() ==> self.entities[i] < self.next_entity
        &&& forall|i: int|
            0 <= i < self.components.len() ==> self.entities.contains(self.components[i].entity)
        &&& forall|i: int, j: int|
            0 <= i < j < self.components.len() ==> !(self.components[i].entity
                == self.components[j].entity && self.components[i].component
                == self.components[j].component)
        &&& forall|i: int, j: int|
            0 <= i < j < self.resources.len() ==> self.resources[i].resource
                != self.resources[j].resource
    }
}

/// Index of the first cell for entity `e`, component `c`, or -1 if none.
pub open spec fn comp_index(cs: Seq<ComponentCell>, e: u64, c: u64) -> int
    decreases cs.len(),
{
    if cs.len() <= 0 {
        -1
    } else if cs[0].entity == e && cs[0].component == c {
        0
    } else {
        let rest = comp_index(cs.drop_first(), e, c);
        if rest < 0 {
            -1
        } else {
            rest + 1
        }
    }
}

/// The value of component `c` on entity `e`, if attached.
pub open spec fn comp_value(cs: Seq<ComponentCell>, e: u64, c: u64) -> Option<i64> {
    if comp_index(cs, e, c) >= 0 {
        Some(cs[comp_index(cs, e, c)].value)
    } else {
        None
    }
}

/// `comp_index` finds the first matching cell: it is in range, it matches,
/// nothing before it matches, and it is negative exactly when nothing matches.
pub proof fn lemma_comp_index(cs: Seq<ComponentCell>, e: u64, c: u64)
    ensures
        comp_index(cs, e, c) >= 0 <==> exists|i: int|
            0 <= i < cs.len() && cs[i].entity == e && cs[i].component == c,
        comp_index(cs, e, c) >= 0 ==> {
            let k = comp_index(cs, e, c);
            &&& k < cs.len()
            &&& cs[k].entity == e && cs[k].component == c
            &&& forall|j: int| 0 <= j < k ==> !(cs[j].entity == e && cs[j].component == c)
        },
    decreases cs.len(),
{
    if cs.len() > 0 && !(cs[0].entity == e && cs[0].component == c) {
        lemma_comp_index(cs.drop_first(), e, c);
        let rest = cs.drop_first();
        if comp_index(rest, e, c) >= 0 {
            let k = comp_index(rest, e, c);
            assert(cs[k + 1] == rest[k]);
            assert(forall|j: int| 0 <= j < k + 1 ==> !(cs[j].entity == e && cs[j].component == c))
                by {
                assert(forall|j: int| 1 <= j < k + 1 ==> cs[j] == rest[j - 1]);
            }
        } else {
            if exists|i: int| 0 <= i < cs.len() && cs[i].entity == e && cs[i].component == c {
                let i = choose|i: int|
                    0 <= i < cs.len() && cs[i].entity == e && cs[i].component == c;
                assert(i >= 1);
                assert(rest[i - 1] == cs[i]);
                assert(false);
            }
        }
    }
}

/// Index of the cell for resource `r`, or -1 if none.
pub open spec fn res_index(rs: Seq<ResourceCell>, r: u64) -> int
    decreases rs.len(),
{
    if rs.len() <= 0 {
        -1
    } else if rs[0].resource == r {
        0
    } else {
        let rest = res_index(rs.drop_first(), r);
        if rest < 0 {
            -1
        } else {
            rest + 1
        }
    }
}

/// The value of singleton resource `r`, if inserted.
pub open spec fn res_value(rs: Seq<ResourceCell>, r: u64) -> Option<i64> {
    if res_index(rs, r) >= 0 {
        Some(rs[res_index(rs, r)].value)
    } else {
        None
    }
}

/// `res_index` finds the first matching cell, in the same sense as
/// `lemma_comp_index`.
pub proof fn lemma_res_index(rs: Seq<ResourceCell>, r: u64)
    ensures
        res_index(rs, r) >= 0 <==> exists|i: int| 0 <= i < rs.len() && rs[i].resource == r,
        res_index(rs, r) >= 0 ==> {
            let k = res_index(rs, r);
            &&& k < rs.len()
            &&& rs[k].resource == r
            &&& forall|j: int| 0 <= j < k ==> rs[j].resource != r
        },
    decreases rs.len(),
{
    if rs.len() > 0 && rs[0].resource != r {
        lemma_res_index(rs.drop_first(), r);
        let rest = rs.drop_first();
        if res_index(rest, r) >= 0 {
            let k = res_index(rest, r);
            assert(rs[k + 1] == rest[k]);
            assert(forall|j: int| 0 <= j < k + 1 ==> rs[j].resource != r) by {
                assert(forall|j: int| 1 <= j < k + 1 ==> rs[j] == rest[j - 1]);
            }
        } else {
            if exists|i: int| 0 <= i < rs.len() && rs[i].resource == r {
                let i = choose|i: int| 0 <= i < rs.len() && rs[i].resource == r;
                assert(i >= 1);
                assert(rest[i - 1] == rs[i]);
                assert(false);
            }
        }
    }
}

/// Two's-complement wrapping addition, the arithmetic of every component
/// write.
pub open spec fn wadd(a: i64, b: i64) -> i64 {
    vstd::wrapping::i64_specs::wrapping_add(a, b)
}

/// Every cell of component `c` is overwritten with `v`; nothing else changes.
pub open spec fn set_comp_effect(cs: Seq<ComponentCell>, c: u64, v: i64) -> Seq<ComponentCell> {
    Seq::new(
        cs.len(),
        |i: int|
            if cs[i].component == c {
                ComponentCell { entity: cs[i].entity, component: cs[i].component, value: v }
            } else {
                cs[i]
            },
    )
}

/// On every entity carrying both components, `target` accumulates `source`
/// (wrapping); source values are read from the pre-operation state.
pub open spec fn add_comp_effect(cs: Seq<ComponentCell>, source: u64, target: u64) -> Seq<
    ComponentCell,
> {
    Seq::new(
        cs.len(),
        |i: int|
            if cs[i].component == target {
                match comp_value(cs, cs[i].entity, source) {
                    Option::Some(sv) => ComponentCell {
                        entity: cs[i].entity,
                        component: cs[i].component,
                        value: wadd(cs[i].value, sv),
                    },
                    Option::None => cs[i],
                }
            } else {
                cs[i]
            },
    )
}

/// Wrapping sum of every cell of component `c`, in cell order.
pub open spec fn sum_comp(cs: Seq<ComponentCell>, c: u64) -> i64
    decreases cs.len(),
{
    if cs.len() <= 0 {
        0i64
    } else {
        wadd(
            sum_comp(cs.drop_last(), c),
            if cs.last().component == c {
                cs.last().value
            } else {
                0i64
            },
        )
    }
}

/// Every cell of resource `r` is overwritten with `v`; nothing else changes.
/// (No cell is created: writing an absent resource is an operation failure,
/// caught before this effect is applied.)
pub open spec fn res_update_effect(rs: Seq<ResourceCell>, r: u64, v: i64) -> Seq<ResourceCell> {
    Seq::new(
        rs.len(),
        |i: int|
            if rs[i].resource == r {
                ResourceCell { resource: rs[i].resource, value: v }
            } else {
                rs[i]
            },
    )
}

/// Insert-or-overwrite for the resource side-table.
pub open spec fn res_upsert(rs: Seq<ResourceCell>, r: u64, v: i64) -> Seq<ResourceCell> {
    if res_index(rs, r) >= 0 {
        rs.update(res_index(rs, r), ResourceCell { resource: r, value: v })
    } else {
        rs.push(ResourceCell { resource: r, value: v })
    }
}

/// Insert-or-overwrite for a component cell.
pub open spec fn comp_upsert(cs: Seq<ComponentCell>, e: u64, c: u64, v: i64) -> Seq<
    ComponentCell,
> {
    if comp_index(cs, e, c) >= 0 {
        cs.update(comp_index(cs, e, c), ComponentCell { entity: e, component: c, value: v })
    } else {
        cs.push(ComponentCell { entity: e, component: c, value: v })
    }
}

/// The component table with the cell for `(e, c)` removed.
pub open spec fn detach_effect(cs: Seq<ComponentCell>, e: u64, c: u64) -> Seq<ComponentCell>
    decreases cs.len(),
{
    if cs.len() <= 0 {
        Seq::empty()
    } else {
        let prefix = detach_effect(cs.drop_last(), e, c);
        if cs.last().entity == e && cs.last().component == c {
            prefix
        } else {
            prefix.push(cs.last())
        }
    }
}

/// The component table with every cell of entity `e` removed.
pub open spec fn remove_entity_effect(cs: Seq<ComponentCell>, e: u64) -> Seq<ComponentCell>
    decreases cs.len(),
{
    if cs.len() <= 0 {
        Seq::empty()
    } else {
        let prefix = remove_entity_effect(cs.drop_last(), e);
        if cs.last().entity == e {
            prefix
        } else {
            prefix.push(cs.last())
        }
    }
}

/// The entity list with identifier `e` removed.
pub open spec fn entities_without(es: Seq<u64>, e: u64) -> Seq<u64>
    decreases es.len(),
{
    if es.len() <= 0 {
        Seq::empty()
    } else {
        let prefix = entities_without(es.drop_last(), e);
        if es.last() == e {
            prefix
        } else {
            prefix.push(es.last())
        }
    }
}

/// Well-formedness only depends on the entity list and on the keys of the
/// component and resource tables, so any value-preserving rewrite keeps it.
pub proof fn lemma_wf_preserved(w1: WorldModel, w2: WorldModel)
    requires
        w1.wf(),
        w2.next_entity == w1.next_entity,
        w2.entities == w1.entities,
        w2.components.len() == w1.components.len(),
        forall|i: int|
            0 <= i < w2.components.len() ==> (#[trigger] w2.components[i]).entity
                == w1.components[i].entity && w2.components[i].component
                == w1.components[i].component,
        w2.resources.len() == w1.resources.len(),
        forall|i: int|
            0 <= i < w2.resources.len() ==> (#[trigger] w2.resources[i]).resource
                == w1.resources[i].resource,
    ensures
        w2.wf(),
{
    assert forall|i: int, j: int| 0 <= i < j < w2.entities.len() implies w2.entities[i]
        != w2.entities[j] by {
        assert(w2.entities[i] == w1.entities[i]);
        assert(w2.entities[j] == w1.entities[j]);
    }
    assert forall|i: int| 0 <= i < w2.entities.len() implies w2.entities[i] < w2.next_entity by {
        assert(w2.entities[i] == w1.entities[i]);
    }
    assert forall|i: int|
        0 <= i < w2.components.len() implies w2.entities.contains(
        #[trigger] w2.components[i].entity,
    ) by {
        assert(w1.entities.contains(w1.components[i].entity));
        let k = choose|k: int|
            0 <= k < w1.entities.len() && w1.entities[k] == w1.components[i].entity;
        assert(w2.entities[k] == w1.entities[k]);
    }
    assert forall|i: int, j: int|
        0 <= i < j < w2.components.len() implies !(w2.components[i].entity
        == w2.components[j].entity && w2.components[i].component
        == w2.components[j].component) by {
        assert(w2.components[i].entity == w1.components[i].entity && w2.components[i].component
            == w1.components[i].component);
        assert(w2.components[j].entity == w1.components[j].entity && w2.components[j].component
            == w1.components[j].component);
    }
    assert forall|i: int, j: int| 0 <= i < j < w2.resources.len() implies w2.resources[i].resource
        != w2.resources[j].resource by {
        assert(w2.resources[i].resource == w1.resources[i].resource);
        assert(w2.resources[j].resource == w1.resources[j].resource);
    }
}

/// Every cell kept by `detach_effect` comes from the input table and does not
/// carry the detached key; key uniqueness is preserved.
pub proof fn lemma_detach_effect(cs: Seq<ComponentCell>, e: u64, c: u64)
    ensures
        forall|i: int|
            0 <= i < detach_effect(cs, e, c).len() ==> cs.contains(
                #[trigger] detach_effect(cs, e, c)[i],
            ) && !(detach_effect(cs, e, c)[i].entity == e && detach_effect(cs, e, c)[i].component
                == c),
        (forall|i: int, j: int|
            0 <= i < j < cs.len() ==> !(cs[i].entity == cs[j].entity && cs[i].component
                == cs[j].component)) ==> (forall|i: int, j: int|
            0 <= i < j < detach_effect(cs, e, c).len() ==> !(detach_effect(cs, e, c)[i].entity
                == detach_effect(cs, e, c)[j].entity && detach_effect(cs, e, c)[i].component
                == detach_effect(cs, e, c)[j].component)),
    decreases cs.len(),
{
    if cs.len() > 0 {
        let rest = cs.drop_last();
        lemma_detach_effect(rest, e, c);
        assert forall|x: ComponentCell| rest.contains(x) implies cs.contains(x) by {
            let i = choose|i: int| 0 <= i < rest.len() && rest[i] == x;
            assert(cs[i] == x);
        }
        assert(cs.contains(cs.last())) by {
            assert(cs[cs.len() - 1] == cs.last());
        }
        if forall|i: int, j: int|
            0 <= i < j < cs.len() ==> !(cs[i].entity == cs[j].entity && cs[i].component
                == cs[j].component) {
            let p = detach_effect(rest, e, c);
            if !(cs.last().entity == e && cs.last().component == c) {
                assert forall|i: int| 0 <= i < p.len() implies !(p[i].entity == cs.last().entity
                    && p[i].component == cs.last().component) by {
                    let j = choose|j: int| 0 <= j < rest.len() && rest[j] == p[i];
                    assert(cs[j] == p[i]);
                }
            }
        }
    }
}

/// Every cell kept by `remove_entity_effect` comes from the input table and
/// does not belong to the removed entity; key uniqueness is preserved.
pub proof fn lemma_remove_entity_effect(cs: Seq<ComponentCell>, e: u64)
    ensures
        forall|i: int|
            0 <= i < remove_entity_effect(cs, e).len() ==> cs.contains(
                #[trigger] remove_entity_effect(cs, e)[i],
            ) && remove_entity_effect(cs, e)[i].entity != e,
        (forall|i: int, j: int|
            0 <= i < j < cs.len() ==> !(cs[i].entity == cs[j].entity && cs[i].component
                == cs[j].component)) ==> (forall|i: int, j: int|
            0 <= i < j < remove_entity_effect(cs, e).len() ==> !(remove_entity_effect(cs, e)[i].entity
                == remove_entity_effect(cs, e)[j].entity && remove_entity_effect(cs, e)[i].component
                == remove_entity_effect(cs, e)[j].component)),
    decreases cs.len(),
{
    if cs.len() > 0 {
        let rest = cs.drop_last();
        lemma_remove_entity_effect(rest, e);
        assert forall|x: ComponentCell| rest.contains(x) implies cs.contains(x) by {
            let i = choose|i: int| 0 <= i < rest.len() && rest[i] == x;
            assert(cs[i] == x);
        }
        assert(cs.contains(cs.last())) by {
            assert(cs[cs.len() - 1] == cs.last());
        }
        if forall|i: int, j: int|
            0 <= i < j < cs.len() ==> !(cs[i].entity == cs[j].entity && cs[i].component
                == cs[j].component) {
            let p = remove_entity_effect(rest, e);
            if cs.last().entity != e {
                assert forall|i: int| 0 <= i < p.len() implies !(p[i].entity == cs.last().entity
                    && p[i].component == cs.last().component) by {
                    let j = choose|j: int| 0 <= j < rest.len() && rest[j] == p[i];
                    assert(cs[j] == p[i]);
                }
            }
        }
    }
}

/// `entities_without(es, e)` holds exactly the members of `es` other than
/// `e`, and stays duplicate-free when `es` is.
pub proof fn lemma_entities_without(es: Seq<u64>, e: u64)
    ensures
        forall|x: u64|
            #[trigger] entities_without(es, e).contains(x) <==> (es.contains(x) && x != e),
        (forall|i: int, j: int| 0 <= i < j < es.len() ==> es[i] != es[j]) ==> (forall|i: int, j: int|
            0 <= i < j < entities_without(es, e).len() ==> entities_without(es, e)[i]
                != entities_without(es, e)[j]),
    decreases es.len(),
{
    if es.len() > 0 {
        let rest = es.drop_last();
        lemma_entities_without(rest, e);
        assert forall|x: u64| rest.contains(x) implies es.contains(x) by {
            let i = choose|i: int| 0 <= i < rest.len() && rest[i] == x;
            assert(es[i] == x);
        }
        assert(es.contains(es.last())) by {
            assert(es[es.len() - 1] == es.last());
        }
        assert forall|x: u64| es.contains(x) implies rest.contains(x) || x == es.last() by {
            let i = choose|i: int| 0 <= i < es.len() && es[i] == x;
            if i < es.len() - 1 {
                assert(rest[i] == x);
            }
        }
        let p = entities_without(rest, e);
        if es.last() == e {
            assert(entities_without(es, e) == p);
            assert forall|x: u64| #[trigger] entities_without(es, e).contains(x) implies (
            es.contains(x) && x != e) by {}
            assert forall|x: u64| es.contains(x) && x != e implies entities_without(
                es,
                e,
            ).contains(x) by {
                assert(rest.contains(x) || x == es.last());
            }
        }
        if es.last() != e {
            assert(entities_without(es, e) == p.push(es.last()));
            assert forall|x: u64| #[trigger] entities_without(es, e).contains(x) implies (
            es.contains(x) && x != e) by {
                let i = choose|i: int|
                    0 <= i < p.push(es.last()).len() && p.push(es.last())[i] == x;
                if i < p.len() {
                    assert(p[i] == x);
                    assert(p.contains(x));
                } else {
                    assert(x == es.last());
                }
            }
            assert forall|x: u64| es.contains(x) && x != e implies #[trigger] entities_without(
                es,
                e,
            ).contains(x) by {
                if rest.contains(x) && x != e {
                    assert(p.contains(x));
                    let i = choose|i: int| 0 <= i < p.len() && p[i] == x;
                    assert(p.push(es.last())[i] == x);
                } else {
                    assert(x == es.last());
                    assert(p.push(es.last())[p.len() as int] == x);
                }
            }
            if forall|i: int, j: int| 0 <= i < j < es.len() ==> es[i] != es[j] {
                assert forall|i: int| 0 <= i < p.len() implies p[i] != es.last() by {
                    assert(p.contains(p[i]));
                    assert(rest.contains(p[i]));
                    let j = choose|j: int| 0 <= j < rest.len() && rest[j] == p[i];
                    assert(es[j] == p[i]);
                }
            }
        }
    }
}

/// Attaching a component preserves well-formedness: an existing cell keeps
/// its key, a fresh cell is keyed by a live entity and a key not yet present.
pub proof fn lemma_wf_upsert(w1: WorldModel, w2: WorldModel, e: u64, c: u64, v: i64)
    requires
        w1.wf(),
        w1.entities.contains(e),
        w2.next_entity == w1.next_entity,
        w2.entities == w1.entities,
        w2.components == comp_upsert(w1.components, e, c, v),
        w2.resources == w1.resources,
    ensures
        w2.wf(),
{
    lemma_comp_index(w1.components, e, c);
    let cs = w1.components;
    let k = comp_index(cs, e, c);
    if k >= 0 {
        assert forall|i: int|
            0 <= i < w2.components.len() implies (#[trigger] w2.components[i]).entity
            == cs[i].entity && w2.components[i].component == cs[i].component by {
            if i != k {
                assert(w2.components[i] == cs[i]);
            } else {
                assert(w2.components[i] == ComponentCell { entity: e, component: c, value: v });
                assert(cs[k].entity == e && cs[k].component == c);
            }
        }
        lemma_wf_preserved(w1, w2);
    } else {
        let cell = ComponentCell { entity: e, component: c, value: v };
        assert forall|i: int, j: int| 0 <= i < j < w2.entities.len() implies w2.entities[i]
            != w2.entities[j] by {
            assert(w2.entities[i] == w1.entities[i]);
            assert(w2.entities[j] == w1.entities[j]);
        }
        assert forall|i: int| 0 <= i < w2.entities.len() implies w2.entities[i]
            < w2.next_entity by {
            assert(w2.entities[i] == w1.entities[i]);
        }
        assert forall|i: int|
            0 <= i < w2.components.len() implies w2.entities.contains(
            #[trigger] w2.components[i].entity,
        ) by {
            if i < cs.len() {
                assert(w2.components[i] == cs[i]);
                assert(w1.entities.contains(cs[i].entity));
                let m = choose|m: int| 0 <= m < w1.entities.len() && w1.entities[m] == cs[i].entity;
                assert(w2.entities[m] == w1.entities[m]);
            } else {
                assert(w2.components[i] == cell);
                let m = choose|m: int| 0 <= m < w1.entities.len() && w1.entities[m] == e;
                assert(w2.entities[m] == w1.entities[m]);
            }
        }
        assert forall|i: int, j: int|
            0 <= i < j < w2.components.len() implies !(w2.components[i].entity
            == w2.components[j].entity && w2.components[i].component
            == w2.components[j].component) by {
            if j < cs.len() {
                assert(w2.components[i] == cs[i]);
                assert(w2.components[j] == cs[j]);
            } else {
                assert(w2.components[i] == cs[i]);
                assert(w2.components[j] == cell);
                assert(!(cs[i].entity == e && cs[i].component == c));
            }
        }
        assert forall|i: int, j: int|
            0 <= i < j < w2.resources.len() implies w2.resources[i].resource
            != w2.resources[j].resource by {
            assert(w2.resources[i] == w1.resources[i]);
            assert(w2.resources[j] == w1.resources[j]);
        }
    }
}

/// Inserting or overwriting a resource preserves well-formedness.
pub proof fn lemma_wf_res_upsert(w1: WorldModel, w2: WorldModel, r: u64, v: i64)
    requires
        w1.wf(),
        w2.next_entity == w1.next_entity,
        w2.entities == w1.entities,
        w2.components == w1.components,
        w2.resources == res_upsert(w1.resources, r, v),
    ensures
        w2.wf(),
{
    lemma_res_index(w1.resources, r);
    let rs = w1.resources;
    let k = res_index(rs, r);
    if k >= 0 {
        assert forall|i: int|
            0 <= i < w2.resources.len() implies (#[trigger] w2.resources[i]).resource
            == rs[i].resource by {
            if i != k {
                assert(w2.resources[i] == rs[i]);
            } else {
                assert(rs[k].resource == r);
            }
        }
        lemma_wf_preserved(w1, w2);
    } else {
        assert forall|i: int, j: int| 0 <= i < j < w2.entities.len() implies w2.entities[i]
            != w2.entities[j] by {
            assert(w2.entities[i] == w1.entities[i]);
            assert(w2.entities[j] == w1.entities[j]);
        }
        assert forall|i: int| 0 <= i < w2.entities.len() implies w2.entities[i]
            < w2.next_entity by {
            assert(w2.entities[i] == w1.entities[i]);
        }
        assert forall|i: int|
            0 <= i < w2.components.len() implies w2.entities.contains(
            #[trigger] w2.components[i].entity,
        ) by {
            assert(w2.components[i] == w1.components[i]);
            assert(w1.entities.contains(w1.components[i].entity));
            let m = choose|m: int|
                0 <= m < w1.entities.len() && w1.entities[m] == w1.components[i].entity;
            assert(w2.entities[m] == w1.entities[m]);
        }
        assert forall|i: int, j: int|
            0 <= i < j < w2.components.len() implies !(w2.components[i].entity
            == w2.components[j].entity && w2.components[i].component
            == w2.components[j].component) by {
            assert(w2.components[i] == w1.components[i]);
            assert(w2.components[j] == w1.components[j]);
        }
        assert forall|i: int, j: int|
            0 <= i < j < w2.resources.len() implies w2.resources[i].resource
            != w2.resources[j].resource by {
            if j < rs.len() {
                assert(w2.resources[i] == rs[i]);
                assert(w2.resources[j] == rs[j]);
            } else {
                assert(w2.resources[i] == rs[i]);
                assert(rs[i].resource != r);
            }
        }
    }
}

/// After `res_upsert`, the resource reads back as the inserted value.
pub proof fn lemma_res_upsert_value(rs: Seq<ResourceCell>, r: u64, v: i64)
    ensures
        res_value(res_upsert(rs, r, v), r) == Option::Some(v),
{
    lemma_res_index(rs, r);
    let u = res_upsert(rs, r, v);
    lemma_res_index(u, r);
    let k = res_index(rs, r);
    let k2 = res_index(u, r);
    if k >= 0 {
        assert(u[k].resource == r);
        assert(k2 >= 0);
        if k2 < k {
            assert(u[k2] == rs[k2]);
            assert(false);
        }
        if k2 > k {
            assert(false);
        }
    } else {
        assert(u[rs.len() as int].resource == r);
        assert(k2 >= 0);
        if k2 < rs.len() {
            assert(u[k2] == rs[k2]);
            assert(rs[k2].resource == r);
            assert(false);
        }
    }
}

/// After `comp_upsert`, the component reads back as the inserted value.
pub proof fn lemma_comp_upsert_value(cs: Seq<ComponentCell>, e: u64, c: u64, v: i64)
    ensures
        comp_value(comp_upsert(cs, e, c, v), e, c) == Option::Some(v),
{
    lemma_comp_index(cs, e, c);
    let u = comp_upsert(cs, e, c, v);
    lemma_comp_index(u, e, c);
    let k = comp_index(cs, e, c);
    let k2 = comp_index(u, e, c);
    if k >= 0 {
        assert(u[k].entity == e && u[k].component == c);
        assert(k2 >= 0);
        if k2 < k {
            assert(u[k2] == cs[k2]);
            assert(false);
        }
        if k2 > k {
            assert(false);
        }
    } else {
        assert(u[cs.len() as int].entity == e && u[cs.len() as int].component == c);
        assert(k2 >= 0);
        if k2 < cs.len() {
            assert(u[k2] == cs[k2]);
            assert(cs[k2].entity == e && cs[k2].component == c);
            assert(false);
        }
    }
}

/// Detaching a component preserves well-formedness.
pub proof fn lemma_wf_detach(w1: WorldModel, w2: WorldModel, e: u64, c: u64)
    requires
        w1.wf(),
        w2.next_entity == w1.next_entity,
        w2.entities == w1.entities,
        w2.components == detach_effect(w1.components, e, c),
        w2.resources == w1.resources,
    ensures
        w2.wf(),
{
    lemma_detach_effect(w1.components, e, c);
    let d = detach_effect(w1.components, e, c);
    assert forall|i: int, j: int| 0 <= i < j < w2.entities.len() implies w2.entities[i]
        != w2.entities[j] by {
        assert(w2.entities[i] == w1.entities[i]);
        assert(w2.entities[j] == w1.entities[j]);
    }
    assert forall|i: int| 0 <= i < w2.entities.len() implies w2.entities[i] < w2.next_entity by {
        assert(w2.entities[i] == w1.entities[i]);
    }
    assert forall|i: int|
        0 <= i < w2.components.len() implies w2.entities.contains(
        #[trigger] w2.components[i].entity,
    ) by {
        assert(w1.components.contains(d[i]));
        let j = choose|j: int| 0 <= j < w1.components.len() && w1.components[j] == d[i];
        assert(w1.entities.contains(w1.components[j].entity));
        let m = choose|m: int|
            0 <= m < w1.entities.len() && w1.entities[m] == w1.components[j].entity;
        assert(w2.entities[m] == w1.entities[m]);
    }
    assert forall|i: int, j: int| 0 <= i < j < w2.resources.len() implies w2.resources[i].resource
        != w2.resources[j].resource by {
        assert(w2.resources[i] == w1.resources[i]);
        assert(w2.resources[j] == w1.resources[j]);
    }
}

/// Destroying an entity (and its components) preserves well-formedness.
pub proof fn lemma_wf_destroy(w1: WorldModel, w2: WorldModel, e: u64)
    requires
        w1.wf(),
        w2.next_entity == w1.next_entity,
        w2.entities == entities_without(w1.entities, e),
        w2.components == remove_entity_effect(w1.components, e),
        w2.resources == w1.resources,
    ensures
        w2.wf(),
{
    lemma_entities_without(w1.entities, e);
    lemma_remove_entity_effect(w1.components, e);
    let d = remove_entity_effect(w1.components, e);
    assert forall|i: int| 0 <= i < w2.entities.len() implies w2.entities[i] < w2.next_entity by {
        assert(w2.entities.contains(w2.entities[i]));
        assert(w1.entities.contains(w2.entities[i]));
        let m = choose|m: int| 0 <= m < w1.entities.len() && w1.entities[m] == w2.entities[i];
    }
    assert forall|i: int|
        0 <= i < w2.components.len() implies w2.entities.contains(
        #[trigger] w2.components[i].entity,
    ) by {
        assert(w1.components.contains(d[i]));
        assert(d[i].entity != e);
        let j = choose|j: int| 0 <= j < w1.components.len() && w1.components[j] == d[i];
        assert(w1.entities.contains(w1.components[j].entity));
    }
    assert forall|i: int, j: int| 0 <= i < j < w2.resources.len() implies w2.resources[i].resource
        != w2.resources[j].resource by {
        assert(w2.resources[i] == w1.resources[i]);
        assert(w2.resources[j] == w1.resources[j]);
    }
}

/// Reading a component after `set_comp_effect`: the overwritten component
/// reads the new value wherever it was attached; every other component is
/// untouched.
pub proof fn lemma_set_comp_value(cs: Seq<ComponentCell>, c: u64, v: i64, e: u64, c2: u64)
    ensures
        c2 == c ==> comp_value(set_comp_effect(cs, c, v), e, c2) == (if comp_value(
            cs,
            e,
            c2,
        ) is Some {
            Option::Some(v)
        } else {
            Option::<i64>::None
        }),
        c2 != c ==> comp_value(set_comp_effect(cs, c, v), e, c2) == comp_value(cs, e, c2),
{
    let u = set_comp_effect(cs, c, v);
    assert forall|i: int|
        0 <= i < u.len() implies (#[trigger] u[i]).entity == cs[i].entity && u[i].component
        == cs[i].component by {}
    lemma_comp_index_agree(u, cs, e, c2);
    lemma_comp_index(cs, e, c2);
    let k = comp_index(cs, e, c2);
    if k >= 0 {
        assert(u[k] == if cs[k].component == c {
            ComponentCell { entity: cs[k].entity, component: cs[k].component, value: v }
        } else {
            cs[k]
        });
    }
}

/// Reading a resource after `res_update_effect`: the overwritten resource
/// reads the new value if its cell exists; every other resource is
/// untouched.
pub proof fn lemma_res_update_value(rs: Seq<ResourceCell>, r: u64, v: i64, r2: u64)
    ensures
        r2 == r ==> res_value(res_update_effect(rs, r, v), r2) == (if res_value(rs, r2) is Some {
            Option::Some(v)
        } else {
            Option::<i64>::None
        }),
        r2 != r ==> res_value(res_update_effect(rs, r, v), r2) == res_value(rs, r2),
{
    let u = res_update_effect(rs, r, v);
    assert forall|i: int|
        0 <= i < u.len() implies (#[trigger] u[i]).resource == rs[i].resource by {}
    lemma_res_index_agree(u, rs, r2);
    lemma_res_index(rs, r2);
    let k = res_index(rs, r2);
    if k >= 0 {
        assert(u[k] == if rs[k].resource == r {
            ResourceCell { resource: rs[k].resource, value: v }
        } else {
            rs[k]
        });
    }
}

/// Reading a resource after `res_upsert`: the inserted resource reads the
/// new value; every other resource is untouched.
pub proof fn lemma_res_upsert_other(rs: Seq<ResourceCell>, r: u64, v: i64, r2: u64)
    requires
        r2 != r,
    ensures
        res_value(res_upsert(rs, r, v), r2) == res_value(rs, r2),
{
    lemma_res_index(rs, r);
    lemma_res_index(rs, r2);
    let u = res_upsert(rs, r, v);
    lemma_res_index(u, r2);
    let k = res_index(rs, r);
    let m = res_index(rs, r2);
    let m2 = res_index(u, r2);
    if k >= 0 {
        assert forall|i: int|
            0 <= i < u.len() implies (#[trigger] u[i]).resource == rs[i].resource by {
            if i != k {
                assert(u[i] == rs[i]);
            } else {
                assert(rs[k].resource == r);
            }
        }
        lemma_res_index_agree(u, rs, r2);
        if m >= 0 {
            assert(m != k);
            assert(u[m] == rs[m]);
        }
    } else {
        if m >= 0 {
            assert(u[m] == rs[m]);
            assert(m2 >= 0);
            if m2 < m {
                assert(u[m2] == rs[m2]);
                assert(false);
            }
            if m2 > m {
                assert(false);
            }
        } else {
            if m2 >= 0 {
                assert(u[m2].resource == r2);
                if m2 < rs.len() {
                    assert(u[m2] == rs[m2]);
                    assert(false);
                } else {
                    assert(u[m2] == ResourceCell { resource: r, value: v });
                    assert(false);
                }
            }
        }
    }
}

/// `comp_index` depends only on the keys of the table, not on the values.
pub proof fn lemma_comp_index_agree(
    cs1: Seq<ComponentCell>,
    cs2: Seq<ComponentCell>,
    e: u64,
    c: u64,
)
    requires
        cs1.len() == cs2.len(),
        forall|i: int|
            0 <= i < cs1.len() ==> (#[trigger] cs1[i]).entity == cs2[i].entity && cs1[i].component
                == cs2[i].component,
    ensures
        comp_index(cs1, e, c) == comp_index(cs2, e, c),
    decreases cs1.len(),
{
    if cs1.len() > 0 && !(cs1[0].entity == e && cs1[0].component == c) {
        assert forall|i: int|
            0 <= i < cs1.drop_first().len() implies (#[trigger] cs1.drop_first()[i]).entity
            == cs2.drop_first()[i].entity && cs1.drop_first()[i].component
            == cs2.drop_first()[i].component by {
            assert(cs1.drop_first()[i] == cs1[i + 1]);
            assert(cs2.drop_first()[i] == cs2[i + 1]);
        }
        lemma_comp_index_agree(cs1.drop_first(), cs2.drop_first(), e, c);
    }
}

/// `comp_value` depends only on the keys and on the values of the looked-up
/// component.
pub proof fn lemma_comp_value_agree(
    cs1: Seq<ComponentCell>,
    cs2: Seq<ComponentCell>,
    e: u64,
    c: u64,
)
    requires
        cs1.len() == cs2.len(),
        forall|i: int|
            0 <= i < cs1.len() ==> (#[trigger] cs1[i]).entity == cs2[i].entity && cs1[i].component
                == cs2[i].component,
        forall|i: int|
            0 <= i < cs1.len() && (#[trigger] cs1[i]).component == c ==> cs1[i].value
                == cs2[i].value,
    ensures
        comp_value(cs1, e, c) == comp_value(cs2, e, c),
{
    lemma_comp_index_agree(cs1, cs2, e, c);
    lemma_comp_index(cs1, e, c);
    let k = comp_index(cs1, e, c);
    if k >= 0 {
        assert(cs1[k].component == c);
    }
}

/// `res_index` depends only on the keys of the side-table.
pub proof fn lemma_res_index_agree(rs1: Seq<ResourceCell>, rs2: Seq<ResourceCell>, r: u64)
    requires
        rs1.len() == rs2.len(),
        forall|i: int| 0 <= i < rs1.len() ==> (#[trigger] rs1[i]).resource == rs2[i].resource,
    ensures
        res_index(rs1, r) == res_index(rs2, r),
    decreases rs1.len(),
{
    if rs1.len() > 0 && rs1[0].resource != r {
        assert forall|i: int|
            0 <= i < rs1.drop_first().len() implies (#[trigger] rs1.drop_first()[i]).resource
            == rs2.drop_first()[i].resource by {
            assert(rs1.drop_first()[i] == rs1[i + 1]);
            assert(rs2.drop_first()[i] == rs2[i + 1]);
        }
        lemma_res_index_agree(rs1.drop_first(), rs2.drop_first(), r);
    }
}

/// `sum_comp` depends only on the keys and on the values of the summed
/// component.
pub proof fn lemma_sum_agree(cs1: Seq<ComponentCell>, cs2: Seq<ComponentCell>, c: u64)
    requires
        cs1.len() == cs2.len(),
        forall|i: int|
            0 <= i < cs1.len() ==> (#[trigger] cs1[i]).entity == cs2[i].entity && cs1[i].component
                == cs2[i].component,
        forall|i: int|
            0 <= i < cs1.len() && (#[trigger] cs1[i]).component == c ==> cs1[i].value
                == cs2[i].value,
    ensures
        sum_comp(cs1, c) == sum_comp(cs2, c),
    decreases cs1.len(),
{
    if cs1.len() > 0 {
        assert forall|i: int|
            0 <= i < cs1.drop_last().len() implies (#[trigger] cs1.drop_last()[i]).entity
            == cs2.drop_last()[i].entity && cs1.drop_last()[i].component
            == cs2.drop_last()[i].component by {
            assert(cs1.drop_last()[i] == cs1[i]);
            assert(cs2.drop_last()[i] == cs2[i]);
        }
        assert forall|i: int|
            0 <= i < cs1.drop_last().len() && (#[trigger] cs1.drop_last()[i]).component
            == c implies cs1.drop_last()[i].value == cs2.drop_last()[i].value by {
            assert(cs1.drop_last()[i] == cs1[i]);
            assert(cs2.drop_last()[i] == cs2[i]);
        }
        lemma_sum_agree(cs1.drop_last(), cs2.drop_last(), c);
        assert(cs1.last() == cs1[cs1.len() - 1]);
        assert(cs2.last() == cs2[cs2.len() - 1]);
    }
}

/// The timing record after one tick of `delta_ns` nanoseconds; the
/// accumulated time saturates rather than wraps.
pub open spec fn timing_advance(t: Timing, delta_ns: u64) -> Timing {
    Timing {
        delta_ns,
        elapsed_ns: if t.elapsed_ns + delta_ns > u64::MAX {
            u64::MAX
        } else {
            (t.elapsed_ns + delta_ns) as u64
        },
    }
}

} // verus!
