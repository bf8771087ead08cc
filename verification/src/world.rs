//! A model of the live entity-component world, as the editor sees it: for
//! each entity, the ordered set of component instances it carries.
//!
//! Each instance records its component type's name, its structural content,
//! and what the engine can do with the live instance: whether it can be
//! reflected off the entity at all, and whether a reflected clone of it
//! succeeds. Installing a value distinguishes *apply* (overwrite an
//! existing instance in place, keeping its position and its instance
//! properties, so the engine's change detection reacts correctly) from
//! *insert* (attach a brand-new instance at the end).

use vstd::prelude::*;
use crate::value::StructuredValue;

verus! {

/// A handle to one entity.
#[derive(Clone, Copy, PartialEq, Eq, Structural)]
pub struct Entity {
    pub id: u64,
}

/// One live component instance on an entity.
pub struct ComponentInstance {
    /// The component type's fully qualified name.
    pub type_path: String,
    /// The instance's structural content.
    pub value: StructuredValue,
    /// The engine can reflect this live instance off the entity.
    pub reflectable: bool,
    /// A reflected clone of this instance succeeds.
    pub clonable: bool,
}

/// One entity and the components it carries, in attachment order.
pub struct EntityRecord {
    pub entity: Entity,
    pub components: Vec<ComponentInstance>,
}

/// The entity storage.
pub struct World {
    pub entities: Vec<EntityRecord>,
}

/// The index of the first record for `e`, if any.
pub open spec fn spec_find_entity(es: Seq<EntityRecord>, e: Entity) -> Option<int>
    decreases es,
{
    if es.len() == 0 {
        None
    } else if es[0].entity == e {
        Some(0)
    } else {
        match spec_find_entity(es.skip(1), e) {
            Some(i) => Some(i + 1),
            None => None,
        }
    }
}

/// The index of the first component instance named `name`, if any.
pub open spec fn spec_find_comp(cs: Seq<ComponentInstance>, name: Seq<char>) -> Option<int>
    decreases cs,
{
    if cs.len() == 0 {
        None
    } else if cs[0].type_path@ == name {
        Some(0)
    } else {
        match spec_find_comp(cs.skip(1), name) {
            Some(i) => Some(i + 1),
            None => None,
        }
    }
}

/// No two instances in the list share a type name.
pub open spec fn unique_comp_names(cs: Seq<ComponentInstance>) -> bool {
    forall|i: int, j: int|
        0 <= i < j < cs.len() ==> (#[trigger] cs[i].type_path@) != (#[trigger] cs[j].type_path@)
}

/// A found index is in range, carries the sought name, and is the first
/// such; a miss means no instance carries the name.
pub proof fn lemma_find_comp(cs: Seq<ComponentInstance>, name: Seq<char>)
    ensures
        match spec_find_comp(cs, name) {
            Some(i) => 0 <= i < cs.len() && cs[i].type_path@ == name && (forall|j: int|
                0 <= j < i ==> (#[trigger] cs[j].type_path@) != name),
            None => forall|j: int| 0 <= j < cs.len() ==> (#[trigger] cs[j].type_path@) != name,
        },
    decreases cs,
{
    if cs.len() > 0 && cs[0].type_path@ != name {
        lemma_find_comp(cs.skip(1), name);
        match spec_find_comp(cs.skip(1), name) {
            Some(i) => {
                assert(cs.skip(1)[i] == cs[i + 1]);
                assert forall|j: int| 0 <= j < i + 1 implies (#[trigger] cs[j].type_path@) != name
                    by {
                    if j > 0 {
                        assert(cs.skip(1)[j - 1] == cs[j]);
                        assert(cs.skip(1)[j - 1].type_path@ != name);
                    }
                }
            },
            None => {
                assert forall|j: int|
                    0 <= j < cs.len() implies (#[trigger] cs[j].type_path@) != name by {
                    if j > 0 {
                        assert(cs.skip(1)[j - 1] == cs[j]);
                        assert(cs.skip(1)[j - 1].type_path@ != name);
                    }
                }
            },
        }
    }
}

/// A found index is in range and carries the sought entity; a miss means no
/// record carries it.
pub proof fn lemma_find_entity(es: Seq<EntityRecord>, e: Entity)
    ensures
        match spec_find_entity(es, e) {
            Some(i) => 0 <= i < es.len() && es[i].entity == e,
            None => forall|j: int| 0 <= j < es.len() ==> (#[trigger] es[j].entity) != e,
        },
    decreases es,
{
    if es.len() > 0 && es[0].entity != e {
        lemma_find_entity(es.skip(1), e);
        match spec_find_entity(es.skip(1), e) {
            Some(i) => {
                assert(es.skip(1)[i] == es[i + 1]);
            },
            None => {
                assert forall|j: int| 0 <= j < es.len() implies (#[trigger] es[j].entity) != e by {
                    if j > 0 {
                        assert(es.skip(1)[j - 1] == es[j]);
                        assert(es.skip(1)[j - 1].entity != e);
                    }
                }
            },
        }
    }
}

impl World {
    /// Entity records are keyed by distinct entities, and no entity carries
    /// two components of one type.
    pub open spec fn wf(self) -> bool {
        &&& forall|i: int, j: int|
            0 <= i < j < self.entities@.len() ==> (#[trigger] self.entities@[i].entity) != (
            #[trigger] self.entities@[j].entity)
        &&& forall|i: int|
            0 <= i < self.entities@.len() ==> unique_comp_names(
                #[trigger] self.entities@[i].components@,
            )
    }

    /// An empty world.
    pub fn new() -> (r: Self)
        ensures
            r.wf(),
            r.entities@.len() == 0,
    {
        World { entities: Vec::new() }
    }

    /// The record index for `e`, if `e` exists.
    pub fn find_entity_index(&self, e: Entity) -> (r: Option<usize>)
        ensures
            match r {
                Some(i) => spec_find_entity(self.entities@, e) == Some(i as int) && i
                    < self.entities@.len(),
                None => spec_find_entity(self.entities@, e) is None,
            },
    {
        let n = self.entities.len();
        proof {
            assert(self.entities@.skip(0) =~= self.entities@);
        }
        let mut i: usize = 0;
        while i < n
            invariant
                0 <= i <= n,
                n == self.entities@.len(),
                spec_find_entity(self.entities@, e) == (match spec_find_entity(
                    self.entities@.skip(i as int),
                    e,
                ) {
                    Some(k) => Some(k + i),
                    None => None::<int>,
                }),
            decreases n - i,
        {
            proof {
                assert(self.entities@.skip(i as int)[0] == self.entities@[i as int]);
                assert(self.entities@.skip(i as int).skip(1) =~= self.entities@.skip(i + 1));
            }
            if self.entities[i].entity == e {
                return Some(i);
            }
            i = i + 1;
        }
        proof {
            assert(self.entities@.skip(n as int).len() == 0);
        }
        None
    }

    /// Attach a fresh, empty record for `e`. Returns false, changing
    /// nothing, when `e` already exists.
    pub fn add_entity(&mut self, e: Entity) -> (r: bool)
        requires
            old(self).wf(),
        ensures
            final(self).wf(),
            r == (spec_find_entity(old(self).entities@, e) is None),
            r ==> final(self).entities@.len() == old(self).entities@.len() + 1 && final(
                self
            ).entities@.last().entity == e && final(self).entities@.last().components@.len() == 0
                && final(self).entities@.drop_last() == old(self).entities@,
            !r ==> *final(self) == *old(self),
    {
        match self.find_entity_index(e) {
            Some(_) => false,
            None => {
                proof {
                    lemma_find_entity(self.entities@, e);
                }
                let ghost es0 = self.entities@;
                self.entities.push(EntityRecord { entity: e, components: Vec::new() });
                proof {
                    assert forall|i: int, j: int|
                        0 <= i < j < self.entities@.len() implies (
                    #[trigger] self.entities@[i].entity) != (#[trigger] self.entities@[j].entity)
                        by {
                        if j < es0.len() {
                            assert(self.entities@[i] == es0[i]);
                            assert(self.entities@[j] == es0[j]);
                        } else {
                            assert(self.entities@[i] == es0[i]);
                        }
                    }
                    assert forall|i: int|
                        0 <= i < self.entities@.len() implies unique_comp_names(
                        #[trigger] self.entities@[i].components@,
                    ) by {
                        if i < es0.len() {
                            assert(self.entities@[i] == es0[i]);
                        }
                    }
                    assert(self.entities@.drop_last() =~= es0);
                }
                true
            },
        }
    }

    /// The component instance named `name` on `e`, if `e` exists and
    /// carries one.
    pub fn get_component(&self, e: Entity, name: &str) -> (r: Option<&ComponentInstance>)
        ensures
            match r {
                Some(inst) => {
                    &&& spec_find_entity(self.entities@, e) is Some
                    &&& {
                        let ei = spec_find_entity(self.entities@, e)->Some_0;
                        let cs = self.entities@[ei].components@;
                        spec_find_comp(cs, name@) is Some && *inst == cs[spec_find_comp(
                            cs,
                            name@,
                        )->Some_0]
                    }
                },
                None => spec_find_entity(self.entities@, e) is None || spec_find_comp(
                    self.entities@[spec_find_entity(self.entities@, e)->Some_0].components@,
                    name@,
                ) is None,
            },
    {
        match self.find_entity_index(e) {
            None => None,
            Some(ei) => {
                let rec = &self.entities[ei];
                find_comp_in(&rec.components, name)
            },
        }
    }

    /// Attach a component instance to `e`. Returns false, changing nothing,
    /// when `e` does not exist or already carries a component of that type.
    pub fn add_instance(&mut self, e: Entity, inst: ComponentInstance) -> (r: bool)
        requires
            old(self).wf(),
        ensures
            final(self).wf(),
            r == (spec_find_entity(old(self).entities@, e) is Some && spec_find_comp(
                old(self).entities@[spec_find_entity(old(self).entities@, e)->Some_0].components@,
                inst.type_path@,
            ) is None),
            !r ==> *final(self) == *old(self),
            r ==> {
                let ei = spec_find_entity(old(self).entities@, e)->Some_0;
                let cs = old(self).entities@[ei].components@;
                &&& final(self).entities@.len() == old(self).entities@.len()
                &&& forall|k: int|
                    0 <= k < old(self).entities@.len() && k != ei ==> #[trigger] final(
                        self
                    ).entities@[k] == old(self).entities@[k]
                &&& final(self).entities@[ei].entity == e
                &&& final(self).entities@[ei].components@ == cs.push(inst)
            },
    {
        match self.find_entity_index(e) {
            None => false,
            Some(ei) => {
                let ghost es0 = self.entities@;
                let ghost cs0 = self.entities@[ei as int].components@;
                let present = find_comp_in(&self.entities[ei].components, inst.type_path.as_str());
                match present {
                    Some(_) => false,
                    None => {
                        proof {
                            lemma_find_comp(cs0, inst.type_path@);
                            lemma_find_entity(es0, e);
                        }
                        self.entities[ei].components.push(inst);
                        proof {
                            let esf = self.entities@;
                            assert(esf == es0.update(
                                ei as int,
                                EntityRecord {
                                    entity: es0[ei as int].entity,
                                    components: esf[ei as int].components,
                                },
                            ));
                            assert(esf[ei as int].components@ == cs0.push(inst));
                            assert forall|i: int, j: int|
                                0 <= i < j < esf.len() implies (#[trigger] esf[i].entity) != (
                            #[trigger] esf[j].entity) by {
                                assert(esf[i].entity == es0[i].entity);
                                assert(esf[j].entity == es0[j].entity);
                            }
                            assert forall|i: int|
                                0 <= i < esf.len() implies unique_comp_names(
                                #[trigger] esf[i].components@,
                            ) by {
                                if i != ei {
                                    assert(esf[i] == es0[i]);
                                } else {
                                    let csf = esf[ei as int].components@;
                                    assert forall|a: int, b: int|
                                        0 <= a < b < csf.len() implies (
                                    #[trigger] csf[a].type_path@) != (
                                    #[trigger] csf[b].type_path@) by {
                                        if b < cs0.len() {
                                            assert(csf[a] == cs0[a]);
                                            assert(csf[b] == cs0[b]);
                                        } else {
                                            assert(csf[a] == cs0[a]);
                                            assert(csf[b] == inst);
                                        }
                                    }
                                }
                            }
                        }
                        true
                    },
                }
            },
        }
    }
}

impl World {
    /// Install a value for the component type `name` on `e`: when `e`
    /// already carries an instance of that type, apply the value over it in
    /// place — its position and its instance properties survive — and
    /// otherwise insert a brand-new instance at the end.
    pub fn apply_or_insert(&mut self, e: Entity, name: &str, value: StructuredValue)
        requires
            old(self).wf(),
            spec_find_entity(old(self).entities@, e) is Some,
        ensures
            final(self).wf(),
            final(self).entities@.len() == old(self).entities@.len(),
            spec_find_entity(final(self).entities@, e) == spec_find_entity(
                old(self).entities@,
                e,
            ),
            ({
                let ei = spec_find_entity(old(self).entities@, e)->Some_0;
                let cs = old(self).entities@[ei].components@;
                &&& forall|k: int|
                    0 <= k < old(self).entities@.len() && k != ei ==> #[trigger] final(
                        self
                    ).entities@[k] == old(self).entities@[k]
                &&& final(self).entities@[ei].entity == old(self).entities@[ei].entity
                &&& match spec_find_comp(cs, name@) {
                    Some(ci) => final(self).entities@[ei].components@ == cs.update(
                        ci,
                        (ComponentInstance {
                            type_path: cs[ci].type_path,
                            value: value,
                            reflectable: cs[ci].reflectable,
                            clonable: cs[ci].clonable,
                        }),
                    ),
                    None => {
                        let csf = final(self).entities@[ei].components@;
                        &&& csf.len() == cs.len() + 1
                        &&& csf.drop_last() == cs
                        &&& csf.last().type_path@ == name@
                        &&& csf.last().value == value
                        &&& csf.last().reflectable
                        &&& csf.last().clonable
                    },
                }
            }),
    {
        let ei = self.find_entity_index(e).unwrap();
        let ghost es0 = self.entities@;
        let ghost cs0 = self.entities@[ei as int].components@;
        proof {
            lemma_find_entity(es0, e);
            lemma_find_comp(cs0, name@);
        }
        match find_comp_index(&self.entities[ei].components, name) {
            Some(ci) => {
                let existing = &self.entities[ei].components[ci];
                let tp = existing.type_path.clone();
                let refl = existing.reflectable;
                let clon = existing.clonable;
                self.entities[ei].components[ci] = ComponentInstance {
                    type_path: tp,
                    value,
                    reflectable: refl,
                    clonable: clon,
                };
                proof {
                    let esf = self.entities@;
                    let csf = esf[ei as int].components@;
                    assert(csf =~= cs0.update(
                        ci as int,
                        (ComponentInstance {
                            type_path: cs0[ci as int].type_path,
                            value: value,
                            reflectable: cs0[ci as int].reflectable,
                            clonable: cs0[ci as int].clonable,
                        }),
                    ));
                    assert forall|k: int|
                        0 <= k < es0.len() && k != ei as int implies #[trigger] esf[k] == es0[k]
                        by {}
                    assert forall|i: int, j: int|
                        0 <= i < j < esf.len() implies (#[trigger] esf[i].entity) != (
                    #[trigger] esf[j].entity) by {
                        assert(esf[i].entity == es0[i].entity);
                        assert(esf[j].entity == es0[j].entity);
                    }
                    assert forall|i: int|
                        0 <= i < esf.len() implies unique_comp_names(
                        #[trigger] esf[i].components@,
                    ) by {
                        if i != ei as int {
                            assert(esf[i] == es0[i]);
                        } else {
                            assert forall|a: int, b: int|
                                0 <= a < b < csf.len() implies (#[trigger] csf[a].type_path@) != (
                            #[trigger] csf[b].type_path@) by {
                                assert(csf[a].type_path@ == cs0[a].type_path@);
                                assert(csf[b].type_path@ == cs0[b].type_path@);
                            }
                        }
                    }
                    lemma_find_entity_unchanged(es0, esf, e);
                }
            },
            None => {
                let tp = String::from_str(name);
                self.entities[ei].components.push(
                    ComponentInstance { type_path: tp, value, reflectable: true, clonable: true },
                );
                proof {
                    let esf = self.entities@;
                    let csf = esf[ei as int].components@;
                    assert(csf.drop_last() =~= cs0);
                    assert forall|k: int|
                        0 <= k < es0.len() && k != ei as int implies #[trigger] esf[k] == es0[k]
                        by {}
                    assert forall|i: int, j: int|
                        0 <= i < j < esf.len() implies (#[trigger] esf[i].entity) != (
                    #[trigger] esf[j].entity) by {
                        assert(esf[i].entity == es0[i].entity);
                        assert(esf[j].entity == es0[j].entity);
                    }
                    assert forall|i: int|
                        0 <= i < esf.len() implies unique_comp_names(
                        #[trigger] esf[i].components@,
                    ) by {
                        if i != ei as int {
                            assert(esf[i] == es0[i]);
                        } else {
                            assert forall|a: int, b: int|
                                0 <= a < b < csf.len() implies (#[trigger] csf[a].type_path@) != (
                            #[trigger] csf[b].type_path@) by {
                                if b < cs0.len() {
                                    assert(csf[a] == cs0[a]);
                                    assert(csf[b] == cs0[b]);
                                } else {
                                    assert(csf[a] == cs0[a]);
                                    assert(csf[b].type_path@ == name@);
                                }
                            }
                        }
                    }
                    lemma_find_entity_unchanged(es0, esf, e);
                }
            },
        }
    }

    /// Remove the component of type `name` from `e`, when `e` carries one;
    /// otherwise leave the world unchanged. Returns whether an instance was
    /// removed.
    pub fn remove_component(&mut self, e: Entity, name: &str) -> (r: bool)
        requires
            old(self).wf(),
            spec_find_entity(old(self).entities@, e) is Some,
        ensures
            final(self).wf(),
            final(self).entities@.len() == old(self).entities@.len(),
            spec_find_entity(final(self).entities@, e) == spec_find_entity(
                old(self).entities@,
                e,
            ),
            ({
                let ei = spec_find_entity(old(self).entities@, e)->Some_0;
                let cs = old(self).entities@[ei].components@;
                &&& forall|k: int|
                    0 <= k < old(self).entities@.len() && k != ei ==> #[trigger] final(
                        self
                    ).entities@[k] == old(self).entities@[k]
                &&& final(self).entities@[ei].entity == old(self).entities@[ei].entity
                &&& match spec_find_comp(cs, name@) {
                    Some(ci) => r && final(self).entities@[ei].components@ == cs.remove(ci),
                    None => !r && final(self).entities@[ei].components@ == cs,
                }
            }),
    {
        let ei = self.find_entity_index(e).unwrap();
        let ghost es0 = self.entities@;
        let ghost cs0 = self.entities@[ei as int].components@;
        proof {
            lemma_find_entity(es0, e);
            lemma_find_comp(cs0, name@);
        }
        match find_comp_index(&self.entities[ei].components, name) {
            None => {
                proof {
                    lemma_find_entity_unchanged(es0, self.entities@, e);
                }
                false
            },
            Some(ci) => {
                self.entities[ei].components.remove(ci);
                proof {
                    let esf = self.entities@;
                    let csf = esf[ei as int].components@;
                    assert(csf == cs0.remove(ci as int));
                    assert forall|k: int|
                        0 <= k < es0.len() && k != ei as int implies #[trigger] esf[k] == es0[k]
                        by {}
                    assert forall|i: int, j: int|
                        0 <= i < j < esf.len() implies (#[trigger] esf[i].entity) != (
                    #[trigger] esf[j].entity) by {
                        assert(esf[i].entity == es0[i].entity);
                        assert(esf[j].entity == es0[j].entity);
                    }
                    assert forall|i: int|
                        0 <= i < esf.len() implies unique_comp_names(
                        #[trigger] esf[i].components@,
                    ) by {
                        if i != ei as int {
                            assert(esf[i] == es0[i]);
                        } else {
                            assert forall|a: int, b: int|
                                0 <= a < b < csf.len() implies (#[trigger] csf[a].type_path@) != (
                            #[trigger] csf[b].type_path@) by {
                                let a0 = if a < ci as int {
                                    a
                                } else {
                                    a + 1
                                };
                                let b0 = if b < ci as int {
                                    b
                                } else {
                                    b + 1
                                };
                                assert(csf[a] == cs0[a0]);
                                assert(csf[b] == cs0[b0]);
                            }
                        }
                    }
                    lemma_find_entity_unchanged(es0, esf, e);
                }
                true
            },
        }
    }
}

/// Two entity lists with the same entities at the same indexes resolve a
/// lookup identically.
proof fn lemma_find_entity_unchanged(es0: Seq<EntityRecord>, esf: Seq<EntityRecord>, e: Entity)
    requires
        es0.len() == esf.len(),
        forall|k: int| 0 <= k < es0.len() ==> (#[trigger] esf[k].entity) == es0[k].entity,
    ensures
        spec_find_entity(esf, e) == spec_find_entity(es0, e),
    decreases es0,
{
    if es0.len() > 0 {
        assert(esf[0].entity == es0[0].entity);
        lemma_find_entity_unchanged(es0.skip(1), esf.skip(1), e);
        assert forall|k: int|
            0 <= k < es0.skip(1).len() implies (#[trigger] esf.skip(1)[k].entity) == es0.skip(
            1,
        )[k].entity by {
            assert(esf.skip(1)[k] == esf[k + 1]);
            assert(es0.skip(1)[k] == es0[k + 1]);
        }
    }
}

/// The instance named `name` within a component list, if any.
pub fn find_comp_in<'a>(cs: &'a Vec<ComponentInstance>, name: &str) -> (r: Option<
    &'a ComponentInstance,
>)
    ensures
        match r {
            Some(inst) => spec_find_comp(cs@, name@) is Some && *inst == cs@[spec_find_comp(
                cs@,
                name@,
            )->Some_0],
            None => spec_find_comp(cs@, name@) is None,
        },
{
    match find_comp_index(cs, name) {
        Some(i) => Some(&cs[i]),
        None => None,
    }
}

/// The index of the instance named `name` within a component list, if any.
pub fn find_comp_index(cs: &Vec<ComponentInstance>, name: &str) -> (r: Option<usize>)
    ensures
        match r {
            Some(i) => spec_find_comp(cs@, name@) == Some(i as int) && i < cs@.len(),
            None => spec_find_comp(cs@, name@) is None,
        },
{
    let name_string = String::from_str(name);
    let n = cs.len();
    proof {
        assert(cs@.skip(0) =~= cs@);
    }
    let mut i: usize = 0;
    while i < n
        invariant
            0 <= i <= n,
            n == cs@.len(),
            name_string@ == name@,
            spec_find_comp(cs@, name@) == (match spec_find_comp(cs@.skip(i as int), name@) {
                Some(k) => Some(k + i),
                None => None::<int>,
            }),
        decreases n - i,
    {
        proof {
            assert(cs@.skip(i as int)[0] == cs@[i as int]);
            assert(cs@.skip(i as int).skip(1) =~= cs@.skip(i + 1));
        }
        let inst = &cs[i];
        if inst.type_path.eq(&name_string) {
            return Some(i);
        }
        i = i + 1;
    }
    proof {
        assert(cs@.skip(n as int).len() == 0);
    }
    None
}

} // verus!
