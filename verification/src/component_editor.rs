//! The component editor facade: gathering every persistable component an
//! entity carries into serialized text, restoring such text back onto live
//! entities through the staged extraction and deserialization strategies,
//! and the imperative add / remove / edit operations the editor's UI uses.

use vstd::prelude::*;
use vstd::string::StringExecFns;
use crate::value::{StructuredValue, ValueModel, view_of, clone_value, structural_eq};
use crate::format::render_model;
use crate::parse::{spec_parse_text, parse_structured_text};
use crate::extract::{spec_extract, extract_component_data};
use crate::registry::{TypeRegistration, TypeRegistry, TypeSchema, schema_model,
    conforms, is_eligible_reg, spec_find_reg};
use crate::world::{Entity, ComponentInstance, World, spec_find_entity, spec_find_comp,
    lemma_find_comp, lemma_find_entity};

verus! {

/// A runtime component wrapped for the editor: the type's name, a deep copy
/// of the instance's structural content, and the type's registration.
pub struct ReflectedComponent {
    /// The component type's fully qualified name.
    pub type_path: String,
    /// A reflected deep copy of the live instance's content.
    pub reflected_data: StructuredValue,
    /// The component type's registration.
    pub type_registration: TypeRegistration,
}

impl ReflectedComponent {
    /// Structural equality: true exactly when the two wrap the same type
    /// and their contents compare equal. Comparing against a different type
    /// is false, never an error.
    pub fn reflect_partial_eq(&self, other: &ReflectedComponent) -> (r: bool)
        ensures
            r == (self.type_path@ == other.type_path@ && view_of(self.reflected_data) == view_of(
                other.reflected_data,
            )),
    {
        if !self.type_path.eq(&other.type_path) {
            return false;
        }
        structural_eq(&self.reflected_data, &other.reflected_data)
    }
}

/// Why one component failed to save, restore, or construct.
#[derive(Debug)]
pub enum ComponentError {
    /// The type name is not in the registry.
    UnknownType { type_path: String },
    /// The component's text could not be pulled out of the stored blob by
    /// either extraction strategy.
    ExtractionFailed { type_path: String },
    /// The extracted text did not parse under either deserialization
    /// strategy; carries the offending text.
    DeserializationFailed { type_path: String, text: String },
    /// The engine cannot reflect instances of this type onto an entity.
    NotReflectable { type_path: String },
    /// No capability can build a default instance for an add request.
    ConstructionFailed { type_path: String },
}

/// A per-entity mapping from component type name to that component's
/// serialized text. Keys are unique; this map is the unit of persistence
/// for one entity.
pub struct SerializedComponentMap {
    pub entries: Vec<(String, String)>,
}

/// The key-value pairs a serialized map holds, as sequences of characters.
pub open spec fn map_pairs(entries: Seq<(String, String)>) -> Seq<(Seq<char>, Seq<char>)>
    decreases entries,
{
    if entries.len() == 0 {
        Seq::empty()
    } else {
        map_pairs(entries.drop_last()).push((entries.last().0@, entries.last().1@))
    }
}

/// The pairs, entry by entry.
pub proof fn lemma_map_pairs(entries: Seq<(String, String)>)
    ensures
        map_pairs(entries).len() == entries.len(),
        forall|i: int|
            0 <= i < entries.len() ==> map_pairs(entries)[i] == (
            #[trigger] entries[i].0@,
            entries[i].1@,
            ),
    decreases entries,
{
    if entries.len() > 0 {
        lemma_map_pairs(entries.drop_last());
        assert forall|i: int|
            0 <= i < entries.len() implies map_pairs(entries)[i] == (
        #[trigger] entries[i].0@,
        entries[i].1@,
        ) by {
            if i < entries.len() - 1 {
                assert(entries.drop_last()[i] == entries[i]);
            } else {
                assert(entries[i] == entries.last());
            }
        }
    }
}

impl SerializedComponentMap {
    /// Keys are unique.
    pub open spec fn wf(self) -> bool {
        forall|i: int, j: int|
            0 <= i < j < self.entries@.len() ==> (#[trigger] self.entries@[i].0@) != (
            #[trigger] self.entries@[j].0@)
    }

    /// An empty map.
    pub fn new() -> (r: Self)
        ensures
            r.wf(),
            r.entries@.len() == 0,
    {
        SerializedComponentMap { entries: Vec::new() }
    }

    /// Add an entry. Returns false, changing nothing, when the key is
    /// already present.
    #[verifier::loop_isolation(false)]
    pub fn insert(&mut self, key: String, text: String) -> (r: bool)
        requires
            old(self).wf(),
        ensures
            final(self).wf(),
            r == (forall|i: int|
                0 <= i < old(self).entries@.len() ==> (#[trigger] old(self).entries@[i].0@)
                    != key@),
            r ==> final(self).entries@ == old(self).entries@.push((key, text)),
            !r ==> *final(self) == *old(self),
    {
        let n = self.entries.len();
        let mut i: usize = 0;
        while i < n
            invariant
                0 <= i <= n,
                n == self.entries@.len(),
                forall|j: int| 0 <= j < i ==> (#[trigger] self.entries@[j].0@) != key@,
            decreases n - i,
        {
            let pair = &self.entries[i];
            if pair.0.eq(&key) {
                return false;
            }
            i = i + 1;
        }
        let ghost e0 = self.entries@;
        self.entries.push((key, text));
        proof {
            assert forall|i: int, j: int|
                0 <= i < j < self.entries@.len() implies (#[trigger] self.entries@[i].0@) != (
            #[trigger] self.entries@[j].0@) by {
                if j < e0.len() {
                    assert(self.entries@[i] == e0[i]);
                    assert(self.entries@[j] == e0[j]);
                } else {
                    assert(self.entries@[i] == e0[i]);
                }
            }
        }
        true
    }

    /// The text stored under `key`, if any.
    #[verifier::loop_isolation(false)]
    pub fn get<'a>(&'a self, key: &str) -> (r: Option<&'a String>)
        ensures
            match r {
                Some(t) => exists|i: int|
                    0 <= i < self.entries@.len() && (#[trigger] self.entries@[i].0@) == key@
                        && self.entries@[i].1 == *t,
                None => forall|i: int|
                    0 <= i < self.entries@.len() ==> (#[trigger] self.entries@[i].0@) != key@,
            },
    {
        let key_string = String::from_str(key);
        let n = self.entries.len();
        let mut i: usize = 0;
        while i < n
            invariant
                0 <= i <= n,
                n == self.entries@.len(),
                key_string@ == key@,
                forall|j: int| 0 <= j < i ==> (#[trigger] self.entries@[j].0@) != key@,
            decreases n - i,
        {
            let pair = &self.entries[i];
            if pair.0.eq(&key_string) {
                return Some(&self.entries[i].1);
            }
            i = i + 1;
        }
        None
    }
}

/// Whether a live instance takes part in a gather: its type is registered,
/// the registration can reflect components, the instance reflects and
/// clones, and — when filtering — the type is eligible for the editor.
pub open spec fn gatherable(
    regs: Seq<TypeRegistration>,
    c: ComponentInstance,
    filter: bool,
) -> bool {
    match spec_find_reg(regs, c.type_path@) {
        Some(reg) => reg.reflect_component && c.reflectable && c.clonable && (!filter
            || is_eligible_reg(reg)),
        None => false,
    }
}

/// The name-and-content pairs a gather of these instances produces, in
/// component order.
pub open spec fn spec_gather(
    regs: Seq<TypeRegistration>,
    cs: Seq<ComponentInstance>,
    filter: bool,
) -> Seq<(Seq<char>, ValueModel)>
    decreases cs,
{
    if cs.len() == 0 {
        Seq::empty()
    } else {
        let pre = spec_gather(regs, cs.drop_last(), filter);
        if gatherable(regs, cs.last(), filter) {
            pre.push((cs.last().type_path@, view_of(cs.last().value)))
        } else {
            pre
        }
    }
}

/// The name-and-text pairs serialization produces: each gathered component,
/// rendered to its canonical component text.
pub open spec fn spec_serialize(regs: Seq<TypeRegistration>, cs: Seq<ComponentInstance>) -> Seq<
    (Seq<char>, Seq<char>),
> {
    spec_gather(regs, cs, true).map_values(|p: (Seq<char>, ValueModel)| (p.0, render_model(p.1)))
}

/// What deserializing the extracted text for a registered type yields: the
/// parsed structural value, provided the text parses under the component
/// grammar and the value fits the type's field layout.
pub open spec fn spec_deserialize(reg: TypeRegistration, text: Seq<char>) -> Option<ValueModel> {
    match spec_parse_text(text, true) {
        Some(v) => if conforms(v, schema_model(reg.schema)) {
            Some(v)
        } else {
            None
        },
        None => None,
    }
}

/// Whether restoring the component `name` from `blob` succeeds against
/// this registry: the name resolves, extraction yields text, the text
/// deserializes to a conforming value, and the type can be installed.
pub open spec fn spec_restore_ok(
    regs: Seq<TypeRegistration>,
    name: Seq<char>,
    blob: Seq<char>,
) -> bool {
    match spec_find_reg(regs, name) {
        Some(reg) => match spec_extract(name, blob) {
            Some(text) => match spec_deserialize(reg, text) {
                Some(_) => reg.reflect_component,
                None => false,
            },
            None => false,
        },
        None => false,
    }
}

/// The structural value restoring `name` from `blob` installs, when
/// restoration succeeds.
pub open spec fn spec_restore_value(
    regs: Seq<TypeRegistration>,
    name: Seq<char>,
    blob: Seq<char>,
) -> ValueModel {
    spec_deserialize(
        spec_find_reg(regs, name)->Some_0,
        spec_extract(name, blob)->Some_0,
    )->Some_0
}

/// The name-and-content pairs a list of reflected components stands for.
pub open spec fn reflected_pairs(rs: Seq<ReflectedComponent>) -> Seq<(Seq<char>, ValueModel)>
    decreases rs,
{
    if rs.len() == 0 {
        Seq::empty()
    } else {
        reflected_pairs(rs.drop_last()).push(
            (rs.last().type_path@, view_of(rs.last().reflected_data)),
        )
    }
}

/// One more instance extends the gather by at most its own pair.
proof fn lemma_spec_gather_take(
    regs: Seq<TypeRegistration>,
    cs: Seq<ComponentInstance>,
    filter: bool,
    i: int,
)
    requires
        0 <= i < cs.len(),
    ensures
        spec_gather(regs, cs.take(i + 1), filter) == if gatherable(regs, cs[i], filter) {
            spec_gather(regs, cs.take(i), filter).push((cs[i].type_path@, view_of(cs[i].value)))
        } else {
            spec_gather(regs, cs.take(i), filter)
        },
{
    let t = cs.take(i + 1);
    assert(t.drop_last() =~= cs.take(i));
    assert(t.last() == cs[i]);
}

/// Every name a gather emits belongs to some instance, and no name is
/// emitted twice when the instance list carries unique names.
pub proof fn lemma_spec_gather_names(
    regs: Seq<TypeRegistration>,
    cs: Seq<ComponentInstance>,
    filter: bool,
)
    requires
        crate::world::unique_comp_names(cs),
    ensures
        forall|p: int|
            0 <= p < spec_gather(regs, cs, filter).len() ==> exists|k: int|
                0 <= k < cs.len() && (#[trigger] spec_gather(regs, cs, filter)[p].0)
                    == cs[k].type_path@,
        forall|p: int, q: int|
            0 <= p < q < spec_gather(regs, cs, filter).len() ==> (#[trigger] spec_gather(
                regs,
                cs,
                filter,
            )[p].0) != (#[trigger] spec_gather(regs, cs, filter)[q].0),
    decreases cs,
{
    if cs.len() > 0 {
        let pre = cs.drop_last();
        assert(crate::world::unique_comp_names(pre)) by {
            assert forall|i: int, j: int|
                0 <= i < j < pre.len() implies (#[trigger] pre[i].type_path@) != (
            #[trigger] pre[j].type_path@) by {
                assert(pre[i] == cs[i]);
                assert(pre[j] == cs[j]);
            }
        }
        lemma_spec_gather_names(regs, pre, filter);
        let g = spec_gather(regs, cs, filter);
        let gp = spec_gather(regs, pre, filter);
        assert forall|p: int|
            0 <= p < g.len() implies exists|k: int|
                0 <= k < cs.len() && (#[trigger] g[p].0) == cs[k].type_path@ by {
            if p < gp.len() {
                let k = choose|k: int| 0 <= k < pre.len() && (#[trigger] gp[p].0)
                    == pre[k].type_path@;
                assert(pre[k] == cs[k]);
                assert(g[p].0 == cs[k].type_path@);
            } else {
                assert(g[p].0 == cs[cs.len() - 1].type_path@);
            }
        }
        assert forall|p: int, q: int|
            0 <= p < q < g.len() implies (#[trigger] g[p].0) != (#[trigger] g[q].0) by {
            if q < gp.len() {
                assert(g[p] == gp[p] && g[q] == gp[q]);
            } else {
                assert(g[p] == gp[p]);
                assert(g[q].0 == cs.last().type_path@);
                let k = choose|k: int| 0 <= k < pre.len() && (#[trigger] gp[p].0)
                    == pre[k].type_path@;
                assert(pre[k] == cs[k]);
                assert(cs[k].type_path@ != cs[cs.len() - 1].type_path@);
            }
        }
    }
}

/// The editor facade: the selected entity, and the shared type registry the
/// editor consults for every reflection capability.
pub struct ComponentEditor {
    pub selected_entity: Option<Entity>,
    pub type_registry: TypeRegistry,
}

impl ComponentEditor {
    /// An editor over the given registry, with nothing selected.
    pub fn new(type_registry: TypeRegistry) -> (r: Self)
        ensures
            r.selected_entity is None,
            r.type_registry == type_registry,
    {
        ComponentEditor { selected_entity: None, type_registry }
    }

    /// Select an entity for the UI to operate on.
    pub fn set_selected_entity(&mut self, entity: Entity)
        ensures
            final(self).selected_entity == Some(entity),
            final(self).type_registry == old(self).type_registry,
    {
        self.selected_entity = Some(entity);
    }

    /// Whether a component type stays out of the editor: true exactly when
    /// the registration carries neither the bridge tag nor the exposed tag.
    pub fn should_skip_component(&self, registration: &TypeRegistration) -> (r: bool)
        ensures
            r == !is_eligible_reg(*registration),
    {
        !crate::registry::is_bridge_component_check(registration)
            && !crate::registry::is_exposed_bevy_component(registration)
    }

    /// Gather the entity's reflectable components: every component whose
    /// type is registered with reflection, whose live instance reflects and
    /// clones — and, when `filter` is set, whose type is eligible for the
    /// editor. Unregistered types are skipped silently; so is any instance
    /// the engine cannot reflect or clone.
    #[verifier::loop_isolation(false)]
    pub fn get_reflected_components(
        &self,
        world: &World,
        entity: Entity,
        filter: bool,
    ) -> (r: Vec<ReflectedComponent>)
        requires
            spec_find_entity(world.entities@, entity) is Some,
        ensures
            ({
                let ei = spec_find_entity(world.entities@, entity)->Some_0;
                reflected_pairs(r@) == spec_gather(
                    self.type_registry.entries@,
                    world.entities@[ei].components@,
                    filter,
                )
            }),
            forall|j: int|
                0 <= j < r@.len() ==> (#[trigger] r@[j].type_registration.type_path@)
                    == r@[j].type_path@,
            forall|j: int|
                0 <= j < r@.len() ==> spec_find_reg(
                    self.type_registry.entries@,
                    (#[trigger] r@[j]).type_path@,
                ) is Some && registration_model_eq(
                    r@[j].type_registration,
                    spec_find_reg(self.type_registry.entries@, r@[j].type_path@)->Some_0,
                ),
    {
        let ei = world.find_entity_index(entity).unwrap();
        let rec = &world.entities[ei];
        let ghost cs = rec.components@;
        let ghost regs = self.type_registry.entries@;
        let n = rec.components.len();
        let mut out: Vec<ReflectedComponent> = Vec::new();
        proof {
            assert(cs.take(0) =~= Seq::<ComponentInstance>::empty());
        }
        let mut i: usize = 0;
        while i < n
            invariant
                0 <= i <= n,
                reflected_pairs(out@) == spec_gather(regs, cs.take(i as int), filter),
                forall|j: int|
                    0 <= j < out@.len() ==> (#[trigger] out@[j].type_registration.type_path@)
                        == out@[j].type_path@,
                forall|j: int|
                    0 <= j < out@.len() ==> spec_find_reg(regs, (#[trigger] out@[j]).type_path@)
                        is Some && registration_model_eq(
                        out@[j].type_registration,
                        spec_find_reg(regs, out@[j].type_path@)->Some_0,
                    ),
            decreases n - i,
        {
            let inst = &rec.components[i];
            proof {
                lemma_spec_gather_take(regs, cs, filter, i as int);
            }
            let ghost out0 = out@;
            match self.type_registry.get_with_type_path(inst.type_path.as_str()) {
                None => {},
                Some(registration) => {
                    if filter && self.should_skip_component(registration) {
                        // not exposed to the editor
                    } else if !registration.reflect_component || !inst.reflectable {
                        // the engine cannot reflect this instance
                    } else if !inst.clonable {
                        // the reflected value cannot be cloned
                    } else {
                        let item = ReflectedComponent {
                            type_path: inst.type_path.clone(),
                            reflected_data: clone_value(&inst.value),
                            type_registration: clone_registration(registration),
                        };
                        out.push(item);
                        proof {
                            crate::registry::lemma_find_reg_found(regs, inst.type_path@);
                            assert(out@.drop_last() =~= out0);
                            assert(reflected_pairs(out@) == reflected_pairs(out0).push(
                                (cs[i as int].type_path@, view_of(cs[i as int].value)),
                            ));
                        }
                    }
                },
            }
            i = i + 1;
        }
        proof {
            assert(cs.take(n as int) =~= cs);
        }
        out
    }

    /// Serialize the entity's persistable components: each eligible,
    /// reflectable, clonable component rendered to its canonical component
    /// text, keyed by type name. Failure of one component never aborts the
    /// gather; ineligible and unregistered types are never emitted.
    #[verifier::loop_isolation(false)]
    pub fn serialize_entity_components(&self, world: &World, entity: Entity) -> (r:
        SerializedComponentMap)
        requires
            world.wf(),
            spec_find_entity(world.entities@, entity) is Some,
        ensures
            r.wf(),
            ({
                let ei = spec_find_entity(world.entities@, entity)->Some_0;
                map_pairs(r.entries@) == spec_serialize(
                    self.type_registry.entries@,
                    world.entities@[ei].components@,
                )
            }),
    {
        let ei = world.find_entity_index(entity).unwrap();
        let rec = &world.entities[ei];
        let ghost cs = rec.components@;
        let ghost regs = self.type_registry.entries@;
        proof {
            lemma_find_entity(world.entities@, entity);
            lemma_spec_gather_names(regs, cs, true);
        }
        let n = rec.components.len();
        let mut out = SerializedComponentMap::new();
        proof {
            assert(cs.take(0) =~= Seq::<ComponentInstance>::empty());
            assert(map_pairs(out.entries@) =~= spec_serialize(regs, cs.take(0)));
        }
        let mut i: usize = 0;
        while i < n
            invariant
                0 <= i <= n,
                out.wf(),
                map_pairs(out.entries@) == spec_serialize(regs, cs.take(i as int)),
            decreases n - i,
        {
            let inst = &rec.components[i];
            proof {
                lemma_spec_gather_take(regs, cs, true, i as int);
            }
            let ghost out0 = out.entries@;
            match self.type_registry.get_with_type_path(inst.type_path.as_str()) {
                None => {},
                Some(registration) => {
                    if self.should_skip_component(registration) {
                        // ineligible for persistence
                    } else if !registration.reflect_component || !inst.reflectable
                        || !inst.clonable {
                        // the engine cannot reflect or clone this instance
                    } else {
                        let text = crate::format::render_component_text(&inst.value);
                        let key = inst.type_path.clone();
                        let ghost gi = spec_gather(regs, cs.take(i as int), true);
                        proof {
                            lemma_map_pairs(out0);
                            lemma_take_gather_prefix(regs, cs, true, i as int);
                            assert forall|j: int|
                                0 <= j < out0.len() implies (#[trigger] out0[j].0@)
                                    != key@ by {
                                assert(map_pairs(out0)[j] == (out0[j].0@, out0[j].1@));
                                assert(map_pairs(out0)[j].0 == gi.map_values(
                                    |p: (Seq<char>, ValueModel)| (p.0, render_model(p.1)),
                                )[j].0);
                            }
                        }
                        let ok = out.insert(key, text);
                        proof {
                            assert(ok);
                            assert(out.entries@.drop_last() =~= out0);
                            assert(map_pairs(out.entries@) == map_pairs(out0).push(
                                (cs[i as int].type_path@, render_model(view_of(cs[i as int].value))),
                            ));
                            assert(map_pairs(out.entries@) =~= spec_serialize(
                                regs,
                                cs.take(i + 1 as int),
                            ));
                        }
                    }
                },
            }
            proof {
                if !(gatherable(regs, cs[i as int], true)) {
                    assert(map_pairs(out.entries@) =~= spec_serialize(regs, cs.take(i + 1 as int)));
                }
            }
            i = i + 1;
        }
        proof {
            assert(cs.take(n as int) =~= cs);
        }
        out
    }
}

/// The apply-or-insert effect on the world, at the level of models: the
/// entity's instance of the named type now holds `m`. An existing instance
/// kept its position and its instance properties; a fresh one was appended.
/// Every other component and every other entity is untouched.
pub open spec fn installed(
    w0: World,
    w1: World,
    e: Entity,
    name: Seq<char>,
    m: ValueModel,
) -> bool {
    let ei = spec_find_entity(w0.entities@, e)->Some_0;
    let cs = w0.entities@[ei].components@;
    let csf = w1.entities@[ei].components@;
    &&& w1.entities@.len() == w0.entities@.len()
    &&& spec_find_entity(w1.entities@, e) == spec_find_entity(w0.entities@, e)
    &&& forall|k: int|
        0 <= k < w0.entities@.len() && k != ei ==> #[trigger] w1.entities@[k] == w0.entities@[k]
    &&& w1.entities@[ei].entity == w0.entities@[ei].entity
    &&& match spec_find_comp(cs, name) {
        Some(ci) => {
            &&& csf.len() == cs.len()
            &&& forall|k: int| 0 <= k < cs.len() && k != ci ==> #[trigger] csf[k] == cs[k]
            &&& csf[ci].type_path@ == cs[ci].type_path@
            &&& view_of(csf[ci].value) == m
            &&& csf[ci].reflectable == cs[ci].reflectable
            &&& csf[ci].clonable == cs[ci].clonable
        },
        None => {
            &&& csf.len() == cs.len() + 1
            &&& csf.drop_last() == cs
            &&& csf.last().type_path@ == name
            &&& view_of(csf.last().value) == m
            &&& csf.last().reflectable
            &&& csf.last().clonable
        },
    }
}

impl ComponentEditor {
    /// Install a reflected value onto the entity: apply it over an existing
    /// instance of the type, or insert it fresh. Fails, changing nothing,
    /// when the registration cannot reflect components onto entities.
    pub fn insert_reflected_component(
        &self,
        world: &mut World,
        entity: Entity,
        component_name: &str,
        component_data: StructuredValue,
        registration: &TypeRegistration,
    ) -> (r: Result<(), ComponentError>)
        requires
            old(world).wf(),
            spec_find_entity(old(world).entities@, entity) is Some,
        ensures
            final(world).wf(),
            spec_find_entity(final(world).entities@, entity) is Some,
            match r {
                Ok(()) => registration.reflect_component && installed(
                    *old(world),
                    *final(world),
                    entity,
                    component_name@,
                    view_of(component_data),
                ),
                Err(e) => *final(world) == *old(world) && !registration.reflect_component && (e
                    matches ComponentError::NotReflectable { type_path } && type_path@
                    == component_name@),
            },
    {
        if !registration.reflect_component {
            return Err(
                ComponentError::NotReflectable { type_path: String::from_str(component_name) },
            );
        }
        let ghost w0 = *world;
        world.apply_or_insert(entity, component_name, component_data);
        proof {
            let ei = spec_find_entity(w0.entities@, entity)->Some_0;
            let cs = w0.entities@[ei].components@;
            let csf = world.entities@[ei].components@;
            lemma_find_comp(cs, component_name@);
            match spec_find_comp(cs, component_name@) {
                Some(ci) => {
                    assert(csf == cs.update(
                        ci,
                        (ComponentInstance {
                            type_path: cs[ci].type_path,
                            value: component_data,
                            reflectable: cs[ci].reflectable,
                            clonable: cs[ci].clonable,
                        }),
                    ));
                    assert(csf[ci].type_path@ == cs[ci].type_path@);
                    assert(view_of(csf[ci].value) == view_of(component_data));
                },
                None => {},
            }
        }
        Ok(())
    }

    /// Restore one component's extracted text onto the entity, trying the
    /// type's schema-driven deserializer first when the registration offers
    /// one, and the registry-aware typed deserializer second, re-parsing
    /// the same text from scratch. Failure of the second strategy is
    /// terminal for this component.
    pub fn deserialize_and_insert_component(
        &self,
        world: &mut World,
        entity: Entity,
        component_name: &str,
        clean_ron: &str,
        registration: &TypeRegistration,
    ) -> (r: Result<(), ComponentError>)
        requires
            old(world).wf(),
            spec_find_entity(old(world).entities@, entity) is Some,
        ensures
            final(world).wf(),
            spec_find_entity(final(world).entities@, entity) is Some,
            match r {
                Ok(()) => {
                    &&& spec_deserialize(*registration, clean_ron@) is Some
                    &&& registration.reflect_component
                    &&& installed(
                        *old(world),
                        *final(world),
                        entity,
                        component_name@,
                        spec_deserialize(*registration, clean_ron@)->Some_0,
                    )
                },
                Err(e) => *final(world) == *old(world) && match e {
                    ComponentError::DeserializationFailed { type_path, text } => {
                        &&& spec_deserialize(*registration, clean_ron@) is None
                        &&& type_path@ == component_name@
                        &&& text@ == clean_ron@
                    },
                    ComponentError::NotReflectable { type_path } => {
                        &&& spec_deserialize(*registration, clean_ron@) is Some
                        &&& !registration.reflect_component
                        &&& type_path@ == component_name@
                    },
                    _ => false,
                },
            },
    {
        if registration.reflect_deserialize {
            match parse_structured_text(clean_ron, true) {
                Some(v) => {
                    if conforms_check(&v, &registration.schema) {
                        return self.insert_reflected_component(
                            world,
                            entity,
                            component_name,
                            v,
                            registration,
                        );
                    }
                },
                None => {},
            }
        }
        self.try_typed_reflection_deserialize(
            world,
            entity,
            component_name,
            clean_ron,
            registration,
        )
    }

    /// The registry-aware typed deserializer: re-parse the extracted text
    /// against the type's exact field layout and install the result.
    pub fn try_typed_reflection_deserialize(
        &self,
        world: &mut World,
        entity: Entity,
        component_name: &str,
        clean_ron: &str,
        registration: &TypeRegistration,
    ) -> (r: Result<(), ComponentError>)
        requires
            old(world).wf(),
            spec_find_entity(old(world).entities@, entity) is Some,
        ensures
            final(world).wf(),
            spec_find_entity(final(world).entities@, entity) is Some,
            match r {
                Ok(()) => {
                    &&& spec_deserialize(*registration, clean_ron@) is Some
                    &&& registration.reflect_component
                    &&& installed(
                        *old(world),
                        *final(world),
                        entity,
                        component_name@,
                        spec_deserialize(*registration, clean_ron@)->Some_0,
                    )
                },
                Err(e) => *final(world) == *old(world) && match e {
                    ComponentError::DeserializationFailed { type_path, text } => {
                        &&& spec_deserialize(*registration, clean_ron@) is None
                        &&& type_path@ == component_name@
                        &&& text@ == clean_ron@
                    },
                    ComponentError::NotReflectable { type_path } => {
                        &&& spec_deserialize(*registration, clean_ron@) is Some
                        &&& !registration.reflect_component
                        &&& type_path@ == component_name@
                    },
                    _ => false,
                },
            },
    {
        match parse_structured_text(clean_ron, true) {
            Some(v) => {
                if conforms_check(&v, &registration.schema) {
                    self.insert_reflected_component(
                        world,
                        entity,
                        component_name,
                        v,
                        registration,
                    )
                } else {
                    Err(
                        ComponentError::DeserializationFailed {
                            type_path: String::from_str(component_name),
                            text: String::from_str(clean_ron),
                        },
                    )
                }
            },
            None => Err(
                ComponentError::DeserializationFailed {
                    type_path: String::from_str(component_name),
                    text: String::from_str(clean_ron),
                },
            ),
        }
    }

    /// Restore one component from its stored blob onto the entity:
    /// resolve the registration by name, extract the component's own text
    /// from the blob, deserialize it, and install the result. Each stage's
    /// failure is recoverable and reported; nothing is changed on failure.
    pub fn process_single_component(
        &self,
        world: &mut World,
        entity: Entity,
        component_name: &str,
        serialized_data: &str,
    ) -> (r: Result<(), ComponentError>)
        requires
            old(world).wf(),
            spec_find_entity(old(world).entities@, entity) is Some,
        ensures
            final(world).wf(),
            spec_find_entity(final(world).entities@, entity) is Some,
            match r {
                Ok(()) => {
                    &&& spec_restore_ok(
                        self.type_registry.entries@,
                        component_name@,
                        serialized_data@,
                    )
                    &&& installed(
                        *old(world),
                        *final(world),
                        entity,
                        component_name@,
                        spec_restore_value(
                            self.type_registry.entries@,
                            component_name@,
                            serialized_data@,
                        ),
                    )
                },
                Err(e) => {
                    &&& *final(world) == *old(world)
                    &&& !spec_restore_ok(
                        self.type_registry.entries@,
                        component_name@,
                        serialized_data@,
                    )
                    &&& match e {
                        ComponentError::UnknownType { type_path } => {
                            &&& spec_find_reg(self.type_registry.entries@, component_name@)
                                is None
                            &&& type_path@ == component_name@
                        },
                        ComponentError::ExtractionFailed { type_path } => {
                            &&& spec_find_reg(self.type_registry.entries@, component_name@)
                                is Some
                            &&& spec_extract(component_name@, serialized_data@) is None
                            &&& type_path@ == component_name@
                        },
                        ComponentError::DeserializationFailed { type_path, text } => {
                            &&& spec_find_reg(self.type_registry.entries@, component_name@)
                                is Some
                            &&& spec_extract(component_name@, serialized_data@) is Some
                            &&& text@ == spec_extract(
                                component_name@,
                                serialized_data@,
                            )->Some_0
                            &&& type_path@ == component_name@
                        },
                        ComponentError::NotReflectable { type_path } => type_path@
                            == component_name@,
                        ComponentError::ConstructionFailed { .. } => false,
                    }
                },
            },
    {
        let registration = match self.type_registry.get_with_type_path(component_name) {
            Some(reg) => reg,
            None => {
                return Err(
                    ComponentError::UnknownType { type_path: String::from_str(component_name) },
                );
            },
        };
        let clean_ron = match extract_component_data(component_name, serialized_data) {
            Some(t) => t,
            None => {
                return Err(
                    ComponentError::ExtractionFailed {
                        type_path: String::from_str(component_name),
                    },
                );
            },
        };
        self.deserialize_and_insert_component(
            world,
            entity,
            component_name,
            clean_ron.as_str(),
            registration,
        )
    }
}

/// The instance an add-by-name request builds: the registered default
/// constructor's value when one exists, else the value built from an empty
/// reflected blob, else nothing.
pub open spec fn spec_construct(reg: TypeRegistration) -> Option<StructuredValue> {
    match reg.default_value {
        Some(v) => Some(v),
        None => reg.from_empty_value,
    }
}

impl ComponentEditor {
    /// Build a default instance of the named type and install it on the
    /// entity: the registered default constructor is preferred, the
    /// construct-from-empty-blob capability is the fallback, and with
    /// neither the request fails, changing nothing.
    pub fn add_component_by_name(
        &self,
        world: &mut World,
        entity: Entity,
        component_type_name: &str,
    ) -> (r: Result<(), ComponentError>)
        requires
            old(world).wf(),
            spec_find_entity(old(world).entities@, entity) is Some,
        ensures
            final(world).wf(),
            spec_find_entity(final(world).entities@, entity) is Some,
            match r {
                Ok(()) => {
                    let reg = spec_find_reg(
                        self.type_registry.entries@,
                        component_type_name@,
                    )->Some_0;
                    &&& spec_find_reg(self.type_registry.entries@, component_type_name@) is Some
                    &&& reg.reflect_component
                    &&& spec_construct(reg) is Some
                    &&& installed(
                        *old(world),
                        *final(world),
                        entity,
                        component_type_name@,
                        view_of(spec_construct(reg)->Some_0),
                    )
                },
                Err(e) => *final(world) == *old(world) && match e {
                    ComponentError::UnknownType { type_path } => {
                        &&& spec_find_reg(self.type_registry.entries@, component_type_name@)
                            is None
                        &&& type_path@ == component_type_name@
                    },
                    ComponentError::NotReflectable { type_path } => {
                        &&& spec_find_reg(self.type_registry.entries@, component_type_name@)
                            is Some
                        &&& !spec_find_reg(
                            self.type_registry.entries@,
                            component_type_name@,
                        )->Some_0.reflect_component
                        &&& type_path@ == component_type_name@
                    },
                    ComponentError::ConstructionFailed { type_path } => {
                        &&& spec_find_reg(self.type_registry.entries@, component_type_name@)
                            is Some
                        &&& spec_construct(
                            spec_find_reg(
                                self.type_registry.entries@,
                                component_type_name@,
                            )->Some_0,
                        ) is None
                        &&& type_path@ == component_type_name@
                    },
                    _ => false,
                },
            },
    {
        let registration = match self.type_registry.get_with_type_path(component_type_name) {
            Some(reg) => reg,
            None => {
                return Err(
                    ComponentError::UnknownType {
                        type_path: String::from_str(component_type_name),
                    },
                );
            },
        };
        let component = match &registration.default_value {
            Some(v) => clone_value(v),
            None => match &registration.from_empty_value {
                Some(v) => clone_value(v),
                None => {
                    return Err(
                        ComponentError::ConstructionFailed {
                            type_path: String::from_str(component_type_name),
                        },
                    );
                },
            },
        };
        self.insert_reflected_component(
            world,
            entity,
            component_type_name,
            component,
            registration,
        )
    }

    /// Install a value the UI already holds in memory, bypassing the text
    /// round trip: apply it over an existing instance of the named type, or
    /// insert it fresh.
    pub fn edit_component_by_name(
        &self,
        world: &mut World,
        entity: Entity,
        component_type_name: &str,
        reflected_data: &StructuredValue,
    ) -> (r: Result<(), ComponentError>)
        requires
            old(world).wf(),
            spec_find_entity(old(world).entities@, entity) is Some,
        ensures
            final(world).wf(),
            spec_find_entity(final(world).entities@, entity) is Some,
            match r {
                Ok(()) => {
                    &&& spec_find_reg(self.type_registry.entries@, component_type_name@) is Some
                    &&& spec_find_reg(
                        self.type_registry.entries@,
                        component_type_name@,
                    )->Some_0.reflect_component
                    &&& installed(
                        *old(world),
                        *final(world),
                        entity,
                        component_type_name@,
                        view_of(*reflected_data),
                    )
                },
                Err(e) => *final(world) == *old(world) && match e {
                    ComponentError::UnknownType { type_path } => {
                        &&& spec_find_reg(self.type_registry.entries@, component_type_name@)
                            is None
                        &&& type_path@ == component_type_name@
                    },
                    ComponentError::NotReflectable { type_path } => {
                        &&& spec_find_reg(self.type_registry.entries@, component_type_name@)
                            is Some
                        &&& !spec_find_reg(
                            self.type_registry.entries@,
                            component_type_name@,
                        )->Some_0.reflect_component
                        &&& type_path@ == component_type_name@
                    },
                    _ => false,
                },
            },
    {
        let registration = match self.type_registry.get_with_type_path(component_type_name) {
            Some(reg) => reg,
            None => {
                return Err(
                    ComponentError::UnknownType {
                        type_path: String::from_str(component_type_name),
                    },
                );
            },
        };
        self.insert_reflected_component(
            world,
            entity,
            component_type_name,
            clone_value(reflected_data),
            registration,
        )
    }

    /// Remove the named component from the entity, when its type is
    /// registered with reflection; otherwise do nothing. Removing a
    /// component the entity does not carry is a no-op.
    pub fn remove_component_by_name(
        &self,
        world: &mut World,
        entity: Entity,
        component_type_name: &str,
    )
        requires
            old(world).wf(),
            spec_find_entity(old(world).entities@, entity) is Some,
        ensures
            final(world).wf(),
            spec_find_entity(final(world).entities@, entity) == spec_find_entity(
                old(world).entities@,
                entity,
            ),
            ({
                let regs = self.type_registry.entries@;
                let ei = spec_find_entity(old(world).entities@, entity)->Some_0;
                let cs = old(world).entities@[ei].components@;
                if spec_find_reg(regs, component_type_name@) is Some && spec_find_reg(
                    regs,
                    component_type_name@,
                )->Some_0.reflect_component {
                    &&& final(world).entities@.len() == old(world).entities@.len()
                    &&& forall|k: int|
                        0 <= k < old(world).entities@.len() && k != ei ==> #[trigger] final(
                            world
                        ).entities@[k] == old(world).entities@[k]
                    &&& final(world).entities@[ei].entity == old(world).entities@[ei].entity
                    &&& match spec_find_comp(cs, component_type_name@) {
                        Some(ci) => final(world).entities@[ei].components@ == cs.remove(ci),
                        None => final(world).entities@[ei].components@ == cs,
                    }
                } else {
                    *final(world) == *old(world)
                }
            }),
    {
        match self.type_registry.get_with_type_path(component_type_name) {
            None => {},
            Some(registration) => {
                if registration.reflect_component {
                    world.remove_component(entity, component_type_name);
                }
            },
        }
    }
}

/// Two instance lists with the same type names at the same indexes resolve
/// a lookup identically.
proof fn lemma_find_comp_same_names(
    cs0: Seq<ComponentInstance>,
    cs1: Seq<ComponentInstance>,
    name: Seq<char>,
)
    requires
        cs0.len() == cs1.len(),
        forall|k: int| 0 <= k < cs0.len() ==> (#[trigger] cs1[k].type_path@) == cs0[k].type_path@,
    ensures
        spec_find_comp(cs1, name) == spec_find_comp(cs0, name),
    decreases cs0,
{
    if cs0.len() > 0 {
        assert(cs1[0].type_path@ == cs0[0].type_path@);
        lemma_find_comp_same_names(cs0.skip(1), cs1.skip(1), name);
        assert forall|k: int|
            0 <= k < cs0.skip(1).len() implies (#[trigger] cs1.skip(1)[k].type_path@) == cs0.skip(
            1,
        )[k].type_path@ by {
            assert(cs1.skip(1)[k] == cs1[k + 1]);
            assert(cs0.skip(1)[k] == cs0[k + 1]);
        }
    }
}

/// Appending an instance leaves every earlier lookup untouched and serves
/// lookups of the appended name last.
proof fn lemma_find_comp_push(cs: Seq<ComponentInstance>, c: ComponentInstance, name: Seq<char>)
    ensures
        spec_find_comp(cs.push(c), name) == (match spec_find_comp(cs, name) {
            Some(i) => Some(i),
            None => if c.type_path@ == name {
                Some(cs.len() as int)
            } else {
                None::<int>
            },
        }),
    decreases cs,
{
    let ps = cs.push(c);
    if cs.len() == 0 {
        assert(ps[0] == c);
        assert(ps.skip(1).len() == 0);
        assert(spec_find_comp(ps.skip(1), name) is None);
    } else {
        assert(ps[0] == cs[0]);
        assert(ps.len() == cs.len() + 1);
        lemma_find_comp_push(cs.skip(1), c, name);
        assert(ps.skip(1) =~= cs.skip(1).push(c));
        assert(spec_find_comp(ps.skip(1), name) == spec_find_comp(cs.skip(1).push(c), name));
        if ps[0].type_path@ == name {
            assert(spec_find_comp(ps, name) == Some(0int));
            assert(spec_find_comp(cs, name) == Some(0int));
        } else {
            assert(spec_find_comp(ps, name) == (match spec_find_comp(ps.skip(1), name) {
                Some(i) => Some(i + 1),
                None => None::<int>,
            }));
            assert(spec_find_comp(cs, name) == (match spec_find_comp(cs.skip(1), name) {
                Some(i) => Some(i + 1),
                None => None::<int>,
            }));
            assert(cs.skip(1).len() == cs.len() - 1);
        }
    }
}

/// Installing one component's value does not disturb any other component:
/// a lookup of a different name finds the same instance at the same index
/// as before.
proof fn lemma_installed_other(
    w0: World,
    w1: World,
    e: Entity,
    name: Seq<char>,
    m: ValueModel,
    other: Seq<char>,
)
    requires
        spec_find_entity(w0.entities@, e) is Some,
        installed(w0, w1, e, name, m),
        other != name,
    ensures
        ({
            let ei = spec_find_entity(w0.entities@, e)->Some_0;
            let cs = w0.entities@[ei].components@;
            let csf = w1.entities@[ei].components@;
            match spec_find_comp(cs, other) {
                Some(cj) => spec_find_comp(csf, other) == Some(cj) && csf[cj] == cs[cj],
                None => spec_find_comp(csf, other) is None,
            }
        }),
{
    let ei = spec_find_entity(w0.entities@, e)->Some_0;
    let cs = w0.entities@[ei].components@;
    let csf = w1.entities@[ei].components@;
    lemma_find_entity(w0.entities@, e);
    lemma_find_comp(cs, name);
    lemma_find_comp(cs, other);
    match spec_find_comp(cs, name) {
        Some(ci) => {
            assert forall|k: int|
                0 <= k < cs.len() implies (#[trigger] csf[k].type_path@) == cs[k].type_path@ by {
                if k != ci {
                    assert(csf[k] == cs[k]);
                }
            }
            lemma_find_comp_same_names(cs, csf, other);
            match spec_find_comp(cs, other) {
                Some(cj) => {
                    assert(cs[cj].type_path@ == other);
                    assert(cs[ci].type_path@ == name);
                    assert(cj != ci);
                    assert(csf[cj] == cs[cj]);
                },
                None => {},
            }
        },
        None => {
            assert(csf =~= cs.push(csf.last()));
            lemma_find_comp_push(cs, csf.last(), other);
            match spec_find_comp(cs, other) {
                Some(cj) => {
                    assert(cs.push(csf.last())[cj] == cs[cj]);
                },
                None => {
                    assert(csf.last().type_path@ == name);
                },
            }
        },
    }
}

/// After installing a component's value, a lookup of its name finds an
/// instance holding exactly that value.
proof fn lemma_installed_self(w0: World, w1: World, e: Entity, name: Seq<char>, m: ValueModel)
    requires
        spec_find_entity(w0.entities@, e) is Some,
        installed(w0, w1, e, name, m),
    ensures
        ({
            let ei = spec_find_entity(w0.entities@, e)->Some_0;
            let csf = w1.entities@[ei].components@;
            spec_find_comp(csf, name) is Some && view_of(
                csf[spec_find_comp(csf, name)->Some_0].value,
            ) == m
        }),
{
    let ei = spec_find_entity(w0.entities@, e)->Some_0;
    let cs = w0.entities@[ei].components@;
    let csf = w1.entities@[ei].components@;
    lemma_find_entity(w0.entities@, e);
    lemma_find_comp(cs, name);
    match spec_find_comp(cs, name) {
        Some(ci) => {
            assert forall|k: int|
                0 <= k < cs.len() implies (#[trigger] csf[k].type_path@) == cs[k].type_path@ by {
                if k != ci {
                    assert(csf[k] == cs[k]);
                }
            }
            lemma_find_comp_same_names(cs, csf, name);
        },
        None => {
            assert(csf =~= cs.push(csf.last()));
            lemma_find_comp_push(cs, csf.last(), name);
        },
    }
}

/// How many of the map's entries restore successfully against this
/// registry.
pub open spec fn spec_count_ok(
    regs: Seq<TypeRegistration>,
    entries: Seq<(String, String)>,
) -> nat
    decreases entries,
{
    if entries.len() == 0 {
        0
    } else {
        spec_count_ok(regs, entries.drop_last()) + (if spec_restore_ok(
            regs,
            entries.last().0@,
            entries.last().1@,
        ) {
            1nat
        } else {
            0nat
        })
    }
}

/// Whether some entry of the map restores the named component
/// successfully.
pub open spec fn map_restores_name(
    regs: Seq<TypeRegistration>,
    entries: Seq<(String, String)>,
    name: Seq<char>,
) -> bool {
    exists|i: int|
        #![trigger entries[i]]
        0 <= i < entries.len() && entries[i].0@ == name && spec_restore_ok(
            regs,
            name,
            entries[i].1@,
        )
}

/// A component instance traced to the map entry that produced it: some
/// entry among the first `upto` carries the instance's type name, restores
/// successfully, and its deserialized value is the instance's content.
pub open spec fn appended_from_map(
    regs: Seq<TypeRegistration>,
    entries: Seq<(String, String)>,
    upto: int,
    c: ComponentInstance,
) -> bool {
    exists|ii: int|
        #![trigger entries[ii]]
        0 <= ii < upto && entries[ii].0@ == c.type_path@ && spec_restore_ok(
            regs,
            c.type_path@,
            entries[ii].1@,
        ) && view_of(c.value) == spec_restore_value(regs, c.type_path@, entries[ii].1@)
}

/// The entry that produced an instance stays a witness under a wider
/// bound.
proof fn lemma_appended_widen(
    regs: Seq<TypeRegistration>,
    entries: Seq<(String, String)>,
    a: int,
    b: int,
    c: ComponentInstance,
)
    requires
        a <= b,
        appended_from_map(regs, entries, a, c),
    ensures
        appended_from_map(regs, entries, b, c),
{
    let ii = choose|ii: int|
        #![trigger entries[ii]]
        0 <= ii < a && entries[ii].0@ == c.type_path@ && spec_restore_ok(
            regs,
            c.type_path@,
            entries[ii].1@,
        ) && view_of(c.value) == spec_restore_value(regs, c.type_path@, entries[ii].1@);
    assert(0 <= ii < b && entries[ii].0@ == c.type_path@ && spec_restore_ok(
        regs,
        c.type_path@,
        entries[ii].1@,
    ) && view_of(c.value) == spec_restore_value(regs, c.type_path@, entries[ii].1@));
}

/// One more entry raises the count by at most one.
proof fn lemma_spec_count_ok_take(
    regs: Seq<TypeRegistration>,
    entries: Seq<(String, String)>,
    i: int,
)
    requires
        0 <= i < entries.len(),
    ensures
        spec_count_ok(regs, entries.take(i + 1)) == spec_count_ok(regs, entries.take(i)) + (
        if spec_restore_ok(regs, entries[i].0@, entries[i].1@) {
            1nat
        } else {
            0nat
        }),
{
    let t = entries.take(i + 1);
    assert(t.drop_last() =~= entries.take(i));
    assert(t.last() == entries[i]);
}

impl ComponentEditor {
    /// Restore every component in the serialized map onto the entity, one
    /// after the other, in the map's entry order. One bad component never
    /// stops the rest from loading: the call counts successes and failures
    /// and returns the pair. Every entry that can restore is installed with
    /// its deserialized value, and nothing else is touched: components of
    /// the entity whose type names the map does not restore stay exactly as
    /// they were, at their old positions, every appended instance comes
    /// from one of the map's restorable entries, and every other entity is
    /// left alone.
    #[verifier::loop_isolation(false)]
    pub fn load_components_from_scene_data(
        &self,
        world: &mut World,
        entity: Entity,
        serialized_components: &SerializedComponentMap,
    ) -> (counts: (usize, usize))
        requires
            old(world).wf(),
            spec_find_entity(old(world).entities@, entity) is Some,
            serialized_components.wf(),
        ensures
            final(world).wf(),
            spec_find_entity(final(world).entities@, entity) == spec_find_entity(
                old(world).entities@,
                entity,
            ),
            final(world).entities@.len() == old(world).entities@.len(),
            forall|k: int|
                0 <= k < old(world).entities@.len() && k != spec_find_entity(
                    old(world).entities@,
                    entity,
                )->Some_0 ==> #[trigger] final(world).entities@[k] == old(world).entities@[k],
            counts.0 == spec_count_ok(self.type_registry.entries@, serialized_components.entries@),
            counts.0 + counts.1 == serialized_components.entries@.len(),
            forall|i: int|
                0 <= i < serialized_components.entries@.len() && spec_restore_ok(
                    self.type_registry.entries@,
                    (#[trigger] serialized_components.entries@[i]).0@,
                    serialized_components.entries@[i].1@,
                ) ==> ({
                    let ei = spec_find_entity(old(world).entities@, entity)->Some_0;
                    let csf = final(world).entities@[ei].components@;
                    let nm = serialized_components.entries@[i].0@;
                    let m = spec_restore_value(
                        self.type_registry.entries@,
                        nm,
                        serialized_components.entries@[i].1@,
                    );
                    spec_find_comp(csf, nm) is Some && view_of(
                        csf[spec_find_comp(csf, nm)->Some_0].value,
                    ) == m
                }),
            ({
                let ei = spec_find_entity(old(world).entities@, entity)->Some_0;
                let cs = old(world).entities@[ei].components@;
                let csf = final(world).entities@[ei].components@;
                let regs = self.type_registry.entries@;
                let entries = serialized_components.entries@;
                &&& csf.len() >= cs.len()
                &&& forall|j: int|
                    0 <= j < cs.len() ==> (#[trigger] csf[j]).type_path@ == cs[j].type_path@
                        && csf[j].reflectable == cs[j].reflectable && csf[j].clonable
                        == cs[j].clonable
                &&& forall|j: int|
                    0 <= j < cs.len() && !map_restores_name(
                        regs,
                        entries,
                        (#[trigger] cs[j]).type_path@,
                    ) ==> csf[j] == cs[j]
                &&& forall|j: int|
                    cs.len() <= j < csf.len() ==> spec_find_comp(
                        cs,
                        (#[trigger] csf[j]).type_path@,
                    ) is None && csf[j].reflectable && csf[j].clonable && appended_from_map(
                        regs,
                        entries,
                        entries.len() as int,
                        csf[j],
                    )
            }),
    {
        let ghost regs = self.type_registry.entries@;
        let ghost entries = serialized_components.entries@;
        let ghost w0 = *world;
        let ghost ei = spec_find_entity(w0.entities@, entity)->Some_0;
        let ghost cs0 = w0.entities@[ei].components@;
        let n = serialized_components.entries.len();
        let mut success_count: usize = 0;
        let mut error_count: usize = 0;
        proof {
            assert(entries.take(0) =~= Seq::<(String, String)>::empty());
        }
        let mut i: usize = 0;
        while i < n
            invariant
                0 <= i <= n,
                world.wf(),
                spec_find_entity(world.entities@, entity) == spec_find_entity(
                    w0.entities@,
                    entity,
                ),
                world.entities@.len() == w0.entities@.len(),
                forall|k: int|
                    0 <= k < w0.entities@.len() && k != ei ==> #[trigger] world.entities@[k]
                        == w0.entities@[k],
                world.entities@[ei].entity == w0.entities@[ei].entity,
                success_count == spec_count_ok(regs, entries.take(i as int)),
                success_count + error_count == i,
                world.entities@[ei].components@.len() >= cs0.len(),
                forall|j: int|
                    0 <= j < cs0.len() ==> (#[trigger] world.entities@[ei].components@[j]).type_path@
                        == cs0[j].type_path@ && world.entities@[ei].components@[j].reflectable
                        == cs0[j].reflectable && world.entities@[ei].components@[j].clonable
                        == cs0[j].clonable,
                forall|j: int|
                    0 <= j < cs0.len() && !map_restores_name(
                        regs,
                        entries,
                        (#[trigger] cs0[j]).type_path@,
                    ) ==> world.entities@[ei].components@[j] == cs0[j],
                forall|j: int|
                    cs0.len() <= j < world.entities@[ei].components@.len() ==> spec_find_comp(
                        cs0,
                        (#[trigger] world.entities@[ei].components@[j]).type_path@,
                    ) is None && world.entities@[ei].components@[j].reflectable
                        && world.entities@[ei].components@[j].clonable && appended_from_map(
                        regs,
                        entries,
                        i as int,
                        world.entities@[ei].components@[j],
                    ),
                forall|j: int|
                    0 <= j < i && spec_restore_ok(
                        regs,
                        (#[trigger] entries[j]).0@,
                        entries[j].1@,
                    ) ==> ({
                        let csf = world.entities@[ei].components@;
                        let nm = entries[j].0@;
                        let m = spec_restore_value(regs, nm, entries[j].1@);
                        spec_find_comp(csf, nm) is Some && view_of(
                            csf[spec_find_comp(csf, nm)->Some_0].value,
                        ) == m
                    }),
            decreases n - i,
        {
            let pair = &serialized_components.entries[i];
            let ghost w_before = *world;
            let outcome = self.process_single_component(
                world,
                entity,
                pair.0.as_str(),
                pair.1.as_str(),
            );
            proof {
                lemma_spec_count_ok_take(regs, entries, i as int);
            }
            match outcome {
                Ok(()) => {
                    success_count = success_count + 1;
                    proof {
                        let nm = entries[i as int].0@;
                        let m = spec_restore_value(regs, nm, entries[i as int].1@);
                        lemma_installed_self(w_before, *world, entity, nm, m);
                        assert forall|j: int|
                            0 <= j < i + 1 && spec_restore_ok(
                                regs,
                                (#[trigger] entries[j]).0@,
                                entries[j].1@,
                            ) implies ({
                            let csf = world.entities@[ei].components@;
                            let nmj = entries[j].0@;
                            let mj = spec_restore_value(regs, nmj, entries[j].1@);
                            spec_find_comp(csf, nmj) is Some && view_of(
                                csf[spec_find_comp(csf, nmj)->Some_0].value,
                            ) == mj
                        }) by {
                            if j < i {
                                assert(entries[j].0@ != entries[i as int].0@);
                                lemma_installed_other(
                                    w_before,
                                    *world,
                                    entity,
                                    nm,
                                    m,
                                    entries[j].0@,
                                );
                            }
                        }
                        // frame: only this entry's component changed
                        let cs_b = w_before.entities@[ei].components@;
                        let cs_a = world.entities@[ei].components@;
                        lemma_find_comp(cs_b, nm);
                        assert(spec_restore_ok(regs, nm, entries[i as int].1@));
                        assert(map_restores_name(regs, entries, nm)) by {
                            assert(0 <= i < entries.len() && entries[i as int].0@ == nm
                                && spec_restore_ok(regs, nm, entries[i as int].1@));
                        }
                        match spec_find_comp(cs_b, nm) {
                            Some(ci) => {
                                assert(cs_b[ci].type_path@ == nm);
                                assert(ci < cs0.len()) by {
                                    if ci >= cs0.len() {
                                        // a tail instance would trace to an
                                        // earlier entry with this entry's
                                        // key, which unique keys forbid
                                        assert(appended_from_map(regs, entries, i as int, cs_b[ci]));
                                        let ii = choose|ii: int|
                                            #![trigger entries[ii]]
                                            0 <= ii < i && entries[ii].0@ == cs_b[ci].type_path@
                                                && spec_restore_ok(
                                                regs,
                                                cs_b[ci].type_path@,
                                                entries[ii].1@,
                                            ) && view_of(cs_b[ci].value) == spec_restore_value(
                                                regs,
                                                cs_b[ci].type_path@,
                                                entries[ii].1@,
                                            );
                                        assert(entries[ii].0@ == entries[i as int].0@);
                                        assert(false);
                                    }
                                }
                                assert(cs_a.len() == cs_b.len());
                                assert forall|j: int|
                                    0 <= j < cs_b.len() && j != ci implies #[trigger] cs_a[j]
                                        == cs_b[j] by {}
                                assert forall|j: int|
                                    0 <= j < cs0.len() implies (#[trigger] cs_a[j]).type_path@
                                        == cs0[j].type_path@ && cs_a[j].reflectable
                                        == cs0[j].reflectable && cs_a[j].clonable
                                        == cs0[j].clonable by {
                                    if j != ci {
                                        assert(cs_a[j] == cs_b[j]);
                                    }
                                }
                                assert forall|j: int|
                                    0 <= j < cs0.len() && !map_restores_name(
                                        regs,
                                        entries,
                                        (#[trigger] cs0[j]).type_path@,
                                    ) implies cs_a[j] == cs0[j] by {
                                    assert(cs_b[j].type_path@ == cs0[j].type_path@);
                                    if j == ci {
                                        assert(cs0[j].type_path@ == nm);
                                        assert(false);
                                    }
                                    assert(cs_a[j] == cs_b[j]);
                                }
                                assert forall|j: int|
                                    cs0.len() <= j < cs_a.len() implies spec_find_comp(
                                    cs0,
                                    (#[trigger] cs_a[j]).type_path@,
                                ) is None && cs_a[j].reflectable && cs_a[j].clonable
                                    && appended_from_map(regs, entries, i + 1 as int, cs_a[j]) by {
                                    assert(j != ci);
                                    assert(cs_a[j] == cs_b[j]);
                                    lemma_appended_widen(regs, entries, i as int, i + 1 as int, cs_b[j]);
                                }
                            },
                            None => {
                                assert(cs_a.len() == cs_b.len() + 1);
                                assert(cs_a.drop_last() == cs_b);
                                assert forall|j: int|
                                    0 <= j < cs_b.len() implies #[trigger] cs_a[j] == cs_b[j] by {
                                    assert(cs_a.drop_last()[j] == cs_a[j]);
                                }
                                assert forall|j: int|
                                    0 <= j < cs0.len() implies (#[trigger] cs_a[j]).type_path@
                                        == cs0[j].type_path@ && cs_a[j].reflectable
                                        == cs0[j].reflectable && cs_a[j].clonable
                                        == cs0[j].clonable by {
                                    assert(cs_a[j] == cs_b[j]);
                                }
                                assert forall|j: int|
                                    0 <= j < cs0.len() && !map_restores_name(
                                        regs,
                                        entries,
                                        (#[trigger] cs0[j]).type_path@,
                                    ) implies cs_a[j] == cs0[j] by {
                                    assert(cs_a[j] == cs_b[j]);
                                }
                                assert(cs_a.last().type_path@ == nm);
                                assert(spec_find_comp(cs0, nm) is None) by {
                                    lemma_find_comp(cs0, nm);
                                    match spec_find_comp(cs0, nm) {
                                        Some(jj) => {
                                            assert(cs_b[jj].type_path@ == cs0[jj].type_path@);
                                            assert(false);
                                        },
                                        None => {},
                                    }
                                }
                                assert forall|j: int|
                                    cs0.len() <= j < cs_a.len() implies spec_find_comp(
                                    cs0,
                                    (#[trigger] cs_a[j]).type_path@,
                                ) is None && cs_a[j].reflectable && cs_a[j].clonable
                                    && appended_from_map(regs, entries, i + 1 as int, cs_a[j]) by {
                                    if j < cs_b.len() {
                                        assert(cs_a[j] == cs_b[j]);
                                        lemma_appended_widen(regs, entries, i as int, i + 1 as int, cs_b[j]);
                                    } else {
                                        assert(cs_a[j] == cs_a.last());
                                        assert(0 <= i < i + 1 && entries[i as int].0@
                                            == cs_a[j].type_path@ && spec_restore_ok(
                                            regs,
                                            cs_a[j].type_path@,
                                            entries[i as int].1@,
                                        ) && view_of(cs_a[j].value) == spec_restore_value(
                                            regs,
                                            cs_a[j].type_path@,
                                            entries[i as int].1@,
                                        ));
                                    }
                                }
                            },
                        }
                    }
                },
                Err(_) => {
                    error_count = error_count + 1;
                },
            }
            i = i + 1;
        }
        proof {
            assert(entries.take(n as int) =~= entries);
        }
        (success_count, error_count)
    }
}

/// A gather over a prefix emits names drawn from, and distinct within,
/// that prefix — so a fresh instance's name is not among them.
proof fn lemma_take_gather_prefix(
    regs: Seq<TypeRegistration>,
    cs: Seq<ComponentInstance>,
    filter: bool,
    i: int,
)
    requires
        crate::world::unique_comp_names(cs),
        0 <= i < cs.len(),
    ensures
        forall|p: int|
            0 <= p < spec_gather(regs, cs.take(i), filter).len() ==> (#[trigger] spec_gather(
                regs,
                cs.take(i),
                filter,
            )[p].0) != cs[i].type_path@,
{
    let pre = cs.take(i);
    assert(crate::world::unique_comp_names(pre)) by {
        assert forall|a: int, b: int|
            0 <= a < b < pre.len() implies (#[trigger] pre[a].type_path@) != (
        #[trigger] pre[b].type_path@) by {
            assert(pre[a] == cs[a]);
            assert(pre[b] == cs[b]);
        }
    }
    lemma_spec_gather_names(regs, pre, filter);
    assert forall|p: int|
        0 <= p < spec_gather(regs, pre, filter).len() implies (#[trigger] spec_gather(
        regs,
        pre,
        filter,
    )[p].0) != cs[i].type_path@ by {
        let k = choose|k: int|
            0 <= k < pre.len() && (#[trigger] spec_gather(regs, pre, filter)[p].0)
                == pre[k].type_path@;
        assert(pre[k] == cs[k]);
        assert(cs[k].type_path@ != cs[i].type_path@);
    }
}

/// Two registrations that agree on everything the editor reads: name,
/// markers, capability set, constructor values (by model) and field layout.
pub open spec fn registration_model_eq(a: TypeRegistration, b: TypeRegistration) -> bool {
    &&& a.type_path@ == b.type_path@
    &&& a.bridge_tag == b.bridge_tag
    &&& a.exposed == b.exposed
    &&& a.reflect_component == b.reflect_component
    &&& a.reflect_deserialize == b.reflect_deserialize
    &&& (a.default_value is Some <==> b.default_value is Some)
    &&& (a.default_value is Some ==> view_of(a.default_value->Some_0) == view_of(
        b.default_value->Some_0,
    ))
    &&& (a.from_empty_value is Some <==> b.from_empty_value is Some)
    &&& (a.from_empty_value is Some ==> view_of(a.from_empty_value->Some_0) == view_of(
        b.from_empty_value->Some_0,
    ))
    &&& schema_model(a.schema) == schema_model(b.schema)
}

/// A copy of a registration, sharing the same name, markers, capabilities
/// and layout.
fn clone_registration(reg: &TypeRegistration) -> (r: TypeRegistration)
    ensures
        registration_model_eq(r, *reg),
{
    TypeRegistration {
        type_path: reg.type_path.clone(),
        bridge_tag: reg.bridge_tag,
        exposed: reg.exposed,
        reflect_component: reg.reflect_component,
        reflect_deserialize: reg.reflect_deserialize,
        default_value: match &reg.default_value {
            Some(v) => Some(clone_value(v)),
            None => None,
        },
        from_empty_value: match &reg.from_empty_value {
            Some(v) => Some(clone_value(v)),
            None => None,
        },
        schema: clone_schema(&reg.schema),
    }
}

/// A copy of a field layout with the same model.
fn clone_schema(s: &TypeSchema) -> (r: TypeSchema)
    ensures
        schema_model(r) == schema_model(*s),
{
    match s {
        TypeSchema::UnitType { token } => TypeSchema::UnitType { token: token.clone() },
        TypeSchema::StructType { field_names } => {
            let n = field_names.len();
            let mut out: Vec<String> = Vec::new();
            let mut i: usize = 0;
            while i < n
                invariant
                    0 <= i <= n,
                    n == field_names@.len(),
                    out@.len() == i,
                    forall|j: int| 0 <= j < i ==> (#[trigger] out@[j]@) == field_names@[j]@,
                decreases n - i,
            {
                out.push(field_names[i].clone());
                i = i + 1;
            }
            proof {
                assert forall|j: int|
                    0 <= j < n implies #[trigger] out.deep_view()[j] == field_names.deep_view()[j]
                    by {
                    assert(out.deep_view()[j] == out@[j]@);
                    assert(field_names.deep_view()[j] == field_names@[j]@);
                }
                assert(out.deep_view() =~= field_names.deep_view());
            }
            TypeSchema::StructType { field_names: out }
        },
        TypeSchema::TupleType { arity } => TypeSchema::TupleType { arity: *arity },
    }
}

/// Whether a parsed value fits a registered field layout.
#[verifier::loop_isolation(false)]
fn conforms_check(v: &StructuredValue, schema: &TypeSchema) -> (r: bool)
    ensures
        r == conforms(view_of(*v), schema_model(*schema)),
{
    match (v, schema) {
        (StructuredValue::UnitIdent(tok), TypeSchema::UnitType { token }) => tok.eq(token),
        (StructuredValue::Record(fields), TypeSchema::StructType { field_names }) => {
            proof {
                crate::value::lemma_view_of_fields(fields@);
            }
            let n = fields.len();
            if n != field_names.len() {
                return false;
            }
            let mut i: usize = 0;
            while i < n
                invariant
                    0 <= i <= n,
                    n == fields@.len() == field_names@.len(),
                    forall|j: int| 0 <= j < i ==> (#[trigger] fields@[j].0@) == field_names@[j]@,
                decreases n - i,
            {
                let pair = &fields[i];
                if !pair.0.eq(&field_names[i]) {
                    proof {
                        let l = crate::value::view_of_fields(fields@);
                        assert(l[i as int].0 == fields@[i as int].0@);
                        assert(field_names.deep_view()[i as int] == field_names@[i as int]@);
                    }
                    return false;
                }
                i = i + 1;
            }
            proof {
                let l = crate::value::view_of_fields(fields@);
                assert forall|j: int|
                    0 <= j < n implies (#[trigger] l[j].0) == field_names.deep_view()[j] by {
                    assert(l[j].0 == fields@[j].0@);
                    assert(field_names.deep_view()[j] == field_names@[j]@);
                }
            }
            true
        },
        (StructuredValue::List(items), TypeSchema::TupleType { arity }) => {
            proof {
                crate::value::lemma_view_of_list(items@);
            }
            items.len() == *arity
        },
        _ => {
            proof {
                match (view_of(*v), schema_model(*schema)) {
                    _ => {},
                }
            }
            false
        },
    }
}

} // verus!
