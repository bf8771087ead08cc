//! The type registry: a catalog of per-type reflection capabilities, keyed
//! by a component type's fully qualified name.
//!
//! The editor consumes the registry; it does not own the component types.
//! Each registration records, as plain data, what the engine can do with
//! the type: reflect live instances off an entity, deserialize structured
//! text directly, construct a default instance, or construct one from an
//! empty reflected blob — together with the type's field layout and its
//! editor-exposure markers.

use vstd::prelude::*;
use crate::value::{StructuredValue, ValueModel, view_of};

verus! {

/// Marker recorded for every component type declared through the editor's
/// component bridge, so the editor can filter them in its UI.
pub struct BridgeTag;

/// Marker recorded for a pre-existing engine component that is intentionally
/// whitelisted for editor visibility.
#[derive(Clone, Copy, PartialEq, Eq, Structural)]
pub struct ExposedToEditor {
    pub read_only: bool,
}

/// The field layout of a component type, as the registry knows it.
pub enum TypeSchema {
    /// A unit struct or bare enum variant, with its identifier token
    /// (`()` for an anonymous zero-field unit).
    UnitType { token: String },
    /// A struct with named fields, in declaration order.
    StructType { field_names: Vec<String> },
    /// A tuple struct with a fixed number of unnamed fields.
    TupleType { arity: usize },
}

/// Mathematical model of a field layout.
pub enum SchemaModel {
    UnitS(Seq<char>),
    StructS(Seq<Seq<char>>),
    TupleS(nat),
}

/// The model a [`TypeSchema`] stands for.
pub open spec fn schema_model(s: TypeSchema) -> SchemaModel {
    match s {
        TypeSchema::UnitType { token } => SchemaModel::UnitS(token@),
        TypeSchema::StructType { field_names } => SchemaModel::StructS(field_names.deep_view()),
        TypeSchema::TupleType { arity } => SchemaModel::TupleS(arity as nat),
    }
}

/// Whether a parsed value fits a type's field layout: the right shape, and
/// for structs the right field names in the right order.
pub open spec fn conforms(v: ValueModel, s: SchemaModel) -> bool {
    match s {
        SchemaModel::UnitS(token) => v == ValueModel::UnitV(token),
        SchemaModel::StructS(names) => match v {
            ValueModel::RecordV(fields) => fields.len() == names.len() && (forall|i: int|
                0 <= i < fields.len() ==> (#[trigger] fields[i].0) == names[i]),
            _ => false,
        },
        SchemaModel::TupleS(arity) => match v {
            ValueModel::ListV(items) => items.len() == arity,
            _ => false,
        },
    }
}

/// One component type's registration: its unique, stable, fully qualified
/// name, its editor-exposure markers, and its capability set.
pub struct TypeRegistration {
    /// The type's fully qualified name; unique within one registry.
    pub type_path: String,
    /// The bridge marker: the type was declared through the editor's
    /// component bridge.
    pub bridge_tag: bool,
    /// The whitelist marker for pre-existing engine components.
    pub exposed: Option<ExposedToEditor>,
    /// The engine can reflect live instances of this type off an entity,
    /// and install reflected values onto one.
    pub reflect_component: bool,
    /// A schema-driven deserializer, keyed only by the type's own grammar,
    /// is available.
    pub reflect_deserialize: bool,
    /// A default-constructor capability, with the instance it builds.
    pub default_value: Option<StructuredValue>,
    /// A construct-from-empty-reflected-blob capability, with the instance
    /// it builds.
    pub from_empty_value: Option<StructuredValue>,
    /// The type's field layout.
    pub schema: TypeSchema,
}

/// Whether a registration carries the bridge marker.
pub open spec fn has_bridge_tag(reg: TypeRegistration) -> bool {
    reg.bridge_tag
}

/// Whether a registration carries the whitelist marker.
pub open spec fn has_exposed_tag(reg: TypeRegistration) -> bool {
    reg.exposed is Some
}

/// Whether a component type is eligible for editor visibility and
/// persistence: it carries the bridge marker or the whitelist marker.
pub open spec fn is_eligible_reg(reg: TypeRegistration) -> bool {
    has_bridge_tag(reg) || has_exposed_tag(reg)
}

/// The exposure filter is exactly the disjunction of the two markers: a
/// registration is eligible if and only if it carries the bridge tag or the
/// exposed tag. The gather path and the UI listing path both use this one
/// predicate.
pub proof fn lemma_filter_correctness(reg: TypeRegistration)
    ensures
        is_eligible_reg(reg) == (has_bridge_tag(reg) || has_exposed_tag(reg)),
{
}

/// True iff the registration was declared through the component bridge.
pub fn is_bridge_component_check(registration: &TypeRegistration) -> (r: bool)
    ensures
        r == has_bridge_tag(*registration),
{
    registration.bridge_tag
}

/// True iff the registration is a whitelisted pre-existing engine component.
pub fn is_exposed_bevy_component(registration: &TypeRegistration) -> (r: bool)
    ensures
        r == has_exposed_tag(*registration),
{
    registration.exposed.is_some()
}

/// The first registration with the given type name, if any.
pub open spec fn spec_find_reg(regs: Seq<TypeRegistration>, name: Seq<char>) -> Option<
    TypeRegistration,
>
    decreases regs,
{
    if regs.len() == 0 {
        None
    } else if regs[0].type_path@ == name {
        Some(regs[0])
    } else {
        spec_find_reg(regs.skip(1), name)
    }
}

/// A process-wide catalog mapping each component type's fully qualified
/// name to its reflection capabilities. Initialized once at startup by
/// registration calls, read thereafter.
pub struct TypeRegistry {
    pub entries: Vec<TypeRegistration>,
}

impl TypeRegistry {
    /// Every registered name is unique: lookups by name are deterministic.
    pub open spec fn wf(self) -> bool {
        forall|i: int, j: int|
            0 <= i < j < self.entries@.len() ==> (#[trigger] self.entries@[i].type_path@) != (
            #[trigger] self.entries@[j].type_path@)
    }

    /// An empty registry.
    pub fn new() -> (r: Self)
        ensures
            r.wf(),
            r.entries@.len() == 0,
    {
        TypeRegistry { entries: Vec::new() }
    }

    /// Record a type's registration. Returns true and appends the entry when
    /// the name is new; returns false and leaves the registry unchanged when
    /// the name is already registered.
    pub fn register(&mut self, reg: TypeRegistration) -> (r: bool)
        requires
            old(self).wf(),
        ensures
            final(self).wf(),
            r == (spec_find_reg(old(self).entries@, reg.type_path@) is None),
            r ==> final(self).entries@ == old(self).entries@.push(reg),
            !r ==> *final(self) == *old(self),
    {
        proof {
            lemma_find_reg_some_iff(self.entries@, reg.type_path@);
        }
        let existing = self.get_with_type_path(reg.type_path.as_str());
        if existing.is_some() {
            false
        } else {
            proof {
                let ghost entries0 = self.entries@;
                assert forall|i: int, j: int|
                    0 <= i < j < entries0.push(reg).len() implies (#[trigger] entries0.push(
                    reg,
                )[i].type_path@) != (#[trigger] entries0.push(reg)[j].type_path@) by {
                    lemma_find_reg_some_iff(entries0, reg.type_path@);
                    if j < entries0.len() {
                        assert(entries0.push(reg)[i] == entries0[i]);
                        assert(entries0.push(reg)[j] == entries0[j]);
                    } else {
                        assert(entries0.push(reg)[i] == entries0[i]);
                        assert(entries0.push(reg)[j] == reg);
                    }
                }
            }
            self.entries.push(reg);
            true
        }
    }

    /// Look up a registration by the type's fully qualified name.
    pub fn get_with_type_path(&self, name: &str) -> (r: Option<&TypeRegistration>)
        ensures
            match r {
                Some(reg) => spec_find_reg(self.entries@, name@) == Some(*reg),
                None => spec_find_reg(self.entries@, name@) is None,
            },
    {
        let name_string = String::from_str(name);
        let n = self.entries.len();
        proof {
            assert(self.entries@.skip(0) =~= self.entries@);
        }
        let mut i: usize = 0;
        while i < n
            invariant
                0 <= i <= n,
                n == self.entries@.len(),
                name_string@ == name@,
                spec_find_reg(self.entries@, name@) == spec_find_reg(
                    self.entries@.skip(i as int),
                    name@,
                ),
            decreases n - i,
        {
            let reg = &self.entries[i];
            if reg.type_path.eq(&name_string) {
                proof {
                    assert(self.entries@.skip(i as int)[0] == self.entries@[i as int]);
                }
                return Some(reg);
            }
            proof {
                assert(self.entries@.skip(i as int)[0] == self.entries@[i as int]);
                assert(self.entries@.skip(i as int).skip(1) =~= self.entries@.skip(i + 1));
            }
            i = i + 1;
        }
        proof {
            assert(self.entries@.skip(n as int).len() == 0);
        }
        None
    }
}

/// A found registration carries the name it was looked up by.
pub proof fn lemma_find_reg_found(regs: Seq<TypeRegistration>, name: Seq<char>)
    ensures
        match spec_find_reg(regs, name) {
            Some(reg) => reg.type_path@ == name,
            None => true,
        },
    decreases regs,
{
    if regs.len() > 0 && regs[0].type_path@ != name {
        lemma_find_reg_found(regs.skip(1), name);
    }
}

/// A name is found exactly when some entry carries it.
pub proof fn lemma_find_reg_some_iff(regs: Seq<TypeRegistration>, name: Seq<char>)
    ensures
        (spec_find_reg(regs, name) is Some) <==> (exists|i: int|
            0 <= i < regs.len() && (#[trigger] regs[i].type_path@) == name),
    decreases regs,
{
    if regs.len() > 0 {
        lemma_find_reg_some_iff(regs.skip(1), name);
        if regs[0].type_path@ == name {
        } else {
            assert forall|i: int|
                0 <= i < regs.skip(1).len() implies regs.skip(1)[i] == regs[i + 1] by {}
            if exists|i: int| 0 <= i < regs.len() && (#[trigger] regs[i].type_path@) == name {
                let i = choose|i: int| 0 <= i < regs.len() && (#[trigger] regs[i].type_path@)
                    == name;
                assert(i > 0);
                assert(regs.skip(1)[i - 1].type_path@ == name);
            }
            if spec_find_reg(regs.skip(1), name) is Some {
                let i = choose|i: int|
                    0 <= i < regs.skip(1).len() && (#[trigger] regs.skip(1)[i].type_path@) == name;
                assert(regs[i + 1].type_path@ == name);
            }
        }
    }
}

} // verus!
