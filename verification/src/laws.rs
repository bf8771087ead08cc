//! The persistence engine's central guarantees, stated and proved once,
//! over the same specifications the facade's contracts use.

use vstd::prelude::*;
use crate::value::ValueModel;
use crate::format::{render_model, canonical};
use crate::parse::spec_parse_text;
use crate::roundtrip::{lemma_component_text_round_trip, lemma_render_first};
use crate::registry::{TypeRegistration, schema_model, conforms, is_eligible_reg, spec_find_reg};
use crate::world::ComponentInstance;
use crate::extract::{spec_extract, quoted_wrapper_blob, lemma_direct_extract_quoted,
    unit_wrapper_blob, lemma_extract_unit_wrapper, lemma_extract_structured_wrapper};
use crate::component_editor::{gatherable, spec_gather, spec_serialize, spec_deserialize,
    spec_restore_ok, spec_restore_value};

verus! {

/// Round-trip idempotence: the text the serializer writes for a canonical
/// component value restores, through the full extraction and
/// deserialization pipeline, to exactly that value — for structs, tuple
/// structs, unit values, strings, and nested records alike.
pub proof fn lemma_round_trip_restore(
    regs: Seq<TypeRegistration>,
    name: Seq<char>,
    reg: TypeRegistration,
    vm: ValueModel,
)
    requires
        spec_find_reg(regs, name) == Some(reg),
        canonical(vm),
        conforms(vm, schema_model(reg.schema)),
        reg.reflect_component,
    ensures
        spec_restore_ok(regs, name, render_model(vm)),
        spec_restore_value(regs, name, render_model(vm)) == vm,
{
    let text = render_model(vm);
    lemma_render_first(vm);
    assert(text[0] != '{') by {
        assert('"' as u32 == 34 && '-' as u32 == 45 && '(' as u32 == 40 && '{' as u32 == 123);
    }
    assert(spec_extract(name, text) == Some(text));
    lemma_component_text_round_trip(vm);
    assert(spec_parse_text(text, true) == Some(vm));
    assert(spec_deserialize(reg, text) == Some(vm));
}

/// Extraction fallback equivalence: a legacy wrapper blob that stores a
/// component's canonical text as a plain quoted string restores to exactly
/// the same structural value as the bare text itself — the direct textual
/// extraction and the pass-through path meet in one deserialized value.
pub proof fn lemma_extraction_fallback_equivalence(
    regs: Seq<TypeRegistration>,
    name: Seq<char>,
    reg: TypeRegistration,
    vm: ValueModel,
)
    requires
        spec_find_reg(regs, name) == Some(reg),
        canonical(vm),
        conforms(vm, schema_model(reg.schema)),
        reg.reflect_component,
    ensures
        spec_restore_ok(regs, name, quoted_wrapper_blob(name, render_model(vm))),
        spec_restore_ok(regs, name, render_model(vm)),
        spec_restore_value(regs, name, quoted_wrapper_blob(name, render_model(vm)))
            == spec_restore_value(regs, name, render_model(vm)),
        spec_restore_value(regs, name, render_model(vm)) == vm,
{
    lemma_round_trip_restore(regs, name, reg, vm);
    lemma_direct_extract_quoted(name, render_model(vm));
    lemma_component_text_round_trip(vm);
    assert(spec_deserialize(reg, render_model(vm)) == Some(vm));
    assert(spec_extract(name, quoted_wrapper_blob(name, render_model(vm))) == Some(
        render_model(vm),
    ));
}

/// Extraction fallback equivalence, structured form: a wrapper blob that
/// only the generic structured-value parse can decode — the component's
/// value standing bare after the key — restores to exactly the same
/// structural value as the quoted form and the bare text. Holds for every
/// canonical value free of unit constituents and not itself a string; the
/// type name may not contain quotes or backslashes.
pub proof fn lemma_structured_fallback_equivalence(
    regs: Seq<TypeRegistration>,
    name: Seq<char>,
    reg: TypeRegistration,
    vm: ValueModel,
)
    requires
        spec_find_reg(regs, name) == Some(reg),
        forall|k: int| 0 <= k < name.len() ==> (#[trigger] name[k]) != '"' && name[k] != '\\',
        canonical(vm),
        crate::format::unit_free(vm),
        !(vm is TextV),
        conforms(vm, schema_model(reg.schema)),
        reg.reflect_component,
    ensures
        spec_restore_ok(regs, name, unit_wrapper_blob(name, render_model(vm))),
        spec_restore_value(regs, name, unit_wrapper_blob(name, render_model(vm))) == vm,
        spec_restore_value(regs, name, unit_wrapper_blob(name, render_model(vm)))
            == spec_restore_value(regs, name, quoted_wrapper_blob(name, render_model(vm))),
{
    lemma_extraction_fallback_equivalence(regs, name, reg, vm);
    lemma_extract_structured_wrapper(name, vm);
    lemma_component_text_round_trip(vm);
    assert(spec_deserialize(reg, render_model(vm)) == Some(vm));
}

/// Unit-value recovery: a wrapper blob holding a unit component's bare
/// identifier token restores to exactly that unit value — not a failure,
/// and not a default of the wrong type — even though the generic
/// structured-value parse of the blob erases which identifier the unit
/// had. The type name may not itself contain quotes or backslashes.
pub proof fn lemma_unit_value_recovery(
    regs: Seq<TypeRegistration>,
    name: Seq<char>,
    reg: TypeRegistration,
    token: Seq<char>,
)
    requires
        spec_find_reg(regs, name) == Some(reg),
        forall|k: int| 0 <= k < name.len() ==> (#[trigger] name[k]) != '"' && name[k] != '\\',
        crate::format::valid_ident(token),
        token != "true"@,
        token != "false"@,
        schema_model(reg.schema) == crate::registry::SchemaModel::UnitS(token),
        reg.reflect_component,
    ensures
        spec_restore_ok(regs, name, unit_wrapper_blob(name, token)),
        spec_restore_value(regs, name, unit_wrapper_blob(name, token)) == ValueModel::UnitV(
            token,
        ),
{
    lemma_extract_unit_wrapper(name, token);
    let vm = ValueModel::UnitV(token);
    assert(canonical(vm));
    lemma_component_text_round_trip(vm);
    assert(render_model(vm) == token);
    assert(spec_parse_text(token, true) == Some(vm));
    assert(conforms(vm, schema_model(reg.schema)));
    assert(spec_deserialize(reg, token) == Some(vm));
}

/// One gathered pair traced to its source: some instance in the list is
/// gatherable under the filter, its registered type is eligible, and the
/// pair is that instance's name and content.
pub open spec fn gather_pair_sourced(
    regs: Seq<TypeRegistration>,
    cs: Seq<ComponentInstance>,
    pr: (Seq<char>, ValueModel),
) -> bool {
    exists|k: int|
        #![trigger gatherable(regs, cs[k], true)]
        0 <= k < cs.len() && gatherable(regs, cs[k], true) && is_eligible_reg(
            spec_find_reg(regs, cs[k].type_path@)->Some_0,
        ) && pr == (cs[k].type_path@, crate::value::view_of(cs[k].value))
}

/// Filter correctness for the gather path: every pair a filtered gather
/// emits comes from an instance whose registered type is eligible for the
/// editor — an ineligible type is never emitted, even when the entity
/// carries an instance of it.
pub proof fn lemma_gather_only_eligible(regs: Seq<TypeRegistration>, cs: Seq<ComponentInstance>)
    ensures
        forall|p: int|
            0 <= p < spec_gather(regs, cs, true).len() ==> gather_pair_sourced(
                regs,
                cs,
                #[trigger] spec_gather(regs, cs, true)[p],
            ),
    decreases cs,
{
    if cs.len() > 0 {
        let pre = cs.drop_last();
        lemma_gather_only_eligible(regs, pre);
        let g = spec_gather(regs, cs, true);
        let gp = spec_gather(regs, pre, true);
        assert forall|p: int|
            0 <= p < g.len() implies gather_pair_sourced(regs, cs, #[trigger] g[p]) by {
            if p < gp.len() {
                assert(gather_pair_sourced(regs, pre, gp[p]));
                let k0 = choose|k: int|
                    #![trigger gatherable(regs, pre[k], true)]
                    0 <= k < pre.len() && gatherable(regs, pre[k], true) && is_eligible_reg(
                        spec_find_reg(regs, pre[k].type_path@)->Some_0,
                    ) && gp[p] == (pre[k].type_path@, crate::value::view_of(pre[k].value));
                assert(pre[k0] == cs[k0]);
                assert(g[p] == gp[p]);
                assert(0 <= k0 < cs.len() && gatherable(regs, cs[k0], true) && is_eligible_reg(
                    spec_find_reg(regs, cs[k0].type_path@)->Some_0,
                ) && g[p] == (cs[k0].type_path@, crate::value::view_of(cs[k0].value)));
            } else {
                let k0 = cs.len() - 1;
                assert(gatherable(regs, cs[k0], true));
                assert(0 <= k0 < cs.len() && gatherable(regs, cs[k0], true) && is_eligible_reg(
                    spec_find_reg(regs, cs[k0].type_path@)->Some_0,
                ) && g[p] == (cs[k0].type_path@, crate::value::view_of(cs[k0].value)));
            }
        }
    }
}

/// Serialization emits exactly the filtered gather, rendered: each pair of
/// the serialized map is an eligible instance's name with the canonical
/// component text of its content.
pub proof fn lemma_serialize_is_rendered_gather(
    regs: Seq<TypeRegistration>,
    cs: Seq<ComponentInstance>,
)
    ensures
        spec_serialize(regs, cs).len() == spec_gather(regs, cs, true).len(),
        forall|p: int|
            0 <= p < spec_gather(regs, cs, true).len() ==> (#[trigger] spec_serialize(
                regs,
                cs,
            )[p]) == (
            spec_gather(regs, cs, true)[p].0,
            render_model(spec_gather(regs, cs, true)[p].1),
            ),
{
}

} // verus!
