//! The fallback restoration paths: extraction equivalence, unit-value
//! recovery, and the sequence-to-tuple rewrite, observed through the
//! facade.

use bevy_granite::component_editor::ComponentEditor;
use bevy_granite::registry::{TypeRegistration, TypeRegistry, TypeSchema};
use bevy_granite::value::{structural_eq, StructuredValue};
use bevy_granite::world::{Entity, World};

fn num(t: &str) -> StructuredValue {
    StructuredValue::Number(t.to_string())
}

fn registration(name: &str, schema: TypeSchema) -> TypeRegistration {
    TypeRegistration {
        type_path: name.to_string(),
        bridge_tag: true,
        exposed: None,
        reflect_component: true,
        reflect_deserialize: true,
        default_value: None,
        from_empty_value: None,
        schema,
    }
}

#[test]
fn extraction_fallback_equivalence() {
    // One blob holds the component text as a plain quoted string; the other
    // can only be decoded by the generic structured-value parse. Both must
    // restore to the same structural value.
    let mut registry = TypeRegistry::new();
    assert!(registry.register(registration(
        "Health",
        TypeSchema::StructType { field_names: vec!["current".to_string(), "max".to_string()] },
    )));
    let editor = ComponentEditor::new(registry);
    let mut world = World::new();
    let e1 = Entity { id: 1 };
    let e2 = Entity { id: 2 };
    assert!(world.add_entity(e1));
    assert!(world.add_entity(e2));

    let quoted = "{\"Health\":\"(current:50.0,max:100.0)\"}";
    let structured = "{\"Health\":(current:50.0,max:100.0)}";
    editor
        .process_single_component(&mut world, e1, "Health", quoted)
        .expect("quoted blob restores");
    editor
        .process_single_component(&mut world, e2, "Health", structured)
        .expect("structured blob restores");
    let a = world.get_component(e1, "Health").expect("restored");
    let b = world.get_component(e2, "Health").expect("restored");
    assert!(structural_eq(&a.value, &b.value));
}

#[test]
fn unit_value_recovery() {
    // A generic value parse reports the token as an untyped unit; the raw
    // text scan must recover the identifier so the right unit restores.
    let mut registry = TypeRegistry::new();
    assert!(registry.register(registration(
        "MarkerType",
        TypeSchema::UnitType { token: "MarkerType".to_string() },
    )));
    let editor = ComponentEditor::new(registry);
    let mut world = World::new();
    let e = Entity { id: 3 };
    assert!(world.add_entity(e));
    editor
        .process_single_component(&mut world, e, "MarkerType", "{\"MarkerType\":MarkerType}")
        .expect("unit restores");
    let inst = world.get_component(e, "MarkerType").expect("restored");
    assert!(structural_eq(
        &inst.value,
        &StructuredValue::UnitIdent("MarkerType".to_string())
    ));
}

#[test]
fn sequence_to_tuple_conversion() {
    // A bracketed field must, after the bracket-to-parenthesis rewrite,
    // deserialize identically to the directly written tuple.
    let mut registry = TypeRegistry::new();
    assert!(registry.register(registration("Position", TypeSchema::TupleType { arity: 3 })));
    let editor = ComponentEditor::new(registry);
    let mut world = World::new();
    let e1 = Entity { id: 4 };
    let e2 = Entity { id: 5 };
    assert!(world.add_entity(e1));
    assert!(world.add_entity(e2));

    editor
        .process_single_component(&mut world, e1, "Position", "{\"Position\":[1.0,2.0,3.0]}")
        .expect("bracketed blob restores");
    editor
        .process_single_component(&mut world, e2, "Position", "(1.0,2.0,3.0)")
        .expect("tuple text restores");
    let expected = StructuredValue::List(vec![num("1.0"), num("2.0"), num("3.0")]);
    assert!(structural_eq(
        &world.get_component(e1, "Position").expect("restored").value,
        &expected
    ));
    assert!(structural_eq(
        &world.get_component(e2, "Position").expect("restored").value,
        &expected
    ));
}
