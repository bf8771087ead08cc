//! The facade: gathering, restoring, and the imperative editor operations.

use bevy_granite::component_editor::{ComponentEditor, ComponentError};
use bevy_granite::registry::{TypeRegistration, TypeRegistry, TypeSchema};
use bevy_granite::value::{structural_eq, StructuredValue};
use bevy_granite::world::{ComponentInstance, Entity, World};

fn num(t: &str) -> StructuredValue {
    StructuredValue::Number(t.to_string())
}

fn health_value() -> StructuredValue {
    StructuredValue::Record(vec![
        ("current".to_string(), num("50.0")),
        ("max".to_string(), num("100.0")),
    ])
}

fn health_registration() -> TypeRegistration {
    TypeRegistration {
        type_path: "Health".to_string(),
        bridge_tag: true,
        exposed: None,
        reflect_component: true,
        reflect_deserialize: true,
        default_value: Some(StructuredValue::Record(vec![
            ("current".to_string(), num("0.0")),
            ("max".to_string(), num("0.0")),
        ])),
        from_empty_value: None,
        schema: TypeSchema::StructType {
            field_names: vec!["current".to_string(), "max".to_string()],
        },
    }
}

fn registry_with_health() -> TypeRegistry {
    let mut registry = TypeRegistry::new();
    assert!(registry.register(health_registration()));
    registry
}

fn instance(name: &str, v: StructuredValue) -> ComponentInstance {
    ComponentInstance {
        type_path: name.to_string(),
        value: v,
        reflectable: true,
        clonable: true,
    }
}

#[test]
fn example_scenario_gather_then_restore() {
    let editor = ComponentEditor::new(registry_with_health());
    let mut world = World::new();
    let e1 = Entity { id: 1 };
    let e2 = Entity { id: 2 };
    assert!(world.add_entity(e1));
    assert!(world.add_entity(e2));
    assert!(world.add_instance(e1, instance("Health", health_value())));

    let map = editor.serialize_entity_components(&world, e1);
    let text = map.get("Health").expect("Health serialized").clone();
    assert_eq!(text, "(current:50.0,max:100.0)");

    editor
        .process_single_component(&mut world, e2, "Health", &text)
        .expect("restore succeeds");
    let inst = world.get_component(e2, "Health").expect("Health restored");
    assert!(structural_eq(&inst.value, &health_value()));

    let map2 = editor.serialize_entity_components(&world, e2);
    assert_eq!(map2.get("Health").expect("round trip"), &text);
}

#[test]
fn gather_skips_ineligible_and_unregistered_types() {
    let mut registry = registry_with_health();
    assert!(registry.register(TypeRegistration {
        type_path: "Internal".to_string(),
        bridge_tag: false,
        exposed: None,
        reflect_component: true,
        reflect_deserialize: true,
        default_value: None,
        from_empty_value: None,
        schema: TypeSchema::TupleType { arity: 1 },
    }));
    let editor = ComponentEditor::new(registry);
    let mut world = World::new();
    let e = Entity { id: 7 };
    assert!(world.add_entity(e));
    assert!(world.add_instance(e, instance("Health", health_value())));
    assert!(world.add_instance(e, instance("Internal", StructuredValue::List(vec![num("1")]))));
    assert!(world.add_instance(e, instance("Unregistered", num("3"))));

    let map = editor.serialize_entity_components(&world, e);
    assert_eq!(map.entries.len(), 1);
    assert!(map.get("Health").is_some());
    assert!(map.get("Internal").is_none());
    assert!(map.get("Unregistered").is_none());

    let listed = editor.get_reflected_components(&world, e, true);
    assert_eq!(listed.len(), 1);
    assert_eq!(listed[0].type_path, "Health");
    let unfiltered = editor.get_reflected_components(&world, e, false);
    assert_eq!(unfiltered.len(), 2);
}

#[test]
fn gather_skips_unclonable_instances() {
    let editor = ComponentEditor::new(registry_with_health());
    let mut world = World::new();
    let e = Entity { id: 3 };
    assert!(world.add_entity(e));
    let mut inst = instance("Health", health_value());
    inst.clonable = false;
    assert!(world.add_instance(e, inst));
    let map = editor.serialize_entity_components(&world, e);
    assert_eq!(map.entries.len(), 0);
}

#[test]
fn failure_isolation_in_batch_restore() {
    let mut registry = registry_with_health();
    for name in ["A", "B", "C", "D"] {
        assert!(registry.register(TypeRegistration {
            type_path: name.to_string(),
            bridge_tag: true,
            exposed: None,
            reflect_component: true,
            reflect_deserialize: false,
            default_value: None,
            from_empty_value: None,
            schema: TypeSchema::TupleType { arity: 1 },
        }));
    }
    let editor = ComponentEditor::new(registry);
    let mut world = World::new();
    let e = Entity { id: 9 };
    assert!(world.add_entity(e));

    let mut map = bevy_granite::component_editor::SerializedComponentMap::new();
    assert!(map.insert("A".to_string(), "(1.0)".to_string()));
    assert!(map.insert("B".to_string(), "(2.0)".to_string()));
    assert!(map.insert("Missing".to_string(), "(0.0)".to_string()));
    assert!(map.insert("C".to_string(), "(3.0)".to_string()));
    assert!(map.insert("D".to_string(), "(4.0)".to_string()));

    let (ok, failed) = editor.load_components_from_scene_data(&mut world, e, &map);
    assert_eq!(ok, 4);
    assert_eq!(failed, 1);
    for name in ["A", "B", "C", "D"] {
        assert!(world.get_component(e, name).is_some());
    }
    assert!(world.get_component(e, "Missing").is_none());
}

#[test]
fn batch_restore_leaves_other_components_alone() {
    let mut registry = registry_with_health();
    assert!(registry.register(TypeRegistration {
        type_path: "Untouched".to_string(),
        bridge_tag: true,
        exposed: None,
        reflect_component: true,
        reflect_deserialize: false,
        default_value: None,
        from_empty_value: None,
        schema: TypeSchema::TupleType { arity: 1 },
    }));
    let editor = ComponentEditor::new(registry);
    let mut world = World::new();
    let e = Entity { id: 14 };
    assert!(world.add_entity(e));
    assert!(world.add_instance(e, instance("Untouched", StructuredValue::List(vec![num("7")]))));
    assert!(world.add_instance(e, instance("Health", health_value())));

    let mut map = bevy_granite::component_editor::SerializedComponentMap::new();
    assert!(map.insert("Health".to_string(), "(current:10.0,max:100.0)".to_string()));
    let (ok, failed) = editor.load_components_from_scene_data(&mut world, e, &map);
    assert_eq!((ok, failed), (1, 0));

    let untouched = world.get_component(e, "Untouched").expect("still present");
    assert!(structural_eq(
        &untouched.value,
        &StructuredValue::List(vec![num("7")])
    ));
    let map_after = editor.serialize_entity_components(&world, e);
    assert_eq!(map_after.entries.len(), 2);
}

#[test]
fn batch_restore_outcome_is_order_independent() {
    let mut registry = registry_with_health();
    assert!(registry.register(TypeRegistration {
        type_path: "Tag".to_string(),
        bridge_tag: true,
        exposed: None,
        reflect_component: true,
        reflect_deserialize: false,
        default_value: None,
        from_empty_value: None,
        schema: TypeSchema::TupleType { arity: 1 },
    }));
    let editor = ComponentEditor::new(registry);
    let mut world = World::new();
    let e1 = Entity { id: 15 };
    let e2 = Entity { id: 16 };
    assert!(world.add_entity(e1));
    assert!(world.add_entity(e2));

    let mut forward = bevy_granite::component_editor::SerializedComponentMap::new();
    assert!(forward.insert("Health".to_string(), "(current:50.0,max:100.0)".to_string()));
    assert!(forward.insert("Tag".to_string(), "(1.0)".to_string()));
    let mut backward = bevy_granite::component_editor::SerializedComponentMap::new();
    assert!(backward.insert("Tag".to_string(), "(1.0)".to_string()));
    assert!(backward.insert("Health".to_string(), "(current:50.0,max:100.0)".to_string()));

    assert_eq!(editor.load_components_from_scene_data(&mut world, e1, &forward), (2, 0));
    assert_eq!(editor.load_components_from_scene_data(&mut world, e2, &backward), (2, 0));
    for name in ["Health", "Tag"] {
        let a = world.get_component(e1, name).expect("restored");
        let b = world.get_component(e2, name).expect("restored");
        assert!(structural_eq(&a.value, &b.value));
    }
}

#[test]
fn restore_reports_each_error_kind() {
    let mut registry = registry_with_health();
    assert!(registry.register(TypeRegistration {
        type_path: "Frozen".to_string(),
        bridge_tag: true,
        exposed: None,
        reflect_component: false,
        reflect_deserialize: true,
        default_value: None,
        from_empty_value: None,
        schema: TypeSchema::TupleType { arity: 1 },
    }));
    let editor = ComponentEditor::new(registry);
    let mut world = World::new();
    let e = Entity { id: 4 };
    assert!(world.add_entity(e));

    let r = editor.process_single_component(&mut world, e, "Nobody", "(1.0)");
    assert!(matches!(r, Err(ComponentError::UnknownType { .. })));

    let r = editor.process_single_component(&mut world, e, "Health", "{\"Other\":(x:1.0)}");
    assert!(matches!(r, Err(ComponentError::ExtractionFailed { .. })));

    let r = editor.process_single_component(&mut world, e, "Health", "(current:50.0");
    assert!(matches!(r, Err(ComponentError::DeserializationFailed { .. })));

    let r = editor.process_single_component(&mut world, e, "Health", "(wrong:1.0,max:2.0)");
    assert!(matches!(r, Err(ComponentError::DeserializationFailed { .. })));

    let r = editor.process_single_component(&mut world, e, "Frozen", "(1.0)");
    assert!(matches!(r, Err(ComponentError::NotReflectable { .. })));
}

#[test]
fn restore_applies_over_existing_instance() {
    let editor = ComponentEditor::new(registry_with_health());
    let mut world = World::new();
    let e = Entity { id: 5 };
    assert!(world.add_entity(e));
    assert!(world.add_instance(e, instance("Health", health_value())));

    editor
        .process_single_component(&mut world, e, "Health", "(current:10.0,max:100.0)")
        .expect("apply succeeds");
    let inst = world.get_component(e, "Health").expect("still there");
    let expected = StructuredValue::Record(vec![
        ("current".to_string(), num("10.0")),
        ("max".to_string(), num("100.0")),
    ]);
    assert!(structural_eq(&inst.value, &expected));
}

#[test]
fn add_edit_and_remove_by_name() {
    let editor = ComponentEditor::new(registry_with_health());
    let mut world = World::new();
    let e = Entity { id: 6 };
    assert!(world.add_entity(e));

    editor
        .add_component_by_name(&mut world, e, "Health")
        .expect("default construction");
    let inst = world.get_component(e, "Health").expect("added");
    let default_expected = StructuredValue::Record(vec![
        ("current".to_string(), num("0.0")),
        ("max".to_string(), num("0.0")),
    ]);
    assert!(structural_eq(&inst.value, &default_expected));

    editor
        .edit_component_by_name(&mut world, e, "Health", &health_value())
        .expect("edit succeeds");
    let inst = world.get_component(e, "Health").expect("edited");
    assert!(structural_eq(&inst.value, &health_value()));

    editor.remove_component_by_name(&mut world, e, "Health");
    assert!(world.get_component(e, "Health").is_none());

    let r = editor.add_component_by_name(&mut world, e, "Nobody");
    assert!(matches!(r, Err(ComponentError::UnknownType { .. })));
}

#[test]
fn add_fails_without_any_constructor() {
    let mut registry = TypeRegistry::new();
    assert!(registry.register(TypeRegistration {
        type_path: "Bare".to_string(),
        bridge_tag: true,
        exposed: None,
        reflect_component: true,
        reflect_deserialize: false,
        default_value: None,
        from_empty_value: None,
        schema: TypeSchema::TupleType { arity: 1 },
    }));
    let editor = ComponentEditor::new(registry);
    let mut world = World::new();
    let e = Entity { id: 8 };
    assert!(world.add_entity(e));
    let r = editor.add_component_by_name(&mut world, e, "Bare");
    assert!(matches!(r, Err(ComponentError::ConstructionFailed { .. })));
}

#[test]
fn add_falls_back_to_from_empty_constructor() {
    let mut registry = TypeRegistry::new();
    assert!(registry.register(TypeRegistration {
        type_path: "Marker".to_string(),
        bridge_tag: true,
        exposed: None,
        reflect_component: true,
        reflect_deserialize: false,
        default_value: None,
        from_empty_value: Some(StructuredValue::UnitIdent("Marker".to_string())),
        schema: TypeSchema::UnitType { token: "Marker".to_string() },
    }));
    let editor = ComponentEditor::new(registry);
    let mut world = World::new();
    let e = Entity { id: 10 };
    assert!(world.add_entity(e));
    editor
        .add_component_by_name(&mut world, e, "Marker")
        .expect("from-empty construction");
    let inst = world.get_component(e, "Marker").expect("added");
    assert!(structural_eq(
        &inst.value,
        &StructuredValue::UnitIdent("Marker".to_string())
    ));
}

#[test]
fn reflected_components_compare_structurally() {
    let editor = ComponentEditor::new(registry_with_health());
    let mut world = World::new();
    let e1 = Entity { id: 11 };
    let e2 = Entity { id: 12 };
    assert!(world.add_entity(e1));
    assert!(world.add_entity(e2));
    assert!(world.add_instance(e1, instance("Health", health_value())));
    assert!(world.add_instance(e2, instance("Health", health_value())));

    let a = editor.get_reflected_components(&world, e1, true);
    let b = editor.get_reflected_components(&world, e2, true);
    assert_eq!(a.len(), 1);
    assert!(a[0].reflect_partial_eq(&b[0]));

    editor
        .edit_component_by_name(
            &mut world,
            e2,
            "Health",
            &StructuredValue::Record(vec![
                ("current".to_string(), num("1.0")),
                ("max".to_string(), num("100.0")),
            ]),
        )
        .expect("edit succeeds");
    let c = editor.get_reflected_components(&world, e2, true);
    assert!(!a[0].reflect_partial_eq(&c[0]));
}

#[test]
fn world_rejects_duplicate_entities_and_instances() {
    let mut world = World::new();
    let e = Entity { id: 13 };
    assert!(world.add_entity(e));
    assert!(!world.add_entity(e));
    assert!(world.add_instance(e, instance("Health", health_value())));
    assert!(!world.add_instance(e, instance("Health", health_value())));
    assert!(!world.add_instance(Entity { id: 99 }, instance("Health", health_value())));
}

#[test]
fn registry_rejects_duplicate_names() {
    let mut registry = registry_with_health();
    assert!(!registry.register(health_registration()));
    assert!(registry.get_with_type_path("Health").is_some());
    assert!(registry.get_with_type_path("health").is_none());
}
