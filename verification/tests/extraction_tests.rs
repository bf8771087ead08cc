//! Pulling component text out of persisted entity blobs, including the
//! fallback repair paths.

use bevy_granite::extract::{
    convert_map_to_ron_struct, convert_seq_to_tuple, extract_component_data,
    recover_unit_identifier, try_extract_ron_component,
};
use bevy_granite::value::StructuredValue;

fn num(t: &str) -> StructuredValue {
    StructuredValue::Number(t.to_string())
}

#[test]
fn direct_extraction_of_quoted_text() {
    let blob = "{\"Health\":\"(current:50.0,max:100.0)\"}";
    let text = try_extract_ron_component("Health", blob).expect("direct extraction");
    assert_eq!(text, "(current:50.0,max:100.0)");
}

#[test]
fn direct_extraction_unescapes_embedded_quotes() {
    let blob = "{\"Label\":\"(text:\\\"hi\\\")\"}";
    let text = try_extract_ron_component("Label", blob).expect("direct extraction");
    assert_eq!(text, "(text:\"hi\")");
}

#[test]
fn direct_extraction_fails_without_quoted_value() {
    assert!(try_extract_ron_component("Health", "{\"Health\":(current:50.0)}").is_none());
    assert!(try_extract_ron_component("Health", "{\"Other\":\"x\"}").is_none());
}

#[test]
fn bare_text_passes_through_unchanged() {
    let text = extract_component_data("Health", "(current:50.0,max:100.0)").expect("bare text");
    assert_eq!(text, "(current:50.0,max:100.0)");
}

#[test]
fn fallback_rerenders_wrapped_struct() {
    let blob = "{\"Health\":(current:50.0,max:100.0)}";
    let text = extract_component_data("Health", blob).expect("fallback extraction");
    assert_eq!(text, "(current:50.0,max:100.0)");
}

#[test]
fn fallback_rewrites_brackets_to_parentheses() {
    let blob = "{\"Position\":[1.0,2.0,3.0]}";
    let text = extract_component_data("Position", blob).expect("fallback extraction");
    assert_eq!(text, "(1.0,2.0,3.0)");
}

#[test]
fn quoted_text_extraction_through_full_pipeline() {
    let blob = "{\"Health\":\"(current:50.0,max:100.0)\"}";
    let text = extract_component_data("Health", blob).expect("extraction");
    assert_eq!(text, "(current:50.0,max:100.0)");
}

#[test]
fn unit_identifier_recovered_from_raw_blob() {
    let blob = "{\"MarkerType\":MarkerType}";
    let text = extract_component_data("MarkerType", blob).expect("unit recovery");
    assert_eq!(text, "MarkerType");
    let token = recover_unit_identifier("MarkerType", blob).expect("recovery");
    assert_eq!(token, "MarkerType");
}

#[test]
fn empty_unit_token_defaults_to_anonymous_unit() {
    let token = recover_unit_identifier("Tag", "{\"Tag\": }").expect("recovery");
    assert_eq!(token, "()");
}

#[test]
fn extraction_fails_when_key_is_absent_from_wrapper() {
    assert!(extract_component_data("Health", "{\"Other\":(x:1.0)}").is_none());
    assert!(extract_component_data("Health", "{broken").is_none());
}

#[test]
fn convert_map_to_struct_syntax() {
    let fields = vec![
        ("current".to_string(), num("50.0")),
        ("max".to_string(), num("100.0")),
    ];
    assert_eq!(convert_map_to_ron_struct(&fields), "(current:50.0,max:100.0)");
}

#[test]
fn convert_map_recurses_into_nested_maps() {
    let inner = StructuredValue::Record(vec![("x".to_string(), num("1.0"))]);
    let fields = vec![("offset".to_string(), inner)];
    assert_eq!(convert_map_to_ron_struct(&fields), "(offset:(x:1.0))");
}

#[test]
fn convert_seq_to_tuple_syntax() {
    let items = vec![num("1.0"), num("2.0"), num("3.0")];
    assert_eq!(convert_seq_to_tuple(&items), "(1.0,2.0,3.0)");
}

#[test]
fn convert_defaults_erased_units_to_anonymous_unit() {
    let items = vec![StructuredValue::UnitIdent(String::new()), num("2.0")];
    assert_eq!(convert_seq_to_tuple(&items), "((),2.0)");
}
