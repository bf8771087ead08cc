//! Round trips between structured values and their component text.

use bevy_granite::format::render_component_text;
use bevy_granite::parse::parse_structured_text;
use bevy_granite::value::{structural_eq, StructuredValue};

fn num(t: &str) -> StructuredValue {
    StructuredValue::Number(t.to_string())
}

fn field(name: &str, v: StructuredValue) -> (String, StructuredValue) {
    (name.to_string(), v)
}

fn health_value() -> StructuredValue {
    StructuredValue::Record(vec![field("current", num("50.0")), field("max", num("100.0"))])
}

#[test]
fn render_struct_exact_spelling() {
    let text = render_component_text(&health_value());
    assert_eq!(text, "(current:50.0,max:100.0)");
}

#[test]
fn render_tuple_exact_spelling() {
    let v = StructuredValue::List(vec![num("1.0"), num("2.0"), num("3.0")]);
    assert_eq!(render_component_text(&v), "(1.0,2.0,3.0)");
}

#[test]
fn render_unit_and_bool_and_string() {
    let unit = StructuredValue::UnitIdent("MyMarker".to_string());
    assert_eq!(render_component_text(&unit), "MyMarker");
    let b = StructuredValue::Boolean(true);
    assert_eq!(render_component_text(&b), "true");
    let s = StructuredValue::Text("hello".to_string());
    assert_eq!(render_component_text(&s), "\"hello\"");
}

#[test]
fn render_escapes_quotes_and_backslashes() {
    let s = StructuredValue::Text("a\"b\\c".to_string());
    assert_eq!(render_component_text(&s), "\"a\\\"b\\\\c\"");
}

#[test]
fn parse_struct_round_trip() {
    let v = health_value();
    let text = render_component_text(&v);
    let back = parse_structured_text(&text, true).expect("round trip parse");
    assert!(structural_eq(&v, &back));
}

#[test]
fn parse_nested_record_round_trip() {
    let inner = StructuredValue::Record(vec![field("x", num("1.5")), field("y", num("-2.5"))]);
    let v = StructuredValue::Record(vec![
        field("offset", inner),
        field("label", StructuredValue::Text("spawn \"point\"".to_string())),
        field("enabled", StructuredValue::Boolean(false)),
    ]);
    let text = render_component_text(&v);
    let back = parse_structured_text(&text, true).expect("round trip parse");
    assert!(structural_eq(&v, &back));
}

#[test]
fn parse_unit_round_trip_keeps_identifier() {
    let v = StructuredValue::UnitIdent("MarkerType".to_string());
    let text = render_component_text(&v);
    let back = parse_structured_text(&text, true).expect("unit parse");
    match &back {
        StructuredValue::UnitIdent(tok) => assert_eq!(tok, "MarkerType"),
        _ => panic!("expected a unit value"),
    }
}

#[test]
fn generic_parse_erases_unit_identifier() {
    let back = parse_structured_text("MarkerType", false).expect("unit parse");
    match &back {
        StructuredValue::UnitIdent(tok) => assert_eq!(tok, ""),
        _ => panic!("expected a unit value"),
    }
}

#[test]
fn parse_rejects_trailing_garbage() {
    assert!(parse_structured_text("(x:1.0)garbage", true).is_none());
    assert!(parse_structured_text("(x:", true).is_none());
    assert!(parse_structured_text("", true).is_none());
}

#[test]
fn parse_bracketed_sequence() {
    let back = parse_structured_text("[1.0,2.0,3.0]", true).expect("seq parse");
    let expected = StructuredValue::List(vec![num("1.0"), num("2.0"), num("3.0")]);
    assert!(structural_eq(&expected, &back));
}

#[test]
fn parse_braced_record_with_quoted_keys() {
    let back = parse_structured_text("{\"Health\":(current:50.0,max:100.0)}", false)
        .expect("record parse");
    match &back {
        StructuredValue::Record(fields) => {
            assert_eq!(fields.len(), 1);
            assert_eq!(fields[0].0, "Health");
            assert!(structural_eq(&fields[0].1, &health_value()));
        }
        _ => panic!("expected a record"),
    }
}

#[test]
fn structural_eq_distinguishes_values() {
    let a = health_value();
    let b = StructuredValue::Record(vec![field("current", num("51.0")), field("max", num("100.0"))]);
    assert!(!structural_eq(&a, &b));
    assert!(structural_eq(&a, &health_value()));
    assert!(!structural_eq(&a, &num("50.0")));
}
