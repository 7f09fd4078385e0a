use schema_compiler::ast::{Field, Struct, Type};
use schema_compiler::compiler::{
    build_placeholder, build_primitive, find_struct, generate_json_output,
};
use schema_compiler::error::Diagnostic;
use schema_compiler::parser::parse_source;

fn compact(source: &str) -> String {
    let structs = parse_source(source).unwrap();
    let root = structs.len().wrapping_sub(1);
    serde_json::to_string(&build_placeholder(&structs, root).value).unwrap()
}

fn notes(source: &str) -> Vec<Diagnostic> {
    let structs = parse_source(source).unwrap();
    let root = structs.len().wrapping_sub(1);
    build_placeholder(&structs, root).diagnostics
}

fn one_field(ty: Type) -> Vec<Struct> {
    vec![Struct {
        name: "A".to_string(),
        fields: vec![Field { name: "f".to_string(), ty }],
        decorators: vec![],
    }]
}

#[test]
fn primitives_have_fixed_placeholders() {
    assert_eq!(build_primitive(&Type::String), serde_json::Value::from("example"));
    assert_eq!(build_primitive(&Type::Int), serde_json::Value::from(0));
    assert_eq!(build_primitive(&Type::Bool), serde_json::Value::from(true));
}

#[test]
fn other_types_have_no_primitive_placeholder() {
    assert_eq!(build_primitive(&Type::Custom("A".to_string())), serde_json::Value::Null);
    assert_eq!(build_primitive(&Type::Array(Box::new(Type::Int))), serde_json::Value::Null);
}

#[test]
fn two_primitive_fields() {
    assert_eq!(compact("struct A { x: String, y: i32 }"), r#"{"x":"example","y":0}"#);
    assert_eq!(notes("struct A { x: String, y: i32 }"), vec![]);
}

#[test]
fn array_of_records() {
    let source = "struct Inner { v: bool } struct Outer { items: Inner[], enabled: bool }";
    assert_eq!(compact(source), r#"{"items":[{"v":true}],"enabled":true}"#);
    assert_eq!(notes(source), vec![]);
}

#[test]
fn decorator_leaves_the_output_alone() {
    assert_eq!(compact("[Tag] struct A { f: String }"), r#"{"f":"example"}"#);
}

#[test]
fn undefined_reference_is_an_empty_object() {
    assert_eq!(compact("struct A { r: Missing }"), r#"{"r":{}}"#);
    assert_eq!(
        notes("struct A { r: Missing }"),
        vec![Diagnostic::UnresolvedReference("Missing".to_string())]
    );
}

#[test]
fn undefined_reference_in_an_array() {
    assert_eq!(compact("struct A { r: Missing[] }"), r#"{"r":[{}]}"#);
    assert_eq!(
        notes("struct A { r: Missing[] }"),
        vec![Diagnostic::UnresolvedReference("Missing".to_string())]
    );
}

#[test]
fn record_without_fields_is_an_empty_object() {
    assert_eq!(compact("struct A { }"), "{}");
}

#[test]
fn the_last_record_is_the_root() {
    assert_eq!(compact("struct A { a: i32 } struct B { b: bool }"), r#"{"b":true}"#);
    assert_eq!(compact("struct B { b: bool } struct A { a: i32 }"), r#"{"a":0}"#);
}

#[test]
fn keys_follow_the_order_of_the_fields() {
    assert_eq!(
        compact("struct A { zeta: i32, alpha: i32, mid: i32 }"),
        r#"{"zeta":0,"alpha":0,"mid":0}"#
    );
}

#[test]
fn arrays_of_primitives_have_one_element() {
    assert_eq!(
        compact("struct A { a: String[], b: i32[], c: bool[] }"),
        r#"{"a":["example"],"b":[0],"c":[true]}"#
    );
}

#[test]
fn nested_records_are_expanded() {
    let source = "struct C { z: i32 } struct B { c: C } struct A { b: B, cs: C[] }";
    assert_eq!(compact(source), r#"{"b":{"c":{"z":0}},"cs":[{"z":0}]}"#);
    assert_eq!(notes(source), vec![]);
}

#[test]
fn a_record_may_be_expanded_more_than_once() {
    let source = "struct P { x: i32 } struct A { from: P, to: P }";
    assert_eq!(compact(source), r#"{"from":{"x":0},"to":{"x":0}}"#);
    assert_eq!(notes(source), vec![]);
}

#[test]
fn a_reference_resolves_to_the_first_record_of_the_name() {
    let source = "struct P { first: i32 } struct P { second: i32 } struct A { p: P }";
    assert_eq!(compact(source), r#"{"p":{"first":0}}"#);
}

#[test]
fn a_root_that_shares_its_name_refers_to_the_first_record() {
    let source = "struct A { first: i32 } struct A { again: A }";
    assert_eq!(compact(source), r#"{"again":{"first":0}}"#);
    assert_eq!(notes(source), vec![]);
}

#[test]
fn a_later_field_of_the_same_name_replaces_the_value_in_place() {
    assert_eq!(
        compact("struct A { x: String, y: i32, x: bool }"),
        r#"{"x":true,"y":0}"#
    );
}

#[test]
fn self_reference_is_cut_with_null() {
    let source = "struct Node { value: i32, next: Node }";
    assert_eq!(compact(source), r#"{"value":0,"next":null}"#);
    assert_eq!(notes(source), vec![Diagnostic::RecursiveReference("Node".to_string())]);
}

#[test]
fn self_reference_in_an_array_is_cut_with_null() {
    let source = "struct Tree { children: Tree[] }";
    assert_eq!(compact(source), r#"{"children":[null]}"#);
    assert_eq!(notes(source), vec![Diagnostic::RecursiveReference("Tree".to_string())]);
}

#[test]
fn mutual_reference_is_cut_where_the_circle_closes() {
    let source = "struct A { b: B } struct B { a: A, n: i32 }";
    assert_eq!(compact(source), r#"{"a":{"b":null},"n":0}"#);
    assert_eq!(notes(source), vec![Diagnostic::RecursiveReference("B".to_string())]);
}

#[test]
fn notes_come_in_the_order_of_the_walk() {
    let source = "struct In { m: Gone } struct A { a: Lost, b: In, c: A[] }";
    assert_eq!(compact(source), r#"{"a":{},"b":{"m":{}},"c":[null]}"#);
    assert_eq!(
        notes(source),
        vec![
            Diagnostic::UnresolvedReference("Lost".to_string()),
            Diagnostic::UnresolvedReference("Gone".to_string()),
            Diagnostic::RecursiveReference("A".to_string()),
        ]
    );
}

#[test]
fn array_of_arrays_has_null_for_its_element() {
    let structs = one_field(Type::Array(Box::new(Type::Array(Box::new(Type::Int)))));
    let placeholder = build_placeholder(&structs, 0);
    assert_eq!(serde_json::to_string(&placeholder.value).unwrap(), r#"{"f":[null]}"#);
    assert_eq!(placeholder.diagnostics, vec![Diagnostic::NestedArray]);
}

#[test]
fn root_is_a_parameter() {
    let structs = parse_source("struct A { a: i32 } struct B { b: bool }").unwrap();
    assert_eq!(serde_json::to_string(&build_placeholder(&structs, 0).value).unwrap(), r#"{"a":0}"#);
    assert_eq!(
        serde_json::to_string(&build_placeholder(&structs, 1).value).unwrap(),
        r#"{"b":true}"#
    );
}

#[test]
fn a_root_outside_the_document_is_an_empty_object() {
    let structs = parse_source("struct A { a: i32 }").unwrap();
    let placeholder = build_placeholder(&structs, 1);
    assert_eq!(serde_json::to_string(&placeholder.value).unwrap(), "{}");
    assert_eq!(placeholder.diagnostics, vec![]);
    assert_eq!(serde_json::to_string(&build_placeholder(&[], 0).value).unwrap(), "{}");
}

#[test]
fn find_struct_gives_the_first_match() {
    let structs = parse_source("struct A { } struct B { } struct A { }").unwrap();
    assert_eq!(find_struct(&structs, "A"), Some(0));
    assert_eq!(find_struct(&structs, "B"), Some(1));
    assert_eq!(find_struct(&structs, "C"), None);
    assert_eq!(find_struct(&structs, "a"), None);
    assert_eq!(find_struct(&[], "A"), None);
}

#[test]
fn synthesis_is_repeatable() {
    let structs =
        parse_source("struct Inner { v: bool, w: Gone } struct Outer { items: Inner[] }").unwrap();
    let first = build_placeholder(&structs, 1);
    let second = build_placeholder(&structs, 1);
    assert_eq!(first.value, second.value);
    assert_eq!(first.diagnostics, second.diagnostics);
    assert_eq!(generate_json_output(&structs), generate_json_output(&structs));
}

#[test]
fn output_of_an_empty_document() {
    let rendered = generate_json_output(&[]).unwrap();
    assert_eq!(rendered.json, "{}");
    assert_eq!(rendered.diagnostics, vec![]);
}

#[test]
fn output_is_pretty_printed() {
    let structs = parse_source("struct A { x: String, y: i32 }").unwrap();
    let rendered = generate_json_output(&structs).unwrap();
    assert_eq!(rendered.json, "{\n  \"x\": \"example\",\n  \"y\": 0\n}");
    assert_eq!(rendered.diagnostics, vec![]);
}

#[test]
fn output_of_nested_values_is_indented() {
    let structs = parse_source(
        "struct Inner { v: bool } struct Outer { items: Inner[], enabled: bool, r: Missing }",
    )
    .unwrap();
    let rendered = generate_json_output(&structs).unwrap();
    let expected = "{\n  \"items\": [\n    {\n      \"v\": true\n    }\n  ],\n  \"enabled\": true,\n  \"r\": {}\n}";
    assert_eq!(rendered.json, expected);
    assert_eq!(rendered.diagnostics, vec![Diagnostic::UnresolvedReference("Missing".to_string())]);
}

#[test]
fn output_of_a_record_without_fields() {
    let structs = parse_source("struct A { }").unwrap();
    assert_eq!(generate_json_output(&structs).unwrap().json, "{}");
}

#[test]
fn every_document_has_its_output() {
    for source in [
        "struct A { }",
        "struct A { r: Missing }",
        "struct Node { next: Node, all: Node[] }",
        "struct A { x: i32 } struct A { y: A }",
    ] {
        let structs = parse_source(source).unwrap();
        assert!(generate_json_output(&structs).is_ok());
    }
}

#[test]
fn decorators_leave_the_output_alone() {
    let plain = parse_source("struct In { v: bool } struct A { f: String, i: In[] }").unwrap();
    let decorated =
        parse_source("[One] struct In { v: bool } [Two] [Three] struct A { f: String, i: In[] }")
            .unwrap();
    assert_eq!(generate_json_output(&plain), generate_json_output(&decorated));
}

#[test]
fn a_root_that_shares_its_name_has_the_first_record_inside() {
    let structs = parse_source("struct A { x: i32 } struct A { y: A }").unwrap();
    assert_eq!(generate_json_output(&structs).unwrap().json, "{\n  \"y\": {\n    \"x\": 0\n  }\n}");
}
