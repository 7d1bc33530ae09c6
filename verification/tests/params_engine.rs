//! The parameter engine's boundary rules.

use atom_node::errors::AppError;
use atom_node::json::JsonValue;
use atom_node::models::{PluginParamType, PluginParameter};
use atom_node::params::{resolve_against_schema, validate_parameters};

fn param(name: &str, t: PluginParamType) -> PluginParameter {
    PluginParameter {
        name: name.to_string(),
        param_type: t,
        description: None,
        default: None,
        choices: None,
    }
}

fn is_validation(e: &AppError) -> bool {
    matches!(e, AppError::Execution(_))
}

#[test]
fn accepts_a_clean_schema() {
    let schema = vec![param("a", PluginParamType::Str), param("b", PluginParamType::Integer)];
    let out = validate_parameters(&Some(schema)).expect("valid schema");
    assert!(out.is_some());
}

#[test]
fn absent_schema_serialises_to_nothing() {
    assert!(validate_parameters(&None).expect("ok").is_none());
}

#[test]
fn rejects_duplicate_names() {
    let schema = vec![param("a", PluginParamType::Str), param("a", PluginParamType::Boolean)];
    let e = validate_parameters(&Some(schema)).expect_err("duplicate name");
    assert!(is_validation(&e));
}

#[test]
fn rejects_whitespace_names() {
    let schema = vec![param(" a", PluginParamType::Str)];
    let e = validate_parameters(&Some(schema)).expect_err("padded name");
    assert!(is_validation(&e));
    let schema = vec![param("", PluginParamType::Str)];
    let e = validate_parameters(&Some(schema)).expect_err("empty name");
    assert!(is_validation(&e));
}

#[test]
fn rejects_default_type_mismatch() {
    let mut p = param("a", PluginParamType::Integer);
    p.default = Some(JsonValue::Str("seven".to_string()));
    let e = validate_parameters(&Some(vec![p])).expect_err("default of the wrong type");
    assert!(is_validation(&e));
}

#[test]
fn rejects_default_outside_choices() {
    let mut p = param("a", PluginParamType::Str);
    p.default = Some(JsonValue::Str("x".to_string()));
    p.choices = Some(vec![JsonValue::Str("y".to_string()), JsonValue::Str("z".to_string())]);
    let e = validate_parameters(&Some(vec![p])).expect_err("default violates choices");
    assert!(is_validation(&e));
}

#[test]
fn empty_schema_with_empty_provided_resolves_empty() {
    let out = resolve_against_schema(&Vec::new(), Vec::new()).expect("nothing to resolve");
    assert!(out.is_empty());
}

#[test]
fn empty_schema_rejects_any_provided_value() {
    let provided = vec![("a".to_string(), JsonValue::Int(1))];
    let e = resolve_against_schema(&Vec::new(), provided).expect_err("no declared parameters");
    assert!(is_validation(&e));
}

#[test]
fn rejects_unknown_provided_parameter() {
    let schema = vec![param("a", PluginParamType::Integer)];
    let provided = vec![
        ("a".to_string(), JsonValue::Int(1)),
        ("mystery".to_string(), JsonValue::Int(2)),
    ];
    let e = resolve_against_schema(&schema, provided).expect_err("unknown parameter");
    assert!(is_validation(&e));
}

#[test]
fn rejects_provided_type_mismatch() {
    let schema = vec![param("a", PluginParamType::Boolean)];
    let provided = vec![("a".to_string(), JsonValue::Int(1))];
    let e = resolve_against_schema(&schema, provided).expect_err("type mismatch");
    assert!(is_validation(&e));
}

#[test]
fn rejects_choice_miss() {
    let mut p = param("a", PluginParamType::Integer);
    p.choices = Some(vec![JsonValue::Int(1), JsonValue::Int(2)]);
    let provided = vec![("a".to_string(), JsonValue::Int(3))];
    let e = resolve_against_schema(&vec![p], provided).expect_err("choice miss");
    assert!(is_validation(&e));
}

#[test]
fn rejects_missing_required_parameter() {
    let schema = vec![param("a", PluginParamType::Str)];
    let e = resolve_against_schema(&schema, Vec::new()).expect_err("missing required");
    assert!(is_validation(&e));
}

#[test]
fn fills_defaults_for_omitted_parameters() {
    let mut with_default = param("speed", PluginParamType::Integer);
    with_default.default = Some(JsonValue::Int(5));
    let schema = vec![param("name", PluginParamType::Str), with_default];
    let provided = vec![("name".to_string(), JsonValue::Str("n".to_string()))];
    let out = resolve_against_schema(&schema, provided).expect("resolves");
    assert_eq!(out.len(), 2);
    assert_eq!(out[0].0, "name");
    assert_eq!(out[1].0, "speed");
    assert!(out[1].1.same_as(&JsonValue::Int(5)));
}

#[test]
fn integer_accepts_machine_integers_only() {
    assert!(PluginParamType::Integer.matches(&JsonValue::Int(-1)));
    assert!(PluginParamType::Integer.matches(&JsonValue::UInt(u64::MAX)));
    assert!(!PluginParamType::Integer.matches(&JsonValue::Dec("1.5".to_string())));
    assert!(PluginParamType::Number.matches(&JsonValue::Dec("1.5".to_string())));
    assert!(PluginParamType::Json.matches(&JsonValue::Null));
    assert!(!PluginParamType::Str.matches(&JsonValue::Int(0)));
}
