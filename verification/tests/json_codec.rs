//! The JSON codec: printing, parsing, and the round trips.

use atom_node::json::JsonValue;
use atom_node::models::{PluginParamType, PluginParameter};
use atom_node::params::{serialize_parameters, parse_parameters_str};
use atom_node::deps::{parse_python_dependencies, serialize_python_dependencies};
use atom_node::models::PythonDependencies;

fn obj(fields: Vec<(&str, JsonValue)>) -> JsonValue {
    JsonValue::Obj(fields.into_iter().map(|(k, v)| (k.to_string(), v)).collect())
}

#[test]
fn prints_scalars() {
    assert_eq!(JsonValue::Null.to_json(), "null");
    assert_eq!(JsonValue::Bool(true).to_json(), "true");
    assert_eq!(JsonValue::Bool(false).to_json(), "false");
    assert_eq!(JsonValue::Int(0).to_json(), "0");
    assert_eq!(JsonValue::Int(-42).to_json(), "-42");
    assert_eq!(JsonValue::Int(i64::MIN).to_json(), "-9223372036854775808");
    assert_eq!(JsonValue::UInt(18446744073709551615).to_json(), "18446744073709551615");
    assert_eq!(JsonValue::Str("hi".to_string()).to_json(), "\"hi\"");
}

#[test]
fn prints_escapes() {
    let v = JsonValue::Str("a\"b\\c\nd\te\r\u{1}".to_string());
    assert_eq!(v.to_json(), "\"a\\\"b\\\\c\\nd\\te\\r\\u0001\"");
}

#[test]
fn prints_containers() {
    let v = JsonValue::Arr(vec![JsonValue::Int(1), JsonValue::Int(2)]);
    assert_eq!(v.to_json(), "[1,2]");
    let o = obj(vec![("a", JsonValue::Int(1)), ("b", JsonValue::Null)]);
    assert_eq!(o.to_json(), "{\"a\":1,\"b\":null}");
}

#[test]
fn parses_scalars() {
    assert!(matches!(JsonValue::parse_str("null"), Some(JsonValue::Null)));
    assert!(matches!(JsonValue::parse_str("true"), Some(JsonValue::Bool(true))));
    assert!(matches!(JsonValue::parse_str("  -7 "), Some(JsonValue::Int(-7))));
    assert!(matches!(
        JsonValue::parse_str("18446744073709551615"),
        Some(JsonValue::UInt(18446744073709551615))
    ));
    match JsonValue::parse_str("1.5e3") {
        Some(JsonValue::Dec(t)) => assert_eq!(t, "1.5e3"),
        other => panic!("wanted a Dec literal, got {:?}", other),
    }
}

#[test]
fn parses_strings_and_unicode_escapes() {
    match JsonValue::parse_str("\"a\\u0041\\n\"") {
        Some(JsonValue::Str(s)) => assert_eq!(s, "aA\n"),
        other => panic!("wanted a string, got {:?}", other),
    }
}

#[test]
fn parses_nested_documents_with_whitespace() {
    let text = "{ \"xs\": [1, 2, {\"y\": false}], \"s\" : \"ok\" }";
    let v = JsonValue::parse_str(text).expect("well-formed document");
    match &v {
        JsonValue::Obj(fields) => {
            assert_eq!(fields.len(), 2);
            assert_eq!(fields[0].0, "xs");
        }
        other => panic!("wanted an object, got {:?}", other),
    }
}

#[test]
fn rejects_malformed_documents() {
    assert!(JsonValue::parse_str("").is_none());
    assert!(JsonValue::parse_str("tru").is_none());
    assert!(JsonValue::parse_str("[1,]").is_none());
    assert!(JsonValue::parse_str("{\"a\"}").is_none());
    assert!(JsonValue::parse_str("01").is_none());
    assert!(JsonValue::parse_str("1 2").is_none());
    assert!(JsonValue::parse_str("\"unterminated").is_none());
    assert!(JsonValue::parse_str("nulll").is_none());
}

#[test]
fn print_then_parse_is_identity() {
    let v = obj(vec![
        ("name", JsonValue::Str("x\n\"quoted\"".to_string())),
        ("count", JsonValue::Int(-12)),
        ("big", JsonValue::UInt(10000000000000000000)),
        ("frac", JsonValue::Dec("2.75".to_string())),
        ("list", JsonValue::Arr(vec![JsonValue::Null, JsonValue::Bool(false)])),
        ("inner", obj(vec![("k", JsonValue::Str(String::new()))])),
    ]);
    let text = v.to_json();
    let back = JsonValue::parse_str(&text).expect("printed text parses");
    assert!(back.same_as(&v));
}

#[test]
fn schema_serialise_then_parse_is_identity() {
    let schema = vec![
        PluginParameter {
            name: "mode".to_string(),
            param_type: PluginParamType::Str,
            description: Some("which mode".to_string()),
            default: Some(JsonValue::Str("fast".to_string())),
            choices: Some(vec![
                JsonValue::Str("fast".to_string()),
                JsonValue::Str("slow".to_string()),
            ]),
        },
        PluginParameter {
            name: "count".to_string(),
            param_type: PluginParamType::Integer,
            description: None,
            default: Some(JsonValue::Int(3)),
            choices: None,
        },
        PluginParameter {
            name: "blob".to_string(),
            param_type: PluginParamType::Json,
            description: None,
            default: None,
            choices: None,
        },
    ];
    let text = serialize_parameters(&schema);
    let back = parse_parameters_str(&text).expect("serialised schema parses");
    assert_eq!(back.len(), schema.len());
    for (b, s) in back.iter().zip(schema.iter()) {
        assert_eq!(b.name, s.name);
        assert_eq!(b.param_type, s.param_type);
        assert_eq!(b.description, s.description);
        match (&b.default, &s.default) {
            (Some(x), Some(y)) => assert!(x.same_as(y)),
            (None, None) => {}
            _ => panic!("defaults differ"),
        }
    }
}

#[test]
fn dependency_serialise_then_parse_is_identity() {
    for d in [
        PythonDependencies::Requirements { path: "requirements.txt".to_string() },
        PythonDependencies::Pyproject { path: "sub/pyproject.toml".to_string() },
    ] {
        let text = serialize_python_dependencies(&d);
        let back = parse_python_dependencies(&text).expect("serialised dependency parses");
        match (&d, &back) {
            (
                PythonDependencies::Requirements { path: a },
                PythonDependencies::Requirements { path: b },
            ) => assert_eq!(a, b),
            (
                PythonDependencies::Pyproject { path: a },
                PythonDependencies::Pyproject { path: b },
            ) => assert_eq!(a, b),
            _ => panic!("variants differ"),
        }
    }
}

#[test]
fn codec_agrees_with_reference_parser() {
    let text = "{\"a\":[1,-2,\"x\\\"y\",true,null],\"b\":{\"c\":7}}";
    let ours = JsonValue::parse_str(text).expect("parses");
    let reference: serde_json::Value = serde_json::from_str(text).expect("reference parses");
    assert_eq!(ours.to_json(), serde_json::to_string(&reference).expect("prints"));
}
