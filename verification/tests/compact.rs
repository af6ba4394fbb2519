//! The compact encoding: single-line lossless JSON with sensitive fields
//! redacted and everything else untouched.

use agent_first_data::output_json;
use agent_first_data::Value;

fn obj(fields: Vec<(&str, Value)>) -> Value {
    Value::Obj(fields.into_iter().map(|(k, v)| (String::from(k), v)).collect())
}

#[test]
fn json_single_line() {
    let out = output_json(&obj(vec![
        ("a", Value::from_u64(1)),
        ("b", obj(vec![("c", Value::from_u64(2))])),
    ]));
    assert!(!out.contains('\n'));
}

#[test]
fn json_secrets_redacted() {
    let out = output_json(&obj(vec![
        ("api_key_secret", Value::text("sk-123")),
        ("name", Value::text("test")),
    ]));
    assert!(out.contains("\"***\""));
    assert!(!out.contains("sk-123"));
    assert!(out.contains("\"name\""));
}

#[test]
fn json_nested_secrets_redacted() {
    let out = output_json(&obj(vec![(
        "config",
        obj(vec![("password_secret", Value::text("real"))]),
    )]));
    assert!(!out.contains("real"));
    assert!(out.contains("***"));
}

#[test]
fn json_original_keys_preserved() {
    let out = output_json(&obj(vec![("duration_ms", Value::from_u64(1280))]));
    assert!(out.contains("\"duration_ms\""));
    assert!(out.contains("1280"));
    assert!(!out.contains("\"duration\":"));
}

#[test]
fn json_raw_values_not_formatted() {
    let out = output_json(&obj(vec![("size_bytes", Value::from_u64(5242880))]));
    assert!(out.contains("5242880"));
    assert!(!out.contains("MB"));
}

#[test]
fn json_non_string_secret_redacted() {
    let out = output_json(&obj(vec![("count_secret", Value::from_u64(42))]));
    assert!(out.contains("\"***\""));
    assert!(!out.contains("42"));
}
