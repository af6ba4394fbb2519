//! In-place redaction of sensitive fields.

use agent_first_data::internal_redact_secrets;
use agent_first_data::Value;

fn obj(fields: Vec<(&str, Value)>) -> Value {
    Value::Obj(fields.into_iter().map(|(k, v)| (String::from(k), v)).collect())
}

fn as_text(v: &Value, key: &str) -> String {
    String::from(v.get(key).unwrap().as_str().unwrap())
}

#[test]
fn redact_flat() {
    let mut v = obj(vec![
        ("api_key_secret", Value::text("sk-123")),
        ("name", Value::text("test")),
    ]);
    internal_redact_secrets(&mut v);
    assert_eq!(as_text(&v, "api_key_secret"), "***");
    assert_eq!(as_text(&v, "name"), "test");
}

#[test]
fn redact_nested() {
    let mut v = obj(vec![(
        "config",
        obj(vec![("password_secret", Value::text("real"))]),
    )]);
    internal_redact_secrets(&mut v);
    assert_eq!(as_text(v.get("config").unwrap(), "password_secret"), "***");
}

#[test]
fn redact_array_traversal() {
    let mut v = Value::Arr(vec![
        obj(vec![("api_key_secret", Value::text("a"))]),
        obj(vec![("token_secret", Value::text("b"))]),
    ]);
    internal_redact_secrets(&mut v);
    match &v {
        Value::Arr(items) => {
            assert_eq!(as_text(&items[0], "api_key_secret"), "***");
            assert_eq!(as_text(&items[1], "token_secret"), "***");
        },
        _ => panic!("expected an array"),
    }
}

#[test]
fn redact_non_string_redacted() {
    let mut v = obj(vec![("count_secret", Value::from_u64(42))]);
    internal_redact_secrets(&mut v);
    assert_eq!(as_text(&v, "count_secret"), "***");
}
