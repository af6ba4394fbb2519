//! The envelope builders: `ok`, `error` and generic status records.

use agent_first_data::build_json;
use agent_first_data::build_json_error;
use agent_first_data::build_json_ok;
use agent_first_data::Value;

fn obj(fields: Vec<(&str, Value)>) -> Value {
    Value::Obj(fields.into_iter().map(|(k, v)| (String::from(k), v)).collect())
}

fn get_str(v: &Value, key: &str) -> String {
    String::from(v.get(key).unwrap().as_str().unwrap())
}

fn get_i64(v: &Value, key: &str) -> i64 {
    v.get(key).unwrap().as_i64().unwrap()
}

fn trace_absent(v: &Value) -> bool {
    match v.get("trace") {
        None => true,
        Some(t) => t.is_null(),
    }
}

#[test]
fn build_ok_with_trace() {
    let v = build_json_ok(
        obj(vec![("count", Value::from_u64(42))]),
        Some(obj(vec![("duration_ms", Value::from_u64(150))])),
    );
    assert_eq!(get_str(&v, "code"), "ok");
    assert_eq!(get_i64(v.get("result").unwrap(), "count"), 42);
    assert_eq!(get_i64(v.get("trace").unwrap(), "duration_ms"), 150);
}

#[test]
fn build_ok_without_trace() {
    let v = build_json_ok(obj(vec![("count", Value::from_u64(42))]), None);
    assert_eq!(get_str(&v, "code"), "ok");
    assert_eq!(get_i64(v.get("result").unwrap(), "count"), 42);
    assert!(trace_absent(&v));
}

#[test]
fn build_error_with_trace() {
    let v = build_json_error(
        "not found",
        Some(obj(vec![("duration_ms", Value::from_u64(5))])),
    );
    assert_eq!(get_str(&v, "code"), "error");
    assert_eq!(get_str(&v, "error"), "not found");
    assert_eq!(get_i64(v.get("trace").unwrap(), "duration_ms"), 5);
}

#[test]
fn build_error_without_trace() {
    let v = build_json_error("fail", None);
    assert_eq!(get_str(&v, "code"), "error");
    assert_eq!(get_str(&v, "error"), "fail");
    assert!(trace_absent(&v));
}

#[test]
fn build_error_empty_message() {
    let v = build_json_error("", None);
    assert_eq!(get_str(&v, "code"), "error");
    assert_eq!(get_str(&v, "error"), "");
}

#[test]
fn build_generic_with_trace() {
    let v = build_json(
        "not_found",
        obj(vec![("resource", Value::text("user")), ("id", Value::from_u64(123))]),
        Some(obj(vec![("duration_ms", Value::from_u64(8))])),
    );
    assert_eq!(get_str(&v, "code"), "not_found");
    assert_eq!(get_str(&v, "resource"), "user");
    assert_eq!(get_i64(&v, "id"), 123);
    assert_eq!(get_i64(v.get("trace").unwrap(), "duration_ms"), 8);
}

#[test]
fn build_generic_without_trace() {
    let v = build_json("progress", obj(vec![("current", Value::from_u64(3))]), None);
    assert_eq!(get_str(&v, "code"), "progress");
    assert_eq!(get_i64(&v, "current"), 3);
    assert!(trace_absent(&v));
}

#[test]
fn build_generic_non_object_fields() {
    let v = build_json("test", Value::text("string_value"), None);
    assert_eq!(get_str(&v, "code"), "test");
}

#[test]
fn build_generic_code_overrides_fields() {
    let v = build_json("real", obj(vec![("code", Value::text("fake"))]), None);
    assert_eq!(get_str(&v, "code"), "real");
}

#[test]
fn build_generic_trace_overrides_fields_trace() {
    let v = build_json(
        "test",
        obj(vec![
            ("trace", Value::text("should_be_overridden")),
            ("other", Value::from_u64(1)),
        ]),
        Some(obj(vec![("duration_ms", Value::from_u64(5))])),
    );
    assert_eq!(get_i64(v.get("trace").unwrap(), "duration_ms"), 5);
    assert_eq!(get_i64(&v, "other"), 1);
}
