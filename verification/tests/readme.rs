//! End-to-end renderings that exercise the full suffix table.

use agent_first_data::build_json;
use agent_first_data::build_json_ok;
use agent_first_data::output_json;
use agent_first_data::output_plain;
use agent_first_data::output_yaml;
use agent_first_data::Value;

fn obj(fields: Vec<(&str, Value)>) -> Value {
    Value::Obj(fields.into_iter().map(|(k, v)| (String::from(k), v)).collect())
}

fn full_record() -> Value {
    obj(vec![
        ("created_at_epoch_ms", Value::from_i64(1738886400000)),
        ("request_timeout_ms", Value::from_u64(5000)),
        ("cache_ttl_s", Value::from_u64(3600)),
        ("file_size_bytes", Value::from_u64(5242880)),
        ("payment_msats", Value::from_u64(50000000)),
        ("price_usd_cents", Value::from_u64(9999)),
        ("success_rate_percent", Value::frac("95.5")),
        ("api_key_secret", Value::text("sk-1234567890abcdef")),
        ("user_name", Value::text("alice")),
        ("count", Value::from_u64(42)),
    ])
}

#[test]
fn readme_complete_suffix_yaml() {
    let out = output_yaml(&full_record());
    assert!(out.starts_with("---\n"));
    assert!(out.contains("api_key: \"***\""));
    assert!(out.contains("cache_ttl: \"3600s\""));
    assert!(out.contains("count: 42"));
    assert!(out.contains("created_at: \"2025-02-07T00:00:00.000Z\""));
    assert!(out.contains("file_size: \"5.0MB\""));
    assert!(out.contains("payment: \"50000000msats\""));
    assert!(out.contains("price: \"$99.99\""));
    assert!(out.contains("request_timeout: \"5.0s\""));
    assert!(out.contains("success_rate: \"95.5%\""));
    assert!(out.contains("user_name: \"alice\""));
}

#[test]
fn readme_complete_suffix_plain() {
    let out = output_plain(&full_record());
    assert_eq!(
        out,
        "api_key=*** cache_ttl=3600s count=42 created_at=2025-02-07T00:00:00.000Z file_size=5.0MB payment=50000000msats price=$99.99 request_timeout=5.0s success_rate=95.5% user_name=alice"
    );
}

#[test]
fn readme_json_output() {
    let data = obj(vec![
        ("user_id", Value::from_u64(123)),
        ("api_key_secret", Value::text("sk-1234567890abcdef")),
        ("created_at_epoch_ms", Value::from_i64(1738886400000)),
        ("file_size_bytes", Value::from_u64(5242880)),
    ]);
    let out = output_json(&data);
    assert!(out.contains("\"api_key_secret\":\"***\""));
    assert!(out.contains("\"created_at_epoch_ms\":1738886400000"));
    assert!(out.contains("\"file_size_bytes\":5242880"));
    assert!(out.contains("\"user_id\":123"));
    assert!(!out.contains("sk-1234567890abcdef"));
    assert!(!out.contains('\n'));
}

#[test]
fn readme_cli_startup_yaml() {
    let startup_val = build_json(
        "startup",
        obj(vec![
            (
                "config",
                obj(vec![
                    ("api_key_secret", Value::text("sk-sensitive-key")),
                    ("timeout_s", Value::from_u64(30)),
                ]),
            ),
            ("args", obj(vec![("input_path", Value::text("data.json"))])),
            ("env", obj(vec![("RUST_LOG", Value::text("info"))])),
        ]),
        None,
    );
    let out = output_yaml(&startup_val);
    assert!(out.contains("code: \"startup\""));
    assert!(out.contains("api_key: \"***\""));
    assert!(out.contains("timeout: \"30s\""));
    assert!(out.contains("input_path: \"data.json\""));
    assert!(out.contains("RUST_LOG: \"info\""));
    assert!(!out.contains("sk-sensitive-key"));
}

#[test]
fn readme_cli_progress_plain() {
    let progress = build_json(
        "progress",
        obj(vec![
            ("current", Value::from_u64(3)),
            ("total", Value::from_u64(10)),
            ("message", Value::text("processing")),
        ]),
        Some(obj(vec![("duration_ms", Value::from_u64(1500))])),
    );
    let out = output_plain(&progress);
    assert!(out.contains("code=progress"));
    assert!(out.contains("current=3"));
    assert!(out.contains("message=processing"));
    assert!(out.contains("total=10"));
    assert!(out.contains("trace.duration=1.5s"));
}

#[test]
fn readme_jsonl_output() {
    let result = build_json_ok(
        obj(vec![("status", Value::text("success"))]),
        Some(obj(vec![
            ("duration_ms", Value::from_u64(250)),
            ("api_key_secret", Value::text("sk-123")),
        ])),
    );
    let out = output_json(&result);
    assert!(out.contains("\"code\":\"ok\""));
    assert!(out.contains("\"status\":\"success\""));
    assert!(out.contains("\"api_key_secret\":\"***\""));
    assert!(!out.contains("sk-123"));
    assert!(!out.contains('\n'));
}
