//! The flattened-line encoding: logfmt structure, key stripping and value
//! formatting, type-mismatch fallthrough, case sensitivity and boundary
//! values.

use agent_first_data::output_plain;
use agent_first_data::Value;

fn obj(fields: Vec<(&str, Value)>) -> Value {
    Value::Obj(fields.into_iter().map(|(k, v)| (String::from(k), v)).collect())
}

fn txt(s: &str) -> Value {
    Value::text(s)
}

#[test]
fn plain_single_line() {
    let out = output_plain(&obj(vec![
        ("a", Value::from_u64(1)),
        ("b", Value::from_u64(2)),
        ("c", Value::from_u64(3)),
    ]));
    assert!(!out.contains('\n'));
}

#[test]
fn plain_key_value_pair() {
    let out = output_plain(&obj(vec![("user_id", Value::from_u64(123))]));
    assert_eq!(out, "user_id=123");
}

#[test]
fn plain_sorted_keys() {
    let out = output_plain(&obj(vec![
        ("z", Value::from_u64(1)),
        ("a", Value::from_u64(2)),
        ("m", Value::from_u64(3)),
    ]));
    assert_eq!(out, "a=2 m=3 z=1");
}

#[test]
fn plain_dot_notation_nesting() {
    let out = output_plain(&obj(vec![(
        "trace",
        obj(vec![("duration_ms", Value::from_u64(150)), ("source", txt("db"))]),
    )]));
    assert!(out.contains("trace.duration=150ms"));
    assert!(out.contains("trace.source=db"));
}

#[test]
fn plain_sorted_by_dot_path() {
    let out = output_plain(&obj(vec![
        ("code", txt("ok")),
        ("result", obj(vec![("count", Value::from_u64(3))])),
        ("trace", obj(vec![("duration_ms", Value::from_u64(12))])),
    ]));
    assert_eq!(out, "code=ok result.count=3 trace.duration=12ms");
}

#[test]
fn plain_quoted_spaces() {
    let out = output_plain(&obj(vec![("message", txt("uploading chunks"))]));
    assert!(out.contains("message=\"uploading chunks\""));
}

#[test]
fn plain_arrays_comma_joined() {
    let out = output_plain(&obj(vec![(
        "fields",
        Value::Arr(vec![txt("email"), txt("age")]),
    )]));
    assert!(out.contains("fields=email,age"));
}

#[test]
fn plain_null_empty() {
    let out = output_plain(&obj(vec![("RUST_LOG", Value::null())]));
    assert!(out.contains("RUST_LOG="));
}

#[test]
fn plain_key_stripping_and_formatting() {
    let out = output_plain(&obj(vec![
        ("duration_ms", Value::from_u64(1280)),
        ("api_key_secret", txt("sk-123")),
    ]));
    assert_eq!(out, "api_key=*** duration=1.28s");
}

#[test]
fn plain_deep_nesting() {
    let out = output_plain(&obj(vec![(
        "a",
        obj(vec![("b", obj(vec![("c", txt("deep"))]))]),
    )]));
    assert_eq!(out, "a.b.c=deep");
}

#[test]
fn plain_secrets_redacted() {
    let out = output_plain(&obj(vec![("api_key_secret", txt("real-key"))]));
    assert!(out.contains("api_key=***"));
    assert!(!out.contains("real-key"));
}

#[test]
fn plain_empty_object() {
    let out = output_plain(&obj(vec![]));
    assert_eq!(out, "");
}

#[test]
fn plain_bool_unquoted() {
    let out = output_plain(&obj(vec![
        ("active", Value::from_bool(true)),
        ("disabled", Value::from_bool(false)),
    ]));
    assert_eq!(out, "active=true disabled=false");
}

#[test]
fn plain_nested_secrets() {
    let out = output_plain(&obj(vec![(
        "config",
        obj(vec![("api_key_secret", txt("real")), ("host", txt("localhost"))]),
    )]));
    assert!(out.contains("config.api_key=***"));
    assert!(out.contains("config.host=localhost"));
    assert!(!out.contains("real"));
}

#[test]
fn plain_key_collision_keeps_originals() {
    let out = output_plain(&obj(vec![
        ("response_ms", Value::from_u64(150)),
        ("response_s", Value::from_u64(1)),
    ]));
    assert!(out.contains("response_ms=150"));
    assert!(out.contains("response_s=1"));
}

#[test]
fn fallthrough_bytes_float() {
    let out = output_plain(&obj(vec![("size_bytes", Value::frac("1024.5"))]));
    assert_eq!(out, "size_bytes=1024.5");
}

#[test]
fn fallthrough_bytes_string() {
    let out = output_plain(&obj(vec![("size_bytes", txt("unknown"))]));
    assert_eq!(out, "size_bytes=unknown");
}

#[test]
fn fallthrough_bytes_bool() {
    let out = output_plain(&obj(vec![("size_bytes", Value::from_bool(false))]));
    assert_eq!(out, "size_bytes=false");
}

#[test]
fn fallthrough_epoch_ms_float() {
    let out = output_plain(&obj(vec![(
        "created_epoch_ms",
        Value::frac("1707868800000.5"),
    )]));
    assert_eq!(out, "created_epoch_ms=1707868800000.5");
}

#[test]
fn fallthrough_epoch_ms_bool() {
    let out = output_plain(&obj(vec![("created_epoch_ms", Value::from_bool(true))]));
    assert_eq!(out, "created_epoch_ms=true");
}

#[test]
fn fallthrough_epoch_ms_string() {
    let out = output_plain(&obj(vec![("created_epoch_ms", txt("yesterday"))]));
    assert_eq!(out, "created_epoch_ms=yesterday");
}

#[test]
fn fallthrough_ms_string() {
    let out = output_plain(&obj(vec![("latency_ms", txt("fast"))]));
    assert_eq!(out, "latency_ms=fast");
}

#[test]
fn fallthrough_ms_bool() {
    let out = output_plain(&obj(vec![("latency_ms", Value::from_bool(true))]));
    assert_eq!(out, "latency_ms=true");
}

#[test]
fn fallthrough_s_string() {
    let out = output_plain(&obj(vec![("dns_ttl_s", txt("auto"))]));
    assert_eq!(out, "dns_ttl_s=auto");
}

#[test]
fn fallthrough_usd_cents_negative() {
    let out = output_plain(&obj(vec![("refund_usd_cents", Value::from_i64(-499))]));
    assert_eq!(out, "refund_usd_cents=-499");
}

#[test]
fn fallthrough_eur_cents_negative() {
    let out = output_plain(&obj(vec![("refund_eur_cents", Value::from_i64(-100))]));
    assert_eq!(out, "refund_eur_cents=-100");
}

#[test]
fn fallthrough_jpy_negative() {
    let out = output_plain(&obj(vec![("refund_jpy", Value::from_i64(-1500))]));
    assert_eq!(out, "refund_jpy=-1500");
}

#[test]
fn fallthrough_percent_string() {
    let out = output_plain(&obj(vec![("cpu_percent", txt("high"))]));
    assert_eq!(out, "cpu_percent=high");
}

#[test]
fn fallthrough_percent_bool() {
    let out = output_plain(&obj(vec![("cpu_percent", Value::from_bool(true))]));
    assert_eq!(out, "cpu_percent=true");
}

#[test]
fn fallthrough_btc_string() {
    let out = output_plain(&obj(vec![("reserve_btc", txt("pending"))]));
    assert_eq!(out, "reserve_btc=pending");
}

#[test]
fn fallthrough_msats_string() {
    let out = output_plain(&obj(vec![("cost_msats", txt("pending"))]));
    assert_eq!(out, "cost_msats=pending");
}

#[test]
fn fallthrough_minutes_string() {
    let out = output_plain(&obj(vec![("timeout_minutes", txt("infinite"))]));
    assert_eq!(out, "timeout_minutes=infinite");
}

#[test]
fn case_lowercase_secret() {
    let out = output_plain(&obj(vec![("api_key_secret", txt("real"))]));
    assert!(out.contains("***"));
    assert!(!out.contains("real"));
}

#[test]
fn case_uppercase_secret() {
    let out = output_plain(&obj(vec![("DATABASE_URL_SECRET", txt("postgres://..."))]));
    assert!(out.contains("DATABASE_URL=***"));
}

#[test]
fn case_mixed_secret_not_matched() {
    let out = output_plain(&obj(vec![("api_key_Secret", txt("real"))]));
    assert!(out.contains("api_key_Secret=real"));
    assert!(!out.contains("***"));
}

#[test]
fn case_uppercase_s() {
    let out = output_plain(&obj(vec![("CACHE_TTL_S", Value::from_u64(3600))]));
    assert!(out.contains("CACHE_TTL=3600s"));
}

#[test]
fn case_mixed_ms_not_matched() {
    let out = output_plain(&obj(vec![("latency_Ms", Value::from_u64(42))]));
    assert_eq!(out, "latency_Ms=42");
}

#[test]
fn negative_epoch_ms() {
    let out = output_plain(&obj(vec![("created_epoch_ms", Value::from_i64(-1000))]));
    assert_eq!(out, "created=1969-12-31T23:59:59.000Z");
}

#[test]
fn negative_epoch_s() {
    let out = output_plain(&obj(vec![("cached_epoch_s", Value::from_i64(-60))]));
    assert_eq!(out, "cached=1969-12-31T23:59:00.000Z");
}

#[test]
fn negative_epoch_ns() {
    let out = output_plain(&obj(vec![(
        "created_epoch_ns",
        Value::from_i64(-60000000000),
    )]));
    assert_eq!(out, "created=1969-12-31T23:59:00.000Z");
}

#[test]
fn negative_epoch_ns_minus_one() {
    let out = output_plain(&obj(vec![("created_epoch_ns", Value::from_i64(-1))]));
    assert_eq!(out, "created=1969-12-31T23:59:59.999Z");
}

#[test]
fn negative_bytes_small() {
    let out = output_plain(&obj(vec![("delta_bytes", Value::from_i64(-100))]));
    assert_eq!(out, "delta=-100B");
}

#[test]
fn negative_bytes_mb() {
    let out = output_plain(&obj(vec![("delta_bytes", Value::from_i64(-5242880))]));
    assert_eq!(out, "delta=-5.0MB");
}

#[test]
fn ms_boundary_999() {
    let out = output_plain(&obj(vec![("latency_ms", Value::from_u64(999))]));
    assert_eq!(out, "latency=999ms");
}

#[test]
fn ms_boundary_1000() {
    let out = output_plain(&obj(vec![("latency_ms", Value::from_u64(1000))]));
    assert_eq!(out, "latency=1.0s");
}

#[test]
fn ms_boundary_1001() {
    let out = output_plain(&obj(vec![("latency_ms", Value::from_u64(1001))]));
    assert_eq!(out, "latency=1.001s");
}

#[test]
fn ms_float_small() {
    let out = output_plain(&obj(vec![("latency_ms", Value::frac("0.5"))]));
    assert_eq!(out, "latency=0.5ms");
}

#[test]
fn ms_zero() {
    let out = output_plain(&obj(vec![("latency_ms", Value::from_u64(0))]));
    assert_eq!(out, "latency=0ms");
}

#[test]
fn zero_bytes() {
    let out = output_plain(&obj(vec![("size_bytes", Value::from_u64(0))]));
    assert_eq!(out, "size=0B");
}

#[test]
fn zero_percent() {
    let out = output_plain(&obj(vec![("cpu_percent", Value::from_u64(0))]));
    assert_eq!(out, "cpu=0%");
}

#[test]
fn zero_usd_cents() {
    let out = output_plain(&obj(vec![("price_usd_cents", Value::from_u64(0))]));
    assert_eq!(out, "price=$0.00");
}

#[test]
fn zero_s() {
    let out = output_plain(&obj(vec![("timeout_s", Value::from_u64(0))]));
    assert_eq!(out, "timeout=0s");
}

#[test]
fn suffix_priority_epoch_ms_over_ms() {
    let out = output_plain(&obj(vec![(
        "created_at_epoch_ms",
        Value::from_i64(1738886400000),
    )]));
    assert!(out.contains("2025-02-07"));
    assert!(!out.contains("ms"));
}

#[test]
fn suffix_priority_usd_cents_over_s() {
    let out = output_plain(&obj(vec![("price_usd_cents", Value::from_u64(999))]));
    assert_eq!(out, "price=$9.99");
}

#[test]
fn suffix_priority_msats_over_s() {
    let out = output_plain(&obj(vec![("cost_msats", Value::from_u64(2056))]));
    assert_eq!(out, "cost=2056msats");
}
