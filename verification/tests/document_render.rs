//! The document encoding: separator line, key stripping, quoted formatted
//! values, nesting and collision handling.

use agent_first_data::output_yaml;
use agent_first_data::Value;

fn obj(fields: Vec<(&str, Value)>) -> Value {
    Value::Obj(fields.into_iter().map(|(k, v)| (String::from(k), v)).collect())
}

fn txt(s: &str) -> Value {
    Value::text(s)
}

#[test]
fn yaml_starts_with_separator() {
    let out = output_yaml(&obj(vec![("a", Value::from_u64(1))]));
    assert!(out.starts_with("---\n"));
}

#[test]
fn yaml_strip_ms() {
    let out = output_yaml(&obj(vec![("duration_ms", Value::from_u64(42))]));
    assert!(out.contains("duration:"));
    assert!(!out.contains("duration_ms"));
}

#[test]
fn yaml_strip_s() {
    let out = output_yaml(&obj(vec![("timeout_s", Value::from_u64(30))]));
    assert!(out.contains("timeout:"));
    assert!(!out.contains("timeout_s"));
}

#[test]
fn yaml_strip_ns() {
    let out = output_yaml(&obj(vec![("gc_pause_ns", Value::from_u64(450000))]));
    assert!(out.contains("gc_pause:"));
    assert!(!out.contains("gc_pause_ns"));
}

#[test]
fn yaml_strip_us() {
    let out = output_yaml(&obj(vec![("query_us", Value::from_u64(830))]));
    assert!(out.contains("query:"));
    assert!(!out.contains("query_us"));
}

#[test]
fn yaml_strip_bytes() {
    let out = output_yaml(&obj(vec![("file_size_bytes", Value::from_u64(5242880))]));
    assert!(out.contains("file_size:"));
    assert!(!out.contains("file_size_bytes"));
}

#[test]
fn yaml_strip_epoch_ms() {
    let out = output_yaml(&obj(vec![(
        "created_at_epoch_ms",
        Value::from_i64(1738886400000),
    )]));
    assert!(out.contains("created_at:"));
    assert!(!out.contains("created_at_epoch_ms"));
}

#[test]
fn yaml_strip_epoch_s() {
    let out = output_yaml(&obj(vec![("cached_epoch_s", Value::from_u64(1738886400))]));
    assert!(out.contains("cached:"));
    assert!(!out.contains("cached_epoch_s"));
}

#[test]
fn yaml_strip_epoch_ns() {
    let out = output_yaml(&obj(vec![(
        "created_epoch_ns",
        Value::from_i64(1707868800000000000),
    )]));
    assert!(out.contains("created:"));
    assert!(!out.contains("created_epoch_ns"));
}

#[test]
fn yaml_strip_rfc3339() {
    let out = output_yaml(&obj(vec![("expires_rfc3339", txt("2026-02-14T10:30:00Z"))]));
    assert!(out.contains("expires:"));
    assert!(!out.contains("expires_rfc3339"));
}

#[test]
fn yaml_strip_secret() {
    let out = output_yaml(&obj(vec![("api_key_secret", txt("sk-123"))]));
    assert!(out.contains("api_key:"));
    assert!(!out.contains("api_key_secret"));
}

#[test]
fn yaml_strip_percent() {
    let out = output_yaml(&obj(vec![("cpu_percent", Value::from_u64(85))]));
    assert!(out.contains("cpu:"));
    assert!(!out.contains("cpu_percent"));
}

#[test]
fn yaml_strip_msats() {
    let out = output_yaml(&obj(vec![("balance_msats", Value::from_u64(50000))]));
    assert!(out.contains("balance:"));
    assert!(!out.contains("balance_msats"));
}

#[test]
fn yaml_strip_sats() {
    let out = output_yaml(&obj(vec![("withdrawn_sats", Value::from_u64(1234))]));
    assert!(out.contains("withdrawn:"));
    assert!(!out.contains("withdrawn_sats"));
}

#[test]
fn yaml_strip_btc() {
    let out = output_yaml(&obj(vec![("reserve_btc", Value::frac("0.5"))]));
    assert!(out.contains("reserve:"));
    assert!(!out.contains("reserve_btc"));
}

#[test]
fn yaml_strip_usd_cents() {
    let out = output_yaml(&obj(vec![("price_usd_cents", Value::from_u64(999))]));
    assert!(out.contains("price:"));
    assert!(!out.contains("price_usd_cents"));
}

#[test]
fn yaml_strip_eur_cents() {
    let out = output_yaml(&obj(vec![("price_eur_cents", Value::from_u64(850))]));
    assert!(out.contains("price:"));
    assert!(!out.contains("price_eur_cents"));
}

#[test]
fn yaml_strip_jpy() {
    let out = output_yaml(&obj(vec![("price_jpy", Value::from_u64(1500))]));
    assert!(out.contains("price:"));
    assert!(!out.contains("price_jpy"));
}

#[test]
fn yaml_strip_generic_cents() {
    let out = output_yaml(&obj(vec![("fare_thb_cents", Value::from_u64(15050))]));
    assert!(out.contains("fare:"));
    assert!(!out.contains("fare_thb_cents"));
}

#[test]
fn yaml_strip_minutes() {
    let out = output_yaml(&obj(vec![("timeout_minutes", Value::from_u64(30))]));
    assert!(out.contains("timeout:"));
    assert!(!out.contains("timeout_minutes"));
}

#[test]
fn yaml_strip_hours() {
    let out = output_yaml(&obj(vec![("validity_hours", Value::from_u64(24))]));
    assert!(out.contains("validity:"));
    assert!(!out.contains("validity_hours"));
}

#[test]
fn yaml_strip_days() {
    let out = output_yaml(&obj(vec![("cert_days", Value::from_u64(365))]));
    assert!(out.contains("cert:"));
    assert!(!out.contains("cert_days"));
}

#[test]
fn yaml_no_strip_size() {
    let out = output_yaml(&obj(vec![("buffer_size", txt("10M"))]));
    assert!(out.contains("buffer_size:"));
}

#[test]
fn yaml_no_strip_no_suffix() {
    let out = output_yaml(&obj(vec![
        ("user_id", Value::from_u64(123)),
        ("config_path", txt("a.yml")),
    ]));
    assert!(out.contains("user_id:"));
    assert!(out.contains("config_path:"));
}

#[test]
fn yaml_strip_uppercase_secret() {
    let out = output_yaml(&obj(vec![("DATABASE_URL_SECRET", txt("postgres://..."))]));
    assert!(out.contains("DATABASE_URL:"));
    assert!(!out.contains("DATABASE_URL_SECRET"));
}

#[test]
fn yaml_strip_uppercase_s() {
    let out = output_yaml(&obj(vec![("CACHE_TTL_S", Value::from_u64(3600))]));
    assert!(out.contains("CACHE_TTL:"));
    assert!(!out.contains("CACHE_TTL_S"));
}

#[test]
fn yaml_key_collision_keeps_originals() {
    let out = output_yaml(&obj(vec![
        ("response_ms", Value::from_u64(150)),
        ("response_s", Value::from_u64(1)),
    ]));
    assert!(out.contains("response_ms: 150"));
    assert!(out.contains("response_s: 1"));
}

#[test]
fn yaml_fmt_ms_small() {
    let out = output_yaml(&obj(vec![("latency_ms", Value::from_u64(42))]));
    assert!(out.contains("\"42ms\""));
}

#[test]
fn yaml_fmt_ms_to_seconds() {
    let out = output_yaml(&obj(vec![("duration_ms", Value::from_u64(1280))]));
    assert!(out.contains("\"1.28s\""));
}

#[test]
fn yaml_fmt_ms_5000() {
    let out = output_yaml(&obj(vec![("request_timeout_ms", Value::from_u64(5000))]));
    assert!(out.contains("\"5.0s\""));
}

#[test]
fn yaml_fmt_ms_1500() {
    let out = output_yaml(&obj(vec![("duration_ms", Value::from_u64(1500))]));
    assert!(out.contains("\"1.5s\""));
}

#[test]
fn yaml_fmt_s() {
    let out = output_yaml(&obj(vec![("cache_ttl_s", Value::from_u64(3600))]));
    assert!(out.contains("\"3600s\""));
}

#[test]
fn yaml_fmt_ns() {
    let out = output_yaml(&obj(vec![("gc_pause_ns", Value::from_u64(450000))]));
    assert!(out.contains("\"450000ns\""));
}

#[test]
fn yaml_fmt_us() {
    let out = output_yaml(&obj(vec![("query_us", Value::from_u64(830))]));
    assert!(out.contains("\"830\u{03bc}s\""));
}

#[test]
fn yaml_fmt_minutes() {
    let out = output_yaml(&obj(vec![("timeout_minutes", Value::from_u64(30))]));
    assert!(out.contains("\"30 minutes\""));
}

#[test]
fn yaml_fmt_hours() {
    let out = output_yaml(&obj(vec![("validity_hours", Value::from_u64(24))]));
    assert!(out.contains("\"24 hours\""));
}

#[test]
fn yaml_fmt_days() {
    let out = output_yaml(&obj(vec![("cert_days", Value::from_u64(365))]));
    assert!(out.contains("\"365 days\""));
}

#[test]
fn yaml_fmt_epoch_ms() {
    let out = output_yaml(&obj(vec![(
        "created_at_epoch_ms",
        Value::from_i64(1738886400000),
    )]));
    assert!(out.contains("\"2025-02-07T00:00:00.000Z\""));
}

#[test]
fn yaml_fmt_epoch_s() {
    let out = output_yaml(&obj(vec![("cached_epoch_s", Value::from_u64(1738886400))]));
    assert!(out.contains("\"2025-02-07T00:00:00.000Z\""));
}

#[test]
fn yaml_fmt_bytes() {
    let out = output_yaml(&obj(vec![("file_size_bytes", Value::from_u64(5242880))]));
    assert!(out.contains("\"5.0MB\""));
}

#[test]
fn yaml_fmt_bytes_kb() {
    let out = output_yaml(&obj(vec![("payload_bytes", Value::from_u64(456789))]));
    assert!(out.contains("\"446.1KB\""));
}

#[test]
fn yaml_fmt_usd_cents() {
    let out = output_yaml(&obj(vec![("price_usd_cents", Value::from_u64(9999))]));
    assert!(out.contains("\"$99.99\""));
}

#[test]
fn yaml_fmt_eur_cents() {
    let out = output_yaml(&obj(vec![("price_eur_cents", Value::from_u64(850))]));
    assert!(out.contains("\"\u{20ac}8.50\""));
}

#[test]
fn yaml_fmt_jpy() {
    let out = output_yaml(&obj(vec![("price_jpy", Value::from_u64(1500))]));
    assert!(out.contains("\"\u{00a5}1,500\""));
}

#[test]
fn yaml_fmt_generic_cents() {
    let out = output_yaml(&obj(vec![("fare_thb_cents", Value::from_u64(15050))]));
    assert!(out.contains("\"150.50 THB\""));
}

#[test]
fn yaml_fmt_msats() {
    let out = output_yaml(&obj(vec![("payment_msats", Value::from_u64(50000000))]));
    assert!(out.contains("\"50000000msats\""));
}

#[test]
fn yaml_fmt_sats() {
    let out = output_yaml(&obj(vec![("withdrawn_sats", Value::from_u64(1234))]));
    assert!(out.contains("\"1234sats\""));
}

#[test]
fn yaml_fmt_btc() {
    let out = output_yaml(&obj(vec![("reserve_btc", Value::frac("0.5"))]));
    assert!(out.contains("\"0.5 BTC\""));
}

#[test]
fn yaml_fmt_percent_int() {
    let out = output_yaml(&obj(vec![("cpu_percent", Value::from_u64(85))]));
    assert!(out.contains("\"85%\""));
}

#[test]
fn yaml_fmt_percent_float() {
    let out = output_yaml(&obj(vec![("success_rate_percent", Value::frac("95.5"))]));
    assert!(out.contains("\"95.5%\""));
}

#[test]
fn yaml_fmt_secret() {
    let out = output_yaml(&obj(vec![("api_key_secret", txt("sk-1234567890abcdef"))]));
    assert!(out.contains("\"***\""));
    assert!(!out.contains("sk-1234567890abcdef"));
}

#[test]
fn yaml_fmt_rfc3339_passthrough() {
    let out = output_yaml(&obj(vec![("expires_rfc3339", txt("2026-02-14T10:30:00Z"))]));
    assert!(out.contains("\"2026-02-14T10:30:00Z\""));
}

#[test]
fn yaml_fmt_size_passthrough() {
    let out = output_yaml(&obj(vec![("buffer_size", txt("10M"))]));
    assert!(out.contains("\"10M\""));
}

#[test]
fn yaml_strings_always_quoted() {
    let out = output_yaml(&obj(vec![("name", txt("alice"))]));
    assert!(out.contains("\"alice\""));
}

#[test]
fn yaml_numbers_unquoted() {
    let out = output_yaml(&obj(vec![("count", Value::from_u64(42))]));
    assert!(out.contains("count: 42"));
    assert!(!out.contains("\"42\""));
}

#[test]
fn yaml_nested_key_stripping() {
    let out = output_yaml(&obj(vec![(
        "config",
        obj(vec![
            ("api_key_secret", txt("sk-123")),
            ("timeout_s", Value::from_u64(30)),
        ]),
    )]));
    assert!(out.contains("config:"));
    assert!(out.contains("  api_key: \"***\""));
    assert!(out.contains("  timeout: \"30s\""));
}
