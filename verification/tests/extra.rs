//! Exact values for the helper formatters, the library's stated laws on
//! concrete inputs, canonical-ordering edge cases, and the parser.

use agent_first_data::error;
use agent_first_data::error_trace;
use agent_first_data::extract_currency_code;
use agent_first_data::format_bytes_human;
use agent_first_data::format_with_commas;
use agent_first_data::ok;
use agent_first_data::ok_trace;
use agent_first_data::output_json;
use agent_first_data::output_plain;
use agent_first_data::output_yaml;
use agent_first_data::parse_size;
use agent_first_data::redact_secrets;
use agent_first_data::startup;
use agent_first_data::status;
use agent_first_data::to_plain;
use agent_first_data::to_yaml;
use agent_first_data::OutputFormat;
use agent_first_data::Value;

fn obj(fields: Vec<(&str, Value)>) -> Value {
    Value::Obj(fields.into_iter().map(|(k, v)| (String::from(k), v)).collect())
}

#[test]
fn bytes_human_exact_values() {
    assert_eq!(format_bytes_human(0), "0B");
    assert_eq!(format_bytes_human(-100), "-100B");
    assert_eq!(format_bytes_human(1023), "1023B");
    assert_eq!(format_bytes_human(1024), "1.0KB");
    assert_eq!(format_bytes_human(1536), "1.5KB");
    assert_eq!(format_bytes_human(456789), "446.1KB");
    assert_eq!(format_bytes_human(5242880), "5.0MB");
    assert_eq!(format_bytes_human(-5242880), "-5.0MB");
    assert_eq!(format_bytes_human(1073741824), "1.0GB");
    assert_eq!(format_bytes_human(1099511627776), "1.0TB");
}

#[test]
fn commas_exact_values() {
    assert_eq!(format_with_commas(0), "0");
    assert_eq!(format_with_commas(100), "100");
    assert_eq!(format_with_commas(1000), "1,000");
    assert_eq!(format_with_commas(1500), "1,500");
    assert_eq!(format_with_commas(1234567), "1,234,567");
}

#[test]
fn currency_code_extraction() {
    assert_eq!(extract_currency_code("fare_thb_cents"), Some("thb"));
    assert_eq!(extract_currency_code("price_usd_cents"), Some("usd"));
    assert_eq!(extract_currency_code("x_cents"), None);
    assert_eq!(extract_currency_code("no_suffix"), None);
}

#[test]
fn parse_size_exact_values() {
    assert_eq!(parse_size("10M"), Some(10485760));
    assert_eq!(parse_size("1.5K"), Some(1536));
    assert_eq!(parse_size("512B"), Some(512));
    assert_eq!(parse_size("1024"), Some(1024));
    assert_eq!(parse_size(" 2k "), Some(2048));
    assert_eq!(parse_size("10T"), Some(10995116277760));
    assert_eq!(parse_size("0.5"), Some(0));
    assert_eq!(parse_size("5."), Some(5));
    assert_eq!(parse_size(".5K"), Some(512));
}

#[test]
fn parse_size_rejects_malformed() {
    assert_eq!(parse_size(""), None);
    assert_eq!(parse_size("   "), None);
    assert_eq!(parse_size("abc"), None);
    assert_eq!(parse_size("-5K"), None);
    assert_eq!(parse_size("1.2.3"), None);
    assert_eq!(parse_size("K"), None);
    assert_eq!(parse_size("99999999999999999999K"), None);
}

#[test]
fn redaction_idempotent_on_concrete_tree() {
    let make = || {
        obj(vec![
            ("api_key_secret", Value::text("sk-1")),
            ("nested", obj(vec![("token_SECRET", Value::from_u64(7))])),
            ("list", Value::Arr(vec![obj(vec![("k_secret", Value::null())])])),
        ])
    };
    let mut once = make();
    redact_secrets(&mut once);
    let mut twice = make();
    redact_secrets(&mut twice);
    redact_secrets(&mut twice);
    assert_eq!(output_json(&once), output_json(&twice));
}

#[test]
fn compact_escapes_embedded_newline() {
    let v = obj(vec![("msg", Value::text("a\nb"))]);
    let out = output_json(&v);
    assert!(!out.contains('\n'));
    assert!(out.contains("a\\nb"));
}

#[test]
fn document_escapes_embedded_newline() {
    let v = obj(vec![("msg", Value::text("a\nb"))]);
    let out = output_yaml(&v);
    assert!(out.contains("msg: \"a\\nb\""));
}

#[test]
fn canonical_order_is_utf16() {
    let out = output_plain(&obj(vec![
        ("a", Value::from_u64(1)),
        ("Z", Value::from_u64(2)),
    ]));
    assert_eq!(out, "Z=2 a=1");
}

#[test]
fn canonical_order_surrogates_before_high_bmp() {
    let out = output_plain(&obj(vec![
        ("\u{fffd}", Value::from_u64(1)),
        ("\u{10000}", Value::from_u64(2)),
    ]));
    assert_eq!(out, "\u{10000}=2 \u{fffd}=1");
}

#[test]
fn fractional_ms_above_threshold_shifts_point() {
    let out = output_plain(&obj(vec![("latency_ms", Value::frac("1234.5"))]));
    assert_eq!(out, "latency=1.2345s");
}

#[test]
fn fractional_ms_trims_trailing_zeros() {
    let out = output_plain(&obj(vec![("latency_ms", Value::frac("1000.0"))]));
    assert_eq!(out, "latency=1.0s");
}

#[test]
fn epoch_ms_zero_is_epoch_instant() {
    let out = output_plain(&obj(vec![("t_epoch_ms", Value::from_u64(0))]));
    assert_eq!(out, "t=1970-01-01T00:00:00.000Z");
}

#[test]
fn epoch_beyond_calendar_falls_back_to_number() {
    let out = output_plain(&obj(vec![("t_epoch_s", Value::from_i64(8210266876800))]));
    assert_eq!(out, "t=8210266876800");
}

#[test]
fn document_empty_containers_inline() {
    let out = output_yaml(&obj(vec![
        ("a", obj(vec![])),
        ("b", Value::Arr(vec![])),
    ]));
    assert!(out.contains("a: {}"));
    assert!(out.contains("b: []"));
}

#[test]
fn document_array_of_objects_as_blocks() {
    let out = output_yaml(&obj(vec![(
        "items",
        Value::Arr(vec![obj(vec![("x", Value::from_u64(1))])]),
    )]));
    assert_eq!(out, "---\nitems:\n  -\n    x: 1");
}

#[test]
fn document_array_of_scalars_as_dashes() {
    let out = output_yaml(&obj(vec![(
        "tags",
        Value::Arr(vec![Value::text("a"), Value::from_u64(2)]),
    )]));
    assert_eq!(out, "---\ntags:\n  - \"a\"\n  - 2");
}

#[test]
fn format_dispatch_matches_encodings() {
    let v = obj(vec![("duration_ms", Value::from_u64(1280))]);
    assert_eq!(OutputFormat::Json.format(&v), output_json(&v));
    assert_eq!(OutputFormat::Yaml.format(&v), output_yaml(&v));
    assert_eq!(OutputFormat::Plain.format(&v), output_plain(&v));
}

#[test]
fn renderer_aliases_agree() {
    let v = obj(vec![("timeout_s", Value::from_u64(30))]);
    assert_eq!(to_yaml(&v), output_yaml(&v));
    assert_eq!(to_plain(&v), output_plain(&v));
}

#[test]
fn legacy_builders_shape() {
    let v = ok(obj(vec![("n", Value::from_u64(1))]));
    assert_eq!(v.get("code").unwrap().as_str().unwrap(), "ok");
    let v = ok_trace(Value::null(), obj(vec![("d_ms", Value::from_u64(2))]));
    assert!(v.get("trace").is_some());
    let v = error("boom");
    assert_eq!(v.get("error").unwrap().as_str().unwrap(), "boom");
    let v = error_trace("boom", Value::null());
    assert!(v.get("trace").unwrap().is_null());
    let v = startup(Value::null(), Value::null(), Value::null());
    assert_eq!(v.get("code").unwrap().as_str().unwrap(), "startup");
    let v = status("busy", obj(vec![("q", Value::from_u64(9))]));
    assert_eq!(v.get("code").unwrap().as_str().unwrap(), "busy");
    assert_eq!(v.get("q").unwrap().as_u64().unwrap(), 9);
}

#[test]
fn generic_cents_requires_nonempty_code() {
    let out = output_plain(&obj(vec![("x_cents", Value::from_u64(150))]));
    assert_eq!(out, "x_cents=150");
}

#[test]
fn huge_unsigned_survives_compact() {
    let out = output_json(&obj(vec![("n", Value::from_u64(18446744073709551615))]));
    assert!(out.contains("18446744073709551615"));
}

#[test]
fn line_renders_top_level_scalar() {
    assert_eq!(output_plain(&Value::text("hi")), "hi");
    assert_eq!(
        output_plain(&Value::Arr(vec![Value::from_u64(1), Value::from_u64(2)])),
        "1,2"
    );
}

#[test]
fn pretty_json_indents_and_redacts() {
    let v = obj(vec![
        ("api_key_secret", Value::text("sk-9")),
        ("nested", obj(vec![("n", Value::from_u64(1))])),
        ("tags", Value::Arr(vec![Value::from_u64(1), Value::from_u64(2)])),
    ]);
    let out = OutputFormat::Json.format_pretty(&v);
    assert_eq!(
        out,
        "{\n  \"api_key_secret\": \"***\",\n  \"nested\": {\n    \"n\": 1\n  },\n  \"tags\": [\n    1,\n    2\n  ]\n}"
    );
}

#[test]
fn pretty_json_empty_containers() {
    let v = obj(vec![("a", obj(vec![])), ("b", Value::Arr(vec![]))]);
    let out = OutputFormat::Json.format_pretty(&v);
    assert_eq!(out, "{\n  \"a\": {},\n  \"b\": []\n}");
}

#[test]
fn default_format_is_compact() {
    assert_eq!(OutputFormat::default(), OutputFormat::Json);
}

#[test]
fn document_of_empty_object_is_bare_separator() {
    assert_eq!(output_yaml(&obj(vec![])), "---");
}

#[test]
fn bytes_human_extremes() {
    assert_eq!(format_bytes_human(i64::MAX), "8388608.0TB");
    assert_eq!(format_bytes_human(i64::MIN), "-8388608.0TB");
}

#[test]
fn parse_size_at_the_top_of_u64() {
    assert_eq!(parse_size("18446744073709551615B"), Some(u64::MAX));
    assert_eq!(parse_size("18446744073709551616"), None);
    assert_eq!(parse_size("16777215T"), Some(18446742974197923840));
    assert_eq!(parse_size("16777216T"), None);
}

#[test]
fn ms_formatting_at_the_top_of_u64() {
    let out = output_plain(&obj(vec![("x_ms", Value::from_u64(u64::MAX))]));
    assert_eq!(out, "x=18446744073709551.615s");
}

#[test]
fn epoch_just_beyond_calendar_floor_falls_back() {
    let out = output_plain(&obj(vec![(
        "t_epoch_ms",
        Value::from_i64(-8334601228800001),
    )]));
    assert_eq!(out, "t=-8334601228800001");
}

#[test]
fn epoch_at_calendar_ceiling_still_formats() {
    let out = output_plain(&obj(vec![("t_epoch_s", Value::from_i64(8210266876799))]));
    assert!(out.contains("262142"));
    assert!(out.ends_with("Z"));
}
