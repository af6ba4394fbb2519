//! The suffix classifier: one object key and its value, tried against the
//! rule table in priority order.  The first suffix found (exact lowercase
//! or exact uppercase) is the only rule applied; if its type check fails
//! the field falls through unchanged.

use vstd::prelude::*;

use crate::numfmt::bytes_text;
use crate::numfmt::dec_nat;
use crate::numfmt::dec_pad2;
use crate::numfmt::dec_int;
use crate::numfmt::fmt_i64;
use crate::numfmt::fmt_pad2;
use crate::numfmt::fmt_u64;
use crate::numfmt::format_bytes_human;
use crate::numfmt::format_with_commas;
use crate::numfmt::fmt_ms_frac;
use crate::numfmt::fmt_ms_i64;
use crate::numfmt::fmt_ms_u64;
use crate::numfmt::group_commas;
use crate::numfmt::ms_frac_text;
use crate::numfmt::ms_int_text;
use crate::strutil::char_string;
use crate::strutil::ends_with;
use crate::strutil::find_last_underscore;
use crate::strutil::last_underscore;
use crate::strutil::seq_to_ascii_upper;
use crate::strutil::str_ends_with;
use crate::strutil::str_to_ascii_upper;
use crate::strutil::strip_last_chars;
use crate::time::epoch_ms_text;
use crate::time::epoch_ns_text;
use crate::time::epoch_s_text;
use crate::time::format_rfc3339_ms;
use crate::time::format_rfc3339_ns;
use crate::time::format_rfc3339_s;
use crate::value::SpecValue;
use crate::value::Value;

verus! {

/// The key ends in the lowercase or the uppercase spelling of a suffix.
pub open spec fn has_suffix(k: Seq<char>, lc: Seq<char>, uc: Seq<char>) -> bool {
    ends_with(k, lc) || ends_with(k, uc)
}

/// The key with the matched spelling of the suffix removed.
pub open spec fn strip_suffix(k: Seq<char>, lc: Seq<char>, uc: Seq<char>) -> Seq<char> {
    if ends_with(k, lc) {
        k.subrange(0, k.len() - lc.len())
    } else {
        k.subrange(0, k.len() - uc.len())
    }
}

/// The literal text of a number value.
pub open spec fn number_text(v: SpecValue) -> Seq<char>
    recommends
        v.is_number(),
{
    match v {
        SpecValue::Int(n) => dec_int(n),
        SpecValue::UInt(n) => dec_nat(n),
        SpecValue::Frac(s) => s,
        _ => Seq::empty(),
    }
}

/// A cent amount as `<units>.<2-digit cents>`.
pub open spec fn cents_text(n: int) -> Seq<char>
    recommends
        n >= 0,
{
    dec_nat(n / 100) + seq!['.'] + dec_pad2(n % 100)
}

/// Millisecond duration of any number value.
pub open spec fn ms_number_text(v: SpecValue) -> Seq<char>
    recommends
        v.is_number(),
{
    match v {
        SpecValue::Int(n) => ms_int_text(n),
        SpecValue::UInt(n) => ms_int_text(n),
        SpecValue::Frac(s) => ms_frac_text(s),
        _ => Seq::empty(),
    }
}

/// The currency code of a `_{code}_cents` key: the token between the last
/// underscore before the `_cents` suffix and the suffix itself.
pub open spec fn spec_currency_code(head: Seq<char>) -> Option<Seq<char>> {
    let u = last_underscore(head);
    if u == -1 || u == head.len() - 1 {
        None
    } else {
        Some(head.subrange(u + 1, head.len() as int))
    }
}

/// The result of one classification: the stripped display key and the
/// formatted text, or `None` when no rule applies cleanly.
pub open spec fn classify(k: Seq<char>, v: SpecValue) -> Option<(Seq<char>, Seq<char>)> {
    if has_suffix(k, "_epoch_ms"@, "_EPOCH_MS"@) {
        match v.spec_as_i64() {
            Some(ms) => Some((strip_suffix(k, "_epoch_ms"@, "_EPOCH_MS"@), epoch_ms_text(ms))),
            None => None,
        }
    } else if has_suffix(k, "_epoch_s"@, "_EPOCH_S"@) {
        match v.spec_as_i64() {
            Some(s) => Some((strip_suffix(k, "_epoch_s"@, "_EPOCH_S"@), epoch_s_text(s))),
            None => None,
        }
    } else if has_suffix(k, "_epoch_ns"@, "_EPOCH_NS"@) {
        match v.spec_as_i64() {
            Some(ns) => Some((strip_suffix(k, "_epoch_ns"@, "_EPOCH_NS"@), epoch_ns_text(ns))),
            None => None,
        }
    } else if has_suffix(k, "_rfc3339"@, "_RFC3339"@) {
        match v {
            SpecValue::Text(s) => Some((strip_suffix(k, "_rfc3339"@, "_RFC3339"@), s)),
            _ => None,
        }
    } else if has_suffix(k, "_usd_cents"@, "_USD_CENTS"@) {
        match v.spec_as_u64() {
            Some(n) => Some(
                (strip_suffix(k, "_usd_cents"@, "_USD_CENTS"@), seq!['$'] + cents_text(n)),
            ),
            None => None,
        }
    } else if has_suffix(k, "_eur_cents"@, "_EUR_CENTS"@) {
        match v.spec_as_u64() {
            Some(n) => Some(
                (
                    strip_suffix(k, "_eur_cents"@, "_EUR_CENTS"@),
                    seq!['\u{20ac}'] + cents_text(n),
                ),
            ),
            None => None,
        }
    } else if has_suffix(k, "_cents"@, "_CENTS"@) {
        let head = strip_suffix(k, "_cents"@, "_CENTS"@);
        match spec_currency_code(head) {
            Some(code) => match v.spec_as_u64() {
                Some(n) => Some(
                    (
                        head.subrange(0, last_underscore(head)),
                        cents_text(n) + seq![' '] + seq_to_ascii_upper(code),
                    ),
                ),
                None => None,
            },
            None => None,
        }
    } else if has_suffix(k, "_jpy"@, "_JPY"@) {
        match v.spec_as_u64() {
            Some(n) => Some(
                (
                    strip_suffix(k, "_jpy"@, "_JPY"@),
                    seq!['\u{a5}'] + group_commas(dec_nat(n)),
                ),
            ),
            None => None,
        }
    } else if has_suffix(k, "_msats"@, "_MSATS"@) {
        if v.is_number() {
            Some((strip_suffix(k, "_msats"@, "_MSATS"@), number_text(v) + "msats"@))
        } else {
            None
        }
    } else if has_suffix(k, "_sats"@, "_SATS"@) {
        if v.is_number() {
            Some((strip_suffix(k, "_sats"@, "_SATS"@), number_text(v) + "sats"@))
        } else {
            None
        }
    } else if has_suffix(k, "_btc"@, "_BTC"@) {
        if v.is_number() {
            Some((strip_suffix(k, "_btc"@, "_BTC"@), number_text(v) + " BTC"@))
        } else {
            None
        }
    } else if has_suffix(k, "_bytes"@, "_BYTES"@) {
        match v.spec_as_i64() {
            Some(b) => Some((strip_suffix(k, "_bytes"@, "_BYTES"@), bytes_text(b))),
            None => None,
        }
    } else if has_suffix(k, "_percent"@, "_PERCENT"@) {
        if v.is_number() {
            Some((strip_suffix(k, "_percent"@, "_PERCENT"@), number_text(v) + "%"@))
        } else {
            None
        }
    } else if has_suffix(k, "_minutes"@, "_MINUTES"@) {
        if v.is_number() {
            Some((strip_suffix(k, "_minutes"@, "_MINUTES"@), number_text(v) + " minutes"@))
        } else {
            None
        }
    } else if has_suffix(k, "_hours"@, "_HOURS"@) {
        if v.is_number() {
            Some((strip_suffix(k, "_hours"@, "_HOURS"@), number_text(v) + " hours"@))
        } else {
            None
        }
    } else if has_suffix(k, "_days"@, "_DAYS"@) {
        if v.is_number() {
            Some((strip_suffix(k, "_days"@, "_DAYS"@), number_text(v) + " days"@))
        } else {
            None
        }
    } else if has_suffix(k, "_ns"@, "_NS"@) {
        if v.is_number() {
            Some((strip_suffix(k, "_ns"@, "_NS"@), number_text(v) + "ns"@))
        } else {
            None
        }
    } else if has_suffix(k, "_us"@, "_US"@) {
        if v.is_number() {
            Some((strip_suffix(k, "_us"@, "_US"@), number_text(v) + seq!['\u{3bc}', 's']))
        } else {
            None
        }
    } else if has_suffix(k, "_ms"@, "_MS"@) {
        if v.is_number() {
            Some((strip_suffix(k, "_ms"@, "_MS"@), ms_number_text(v)))
        } else {
            None
        }
    } else if has_suffix(k, "_s"@, "_S"@) {
        if v.is_number() {
            Some((strip_suffix(k, "_s"@, "_S"@), number_text(v) + "s"@))
        } else {
            None
        }
    } else if has_suffix(k, "_secret"@, "_SECRET"@) {
        Some((strip_suffix(k, "_secret"@, "_SECRET"@), "***"@))
    } else {
        None
    }
}

/// The display key after classification: stripped when a rule applied,
/// otherwise the original key.
pub open spec fn display_key(k: Seq<char>, v: SpecValue) -> Seq<char> {
    match classify(k, v) {
        Some(p) => p.0,
        None => k,
    }
}

/// The currency code of a lowercase `_{code}_cents` key: the token after
/// the last underscore before the `_cents` suffix, possibly empty.
pub fn extract_currency_code(key: &str) -> (r: Option<&str>)
    ensures
        match r {
            Some(code) => {
                &&& ends_with(key@, "_cents"@)
                &&& last_underscore(key@.subrange(0, key@.len() - "_cents"@.len())) >= 0
                &&& code@ == key@.subrange(0, key@.len() - "_cents"@.len()).subrange(
                    last_underscore(key@.subrange(0, key@.len() - "_cents"@.len())) + 1,
                    key@.len() - "_cents"@.len(),
                )
            },
            None => !ends_with(key@, "_cents"@) || last_underscore(
                key@.subrange(0, key@.len() - "_cents"@.len()),
            ) == -1,
        },
{
    if !str_ends_with(key, "_cents") {
        return None;
    }
    let kn = key.unicode_len();
    let sufn = "_cents".unicode_len();
    let head = key.substring_char(0, kn - sufn);
    match find_last_underscore(head) {
        Some(u) => {
            let hn = head.unicode_len();
            Some(head.substring_char(u + 1, hn))
        },
        None => None,
    }
}

/// The literal text of a number value.
pub fn fmt_number(v: &Value) -> (r: String)
    requires
        v@.is_number(),
    ensures
        r@ == number_text(v@),
{
    match v {
        Value::Int(n) => fmt_i64(*n),
        Value::UInt(n) => fmt_u64(*n),
        Value::Frac(s) => s.clone(),
        _ => String::new(),
    }
}

/// `<units>.<2-digit cents>` of an unsigned cent amount.
fn fmt_cents(n: u64) -> (r: String)
    ensures
        r@ == cents_text(n as int),
{
    let mut s = fmt_u64(n / 100);
    s.push('.');
    let tail = fmt_pad2(n % 100);
    s.append(tail.as_str());
    proof {
        assert(s@ =~= cents_text(n as int));
    }
    s
}

/// Strip the matched spelling of a suffix from the key.
fn strip_matched(k: &str, lc: &str, uc: &str) -> (r: String)
    requires
        has_suffix(k@, lc@, uc@),
    ensures
        r@ == strip_suffix(k@, lc@, uc@),
{
    if str_ends_with(k, lc) {
        strip_last_chars(k, lc.unicode_len())
    } else {
        strip_last_chars(k, uc.unicode_len())
    }
}

/// A number value's text followed by a unit literal.
fn number_with_unit(v: &Value, unit: &str) -> (r: String)
    requires
        v@.is_number(),
    ensures
        r@ == number_text(v@) + unit@,
{
    let mut s = fmt_number(v);
    s.append(unit);
    s
}

/// Classify one key/value pair: the stripped display key and the formatted
/// text when a rule matches the name and the value's type, `None`
/// otherwise.
pub fn classify_field(k: &str, v: &Value) -> (r: Option<(String, String)>)
    ensures
        match r {
            Some(p) => classify(k@, v@) == Some((p.0@, p.1@)),
            None => classify(k@, v@) is None,
        },
{
    if str_ends_with(k, "_epoch_ms") || str_ends_with(k, "_EPOCH_MS") {
        match v.as_i64() {
            Some(ms) => Some(
                (strip_matched(k, "_epoch_ms", "_EPOCH_MS"), format_rfc3339_ms(ms)),
            ),
            None => None,
        }
    } else if str_ends_with(k, "_epoch_s") || str_ends_with(k, "_EPOCH_S") {
        match v.as_i64() {
            Some(s) => Some((strip_matched(k, "_epoch_s", "_EPOCH_S"), format_rfc3339_s(s))),
            None => None,
        }
    } else if str_ends_with(k, "_epoch_ns") || str_ends_with(k, "_EPOCH_NS") {
        match v.as_i64() {
            Some(ns) => Some(
                (strip_matched(k, "_epoch_ns", "_EPOCH_NS"), format_rfc3339_ns(ns)),
            ),
            None => None,
        }
    } else if str_ends_with(k, "_rfc3339") || str_ends_with(k, "_RFC3339") {
        match v.as_str() {
            Some(s) => Some((strip_matched(k, "_rfc3339", "_RFC3339"), s.to_owned())),
            None => None,
        }
    } else if str_ends_with(k, "_usd_cents") || str_ends_with(k, "_USD_CENTS") {
        match v.as_u64() {
            Some(n) => {
                let mut t = char_string('$');
                let c = fmt_cents(n);
                t.append(c.as_str());
                Some((strip_matched(k, "_usd_cents", "_USD_CENTS"), t))
            },
            None => None,
        }
    } else if str_ends_with(k, "_eur_cents") || str_ends_with(k, "_EUR_CENTS") {
        match v.as_u64() {
            Some(n) => {
                let mut t = char_string('\u{20ac}');
                let c = fmt_cents(n);
                t.append(c.as_str());
                Some((strip_matched(k, "_eur_cents", "_EUR_CENTS"), t))
            },
            None => None,
        }
    } else if str_ends_with(k, "_cents") || str_ends_with(k, "_CENTS") {
        let head = strip_matched(k, "_cents", "_CENTS");
        let hn = head.as_str().unicode_len();
        match find_last_underscore(head.as_str()) {
            Some(u) => {
                if u + 1 < hn {
                    let code = head.as_str().substring_char(u + 1, hn);
                    match v.as_u64() {
                        Some(n) => {
                            let mut t = fmt_cents(n);
                            t.push(' ');
                            let up = str_to_ascii_upper(code);
                            t.append(up.as_str());
                            let disp = head.as_str().substring_char(0, u);
                            proof {
                                assert(code@ =~= spec_currency_code(head@).unwrap());
                            }
                            Some((disp.to_owned(), t))
                        },
                        None => None,
                    }
                } else {
                    None
                }
            },
            None => None,
        }
    } else if str_ends_with(k, "_jpy") || str_ends_with(k, "_JPY") {
        match v.as_u64() {
            Some(n) => {
                let mut t = char_string('\u{a5}');
                let c = format_with_commas(n);
                t.append(c.as_str());
                Some((strip_matched(k, "_jpy", "_JPY"), t))
            },
            None => None,
        }
    } else if str_ends_with(k, "_msats") || str_ends_with(k, "_MSATS") {
        if v.is_number() {
            Some((strip_matched(k, "_msats", "_MSATS"), number_with_unit(v, "msats")))
        } else {
            None
        }
    } else if str_ends_with(k, "_sats") || str_ends_with(k, "_SATS") {
        if v.is_number() {
            Some((strip_matched(k, "_sats", "_SATS"), number_with_unit(v, "sats")))
        } else {
            None
        }
    } else if str_ends_with(k, "_btc") || str_ends_with(k, "_BTC") {
        if v.is_number() {
            Some((strip_matched(k, "_btc", "_BTC"), number_with_unit(v, " BTC")))
        } else {
            None
        }
    } else if str_ends_with(k, "_bytes") || str_ends_with(k, "_BYTES") {
        match v.as_i64() {
            Some(b) => Some((strip_matched(k, "_bytes", "_BYTES"), format_bytes_human(b))),
            None => None,
        }
    } else if str_ends_with(k, "_percent") || str_ends_with(k, "_PERCENT") {
        if v.is_number() {
            Some((strip_matched(k, "_percent", "_PERCENT"), number_with_unit(v, "%")))
        } else {
            None
        }
    } else if str_ends_with(k, "_minutes") || str_ends_with(k, "_MINUTES") {
        if v.is_number() {
            Some((strip_matched(k, "_minutes", "_MINUTES"), number_with_unit(v, " minutes")))
        } else {
            None
        }
    } else if str_ends_with(k, "_hours") || str_ends_with(k, "_HOURS") {
        if v.is_number() {
            Some((strip_matched(k, "_hours", "_HOURS"), number_with_unit(v, " hours")))
        } else {
            None
        }
    } else if str_ends_with(k, "_days") || str_ends_with(k, "_DAYS") {
        if v.is_number() {
            Some((strip_matched(k, "_days", "_DAYS"), number_with_unit(v, " days")))
        } else {
            None
        }
    } else if str_ends_with(k, "_ns") || str_ends_with(k, "_NS") {
        if v.is_number() {
            Some((strip_matched(k, "_ns", "_NS"), number_with_unit(v, "ns")))
        } else {
            None
        }
    } else if str_ends_with(k, "_us") || str_ends_with(k, "_US") {
        if v.is_number() {
            let mut t = fmt_number(v);
            t.push('\u{3bc}');
            t.push('s');
            proof {
                assert(t@ =~= number_text(v@) + seq!['\u{3bc}', 's']);
            }
            Some((strip_matched(k, "_us", "_US"), t))
        } else {
            None
        }
    } else if str_ends_with(k, "_ms") || str_ends_with(k, "_MS") {
        let text = match v {
            Value::Int(n) => fmt_ms_i64(*n),
            Value::UInt(n) => fmt_ms_u64(*n),
            Value::Frac(s) => fmt_ms_frac(s.as_str()),
            _ => {
                return None;
            },
        };
        Some((strip_matched(k, "_ms", "_MS"), text))
    } else if str_ends_with(k, "_s") || str_ends_with(k, "_S") {
        if v.is_number() {
            Some((strip_matched(k, "_s", "_S"), number_with_unit(v, "s")))
        } else {
            None
        }
    } else if str_ends_with(k, "_secret") || str_ends_with(k, "_SECRET") {
        Some((strip_matched(k, "_secret", "_SECRET"), "***".to_owned()))
    } else {
        None
    }
}

} // verus!
