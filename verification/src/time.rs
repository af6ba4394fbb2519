//! RFC 3339 rendering of epoch timestamps.  The calendar arithmetic is
//! chrono's; everything around the call is verified.

use vstd::prelude::*;

use crate::numfmt::dec_int;
use crate::numfmt::fmt_i64;

verus! {

/// The RFC 3339 UTC text, millisecond precision and `Z` suffix, of the
/// instant `secs` seconds plus `nanos` nanoseconds after the Unix epoch.
pub uninterp spec fn rfc3339_text(secs: int, nanos: int) -> Seq<char>;

/// First epoch second on chrono's calendar (year -262143).
pub const MIN_EPOCH_SECS: i64 = -8334601228800;

/// Last epoch second on chrono's calendar (year 262142).
pub const MAX_EPOCH_SECS: i64 = 8210266876799;

/// Relies on chrono's `DateTime::from_timestamp` and
/// `DateTime::to_rfc3339_opts(SecondsFormat::Millis, true)`: the former
/// returns `Some` exactly when the seconds fall on chrono's calendar
/// (years -262143..=262142, i.e. `MIN_EPOCH_SECS..=MAX_EPOCH_SECS`, the
/// nanoseconds being below one billion), and the latter renders the
/// instant as RFC 3339 UTC text with millisecond precision and a `Z`
/// suffix, a function of the instant alone.
#[verifier::external_body]
fn rfc3339_utc(secs: i64, nanos: u32) -> (r: Option<String>)
    requires
        nanos < 1_000_000_000,
    ensures
        r is Some <==> MIN_EPOCH_SECS <= secs <= MAX_EPOCH_SECS,
        r matches Some(s) ==> s@ == rfc3339_text(secs as int, nanos as int),
{
    match chrono::DateTime::from_timestamp(secs, nanos) {
        Some(dt) => Some(dt.to_rfc3339_opts(chrono::SecondsFormat::Millis, true)),
        None => None,
    }
}

/// RFC 3339 text of a millisecond epoch; values beyond the calendar fall
/// back to the plain decimal of the input.
pub open spec fn epoch_ms_text(ms: int) -> Seq<char> {
    let secs = ms / 1000;
    let nanos = (ms % 1000) * 1000000;
    if MIN_EPOCH_SECS <= secs <= MAX_EPOCH_SECS {
        rfc3339_text(secs, nanos)
    } else {
        dec_int(ms)
    }
}

/// RFC 3339 text of a second epoch; values beyond the calendar fall back
/// to the plain decimal of the input.
pub open spec fn epoch_s_text(s: int) -> Seq<char> {
    if MIN_EPOCH_SECS <= s <= MAX_EPOCH_SECS {
        rfc3339_text(s, 0)
    } else {
        dec_int(s)
    }
}

/// RFC 3339 text of a nanosecond epoch, at millisecond precision.
pub open spec fn epoch_ns_text(ns: int) -> Seq<char> {
    epoch_ms_text(ns / 1000000)
}

/// Floor division and remainder by a positive constant.
fn div_floor_i64(n: i64, d: i64) -> (r: (i64, i64))
    requires
        1 < d <= 1000000,
    ensures
        r.0 as int == (n as int) / (d as int),
        r.1 as int == (n as int) % (d as int),
{
    if n >= 0 {
        let q = (n as u64) / (d as u64);
        let rem = (n as u64) % (d as u64);
        ((q as i64), (rem as i64))
    } else {
        let a = crate::numfmt::abs_u64(n);
        let qa = a / (d as u64);
        let ra = a % (d as u64);
        proof {
            vstd::arithmetic::div_mod::lemma_fundamental_div_mod(a as int, d as int);
            assert(qa as int == (a as int) / (d as int));
            assert(a as int == (d as int) * (qa as int) + (ra as int));
            assert(2 * (qa as int) <= (d as int) * (qa as int)) by (nonlinear_arith)
                requires
                    d >= 2,
                    qa >= 0,
            ;
            assert(qa as int <= i64::MAX as int);
        }
        if ra == 0 {
            proof {
                assert((n as int) == (-(qa as int)) * (d as int) + 0) by (nonlinear_arith)
                    requires
                        (n as int) == -(a as int),
                        a as int == (d as int) * (qa as int),
                ;
                vstd::arithmetic::div_mod::lemma_fundamental_div_mod_converse(
                    n as int,
                    d as int,
                    -(qa as int),
                    0,
                );
            }
            (-(qa as i64), 0)
        } else {
            proof {
                assert((n as int) == (-(qa as int) - 1) * (d as int) + ((d as int) - (
                ra as int))) by (nonlinear_arith)
                    requires
                        (n as int) == -(a as int),
                        a as int == (d as int) * (qa as int) + (ra as int),
                ;
                vstd::arithmetic::div_mod::lemma_fundamental_div_mod_converse(
                    n as int,
                    d as int,
                    -(qa as int) - 1,
                    d as int - ra as int,
                );
            }
            (-(qa as i64) - 1, d - (ra as i64))
        }
    }
}

/// Render a signed millisecond epoch as RFC 3339 UTC text.
pub fn format_rfc3339_ms(ms: i64) -> (r: String)
    ensures
        r@ == epoch_ms_text(ms as int),
{
    let (secs, rem) = div_floor_i64(ms, 1000);
    let nanos: u32 = (rem as u32) * 1_000_000;
    match rfc3339_utc(secs, nanos) {
        Some(s) => s,
        None => fmt_i64(ms),
    }
}

/// Render a signed second epoch as RFC 3339 UTC text.
pub fn format_rfc3339_s(s: i64) -> (r: String)
    ensures
        r@ == epoch_s_text(s as int),
{
    match rfc3339_utc(s, 0) {
        Some(text) => text,
        None => fmt_i64(s),
    }
}

/// Render a signed nanosecond epoch as RFC 3339 UTC text at millisecond
/// precision.
pub fn format_rfc3339_ns(ns: i64) -> (r: String)
    ensures
        r@ == epoch_ns_text(ns as int),
{
    let (ms, _) = div_floor_i64(ns, 1000000);
    format_rfc3339_ms(ms)
}

} // verus!
