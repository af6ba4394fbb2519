//! Decimal rendering of integers and the numeric formatters behind the
//! suffix rules: thousands grouping, human-readable byte sizes, cent
//! amounts and millisecond durations.

use vstd::prelude::*;

use crate::strutil::char_string;
use crate::strutil::digits_all;
use crate::strutil::dot_index;
use crate::strutil::find_dot;
use crate::strutil::count_leading_zeros;
use crate::strutil::str_digits_all;
use crate::strutil::strip_leading_zeros;
use crate::strutil::trim_trailing_zeros_keep1;
use crate::strutil::trimmed_zeros_len;

verus! {

/// The character for one decimal digit.
pub open spec fn spec_digit(d: int) -> char {
    if d == 0 {
        '0'
    } else if d == 1 {
        '1'
    } else if d == 2 {
        '2'
    } else if d == 3 {
        '3'
    } else if d == 4 {
        '4'
    } else if d == 5 {
        '5'
    } else if d == 6 {
        '6'
    } else if d == 7 {
        '7'
    } else if d == 8 {
        '8'
    } else {
        '9'
    }
}

/// Decimal text of a non-negative integer, no padding.
pub open spec fn dec_nat(n: int) -> Seq<char>
    recommends
        n >= 0,
    decreases n,
{
    if n < 10 {
        seq![spec_digit(n)]
    } else {
        dec_nat(n / 10).push(spec_digit(n % 10))
    }
}

/// Decimal text of an integer, `-` sign for negative values.
pub open spec fn dec_int(n: int) -> Seq<char> {
    if n < 0 {
        seq!['-'] + dec_nat(-n)
    } else {
        dec_nat(n)
    }
}

/// Two-digit zero-padded decimal text, for values below 100.
pub open spec fn dec_pad2(n: int) -> Seq<char>
    recommends
        0 <= n < 100,
{
    if n < 10 {
        seq!['0', spec_digit(n)]
    } else {
        dec_nat(n)
    }
}

/// Digit text with a `,` before every group of three digits counted from
/// the right.
pub open spec fn group_commas(s: Seq<char>) -> Seq<char>
    decreases s.len(),
{
    if s.len() <= 3 {
        s
    } else {
        group_commas(s.subrange(0, s.len() - 3)) + seq![','] + s.subrange(
            s.len() - 3,
            s.len() as int,
        )
    }
}

/// Rounding of `num / den` to the nearest integer, ties to the even
/// neighbour.
pub open spec fn round_half_even(num: int, den: int) -> int
    recommends
        num >= 0,
        den > 0,
{
    let q = num / den;
    let r = num % den;
    if 2 * r > den {
        q + 1
    } else if 2 * r == den {
        if q % 2 == 0 {
            q
        } else {
            q + 1
        }
    } else {
        q
    }
}

/// Magnitude scaled by `den` with one rounded decimal place, between sign
/// and unit.
pub open spec fn scaled_tenths_text(a: int, den: int) -> Seq<char>
    recommends
        a >= 0,
        den > 0,
{
    let t = round_half_even(10 * a, den);
    dec_nat(t / 10) + seq!['.', spec_digit(t % 10)]
}

/// Human-readable byte size: binary units `B`/`KB`/`MB`/`GB`/`TB` at 1024
/// steps, one decimal place from `KB` up, bare signed integer below 1024,
/// sign preserved.
pub open spec fn bytes_text(b: int) -> Seq<char> {
    let a = if b < 0 {
        -b
    } else {
        b
    };
    let sign: Seq<char> = if b < 0 {
        seq!['-']
    } else {
        Seq::empty()
    };
    if a < 1024 {
        dec_int(b) + "B"@
    } else if a < 1048576 {
        sign + scaled_tenths_text(a, 1024) + "KB"@
    } else if a < 1073741824 {
        sign + scaled_tenths_text(a, 1048576) + "MB"@
    } else if a < 1099511627776 {
        sign + scaled_tenths_text(a, 1073741824) + "GB"@
    } else {
        sign + scaled_tenths_text(a, 1099511627776) + "TB"@
    }
}

/// Millisecond duration of an integer count: seconds with up to three
/// decimals once the magnitude reaches 1000, trailing zeros trimmed but one
/// decimal digit kept; plain `<n>ms` below that.
pub open spec fn ms_int_text(n: int) -> Seq<char> {
    let a = if n < 0 {
        -n
    } else {
        n
    };
    if a < 1000 {
        dec_int(n) + "ms"@
    } else {
        let sign: Seq<char> = if n < 0 {
            seq!['-']
        } else {
            Seq::empty()
        };
        sign + dec_nat(a / 1000) + seq!['.'] + millis_decimals(a % 1000) + "s"@
    }
}

/// The decimal digits of a millisecond remainder below 1000: three digits
/// zero-padded, trailing zeros dropped, at least one digit kept.
pub open spec fn millis_decimals(r: int) -> Seq<char>
    recommends
        0 <= r < 1000,
{
    let d0 = spec_digit(r / 100);
    let d1 = spec_digit((r / 10) % 10);
    let d2 = spec_digit(r % 10);
    if r % 10 != 0 {
        seq![d0, d1, d2]
    } else if (r / 10) % 10 != 0 {
        seq![d0, d1]
    } else {
        seq![d0]
    }
}

/// The digit character of a value below ten.
pub fn digit_char(d: u64) -> (c: char)
    requires
        d < 10,
    ensures
        c == spec_digit(d as int),
{
    match d {
        0 => '0',
        1 => '1',
        2 => '2',
        3 => '3',
        4 => '4',
        5 => '5',
        6 => '6',
        7 => '7',
        8 => '8',
        _ => '9',
    }
}

/// Decimal rendering of an unsigned integer.
pub fn fmt_u64(n: u64) -> (r: String)
    ensures
        r@ == dec_nat(n as int),
    decreases n,
{
    if n < 10 {
        char_string(digit_char(n))
    } else {
        let mut s = fmt_u64(n / 10);
        s.push(digit_char(n % 10));
        s
    }
}

/// The magnitude of a signed integer.
pub fn abs_u64(n: i64) -> (r: u64)
    ensures
        r as int == if n < 0 {
            -(n as int)
        } else {
            n as int
        },
{
    if n < 0 {
        ((-(n + 1)) as u64) + 1
    } else {
        n as u64
    }
}

/// Decimal rendering of a signed integer.
pub fn fmt_i64(n: i64) -> (r: String)
    ensures
        r@ == dec_int(n as int),
{
    if n >= 0 {
        fmt_u64(n as u64)
    } else {
        let mut s = char_string('-');
        let tail = fmt_u64(abs_u64(n));
        s.append(tail.as_str());
        proof {
            assert(s@ =~= dec_int(n as int));
        }
        s
    }
}

/// Decimal rendering with a comma before every group of three digits
/// counted from the right.
pub fn format_with_commas(n: u64) -> (r: String)
    ensures
        r@ == group_commas(dec_nat(n as int)),
{
    let digits = fmt_u64(n);
    commas_of(digits.as_str())
}

fn commas_of(s: &str) -> (r: String)
    ensures
        r@ == group_commas(s@),
    decreases s@.len(),
{
    let n = s.unicode_len();
    if n <= 3 {
        s.to_owned()
    } else {
        let head = s.substring_char(0, n - 3);
        let tail = s.substring_char(n - 3, n);
        let mut r = commas_of(head);
        r.push(',');
        r.append(tail);
        proof {
            assert(r@ =~= group_commas(s@));
        }
        r
    }
}

/// Two-digit zero-padded rendering of a value below 100.
pub fn fmt_pad2(n: u64) -> (r: String)
    requires
        n < 100,
    ensures
        r@ == dec_pad2(n as int),
{
    if n < 10 {
        let mut s = char_string('0');
        s.push(digit_char(n));
        proof {
            assert(s@ =~= dec_pad2(n as int));
        }
        s
    } else {
        fmt_u64(n)
    }
}

/// One rounded decimal place of `a / den`, as `<int>.<tenth>`.
fn fmt_scaled_tenths(a: u64, den: u64) -> (r: String)
    requires
        den > 0,
        10 * (a as int) / (den as int) < 0x8000_0000_0000_0000,
    ensures
        r@ == scaled_tenths_text(a as int, den as int),
{
    let num: u128 = (a as u128) * 10;
    let d: u128 = den as u128;
    let q: u128 = num / d;
    let rem: u128 = num % d;
    let t: u128 = if 2 * rem > d {
        q + 1
    } else if 2 * rem == d {
        if q % 2 == 0 {
            q
        } else {
            q + 1
        }
    } else {
        q
    };
    proof {
        assert(t as int == round_half_even(10 * (a as int), den as int));
    }
    let whole: u64 = (t / 10) as u64;
    let tenth: u64 = (t % 10) as u64;
    let mut s = fmt_u64(whole);
    s.push('.');
    s.push(digit_char(tenth));
    proof {
        assert(s@ =~= scaled_tenths_text(a as int, den as int));
    }
    s
}

/// Human-readable byte size with binary units, sign preserved.
pub fn format_bytes_human(bytes: i64) -> (r: String)
    ensures
        r@ == bytes_text(bytes as int),
{
    let a = abs_u64(bytes);
    if a < 1024 {
        let mut s = fmt_i64(bytes);
        s.append("B");
        proof {
            assert(s@ =~= bytes_text(bytes as int));
        }
        return s;
    }
    let mut s = if bytes < 0 {
        char_string('-')
    } else {
        String::new()
    };
    if a < 1048576 {
        let part = fmt_scaled_tenths(a, 1024);
        s.append(part.as_str());
        s.append("KB");
    } else if a < 1073741824 {
        let part = fmt_scaled_tenths(a, 1048576);
        s.append(part.as_str());
        s.append("MB");
    } else if a < 1099511627776 {
        let part = fmt_scaled_tenths(a, 1073741824);
        s.append(part.as_str());
        s.append("GB");
    } else {
        let part = fmt_scaled_tenths(a, 1099511627776);
        s.append(part.as_str());
        s.append("TB");
    }
    proof {
        assert(s@ =~= bytes_text(bytes as int));
    }
    s
}

/// Millisecond duration of a signed integer count.
pub fn fmt_ms_i64(n: i64) -> (r: String)
    ensures
        r@ == ms_int_text(n as int),
{
    let a = abs_u64(n);
    if a < 1000 {
        let mut s = fmt_i64(n);
        s.append("ms");
        proof {
            assert(s@ =~= ms_int_text(n as int));
        }
        s
    } else {
        let mut s = if n < 0 {
            char_string('-')
        } else {
            String::new()
        };
        let whole = fmt_u64(a / 1000);
        s.append(whole.as_str());
        s.push('.');
        let rem = a % 1000;
        let d0 = digit_char(rem / 100);
        let d1 = digit_char((rem / 10) % 10);
        let d2 = digit_char(rem % 10);
        s.push(d0);
        if rem % 10 != 0 {
            s.push(d1);
            s.push(d2);
            proof {
                assert(millis_decimals(rem as int) =~= seq![d0, d1, d2]);
            }
        } else if (rem / 10) % 10 != 0 {
            s.push(d1);
            proof {
                assert(millis_decimals(rem as int) =~= seq![d0, d1]);
            }
        } else {
            proof {
                assert(millis_decimals(rem as int) =~= seq![d0]);
            }
        }
        s.push('s');
        proof {
            reveal_strlit("s");
            assert(s@ =~= ms_int_text(n as int));
        }
        s
    }
}

/// Millisecond duration of an unsigned integer count.
pub fn fmt_ms_u64(n: u64) -> (r: String)
    ensures
        r@ == ms_int_text(n as int),
{
    if n < 1000 {
        let mut s = fmt_u64(n);
        s.append("ms");
        proof {
            assert(s@ =~= ms_int_text(n as int));
        }
        s
    } else {
        let mut s = fmt_u64(n / 1000);
        s.push('.');
        let rem = n % 1000;
        let d0 = digit_char(rem / 100);
        let d1 = digit_char((rem / 10) % 10);
        let d2 = digit_char(rem % 10);
        s.push(d0);
        if rem % 10 != 0 {
            s.push(d1);
            s.push(d2);
            proof {
                assert(millis_decimals(rem as int) =~= seq![d0, d1, d2]);
            }
        } else if (rem / 10) % 10 != 0 {
            s.push(d1);
            proof {
                assert(millis_decimals(rem as int) =~= seq![d0, d1]);
            }
        } else {
            proof {
                assert(millis_decimals(rem as int) =~= seq![d0]);
            }
        }
        s.push('s');
        proof {
            reveal_strlit("s");
            assert(s@ =~= ms_int_text(n as int));
        }
        s
    }
}

/// The sign-free part of a fractional literal.
pub open spec fn frac_body(s: Seq<char>) -> Seq<char> {
    if s.len() > 0 && s[0] == '-' {
        s.subrange(1, s.len() as int)
    } else {
        s
    }
}

/// The literal carries a leading minus sign.
pub open spec fn frac_neg(s: Seq<char>) -> bool {
    s.len() > 0 && s[0] == '-'
}

/// The digits before the first dot of the literal's body.
pub open spec fn frac_ipart(body: Seq<char>) -> Seq<char> {
    let d = dot_index(body);
    if d == -1 {
        body
    } else {
        body.subrange(0, d)
    }
}

/// The digits after the first dot of the literal's body.
pub open spec fn frac_fpart(body: Seq<char>) -> Seq<char> {
    let d = dot_index(body);
    if d == -1 {
        Seq::empty()
    } else {
        body.subrange(d + 1, body.len() as int)
    }
}

/// The literal is a plain decimal: optional sign, digits, at most one dot,
/// at least one digit overall.
pub open spec fn frac_wf(s: Seq<char>) -> bool {
    let body = frac_body(s);
    &&& body.len() > 0
    &&& digits_all(frac_ipart(body))
    &&& digits_all(frac_fpart(body))
    &&& frac_ipart(body).len() + frac_fpart(body).len() > 0
}

/// The literal's magnitude reaches 1000: four or more significant integer
/// digits.
pub open spec fn frac_large(s: Seq<char>) -> bool {
    strip_leading_zeros(frac_ipart(frac_body(s))).len() >= 4
}

/// Millisecond duration of a fractional literal: a plain decimal of
/// magnitude 1000 or more has its point shifted three places and trailing
/// zeros trimmed (one decimal digit kept) and gets an `s` unit; everything
/// else keeps its spelling with an `ms` unit.
pub open spec fn ms_frac_text(s: Seq<char>) -> Seq<char> {
    if frac_wf(s) && frac_large(s) {
        let body = frac_body(s);
        let sig = strip_leading_zeros(frac_ipart(body));
        let k = sig.len() as int;
        let sign: Seq<char> = if frac_neg(s) {
            seq!['-']
        } else {
            Seq::empty()
        };
        let fracall = sig.subrange(k - 3, k) + frac_fpart(body);
        sign + sig.subrange(0, k - 3) + seq!['.'] + trim_trailing_zeros_keep1(fracall)
            + "s"@
    } else {
        s + "ms"@
    }
}

/// Millisecond duration of a fractional literal.
pub fn fmt_ms_frac(s: &str) -> (r: String)
    ensures
        r@ == ms_frac_text(s@),
{
    let n = s.unicode_len();
    let neg = n > 0 && s.get_char(0) == '-';
    let b0: usize = if neg {
        1
    } else {
        0
    };
    let body = s.substring_char(b0, n);
    proof {
        assert(body@ =~= frac_body(s@));
    }
    let bn = body.unicode_len();
    if bn == 0 {
        let mut out = s.to_owned();
        out.append("ms");
        return out;
    }
    let dot = find_dot(body);
    let iend: usize = match dot {
        Some(d) => d,
        None => bn,
    };
    let ipart = body.substring_char(0, iend);
    proof {
        assert(ipart@ =~= frac_ipart(body@));
    }
    let wf = if str_digits_all(ipart) {
        match dot {
            Some(d) => {
                let fpart = body.substring_char(d + 1, bn);
                proof {
                    assert(fpart@ =~= frac_fpart(body@));
                }
                str_digits_all(fpart) && iend + (bn - (d + 1)) > 0
            },
            None => iend > 0,
        }
    } else {
        false
    };
    if !wf {
        let mut out = s.to_owned();
        out.append("ms");
        return out;
    }
    let z = count_leading_zeros(ipart);
    let sig = ipart.substring_char(z, iend);
    proof {
        assert(sig@ =~= strip_leading_zeros(frac_ipart(frac_body(s@))));
    }
    let k = iend - z;
    if k < 4 {
        let mut out = s.to_owned();
        out.append("ms");
        return out;
    }
    let mut out = if neg {
        char_string('-')
    } else {
        String::new()
    };
    let whole = sig.substring_char(0, k - 3);
    out.append(whole);
    out.push('.');
    let mut fracall = sig.substring_char(k - 3, k).to_owned();
    match dot {
        Some(d) => {
            let fpart = body.substring_char(d + 1, bn);
            proof {
                assert(fpart@ =~= frac_fpart(body@));
            }
            fracall.append(fpart);
        },
        None => {
            proof {
                assert(frac_fpart(body@) =~= Seq::<char>::empty());
            }
        },
    }
    proof {
        assert(fracall@ =~= sig@.subrange(k - 3, k as int) + frac_fpart(body@));
    }
    let t = trimmed_zeros_len(fracall.as_str());
    let trimmed = fracall.as_str().substring_char(0, t);
    out.append(trimmed);
    out.push('s');
    proof {
        reveal_strlit("s");
        assert(out@ =~= ms_frac_text(s@));
    }
    out
}

} // verus!
