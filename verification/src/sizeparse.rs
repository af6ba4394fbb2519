//! Parsing of human-readable size strings into byte counts: a bare
//! decimal number, or one followed by a unit letter `B`/`K`/`M`/`G`/`T`
//! (case-insensitive, binary multiples), with surrounding whitespace
//! ignored.  Fractions are exact decimals; digits beyond the nineteenth
//! fractional place cannot change the result and are ignored.

use vstd::prelude::*;

use crate::strutil::digits_all;
use crate::strutil::dot_index;
use crate::strutil::find_dot;
use crate::strutil::is_ascii_digit;
use crate::strutil::char_is_digit;
use crate::strutil::str_digits_all;

verus! {

/// The characters `str::trim` removes: Unicode whitespace.
pub open spec fn is_unicode_ws(c: char) -> bool {
    ||| c == ' '
    ||| c == '\t'
    ||| c == '\n'
    ||| c == '\u{b}'
    ||| c == '\u{c}'
    ||| c == '\r'
    ||| c == '\u{85}'
    ||| c == '\u{a0}'
    ||| c == '\u{1680}'
    ||| ('\u{2000}' <= c && c <= '\u{200a}')
    ||| c == '\u{2028}'
    ||| c == '\u{2029}'
    ||| c == '\u{202f}'
    ||| c == '\u{205f}'
    ||| c == '\u{3000}'
}

fn char_is_ws(c: char) -> (r: bool)
    ensures
        r == is_unicode_ws(c),
{
    c == ' ' || c == '\t' || c == '\n' || c == '\u{b}' || c == '\u{c}' || c == '\r' || c
        == '\u{85}' || c == '\u{a0}' || c == '\u{1680}' || ('\u{2000}' <= c && c <= '\u{200a}')
        || c == '\u{2028}' || c == '\u{2029}' || c == '\u{202f}' || c == '\u{205f}' || c
        == '\u{3000}'
}

/// The sequence without leading whitespace.
pub open spec fn trim_start_ws(s: Seq<char>) -> Seq<char>
    decreases s.len(),
{
    if s.len() > 0 && is_unicode_ws(s[0]) {
        trim_start_ws(s.subrange(1, s.len() as int))
    } else {
        s
    }
}

/// The sequence without trailing whitespace.
pub open spec fn trim_end_ws(s: Seq<char>) -> Seq<char>
    decreases s.len(),
{
    if s.len() > 0 && is_unicode_ws(s[s.len() - 1]) {
        trim_end_ws(s.subrange(0, s.len() - 1))
    } else {
        s
    }
}

proof fn lemma_trim_start_ws(s: Seq<char>, a: int)
    requires
        0 <= a <= s.len(),
        forall|k: int| 0 <= k < a ==> is_unicode_ws(#[trigger] s[k]),
        a < s.len() ==> !is_unicode_ws(s[a]),
    ensures
        trim_start_ws(s) == s.subrange(a, s.len() as int),
    decreases a,
{
    if a == 0 {
        assert(s.subrange(0, s.len() as int) =~= s);
    } else {
        let tail = s.subrange(1, s.len() as int);
        assert(forall|k: int| 0 <= k < tail.len() ==> tail[k] == s[k + 1]);
        lemma_trim_start_ws(tail, a - 1);
        assert(tail.subrange(a - 1, tail.len() as int) =~= s.subrange(a, s.len() as int));
    }
}

proof fn lemma_trim_end_ws(s: Seq<char>, b: int)
    requires
        0 <= b <= s.len(),
        forall|k: int| b <= k < s.len() ==> is_unicode_ws(#[trigger] s[k]),
        b > 0 ==> !is_unicode_ws(s[b - 1]),
    ensures
        trim_end_ws(s) == s.subrange(0, b),
    decreases s.len(),
{
    if b == s.len() {
        assert(s.subrange(0, s.len() as int) =~= s);
    } else {
        let head = s.subrange(0, s.len() - 1);
        assert(forall|k: int| 0 <= k < head.len() ==> head[k] == s[k]);
        lemma_trim_end_ws(head, b);
        assert(head.subrange(0, b) =~= s.subrange(0, b));
    }
}

/// The numeric value of a digit sequence; the empty sequence counts as
/// zero.
pub open spec fn digits_val(s: Seq<char>) -> int
    recommends
        digits_all(s),
    decreases s.len(),
{
    if s.len() == 0 {
        0
    } else {
        digits_val(s.subrange(0, s.len() - 1)) * 10 + (s[s.len() - 1] as int - '0' as int)
    }
}

/// Ten to the `n`.
pub open spec fn p10(n: nat) -> int
    decreases n,
{
    if n == 0 {
        1
    } else {
        10 * p10((n - 1) as nat)
    }
}

proof fn lemma_digits_val_nonneg(s: Seq<char>)
    requires
        digits_all(s),
    ensures
        digits_val(s) >= 0,
    decreases s.len(),
{
    if s.len() > 0 {
        let head = s.subrange(0, s.len() - 1);
        assert(forall|k: int| 0 <= k < head.len() ==> head[k] == s[k]);
        lemma_digits_val_nonneg(head);
        assert(is_ascii_digit(s[s.len() - 1]));
    }
}

proof fn lemma_digits_val_mono(s: Seq<char>, i: int)
    requires
        digits_all(s),
        0 <= i <= s.len(),
    ensures
        digits_val(s) >= digits_val(s.subrange(0, i)),
    decreases s.len(),
{
    if i == s.len() {
        assert(s.subrange(0, s.len() as int) =~= s);
    } else {
        let head = s.subrange(0, s.len() - 1);
        assert(forall|k: int| 0 <= k < head.len() ==> head[k] == s[k]);
        lemma_digits_val_mono(head, i);
        assert(head.subrange(0, i) =~= s.subrange(0, i));
        lemma_digits_val_nonneg(head);
        assert(is_ascii_digit(s[s.len() - 1]));
    }
}

proof fn lemma_digits_val_upper(s: Seq<char>)
    requires
        digits_all(s),
    ensures
        digits_val(s) < p10(s.len()),
    decreases s.len(),
{
    if s.len() > 0 {
        let head = s.subrange(0, s.len() - 1);
        assert(forall|k: int| 0 <= k < head.len() ==> head[k] == s[k]);
        lemma_digits_val_upper(head);
        assert(is_ascii_digit(s[s.len() - 1]));
    }
}

/// The byte multiplier of a unit letter; zero for everything else.
pub open spec fn unit_mult(c: char) -> int {
    if c == 'B' || c == 'b' {
        1
    } else if c == 'K' || c == 'k' {
        1024
    } else if c == 'M' || c == 'm' {
        1048576
    } else if c == 'G' || c == 'g' {
        1073741824
    } else if c == 'T' || c == 't' {
        1099511627776
    } else {
        0
    }
}

/// The parse of a size string: trim whitespace, read an optional trailing
/// unit letter, then an unsigned decimal number, possibly fractional; the
/// result is the number of bytes rounded down, `None` on malformed input
/// or a value beyond `u64`.
pub open spec fn parse_size_spec(s: Seq<char>) -> Option<int> {
    let t = trim_end_ws(trim_start_ws(s));
    if t.len() == 0 {
        None
    } else {
        let last = t[t.len() - 1];
        let mult = unit_mult(last);
        if mult != 0 {
            parse_number(t.subrange(0, t.len() - 1), mult)
        } else if is_ascii_digit(last) || last == '.' {
            parse_number(t, 1)
        } else {
            None
        }
    }
}

/// The parse of the numeric part against a byte multiplier.
pub open spec fn parse_number(num: Seq<char>, mult: int) -> Option<int> {
    if num.len() == 0 {
        None
    } else if digits_all(num) {
        let v = digits_val(num) * mult;
        if v > u64::MAX as int {
            None
        } else {
            Some(v)
        }
    } else {
        let d = dot_index(num);
        if d == -1 {
            None
        } else {
            let ip = num.subrange(0, d);
            let fp = num.subrange(d + 1, num.len() as int);
            if !digits_all(ip) || !digits_all(fp) || ip.len() + fp.len() == 0 {
                None
            } else {
                let m: nat = if fp.len() <= 19 {
                    fp.len()
                } else {
                    19
                };
                let v = digits_val(ip) * mult + (digits_val(fp.subrange(0, m as int)) * mult)
                    / p10(m);
                if v > u64::MAX as int {
                    None
                } else {
                    Some(v)
                }
            }
        }
    }
}

/// Parse the digits of `s` up to a `u64`-sized value; `None` when the
/// value exceeds `u64`.
fn parse_digits_u64(s: &str) -> (r: Option<u64>)
    requires
        digits_all(s@),
    ensures
        match r {
            Some(v) => v as int == digits_val(s@),
            None => digits_val(s@) > u64::MAX as int,
        },
{
    let n = s.unicode_len();
    let mut acc: u128 = 0;
    let mut i: usize = 0;
    while i < n
        invariant
            n == s@.len(),
            digits_all(s@),
            0 <= i <= n,
            acc as int == digits_val(s@.subrange(0, i as int)),
            acc <= u64::MAX as u128,
        decreases n - i,
    {
        let c = s.get_char(i);
        proof {
            assert(is_ascii_digit(s@[i as int]));
        }
        let d: u128 = ((c as u32) - ('0' as u32)) as u128;
        let acc2: u128 = acc * 10 + d;
        proof {
            assert(s@.subrange(0, i + 1) =~= s@.subrange(0, i as int).push(s@[i as int]));
            assert(s@.subrange(0, i + 1).subrange(0, i as int) =~= s@.subrange(0, i as int));
            assert(acc2 as int == digits_val(s@.subrange(0, i + 1)));
        }
        if acc2 > u64::MAX as u128 {
            proof {
                lemma_digits_val_mono(s@, i + 1);
            }
            return None;
        }
        acc = acc2;
        i = i + 1;
    }
    proof {
        assert(s@.subrange(0, n as int) =~= s@);
    }
    Some(acc as u64)
}

/// Parse the numeric part against a byte multiplier.
fn parse_number_exec(num: &str, mult: u64) -> (r: Option<u64>)
    requires
        1 <= mult <= 1099511627776,
    ensures
        match r {
            Some(v) => parse_number(num@, mult as int) == Some(v as int),
            None => parse_number(num@, mult as int) is None,
        },
{
    let n = num.unicode_len();
    if n == 0 {
        return None;
    }
    if str_digits_all(num) {
        match parse_digits_u64(num) {
            Some(v) => {
                proof {
                    assert((v as u128) * (mult as u128) <= 0xFFFF_FFFF_FFFF_FFFFu128
                        * 1099511627776u128) by (nonlinear_arith)
                        requires
                            v <= 0xFFFF_FFFF_FFFF_FFFFu64,
                            mult <= 1099511627776u64,
                    ;
                }
                let total: u128 = (v as u128) * (mult as u128);
                if total > u64::MAX as u128 {
                    None
                } else {
                    Some(total as u64)
                }
            },
            None => {
                proof {
                    lemma_digits_val_nonneg(num@);
                    assert(digits_val(num@) * mult >= digits_val(num@) * 1)
                        by (nonlinear_arith)
                        requires
                            digits_val(num@) >= 0,
                            mult >= 1,
                    ;
                }
                None
            },
        }
    } else {
        let d = match find_dot(num) {
            Some(d) => d,
            None => {
                return None;
            },
        };
        let ip = num.substring_char(0, d);
        let fp = num.substring_char(d + 1, n);
        proof {
            assert(ip@ =~= num@.subrange(0, d as int));
            assert(fp@ =~= num@.subrange(d + 1, num@.len() as int));
        }
        if !str_digits_all(ip) || !str_digits_all(fp) {
            return None;
        }
        let ipn = ip.unicode_len();
        let fpn = fp.unicode_len();
        if ipn + fpn == 0 {
            return None;
        }
        let m: usize = if fpn <= 19 {
            fpn
        } else {
            19
        };
        let fkept = fp.substring_char(0, m);
        proof {
            assert(fkept@ =~= fp@.subrange(0, m as int));
            assert(digits_all(fkept@));
        }
        let iv = match parse_digits_u64(ip) {
            Some(v) => v,
            None => {
                proof {
                    lemma_digits_val_nonneg(ip@);
                    lemma_digits_val_nonneg(fkept@);
                    lemma_p10_pos(m as nat);
                    assert(digits_val(ip@) * mult >= digits_val(ip@)) by (nonlinear_arith)
                        requires
                            digits_val(ip@) >= 0,
                            mult >= 1,
                    ;
                    assert((digits_val(fkept@) * mult) / p10(m as nat) >= 0)
                        by (nonlinear_arith)
                        requires
                            digits_val(fkept@) >= 0,
                            mult >= 1,
                            p10(m as nat) >= 1,
                    ;
                }
                return None;
            },
        };
        let fv = match parse_digits_u64(fkept) {
            Some(v) => v,
            None => {
                proof {
                    lemma_digits_val_upper(fkept@);
                    lemma_p10_le(m as nat, 19);
                    lemma_p10_18();
                    assert(false);
                }
                return None;
            },
        };
        let pm: u128 = pow10_u128(m);
        proof {
            lemma_digits_val_upper(fkept@);
            lemma_p10_le(m as nat, 19);
            lemma_p10_pos(m as nat);
            assert((iv as u128) * (mult as u128) <= 0xFFFF_FFFF_FFFF_FFFFu128
                * 1099511627776u128) by (nonlinear_arith)
                requires
                    iv <= 0xFFFF_FFFF_FFFF_FFFFu64,
                    mult <= 1099511627776u64,
            ;
            assert((fv as u128) * (mult as u128) <= 0xFFFF_FFFF_FFFF_FFFFu128
                * 1099511627776u128) by (nonlinear_arith)
                requires
                    fv <= 0xFFFF_FFFF_FFFF_FFFFu64,
                    mult <= 1099511627776u64,
            ;
        }
        let whole: u128 = (iv as u128) * (mult as u128);
        let fracpart: u128 = ((fv as u128) * (mult as u128)) / pm;
        let total: u128 = whole + fracpart;
        proof {
            assert(total as int == digits_val(ip@) * mult + (digits_val(
                fp@.subrange(0, m as int),
            ) * mult) / p10(m as nat));
        }
        if total > u64::MAX as u128 {
            None
        } else {
            Some(total as u64)
        }
    }
}

proof fn lemma_p10_pos(n: nat)
    ensures
        p10(n) >= 1,
    decreases n,
{
    if n > 0 {
        lemma_p10_pos((n - 1) as nat);
    }
}

proof fn lemma_p10_le(a: nat, b: nat)
    requires
        a <= b,
    ensures
        p10(a) <= p10(b),
    decreases b,
{
    if a < b {
        lemma_p10_le(a, (b - 1) as nat);
        lemma_p10_pos((b - 1) as nat);
    }
}

fn pow10_u128(m: usize) -> (r: u128)
    requires
        m <= 19,
    ensures
        r as int == p10(m as nat),
{
    let mut p: u128 = 1;
    let mut j: usize = 0;
    while j < m
        invariant
            0 <= j <= m,
            m <= 19,
            p as int == p10(j as nat),
            p <= 0x8AC7_2304_89E8_0000u128,
        decreases m - j,
    {
        proof {
            lemma_p10_le(j as nat, 18);
            lemma_p10_18();
        }
        p = p * 10;
        j = j + 1;
    }
    p
}

proof fn lemma_p10_18()
    ensures
        p10(18) == 1_000_000_000_000_000_000,
        p10(19) == 10_000_000_000_000_000_000,
{
    reveal_with_fuel(p10, 21);
}

/// Parse a human-readable size string into bytes.
///
/// Accepts a bare decimal number, or one followed by a unit letter
/// (`B`, `K`, `M`, `G`, `T`), case-insensitive, at binary multiples of
/// 1024; surrounding whitespace is trimmed.  Fractions round down;
/// fractional digits beyond the nineteenth are ignored.  Returns `None`
/// for malformed input and for values beyond `u64`.
pub fn parse_size(s: &str) -> (r: Option<u64>)
    ensures
        match r {
            Some(v) => parse_size_spec(s@) == Some(v as int),
            None => parse_size_spec(s@) is None,
        },
{
    let n = s.unicode_len();
    let mut a: usize = 0;
    while a < n && char_is_ws(s.get_char(a))
        invariant
            n == s@.len(),
            0 <= a <= n,
            forall|k: int| 0 <= k < a ==> is_unicode_ws(#[trigger] s@[k]),
        decreases n - a,
    {
        a = a + 1;
    }
    proof {
        lemma_trim_start_ws(s@, a as int);
    }
    if a == n {
        proof {
            assert(s@.subrange(n as int, n as int) =~= Seq::<char>::empty());
        }
        return None;
    }
    let mut b: usize = n;
    while b > a + 1 && char_is_ws(s.get_char(b - 1))
        invariant
            n == s@.len(),
            0 <= a < b <= n,
            !is_unicode_ws(s@[a as int]),
            forall|k: int| b <= k < n ==> is_unicode_ws(#[trigger] s@[k]),
        decreases b,
    {
        b = b - 1;
    }
    let t = s.substring_char(a, b);
    proof {
        let start = s@.subrange(a as int, n as int);
        assert(forall|k: int|
            b - a <= k < start.len() ==> #[trigger] start[k] == s@[k + a] && is_unicode_ws(
                start[k],
            ));
        if b > a + 1 {
            assert(!is_unicode_ws(start[b - a - 1]));
        } else {
            assert(!is_unicode_ws(start[0]));
        }
        lemma_trim_end_ws(start, b - a);
        assert(t@ =~= trim_end_ws(trim_start_ws(s@)));
    }
    let tn = b - a;
    let last = t.get_char(tn - 1);
    let mult: u64 = if last == 'B' || last == 'b' {
        1
    } else if last == 'K' || last == 'k' {
        1024
    } else if last == 'M' || last == 'm' {
        1048576
    } else if last == 'G' || last == 'g' {
        1073741824
    } else if last == 'T' || last == 't' {
        1099511627776
    } else {
        0
    };
    if mult != 0 {
        let numpart = t.substring_char(0, tn - 1);
        proof {
            assert(numpart@ =~= t@.subrange(0, t@.len() - 1));
        }
        parse_number_exec(numpart, mult)
    } else if char_is_digit(last) || last == '.' {
        parse_number_exec(t, 1)
    } else {
        None
    }
}

} // verus!
