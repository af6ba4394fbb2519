//! Canonical key ordering: comparison of strings as sequences of UTF-16
//! code units, the ordering JSON canonicalization uses.  It differs from
//! code-point order only where surrogate-encoded characters meet the top
//! of the basic plane, but that difference is contractual.

use vstd::prelude::*;

verus! {

/// The UTF-16 code units of one character: the character itself below
/// 0x10000, a surrogate pair above.
pub open spec fn char_utf16(c: char) -> Seq<u16> {
    if (c as int) < 0x10000 {
        seq![c as u16]
    } else {
        let off = c as int - 0x10000;
        seq![(0xD800 + off / 0x400) as u16, (0xDC00 + off % 0x400) as u16]
    }
}

/// The UTF-16 code units of a character sequence.
pub open spec fn utf16(s: Seq<char>) -> Seq<u16>
    decreases s.len(),
{
    if s.len() == 0 {
        Seq::empty()
    } else {
        char_utf16(s[0]) + utf16(s.subrange(1, s.len() as int))
    }
}

/// Strict lexicographic order on code-unit sequences.
pub open spec fn u16s_lt(a: Seq<u16>, b: Seq<u16>) -> bool
    decreases a.len(),
{
    if b.len() == 0 {
        false
    } else if a.len() == 0 {
        true
    } else if a[0] < b[0] {
        true
    } else if a[0] > b[0] {
        false
    } else {
        u16s_lt(a.subrange(1, a.len() as int), b.subrange(1, b.len() as int))
    }
}

/// Strict canonical order on keys: UTF-16 code-unit comparison.
pub open spec fn key_lt(a: Seq<char>, b: Seq<char>) -> bool {
    u16s_lt(utf16(a), utf16(b))
}

proof fn lemma_utf16_push(s: Seq<char>, c: char)
    ensures
        utf16(s.push(c)) == utf16(s) + char_utf16(c),
    decreases s.len(),
{
    let p = s.push(c);
    if s.len() == 0 {
        assert(p.subrange(1, p.len() as int) =~= Seq::<char>::empty());
        assert(p[0] == c);
        assert(utf16(p) == char_utf16(c) + utf16(Seq::<char>::empty()));
        assert(utf16(p) =~= utf16(s) + char_utf16(c));
    } else {
        assert(p.subrange(1, p.len() as int) =~= s.subrange(1, s.len() as int).push(c));
        lemma_utf16_push(s.subrange(1, s.len() as int), c);
        assert(utf16(p) =~= utf16(s) + char_utf16(c));
    }
}

/// The code units of a string, in order.
fn utf16_units(s: &str) -> (r: Vec<u16>)
    ensures
        r@ == utf16(s@),
{
    let n = s.unicode_len();
    let mut out: Vec<u16> = Vec::new();
    let mut i: usize = 0;
    while i < n
        invariant
            n == s@.len(),
            0 <= i <= n,
            out@ == utf16(s@.subrange(0, i as int)),
        decreases n - i,
    {
        let c = s.get_char(i);
        let c32 = c as u32;
        if c32 < 0x10000 {
            out.push(c32 as u16);
            proof {
                assert(out@ =~= utf16(s@.subrange(0, i as int)) + char_utf16(c));
            }
        } else {
            let off = c32 - 0x10000;
            out.push(0xD800 + (off / 0x400) as u16);
            out.push(0xDC00 + (off % 0x400) as u16);
            proof {
                assert(out@ =~= utf16(s@.subrange(0, i as int)) + char_utf16(c));
            }
        }
        proof {
            assert(s@.subrange(0, i + 1) =~= s@.subrange(0, i as int).push(s@[i as int]));
            lemma_utf16_push(s@.subrange(0, i as int), s@[i as int]);
        }
        i = i + 1;
    }
    proof {
        assert(s@.subrange(0, n as int) =~= s@);
    }
    out
}

proof fn lemma_u16s_lt_at(a: Seq<u16>, b: Seq<u16>, i: int)
    requires
        0 <= i < a.len(),
        i < b.len(),
        forall|k: int| 0 <= k < i ==> a[k] == b[k],
        a[i] != b[i],
    ensures
        u16s_lt(a, b) == (a[i] < b[i]),
    decreases i,
{
    if i > 0 {
        let ta = a.subrange(1, a.len() as int);
        let tb = b.subrange(1, b.len() as int);
        assert(forall|k: int| 0 <= k < i - 1 ==> ta[k] == a[k + 1] && tb[k] == b[k + 1]);
        lemma_u16s_lt_at(ta, tb, i - 1);
    }
}

proof fn lemma_u16s_lt_prefix(a: Seq<u16>, b: Seq<u16>)
    requires
        forall|k: int| 0 <= k < a.len() && k < b.len() ==> a[k] == b[k],
    ensures
        u16s_lt(a, b) == (a.len() < b.len()),
    decreases a.len(),
{
    if a.len() > 0 && b.len() > 0 {
        let ta = a.subrange(1, a.len() as int);
        let tb = b.subrange(1, b.len() as int);
        assert(forall|k: int|
            0 <= k < ta.len() && k < tb.len() ==> ta[k] == a[k + 1] && tb[k] == b[k + 1]);
        lemma_u16s_lt_prefix(ta, tb);
    }
}

/// Strict canonical order on string keys.
pub fn str_key_lt(a: &str, b: &str) -> (r: bool)
    ensures
        r == key_lt(a@, b@),
{
    let ua = utf16_units(a);
    let ub = utf16_units(b);
    let na = ua.len();
    let nb = ub.len();
    let m = if na < nb {
        na
    } else {
        nb
    };
    let mut i: usize = 0;
    while i < m
        invariant
            na == ua@.len(),
            nb == ub@.len(),
            m == if na < nb {
                na
            } else {
                nb
            },
            0 <= i <= m,
            ua@ == utf16(a@),
            ub@ == utf16(b@),
            forall|k: int| 0 <= k < i ==> ua@[k] == ub@[k],
        decreases m - i,
    {
        let x = ua[i];
        let y = ub[i];
        if x != y {
            proof {
                lemma_u16s_lt_at(ua@, ub@, i as int);
            }
            return x < y;
        }
        i = i + 1;
    }
    proof {
        lemma_u16s_lt_prefix(ua@, ub@);
    }
    na < nb
}

} // verus!
