//! Small string helpers shared by the formatters and renderers: pushing
//! single characters, suffix tests, stripping, and character classes.

use vstd::prelude::*;

verus! {

/// Relies on `String::push`: appends the given character to the end of the
/// string, and does nothing else.
pub assume_specification[ String::push ](s: &mut String, c: char)
    ensures
        final(s)@ == old(s)@.push(c),
;

/// A one-character string.
pub fn char_string(c: char) -> (r: String)
    ensures
        r@ =~= seq![c],
{
    let mut s = String::new();
    s.push(c);
    s
}

/// `suf` is a suffix of `s`.
pub open spec fn ends_with(s: Seq<char>, suf: Seq<char>) -> bool {
    suf.len() <= s.len() && s.subrange((s.len() - suf.len()) as int, s.len() as int) == suf
}

/// Suffix test over characters.
pub fn str_ends_with(s: &str, suf: &str) -> (r: bool)
    ensures
        r == ends_with(s@, suf@),
{
    let sn = s.unicode_len();
    let sufn = suf.unicode_len();
    if sufn > sn {
        return false;
    }
    let base = sn - sufn;
    let mut i: usize = 0;
    while i < sufn
        invariant
            sn == s@.len(),
            sufn == suf@.len(),
            sufn <= sn,
            base == sn - sufn,
            0 <= i <= sufn,
            forall|k: int| 0 <= k < i ==> s@[base + k] == suf@[k],
        decreases sufn - i,
    {
        if s.get_char(base + i) != suf.get_char(i) {
            assert(s@[base + i] != suf@[i as int]);
            assert(s@.subrange(base as int, sn as int)[i as int] != suf@[i as int]);
            return false;
        }
        i = i + 1;
    }
    proof {
        assert(s@.subrange(base as int, sn as int) =~= suf@);
    }
    true
}

/// `s` without its last `n` characters.
pub fn strip_last_chars(s: &str, n: usize) -> (r: String)
    requires
        n <= s@.len(),
    ensures
        r@ == s@.subrange(0, s@.len() - n),
{
    let sn = s.unicode_len();
    let head = s.substring_char(0, sn - n);
    head.to_owned()
}

/// ASCII decimal digits.
pub open spec fn is_ascii_digit(c: char) -> bool {
    '0' <= c && c <= '9'
}

/// Digit test in executable code.
pub fn char_is_digit(c: char) -> (r: bool)
    ensures
        r == is_ascii_digit(c),
{
    '0' <= c && c <= '9'
}

/// The ASCII uppercase counterpart of a character: `a`..`z` map to
/// `A`..`Z`, everything else is unchanged.
pub open spec fn spec_to_ascii_upper(c: char) -> char {
    if c == 'a' {
        'A'
    } else if c == 'b' {
        'B'
    } else if c == 'c' {
        'C'
    } else if c == 'd' {
        'D'
    } else if c == 'e' {
        'E'
    } else if c == 'f' {
        'F'
    } else if c == 'g' {
        'G'
    } else if c == 'h' {
        'H'
    } else if c == 'i' {
        'I'
    } else if c == 'j' {
        'J'
    } else if c == 'k' {
        'K'
    } else if c == 'l' {
        'L'
    } else if c == 'm' {
        'M'
    } else if c == 'n' {
        'N'
    } else if c == 'o' {
        'O'
    } else if c == 'p' {
        'P'
    } else if c == 'q' {
        'Q'
    } else if c == 'r' {
        'R'
    } else if c == 's' {
        'S'
    } else if c == 't' {
        'T'
    } else if c == 'u' {
        'U'
    } else if c == 'v' {
        'V'
    } else if c == 'w' {
        'W'
    } else if c == 'x' {
        'X'
    } else if c == 'y' {
        'Y'
    } else if c == 'z' {
        'Z'
    } else {
        c
    }
}

/// ASCII uppercasing of one character.
pub fn to_ascii_upper(c: char) -> (r: char)
    ensures
        r == spec_to_ascii_upper(c),
{
    match c {
        'a' => 'A',
        'b' => 'B',
        'c' => 'C',
        'd' => 'D',
        'e' => 'E',
        'f' => 'F',
        'g' => 'G',
        'h' => 'H',
        'i' => 'I',
        'j' => 'J',
        'k' => 'K',
        'l' => 'L',
        'm' => 'M',
        'n' => 'N',
        'o' => 'O',
        'p' => 'P',
        'q' => 'Q',
        'r' => 'R',
        's' => 'S',
        't' => 'T',
        'u' => 'U',
        'v' => 'V',
        'w' => 'W',
        'x' => 'X',
        'y' => 'Y',
        'z' => 'Z',
        _ => c,
    }
}

/// `n` spaces.
pub open spec fn spaces(n: nat) -> Seq<char>
    decreases n,
{
    if n == 0 {
        Seq::empty()
    } else {
        spaces((n - 1) as nat).push(' ')
    }
}

/// Space runs concatenate.
pub proof fn lemma_spaces_add(a: nat, b: nat)
    ensures
        spaces(a + b) == spaces(a) + spaces(b),
    decreases b,
{
    if b == 0 {
        assert(spaces(a + 0) =~= spaces(a) + spaces(0));
    } else {
        lemma_spaces_add(a, (b - 1) as nat);
        assert(spaces(a + b) =~= spaces(a) + spaces(b));
    }
}

/// All characters are ASCII digits.
pub open spec fn digits_all(s: Seq<char>) -> bool {
    forall|k: int| 0 <= k < s.len() ==> is_ascii_digit(#[trigger] s[k])
}

/// Digit test over a whole string.
pub fn str_digits_all(s: &str) -> (r: bool)
    ensures
        r == digits_all(s@),
{
    let n = s.unicode_len();
    let mut i: usize = 0;
    while i < n
        invariant
            n == s@.len(),
            0 <= i <= n,
            forall|k: int| 0 <= k < i ==> is_ascii_digit(#[trigger] s@[k]),
        decreases n - i,
    {
        if !char_is_digit(s.get_char(i)) {
            return false;
        }
        i = i + 1;
    }
    true
}

/// Index of the first `.`, or `-1`.
pub open spec fn dot_index(s: Seq<char>) -> int
    decreases s.len(),
{
    if s.len() == 0 {
        -1
    } else if s[0] == '.' {
        0
    } else {
        let t = dot_index(s.subrange(1, s.len() as int));
        if t == -1 {
            -1
        } else {
            t + 1
        }
    }
}

proof fn lemma_dot_index_found(s: Seq<char>, i: int)
    requires
        0 <= i < s.len(),
        forall|k: int| 0 <= k < i ==> s[k] != '.',
        s[i] == '.',
    ensures
        dot_index(s) == i,
    decreases i,
{
    if i > 0 {
        let tail = s.subrange(1, s.len() as int);
        assert(forall|k: int| 0 <= k < i - 1 ==> tail[k] == s[k + 1] && tail[k] != '.');
        lemma_dot_index_found(tail, i - 1);
    }
}

proof fn lemma_dot_index_none(s: Seq<char>)
    requires
        forall|k: int| 0 <= k < s.len() ==> s[k] != '.',
    ensures
        dot_index(s) == -1,
    decreases s.len(),
{
    if s.len() > 0 {
        let tail = s.subrange(1, s.len() as int);
        assert(forall|k: int| 0 <= k < tail.len() ==> tail[k] == s[k + 1] && tail[k] != '.');
        lemma_dot_index_none(tail);
    }
}

/// Position of the first `.` of a string.
pub fn find_dot(s: &str) -> (r: Option<usize>)
    ensures
        match r {
            Some(i) => dot_index(s@) == i && 0 <= i < s@.len(),
            None => dot_index(s@) == -1,
        },
{
    let n = s.unicode_len();
    let mut i: usize = 0;
    while i < n
        invariant
            n == s@.len(),
            0 <= i <= n,
            forall|k: int| 0 <= k < i ==> s@[k] != '.',
        decreases n - i,
    {
        if s.get_char(i) == '.' {
            proof {
                lemma_dot_index_found(s@, i as int);
            }
            return Some(i);
        }
        i = i + 1;
    }
    proof {
        lemma_dot_index_none(s@);
    }
    None
}

/// Index of the last `_`, or `-1`.
pub open spec fn last_underscore(s: Seq<char>) -> int
    decreases s.len(),
{
    if s.len() == 0 {
        -1
    } else if s[s.len() - 1] == '_' {
        s.len() - 1
    } else {
        last_underscore(s.subrange(0, s.len() - 1))
    }
}

proof fn lemma_last_underscore_found(s: Seq<char>, p: int)
    requires
        0 <= p < s.len(),
        s[p] == '_',
        forall|k: int| p < k < s.len() ==> s[k] != '_',
    ensures
        last_underscore(s) == p,
    decreases s.len(),
{
    if p < s.len() - 1 {
        let head = s.subrange(0, s.len() - 1);
        assert(forall|k: int| 0 <= k < head.len() ==> head[k] == s[k]);
        lemma_last_underscore_found(head, p);
    }
}

proof fn lemma_last_underscore_none(s: Seq<char>)
    requires
        forall|k: int| 0 <= k < s.len() ==> s[k] != '_',
    ensures
        last_underscore(s) == -1,
    decreases s.len(),
{
    if s.len() > 0 {
        let head = s.subrange(0, s.len() - 1);
        assert(forall|k: int| 0 <= k < head.len() ==> head[k] == s[k]);
        lemma_last_underscore_none(head);
    }
}

/// Position of the last `_` of a string.
pub fn find_last_underscore(s: &str) -> (r: Option<usize>)
    ensures
        match r {
            Some(p) => last_underscore(s@) == p && 0 <= p < s@.len(),
            None => last_underscore(s@) == -1,
        },
{
    let n = s.unicode_len();
    let mut j: usize = n;
    while j > 0
        invariant
            n == s@.len(),
            0 <= j <= n,
            forall|k: int| j <= k < n ==> s@[k] != '_',
        decreases j,
    {
        if s.get_char(j - 1) == '_' {
            proof {
                lemma_last_underscore_found(s@, j - 1);
            }
            return Some(j - 1);
        }
        j = j - 1;
    }
    proof {
        lemma_last_underscore_none(s@);
    }
    None
}

/// The sequence with its leading `0` characters removed; possibly empty.
pub open spec fn strip_leading_zeros(s: Seq<char>) -> Seq<char>
    decreases s.len(),
{
    if s.len() > 0 && s[0] == '0' {
        strip_leading_zeros(s.subrange(1, s.len() as int))
    } else {
        s
    }
}

proof fn lemma_strip_leading_zeros(s: Seq<char>, z: int)
    requires
        0 <= z <= s.len(),
        forall|k: int| 0 <= k < z ==> s[k] == '0',
        z < s.len() ==> s[z] != '0',
    ensures
        strip_leading_zeros(s) == s.subrange(z, s.len() as int),
    decreases z,
{
    if z == 0 {
        assert(s.subrange(0, s.len() as int) =~= s);
    } else {
        let tail = s.subrange(1, s.len() as int);
        assert(forall|k: int| 0 <= k < tail.len() ==> tail[k] == s[k + 1]);
        lemma_strip_leading_zeros(tail, z - 1);
        assert(tail.subrange(z - 1, tail.len() as int) =~= s.subrange(z, s.len() as int));
    }
}

/// Number of leading `0` characters of a string.
pub fn count_leading_zeros(s: &str) -> (r: usize)
    ensures
        r <= s@.len(),
        strip_leading_zeros(s@) == s@.subrange(r as int, s@.len() as int),
{
    let n = s.unicode_len();
    let mut i: usize = 0;
    while i < n
        invariant
            n == s@.len(),
            0 <= i <= n,
            forall|k: int| 0 <= k < i ==> s@[k] == '0',
        decreases n - i,
    {
        if s.get_char(i) != '0' {
            proof {
                lemma_strip_leading_zeros(s@, i as int);
            }
            return i;
        }
        i = i + 1;
    }
    proof {
        lemma_strip_leading_zeros(s@, n as int);
    }
    n
}

/// The sequence with trailing `0` characters removed, but at least one
/// character kept.
pub open spec fn trim_trailing_zeros_keep1(s: Seq<char>) -> Seq<char>
    decreases s.len(),
{
    if s.len() > 1 && s[s.len() - 1] == '0' {
        trim_trailing_zeros_keep1(s.subrange(0, s.len() - 1))
    } else {
        s
    }
}

proof fn lemma_trim_trailing_zeros(s: Seq<char>, t: int)
    requires
        1 <= t <= s.len(),
        forall|k: int| t <= k < s.len() ==> s[k] == '0',
        t > 1 ==> s[t - 1] != '0',
    ensures
        trim_trailing_zeros_keep1(s) == s.subrange(0, t),
    decreases s.len(),
{
    if t == s.len() {
        assert(s.subrange(0, s.len() as int) =~= s);
    } else {
        let head = s.subrange(0, s.len() - 1);
        assert(forall|k: int| 0 <= k < head.len() ==> head[k] == s[k]);
        lemma_trim_trailing_zeros(head, t);
        assert(head.subrange(0, t) =~= s.subrange(0, t));
    }
}

/// Length after trimming trailing zeros, one character always kept.
pub fn trimmed_zeros_len(s: &str) -> (r: usize)
    requires
        s@.len() >= 1,
    ensures
        1 <= r <= s@.len(),
        trim_trailing_zeros_keep1(s@) == s@.subrange(0, r as int),
{
    let n = s.unicode_len();
    let mut j: usize = n;
    while j > 1
        invariant
            n == s@.len(),
            1 <= j <= n,
            forall|k: int| j <= k < n ==> s@[k] == '0',
        decreases j,
    {
        if s.get_char(j - 1) != '0' {
            proof {
                lemma_trim_trailing_zeros(s@, j as int);
            }
            return j;
        }
        j = j - 1;
    }
    proof {
        lemma_trim_trailing_zeros(s@, 1);
    }
    1
}

/// Pointwise ASCII uppercasing of a character sequence.
pub open spec fn seq_to_ascii_upper(s: Seq<char>) -> Seq<char> {
    s.map_values(|c: char| spec_to_ascii_upper(c))
}

/// ASCII uppercasing of a string.
pub fn str_to_ascii_upper(s: &str) -> (r: String)
    ensures
        r@ == seq_to_ascii_upper(s@),
{
    let n = s.unicode_len();
    let mut out = String::new();
    let mut i: usize = 0;
    while i < n
        invariant
            n == s@.len(),
            0 <= i <= n,
            out@ =~= s@.subrange(0, i as int).map_values(|c: char| spec_to_ascii_upper(c)),
        decreases n - i,
    {
        out.push(to_ascii_upper(s.get_char(i)));
        proof {
            assert(s@.subrange(0, i + 1 as int) =~= s@.subrange(0, i as int).push(s@[i as int]));
            assert(s@.subrange(0, i + 1 as int).map_values(|c: char| spec_to_ascii_upper(c))
                =~= s@.subrange(0, i as int).map_values(|c: char| spec_to_ascii_upper(c)).push(
                spec_to_ascii_upper(s@[i as int]),
            ));
        }
        i = i + 1;
    }
    proof {
        assert(s@.subrange(0, n as int) =~= s@);
    }
    out
}

} // verus!
