//! The laws the library promises across functions: redaction idempotence,
//! collision reversion visible in both structured encodings, strictness of
//! the sensitive-suffix spelling, and the shape guarantees of the compact
//! encoding.

use vstd::prelude::*;

use crate::classify::classify;
use crate::classify::display_key;
use crate::fields::collides;
use crate::fields::lemma_sort_entries_contains;
use crate::fields::sort_entries;
use crate::fields::object_entries;
use crate::fields::resolved_entries;
use crate::json::json_escape_char;
use crate::json::json_escaped;
use crate::json::json_items;
use crate::json::json_members;
use crate::json::json_string;
use crate::json::json_text;
use crate::numfmt::dec_int;
use crate::numfmt::dec_nat;
use crate::redact::lemma_redact_fields;
use crate::redact::lemma_redact_idempotent;
use crate::redact::redact;
use crate::redact::redact_fields;
use crate::redact::redact_seq;
use crate::redact::secret_key;
use crate::strutil::ends_with;
use crate::value::SpecValue;

verus! {

/// Redacting a tree twice changes nothing over redacting it once: the
/// compact encoding of a doubly redacted tree is the compact encoding of
/// the redacted tree.
pub proof fn law_redact_idempotent(v: SpecValue)
    ensures
        redact(redact(v)) == redact(v),
        json_text(redact(redact(v))) == json_text(redact(v)),
{
    lemma_redact_idempotent(v);
}

/// When two distinct keys of one object strip to the same display name,
/// both fields revert to their original keys with raw values, and both
/// reverted fields stand in the entry list that the document and line
/// renderers emit.
pub proof fn law_collision_keeps_original_keys(
    gf: Seq<(Seq<char>, SpecValue)>,
    i: int,
    j: int,
)
    requires
        0 <= i < gf.len(),
        0 <= j < gf.len(),
        i != j,
        gf[i].0 != gf[j].0,
        classify(gf[i].0, gf[i].1) is Some,
        classify(gf[j].0, gf[j].1) is Some,
        display_key(gf[i].0, gf[i].1) == display_key(gf[j].0, gf[j].1),
    ensures
        resolved_entries(gf)[i] == (gf[i].0, Option::<Seq<char>>::None, i),
        resolved_entries(gf)[j] == (gf[j].0, Option::<Seq<char>>::None, j),
        exists|p: int|
            0 <= p < object_entries(gf).len() && object_entries(gf)[p] == (
                gf[i].0,
                Option::<Seq<char>>::None,
                i,
            ),
        exists|q: int|
            0 <= q < object_entries(gf).len() && object_entries(gf)[q] == (
                gf[j].0,
                Option::<Seq<char>>::None,
                j,
            ),
{
    assert(collides(gf, i));
    assert(collides(gf, j));
    let res = resolved_entries(gf);
    lemma_sort_entries_contains(res);
    assert(res[i] == (gf[i].0, Option::<Seq<char>>::None, i));
    assert(res[j] == (gf[j].0, Option::<Seq<char>>::None, j));
    let p = choose|p: int| 0 <= p < sort_entries(res).len() && sort_entries(res)[p] == res[i];
    let q = choose|q: int| 0 <= q < sort_entries(res).len() && sort_entries(res)[q] == res[j];
    assert(object_entries(gf)[p] == (gf[i].0, Option::<Seq<char>>::None, i));
    assert(object_entries(gf)[q] == (gf[j].0, Option::<Seq<char>>::None, j));
}

/// A position of `k`, counted from the end, that two suffixes pin to
/// different characters cannot carry both: a key ending in `a` does not
/// end in `b`.
proof fn ends_with_clash(k: Seq<char>, a: Seq<char>, b: Seq<char>, ia: int, ib: int)
    requires
        ends_with(k, a),
        0 <= ia < a.len(),
        0 <= ib < b.len(),
        a.len() - ia == b.len() - ib,
        a[ia] != b[ib],
    ensures
        !ends_with(k, b),
{
    if ends_with(k, b) {
        let la = a.len() as int;
        let lb = b.len() as int;
        let n = k.len() as int;
        assert(k.subrange(n - la, n)[ia] == k[n - la + ia]);
        assert(k.subrange(n - lb, n)[ib] == k[n - lb + ib]);
        assert(n - la + ia == n - lb + ib);
        assert(a[ia] == b[ib]);
    }
}

/// Only the exact lowercase and the exact uppercase spelling of the
/// sensitive suffix are recognized: a key ending in the mixed-case
/// `_Secret` matches no rule at all, so it is never stripped by the
/// classifier, and the redactor passes its value through with only the
/// usual recursion.
#[verifier::rlimit(60)]
pub proof fn law_mixed_case_secret_untouched(
    gf: Seq<(Seq<char>, SpecValue)>,
    i: int,
    v: SpecValue,
)
    requires
        0 <= i < gf.len(),
        ends_with(gf[i].0, "_Secret"@),
    ensures
        classify(gf[i].0, v) is None,
        !secret_key(gf[i].0),
        redact_fields(gf)[i] == (gf[i].0, redact(gf[i].1)),
{
    let k = gf[i].0;
    let msuf = "_Secret"@;
    reveal_strlit("_Secret");
    reveal_strlit("_secret");
    reveal_strlit("_SECRET");
    reveal_strlit("_epoch_ms");
    reveal_strlit("_EPOCH_MS");
    reveal_strlit("_epoch_s");
    reveal_strlit("_EPOCH_S");
    reveal_strlit("_epoch_ns");
    reveal_strlit("_EPOCH_NS");
    reveal_strlit("_rfc3339");
    reveal_strlit("_RFC3339");
    reveal_strlit("_usd_cents");
    reveal_strlit("_USD_CENTS");
    reveal_strlit("_eur_cents");
    reveal_strlit("_EUR_CENTS");
    reveal_strlit("_cents");
    reveal_strlit("_CENTS");
    reveal_strlit("_jpy");
    reveal_strlit("_JPY");
    reveal_strlit("_msats");
    reveal_strlit("_MSATS");
    reveal_strlit("_sats");
    reveal_strlit("_SATS");
    reveal_strlit("_btc");
    reveal_strlit("_BTC");
    reveal_strlit("_bytes");
    reveal_strlit("_BYTES");
    reveal_strlit("_percent");
    reveal_strlit("_PERCENT");
    reveal_strlit("_minutes");
    reveal_strlit("_MINUTES");
    reveal_strlit("_hours");
    reveal_strlit("_HOURS");
    reveal_strlit("_days");
    reveal_strlit("_DAYS");
    reveal_strlit("_ns");
    reveal_strlit("_NS");
    reveal_strlit("_us");
    reveal_strlit("_US");
    reveal_strlit("_ms");
    reveal_strlit("_MS");
    reveal_strlit("_s");
    reveal_strlit("_S");
    ends_with_clash(k, msuf, "_epoch_ms"@, 6, 8);
    ends_with_clash(k, msuf, "_EPOCH_MS"@, 6, 8);
    ends_with_clash(k, msuf, "_epoch_s"@, 6, 7);
    ends_with_clash(k, msuf, "_EPOCH_S"@, 6, 7);
    ends_with_clash(k, msuf, "_epoch_ns"@, 6, 8);
    ends_with_clash(k, msuf, "_EPOCH_NS"@, 6, 8);
    ends_with_clash(k, msuf, "_rfc3339"@, 6, 7);
    ends_with_clash(k, msuf, "_RFC3339"@, 6, 7);
    ends_with_clash(k, msuf, "_usd_cents"@, 6, 9);
    ends_with_clash(k, msuf, "_USD_CENTS"@, 6, 9);
    ends_with_clash(k, msuf, "_eur_cents"@, 6, 9);
    ends_with_clash(k, msuf, "_EUR_CENTS"@, 6, 9);
    ends_with_clash(k, msuf, "_cents"@, 6, 5);
    ends_with_clash(k, msuf, "_CENTS"@, 6, 5);
    ends_with_clash(k, msuf, "_jpy"@, 6, 3);
    ends_with_clash(k, msuf, "_JPY"@, 6, 3);
    ends_with_clash(k, msuf, "_msats"@, 6, 5);
    ends_with_clash(k, msuf, "_MSATS"@, 6, 5);
    ends_with_clash(k, msuf, "_sats"@, 6, 4);
    ends_with_clash(k, msuf, "_SATS"@, 6, 4);
    ends_with_clash(k, msuf, "_btc"@, 6, 3);
    ends_with_clash(k, msuf, "_BTC"@, 6, 3);
    ends_with_clash(k, msuf, "_bytes"@, 6, 5);
    ends_with_clash(k, msuf, "_BYTES"@, 6, 5);
    ends_with_clash(k, msuf, "_percent"@, 5, 6);
    ends_with_clash(k, msuf, "_PERCENT"@, 6, 7);
    ends_with_clash(k, msuf, "_minutes"@, 6, 7);
    ends_with_clash(k, msuf, "_MINUTES"@, 6, 7);
    ends_with_clash(k, msuf, "_hours"@, 6, 5);
    ends_with_clash(k, msuf, "_HOURS"@, 6, 5);
    ends_with_clash(k, msuf, "_days"@, 6, 4);
    ends_with_clash(k, msuf, "_DAYS"@, 6, 4);
    ends_with_clash(k, msuf, "_ns"@, 6, 2);
    ends_with_clash(k, msuf, "_NS"@, 6, 2);
    ends_with_clash(k, msuf, "_us"@, 6, 2);
    ends_with_clash(k, msuf, "_US"@, 6, 2);
    ends_with_clash(k, msuf, "_ms"@, 6, 2);
    ends_with_clash(k, msuf, "_MS"@, 6, 2);
    ends_with_clash(k, msuf, "_s"@, 6, 1);
    ends_with_clash(k, msuf, "_S"@, 6, 1);
    ends_with_clash(k, msuf, "_secret"@, 1, 1);
    ends_with_clash(k, msuf, "_SECRET"@, 2, 2);
    lemma_redact_fields(gf);
}

/// Every fractional literal of the tree is free of newlines; the only
/// characters the compact encoding cannot escape are those a caller
/// smuggles into a fractional literal.
pub open spec fn fracs_clean(v: SpecValue) -> bool
    decreases v, 0int,
{
    match v {
        SpecValue::Frac(s) => forall|i: int| 0 <= i < s.len() ==> s[i] != '\n',
        SpecValue::Arr(items) => fracs_clean_seq(items),
        SpecValue::Obj(fields) => fracs_clean_fields(fields),
        _ => true,
    }
}

pub open spec fn fracs_clean_seq(s: Seq<SpecValue>) -> bool
    decreases s, 1int,
{
    if s.len() == 0 {
        true
    } else {
        fracs_clean(s[0]) && fracs_clean_seq(s.subrange(1, s.len() as int))
    }
}

pub open spec fn fracs_clean_fields(s: Seq<(Seq<char>, SpecValue)>) -> bool
    decreases s, 1int,
{
    if s.len() == 0 {
        true
    } else {
        fracs_clean(s[0].1) && fracs_clean_fields(s.subrange(1, s.len() as int))
    }
}

/// The sequence holds no newline character.
pub open spec fn no_nl(s: Seq<char>) -> bool {
    forall|i: int| 0 <= i < s.len() ==> s[i] != '\n'
}

proof fn lemma_no_nl_concat(a: Seq<char>, b: Seq<char>)
    requires
        no_nl(a),
        no_nl(b),
    ensures
        no_nl(a + b),
{
    assert forall|i: int| 0 <= i < (a + b).len() implies (a + b)[i] != '\n' by {
        if i < a.len() {
            assert((a + b)[i] == a[i]);
        } else {
            assert((a + b)[i] == b[i - a.len()]);
        }
    }
}

proof fn lemma_escape_char_no_nl(c: char)
    ensures
        no_nl(json_escape_char(c)),
{
}

proof fn lemma_json_escaped_no_nl(s: Seq<char>)
    ensures
        no_nl(json_escaped(s)),
    decreases s.len(),
{
    if s.len() > 0 {
        lemma_escape_char_no_nl(s[0]);
        lemma_json_escaped_no_nl(s.subrange(1, s.len() as int));
        lemma_no_nl_concat(json_escape_char(s[0]), json_escaped(s.subrange(1, s.len() as int)));
    }
}

proof fn lemma_json_string_no_nl(s: Seq<char>)
    ensures
        no_nl(json_string(s)),
{
    lemma_json_escaped_no_nl(s);
    lemma_no_nl_concat(seq!['"'], json_escaped(s));
    lemma_no_nl_concat(seq!['"'] + json_escaped(s), seq!['"']);
}

proof fn lemma_dec_nat_no_nl(n: int)
    ensures
        no_nl(dec_nat(n)),
    decreases n,
{
    if n >= 10 {
        lemma_dec_nat_no_nl(n / 10);
        assert(no_nl(dec_nat(n / 10).push(crate::numfmt::spec_digit(n % 10))));
    }
}

proof fn lemma_dec_int_no_nl(n: int)
    ensures
        no_nl(dec_int(n)),
{
    if n < 0 {
        lemma_dec_nat_no_nl(-n);
        lemma_no_nl_concat(seq!['-'], dec_nat(-n));
    } else {
        lemma_dec_nat_no_nl(n);
    }
}

proof fn lemma_json_text_no_nl(v: SpecValue)
    requires
        fracs_clean(v),
    ensures
        no_nl(json_text(v)),
    decreases v, 0int,
{
    reveal_strlit("null");
    reveal_strlit("true");
    reveal_strlit("false");
    match v {
        SpecValue::Int(n) => {
            lemma_dec_int_no_nl(n);
        },
        SpecValue::UInt(n) => {
            lemma_dec_nat_no_nl(n);
        },
        SpecValue::Text(s) => {
            lemma_json_string_no_nl(s);
        },
        SpecValue::Arr(items) => {
            lemma_json_items_no_nl(items);
            lemma_no_nl_concat(seq!['['], json_items(items));
            lemma_no_nl_concat(seq!['['] + json_items(items), seq![']']);
        },
        SpecValue::Obj(fields) => {
            lemma_json_members_no_nl(fields);
            lemma_no_nl_concat(seq!['{'], json_members(fields));
            lemma_no_nl_concat(seq!['{'] + json_members(fields), seq!['}']);
        },
        _ => {},
    }
}

proof fn lemma_json_items_no_nl(s: Seq<SpecValue>)
    requires
        fracs_clean_seq(s),
    ensures
        no_nl(json_items(s)),
    decreases s, 1int,
{
    if s.len() > 0 {
        lemma_json_text_no_nl(s[0]);
        if s.len() > 1 {
            lemma_json_items_no_nl(s.subrange(1, s.len() as int));
            lemma_no_nl_concat(json_text(s[0]), seq![',']);
            lemma_no_nl_concat(
                json_text(s[0]) + seq![','],
                json_items(s.subrange(1, s.len() as int)),
            );
        }
    }
}

proof fn lemma_json_members_no_nl(s: Seq<(Seq<char>, SpecValue)>)
    requires
        fracs_clean_fields(s),
    ensures
        no_nl(json_members(s)),
    decreases s, 1int,
{
    if s.len() > 0 {
        lemma_json_string_no_nl(s[0].0);
        lemma_json_text_no_nl(s[0].1);
        lemma_no_nl_concat(json_string(s[0].0), seq![':']);
        lemma_no_nl_concat(json_string(s[0].0) + seq![':'], json_text(s[0].1));
        if s.len() > 1 {
            lemma_json_members_no_nl(s.subrange(1, s.len() as int));
            lemma_no_nl_concat(
                json_string(s[0].0) + seq![':'] + json_text(s[0].1),
                seq![','],
            );
            lemma_no_nl_concat(
                json_string(s[0].0) + seq![':'] + json_text(s[0].1) + seq![','],
                json_members(s.subrange(1, s.len() as int)),
            );
        }
    }
}

proof fn lemma_redact_fracs_clean(v: SpecValue)
    requires
        fracs_clean(v),
    ensures
        fracs_clean(redact(v)),
    decreases v, 0int,
{
    match v {
        SpecValue::Arr(items) => {
            lemma_redact_fracs_clean_seq(items);
        },
        SpecValue::Obj(fields) => {
            lemma_redact_fracs_clean_fields(fields);
        },
        _ => {},
    }
}

proof fn lemma_redact_fracs_clean_seq(s: Seq<SpecValue>)
    requires
        fracs_clean_seq(s),
    ensures
        fracs_clean_seq(redact_seq(s)),
    decreases s, 1int,
{
    if s.len() > 0 {
        lemma_redact_fracs_clean(s[0]);
        lemma_redact_fracs_clean_seq(s.subrange(1, s.len() as int));
        let r = redact_seq(s);
        assert(r[0] == redact(s[0]));
        assert(r.subrange(1, r.len() as int) =~= redact_seq(s.subrange(1, s.len() as int)));
    }
}

proof fn lemma_redact_fracs_clean_fields(s: Seq<(Seq<char>, SpecValue)>)
    requires
        fracs_clean_fields(s),
    ensures
        fracs_clean_fields(redact_fields(s)),
    decreases s, 1int,
{
    if s.len() > 0 {
        lemma_redact_fracs_clean(s[0].1);
        lemma_redact_fracs_clean_fields(s.subrange(1, s.len() as int));
        let r = redact_fields(s);
        assert(r.subrange(1, r.len() as int) =~= redact_fields(
            s.subrange(1, s.len() as int),
        ));
        if secret_key(s[0].0) && s[0].1.is_scalar() {
            assert(r[0] == (s[0].0, SpecValue::Text("***"@)));
        } else {
            assert(r[0] == (s[0].0, redact(s[0].1)));
        }
        assert(fracs_clean(r[0].1));
        assert(fracs_clean_fields(r.subrange(1, r.len() as int)));
        assert(fracs_clean_fields(r));
    }
}

/// The compact encoding never holds an embedded newline, as long as no
/// fractional literal of the input smuggles one in.
pub proof fn law_compact_single_line(v: SpecValue)
    requires
        fracs_clean(v),
    ensures
        no_nl(json_text(redact(v))),
{
    lemma_redact_fracs_clean(v);
    lemma_json_text_no_nl(redact(v));
}

/// No key of the tree carries the sensitive suffix.
pub open spec fn no_secret_keys(v: SpecValue) -> bool
    decreases v, 0int,
{
    match v {
        SpecValue::Arr(items) => no_secret_keys_seq(items),
        SpecValue::Obj(fields) => no_secret_keys_fields(fields),
        _ => true,
    }
}

pub open spec fn no_secret_keys_seq(s: Seq<SpecValue>) -> bool
    decreases s, 1int,
{
    if s.len() == 0 {
        true
    } else {
        no_secret_keys(s[0]) && no_secret_keys_seq(s.subrange(1, s.len() as int))
    }
}

pub open spec fn no_secret_keys_fields(s: Seq<(Seq<char>, SpecValue)>) -> bool
    decreases s, 1int,
{
    if s.len() == 0 {
        true
    } else {
        !secret_key(s[0].0) && no_secret_keys(s[0].1) && no_secret_keys_fields(
            s.subrange(1, s.len() as int),
        )
    }
}

/// The compact path never strips or reformats anything but sensitive
/// fields: on a tree without sensitive keys, redaction is the identity,
/// so the compact encoding is the plain serialization of the input; and
/// on any tree, redaction keeps every key of every object.
pub proof fn law_compact_preserves_tree(v: SpecValue)
    requires
        no_secret_keys(v),
    ensures
        redact(v) == v,
        json_text(redact(v)) == json_text(v),
    decreases v, 0int,
{
    match v {
        SpecValue::Arr(items) => {
            law_compact_preserves_seq(items);
        },
        SpecValue::Obj(fields) => {
            law_compact_preserves_fields_rec(fields);
        },
        _ => {},
    }
}

proof fn law_compact_preserves_seq(s: Seq<SpecValue>)
    requires
        no_secret_keys_seq(s),
    ensures
        redact_seq(s) == s,
    decreases s, 1int,
{
    if s.len() > 0 {
        law_compact_preserves_tree(s[0]);
        law_compact_preserves_seq(s.subrange(1, s.len() as int));
        assert(redact_seq(s) =~= s);
    }
}

proof fn law_compact_preserves_fields_rec(s: Seq<(Seq<char>, SpecValue)>)
    requires
        no_secret_keys_fields(s),
    ensures
        redact_fields(s) == s,
    decreases s, 1int,
{
    if s.len() > 0 {
        law_compact_preserves_tree(s[0].1);
        law_compact_preserves_fields_rec(s.subrange(1, s.len() as int));
        assert(redact_fields(s) =~= s);
    }
}

/// Redaction keeps every key of every object, in order.
pub proof fn law_redact_keeps_keys(gf: Seq<(Seq<char>, SpecValue)>)
    ensures
        redact_fields(gf).len() == gf.len(),
        forall|i: int| 0 <= i < gf.len() ==> (#[trigger] redact_fields(gf)[i]).0 == gf[i].0,
{
    lemma_redact_fields(gf);
}

} // verus!
