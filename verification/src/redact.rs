//! The secret redactor behind the compact encoding: every object field
//! whose key ends in exactly `_secret` or `_SECRET` has its value replaced
//! by the `***` marker — if the value is a scalar.  Containers under such
//! keys are not replaced but recursed into, like everything else.

use vstd::prelude::*;

use crate::strutil::ends_with;
use crate::strutil::str_ends_with;
use crate::value::fields_view;
use crate::value::lemma_fields_view;
use crate::value::lemma_vec_view;
use crate::value::vec_view;
use crate::value::value_view;
use crate::value::SpecValue;
use crate::value::Value;

verus! {

/// A sensitive key: the exact lowercase or exact uppercase suffix, no
/// other casing.
pub open spec fn secret_key(k: Seq<char>) -> bool {
    ends_with(k, "_secret"@) || ends_with(k, "_SECRET"@)
}

/// Sensitive-key test over a string.
pub fn is_secret_key(k: &str) -> (r: bool)
    ensures
        r == secret_key(k@),
{
    str_ends_with(k, "_secret") || str_ends_with(k, "_SECRET")
}

/// The tree with every scalar under a sensitive key replaced by `***`;
/// keys, ordering and everything else are untouched, and containers are
/// recursed into whatever their key.
pub open spec fn redact(v: SpecValue) -> SpecValue
    decreases v, 0int,
{
    match v {
        SpecValue::Arr(items) => SpecValue::Arr(redact_seq(items)),
        SpecValue::Obj(fields) => SpecValue::Obj(redact_fields(fields)),
        _ => v,
    }
}

pub open spec fn redact_seq(s: Seq<SpecValue>) -> Seq<SpecValue>
    decreases s, 1int,
{
    if s.len() == 0 {
        Seq::empty()
    } else {
        seq![redact(s[0])] + redact_seq(s.subrange(1, s.len() as int))
    }
}

pub open spec fn redact_fields(s: Seq<(Seq<char>, SpecValue)>) -> Seq<(Seq<char>, SpecValue)>
    decreases s, 1int,
{
    if s.len() == 0 {
        Seq::empty()
    } else {
        let head = if secret_key(s[0].0) && s[0].1.is_scalar() {
            (s[0].0, SpecValue::Text("***"@))
        } else {
            (s[0].0, redact(s[0].1))
        };
        seq![head] + redact_fields(s.subrange(1, s.len() as int))
    }
}

/// `redact_seq` is the pointwise redaction of its argument.
pub broadcast proof fn lemma_redact_seq(s: Seq<SpecValue>)
    ensures
        (#[trigger] redact_seq(s)).len() == s.len(),
        forall|i: int| 0 <= i < s.len() ==> redact_seq(s)[i] == redact(s[i]),
    decreases s.len(),
{
    if s.len() > 0 {
        lemma_redact_seq(s.subrange(1, s.len() as int));
    }
}

/// `redact_fields` keeps every key and redacts every value in place:
/// a scalar under a sensitive key becomes the `***` marker, every other
/// value is redacted recursively.
pub broadcast proof fn lemma_redact_fields(s: Seq<(Seq<char>, SpecValue)>)
    ensures
        (#[trigger] redact_fields(s)).len() == s.len(),
        forall|i: int|
            0 <= i < s.len() ==> redact_fields(s)[i] == (
                if secret_key(s[i].0) && s[i].1.is_scalar() {
                    (s[i].0, SpecValue::Text("***"@))
                } else {
                    (s[i].0, redact(s[i].1))
                }),
    decreases s.len(),
{
    if s.len() > 0 {
        lemma_redact_fields(s.subrange(1, s.len() as int));
    }
}

/// Redaction never changes a value's shape: scalars stay the same kind of
/// scalar or become text, arrays stay arrays, objects stay objects.
pub proof fn lemma_redact_keeps_shape(v: SpecValue)
    ensures
        v.is_scalar() == redact(v).is_scalar(),
        (v matches SpecValue::Arr(_)) == (redact(v) matches SpecValue::Arr(_)),
        (v matches SpecValue::Obj(_)) == (redact(v) matches SpecValue::Obj(_)),
{
}

/// Redacting twice is redacting once.
pub proof fn lemma_redact_idempotent(v: SpecValue)
    ensures
        redact(redact(v)) == redact(v),
    decreases v, 0int,
{
    match v {
        SpecValue::Arr(items) => {
            lemma_redact_idem_seq(items);
        },
        SpecValue::Obj(fields) => {
            lemma_redact_idem_fields(fields);
        },
        _ => {},
    }
}

proof fn lemma_redact_idem_seq(s: Seq<SpecValue>)
    ensures
        redact_seq(redact_seq(s)) == redact_seq(s),
    decreases s, 1int,
{
    if s.len() > 0 {
        lemma_redact_idempotent(s[0]);
        lemma_redact_idem_seq(s.subrange(1, s.len() as int));
        let r = redact_seq(s);
        assert(r[0] == redact(s[0]));
        assert(r.subrange(1, r.len() as int) =~= redact_seq(s.subrange(1, s.len() as int)));
        assert(redact_seq(r) =~= r);
    }
}

proof fn lemma_redact_idem_fields(s: Seq<(Seq<char>, SpecValue)>)
    ensures
        redact_fields(redact_fields(s)) == redact_fields(s),
    decreases s, 1int,
{
    if s.len() > 0 {
        lemma_redact_idempotent(s[0].1);
        lemma_redact_idem_fields(s.subrange(1, s.len() as int));
        let r = redact_fields(s);
        let rtail = r.subrange(1, r.len() as int);
        assert(rtail =~= redact_fields(s.subrange(1, s.len() as int)));
        if secret_key(s[0].0) && s[0].1.is_scalar() {
            assert(r[0] == (s[0].0, SpecValue::Text("***"@)));
            assert(redact_fields(r)[0] == r[0]);
        } else {
            lemma_redact_keeps_shape(s[0].1);
            assert(redact_fields(r)[0] == r[0]);
        }
        assert(redact_fields(r) =~= r);
    }
}

/// Redact a tree, returning the redacted copy.
#[verifier::loop_isolation(false)]
pub fn redact_value(v: &Value) -> (r: Value)
    ensures
        r@ == redact(v@),
    decreases *v,
{
    match v {
        Value::Null => Value::Null,
        Value::Bool(b) => Value::Bool(*b),
        Value::Int(n) => Value::Int(*n),
        Value::UInt(n) => Value::UInt(*n),
        Value::Frac(s) => Value::Frac(s.clone()),
        Value::Text(s) => Value::Text(s.clone()),
        Value::Arr(items) => {
            let n = items.len();
            let mut out: Vec<Value> = Vec::new();
            let mut i: usize = 0;
            while i < n
                invariant
                    n == items.len(),
                    0 <= i <= n,
                    out@.len() == i,
                    forall|k: int|
                        0 <= k < i ==> value_view(#[trigger] out@[k]) == redact(value_view(
                            items@[k],
                        )),
                decreases n - i,
            {
                proof {
                    vstd::std_specs::vec::axiom_vec_index_decreases(*items, i as int);
                }
                let item = redact_value(&items[i]);
                out.push(item);
                i = i + 1;
            }
            let r = Value::Arr(out);
            proof {
                lemma_vec_view(out@);
                lemma_vec_view(items@);
                lemma_redact_seq(vec_view(items@));
                assert(vec_view(out@) =~= redact_seq(vec_view(items@)));
            }
            r
        },
        Value::Obj(fields) => {
            let n = fields.len();
            let mut out: Vec<(String, Value)> = Vec::new();
            let mut i: usize = 0;
            while i < n
                invariant
                    n == fields.len(),
                    0 <= i <= n,
                    out@.len() == i,
                    forall|k: int|
                        0 <= k < i ==> (#[trigger] out@[k]).0@ == fields@[k].0@ && value_view(
                            out@[k].1,
                        ) == (if secret_key(fields@[k].0@) && value_view(
                            fields@[k].1,
                        ).is_scalar() {
                            SpecValue::Text("***"@)
                        } else {
                            redact(value_view(fields@[k].1))
                        }),
                decreases n - i,
            {
                let (k, val) = &fields[i];
                let replaced = if is_secret_key(k.as_str()) {
                    val.is_scalar()
                } else {
                    false
                };
                let new_val = if replaced {
                    Value::Text("***".to_owned())
                } else {
                    proof {
                        vstd::std_specs::vec::axiom_vec_index_decreases(*fields, i as int);
                        assert(decreases_to!(*fields => fields@[i as int]));
                        assert(decreases_to!(*v => fields@[i as int].1));
                    }
                    redact_value(val)
                };
                out.push((k.clone(), new_val));
                i = i + 1;
            }
            let r = Value::Obj(out);
            proof {
                lemma_fields_view(out@);
                lemma_fields_view(fields@);
                lemma_redact_fields(fields_view(fields@));
                assert(fields_view(out@) =~= redact_fields(fields_view(fields@)));
            }
            r
        },
    }
}

/// Redact a tree in place.
pub fn redact_secrets(value: &mut Value)
    ensures
        final (value)@ == redact(old(value)@),
{
    let r = redact_value(value);
    *value = r;
}

/// Redact a tree in place.
pub fn internal_redact_secrets(value: &mut Value)
    ensures
        final (value)@ == redact(old(value)@),
{
    redact_secrets(value);
}

} // verus!
