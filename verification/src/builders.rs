//! Envelope builders: the `{code, result/error, trace}` records that tools
//! emit around their payloads.

use vstd::prelude::*;

use crate::value::fields_view;
use crate::value::lemma_fields_view;
use crate::value::str_eq;
use crate::value::value_view;
use crate::value::SpecValue;
use crate::value::Value;

verus! {

/// A field list with `key` bound to `val`: the first existing binding is
/// replaced in place, a missing key is appended at the end.
pub open spec fn spec_set_field(
    fields: Seq<(Seq<char>, SpecValue)>,
    key: Seq<char>,
    val: SpecValue,
) -> Seq<(Seq<char>, SpecValue)>
    decreases fields.len(),
{
    if fields.len() == 0 {
        seq![(key, val)]
    } else if fields[0].0 == key {
        seq![(fields[0].0, val)] + fields.subrange(1, fields.len() as int)
    } else {
        seq![fields[0]] + spec_set_field(
            fields.subrange(1, fields.len() as int),
            key,
            val,
        )
    }
}

/// The envelope of `build_json`: the fields of `fields` when it is an
/// object (nothing otherwise), with `code` bound to the code text and,
/// when given, `trace` bound to the trace.
pub open spec fn spec_build_json(
    code: Seq<char>,
    fields: SpecValue,
    trace: Option<SpecValue>,
) -> SpecValue {
    let base = match fields {
        SpecValue::Obj(fs) => fs,
        _ => Seq::empty(),
    };
    let with_code = spec_set_field(base, "code"@, SpecValue::Text(code));
    match trace {
        Some(t) => SpecValue::Obj(spec_set_field(with_code, "trace"@, t)),
        None => SpecValue::Obj(with_code),
    }
}

/// Bind `key` to `val` in a field list, replacing the first existing
/// binding in place or appending.
fn set_field(fields: &mut Vec<(String, Value)>, key: &str, val: Value)
    ensures
        fields_view(final (fields)@) == spec_set_field(
            fields_view(old(fields)@),
            key@,
            val@,
        ),
{
    let ghost gf = fields_view(old(fields)@);
    proof {
        lemma_fields_view(old(fields)@);
    }
    let n = fields.len();
    let mut i: usize = 0;
    while i < n
        invariant
            n == fields.len(),
            fields@ == old(fields)@,
            gf == fields_view(fields@),
            gf.len() == n,
            forall|k: int|
                0 <= k < n ==> #[trigger] gf[k] == (fields@[k].0@, value_view(fields@[k].1)),
            0 <= i <= n,
            forall|k: int| 0 <= k < i ==> #[trigger] gf[k].0 != key@,
        decreases n - i,
    {
        if str_eq(fields[i].0.as_str(), key) {
            let orig = fields.remove(i);
            fields.insert(i, (orig.0, val));
            proof {
                lemma_fields_view(fields@);
                lemma_spec_set_field_at(gf, key@, value_view(fields@[i as int].1), i as int);
                assert(fields_view(fields@) =~= spec_set_field(
                    gf,
                    key@,
                    fields_view(fields@)[i as int].1,
                ));
            }
            return ;
        }
        i = i + 1;
    }
    fields.push((key.to_owned(), val));
    proof {
        lemma_fields_view(fields@);
        lemma_spec_set_field_missing(gf, key@, fields_view(fields@)[n as int].1);
        assert(fields_view(fields@) =~= spec_set_field(
            gf,
            key@,
            fields_view(fields@)[n as int].1,
        ));
    }
}

proof fn lemma_spec_set_field_at(
    fields: Seq<(Seq<char>, SpecValue)>,
    key: Seq<char>,
    val: SpecValue,
    i: int,
)
    requires
        0 <= i < fields.len(),
        fields[i].0 == key,
        forall|k: int| 0 <= k < i ==> #[trigger] fields[k].0 != key,
    ensures
        spec_set_field(fields, key, val) == fields.update(i, (fields[i].0, val)),
    decreases i,
{
    if i == 0 {
        assert(spec_set_field(fields, key, val) =~= fields.update(0, (fields[0].0, val)));
    } else {
        let tail = fields.subrange(1, fields.len() as int);
        assert(forall|k: int| 0 <= k < i - 1 ==> #[trigger] tail[k].0 == fields[k + 1].0);
        lemma_spec_set_field_at(tail, key, val, i - 1);
        assert(tail.update(i - 1, (tail[i - 1].0, val)) =~= fields.update(
            i,
            (fields[i].0, val),
        ).subrange(1, fields.len() as int));
        assert(spec_set_field(fields, key, val) =~= fields.update(i, (fields[i].0, val)));
    }
}

proof fn lemma_spec_set_field_missing(
    fields: Seq<(Seq<char>, SpecValue)>,
    key: Seq<char>,
    val: SpecValue,
)
    requires
        forall|k: int| 0 <= k < fields.len() ==> #[trigger] fields[k].0 != key,
    ensures
        spec_set_field(fields, key, val) == fields.push((key, val)),
    decreases fields.len(),
{
    if fields.len() == 0 {
        assert(spec_set_field(fields, key, val) =~= fields.push((key, val)));
    } else {
        let tail = fields.subrange(1, fields.len() as int);
        assert(forall|k: int| 0 <= k < tail.len() ==> #[trigger] tail[k].0 == fields[k + 1].0);
        lemma_spec_set_field_missing(tail, key, val);
        assert(spec_set_field(fields, key, val) =~= fields.push((key, val)));
    }
}

/// Build `{code: "<code>", ...fields, trace?}`: non-object fields are
/// dropped, an existing `code` or `trace` binding is overridden.
pub fn build_json(code: &str, fields: Value, trace: Option<Value>) -> (r: Value)
    ensures
        r@ == spec_build_json(
            code@,
            fields@,
            match trace {
                Some(t) => Some(t@),
                None => None,
            },
        ),
{
    let ghost gfields = fields@;
    let mut base: Vec<(String, Value)> = match fields {
        Value::Obj(fs) => fs,
        _ => Vec::new(),
    };
    proof {
        assert(fields_view(base@) == (match gfields {
            SpecValue::Obj(fs) => fs,
            _ => Seq::<(Seq<char>, SpecValue)>::empty(),
        }));
    }
    set_field(&mut base, "code", Value::Text(code.to_owned()));
    match trace {
        Some(t) => {
            set_field(&mut base, "trace", t);
            Value::Obj(base)
        },
        None => Value::Obj(base),
    }
}

/// Build `{code: "ok", result: ..., trace?}`.
pub fn build_json_ok(result: Value, trace: Option<Value>) -> (r: Value)
    ensures
        r@ == (match trace {
            Some(t) => SpecValue::Obj(
                seq![
                    ("code"@, SpecValue::Text("ok"@)),
                    ("result"@, result@),
                    ("trace"@, t@),
                ],
            ),
            None => SpecValue::Obj(
                seq![("code"@, SpecValue::Text("ok"@)), ("result"@, result@)],
            ),
        }),
{
    let mut fs: Vec<(String, Value)> = Vec::new();
    fs.push(("code".to_owned(), Value::Text("ok".to_owned())));
    fs.push(("result".to_owned(), result));
    match trace {
        Some(t) => {
            fs.push(("trace".to_owned(), t));
            let r = Value::Obj(fs);
            proof {
                lemma_fields_view(r->Obj_0@);
                assert(fields_view(r->Obj_0@) =~= seq![
                    ("code"@, SpecValue::Text("ok"@)),
                    ("result"@, value_view(r->Obj_0@[1].1)),
                    ("trace"@, value_view(r->Obj_0@[2].1)),
                ]);
            }
            r
        },
        None => {
            let r = Value::Obj(fs);
            proof {
                lemma_fields_view(r->Obj_0@);
                assert(fields_view(r->Obj_0@) =~= seq![
                    ("code"@, SpecValue::Text("ok"@)),
                    ("result"@, value_view(r->Obj_0@[1].1)),
                ]);
            }
            r
        },
    }
}

/// Build `{code: "error", error: "<message>", trace?}`.
pub fn build_json_error(message: &str, trace: Option<Value>) -> (r: Value)
    ensures
        r@ == (match trace {
            Some(t) => SpecValue::Obj(
                seq![
                    ("code"@, SpecValue::Text("error"@)),
                    ("error"@, SpecValue::Text(message@)),
                    ("trace"@, t@),
                ],
            ),
            None => SpecValue::Obj(
                seq![
                    ("code"@, SpecValue::Text("error"@)),
                    ("error"@, SpecValue::Text(message@)),
                ],
            ),
        }),
{
    let mut fs: Vec<(String, Value)> = Vec::new();
    fs.push(("code".to_owned(), Value::Text("error".to_owned())));
    fs.push(("error".to_owned(), Value::Text(message.to_owned())));
    match trace {
        Some(t) => {
            fs.push(("trace".to_owned(), t));
            let r = Value::Obj(fs);
            proof {
                lemma_fields_view(r->Obj_0@);
                assert(fields_view(r->Obj_0@) =~= seq![
                    ("code"@, SpecValue::Text("error"@)),
                    ("error"@, SpecValue::Text(message@)),
                    ("trace"@, value_view(r->Obj_0@[2].1)),
                ]);
            }
            r
        },
        None => {
            let r = Value::Obj(fs);
            proof {
                lemma_fields_view(r->Obj_0@);
                assert(fields_view(r->Obj_0@) =~= seq![
                    ("code"@, SpecValue::Text("error"@)),
                    ("error"@, SpecValue::Text(message@)),
                ]);
            }
            r
        },
    }
}

/// Build `{code: "ok", result: ...}`.
pub fn ok(result: Value) -> (r: Value)
    ensures
        r@ == SpecValue::Obj(seq![("code"@, SpecValue::Text("ok"@)), ("result"@, result@)]),
{
    build_json_ok(result, None)
}

/// Build `{code: "ok", result: ..., trace: ...}`.
pub fn ok_trace(result: Value, trace: Value) -> (r: Value)
    ensures
        r@ == SpecValue::Obj(
            seq![("code"@, SpecValue::Text("ok"@)), ("result"@, result@), ("trace"@, trace@)],
        ),
{
    build_json_ok(result, Some(trace))
}

/// Build `{code: "error", error: "message"}`.
pub fn error(message: &str) -> (r: Value)
    ensures
        r@ == SpecValue::Obj(
            seq![("code"@, SpecValue::Text("error"@)), ("error"@, SpecValue::Text(message@))],
        ),
{
    build_json_error(message, None)
}

/// Build `{code: "error", error: "message", trace: ...}`.
pub fn error_trace(message: &str, trace: Value) -> (r: Value)
    ensures
        r@ == SpecValue::Obj(
            seq![
                ("code"@, SpecValue::Text("error"@)),
                ("error"@, SpecValue::Text(message@)),
                ("trace"@, trace@),
            ],
        ),
{
    build_json_error(message, Some(trace))
}

/// Build `{code: "startup", config: ..., args: ..., env: ...}`.
pub fn startup(config: Value, args: Value, env: Value) -> (r: Value)
    ensures
        r@ == SpecValue::Obj(
            seq![
                ("code"@, SpecValue::Text("startup"@)),
                ("config"@, config@),
                ("args"@, args@),
                ("env"@, env@),
            ],
        ),
{
    let mut fs: Vec<(String, Value)> = Vec::new();
    fs.push(("code".to_owned(), Value::Text("startup".to_owned())));
    fs.push(("config".to_owned(), config));
    fs.push(("args".to_owned(), args));
    fs.push(("env".to_owned(), env));
    let r = Value::Obj(fs);
    proof {
        lemma_fields_view(r->Obj_0@);
        assert(fields_view(r->Obj_0@) =~= seq![
            ("code"@, SpecValue::Text("startup"@)),
            ("config"@, value_view(r->Obj_0@[1].1)),
            ("args"@, value_view(r->Obj_0@[2].1)),
            ("env"@, value_view(r->Obj_0@[3].1)),
        ]);
    }
    r
}

/// Build `{code: "<custom>", ...fields}`: a tool-defined status record.
pub fn status(code: &str, fields: Value) -> (r: Value)
    ensures
        r@ == spec_build_json(code@, fields@, None),
{
    build_json(code, fields, None)
}

} // verus!
