//! The flattened-line encoding: one `path=value` token per leaf, dotted
//! paths for nesting, all tokens of the whole walk sorted together by
//! canonical path order and joined with single spaces.

use vstd::prelude::*;

use crate::fields::entry_view;
use crate::fields::entry_views;
use crate::fields::lemma_object_entries_wf;
use crate::fields::object_entries;
use crate::fields::process_object;
use crate::jcs::key_lt;
use crate::jcs::str_key_lt;
use crate::json::json_text;
use crate::json::to_json;
use crate::numfmt::dec_int;
use crate::numfmt::dec_nat;
use crate::numfmt::fmt_i64;
use crate::numfmt::fmt_u64;
use crate::value::fields_view;
use crate::value::lemma_fields_view;
use crate::value::lemma_vec_view;
use crate::value::value_view;
use crate::value::vec_view;
use crate::value::SpecValue;
use crate::value::Value;

verus! {

/// The unformatted scalar rendering of the line encoding: raw text for
/// strings, literal text for the other scalars, compact JSON for
/// containers.
pub open spec fn plain_scalar(v: SpecValue) -> Seq<char> {
    match v {
        SpecValue::Null => "null"@,
        SpecValue::Bool(b) => if b {
            "true"@
        } else {
            "false"@
        },
        SpecValue::Int(n) => dec_int(n),
        SpecValue::UInt(n) => dec_nat(n),
        SpecValue::Frac(s) => s,
        SpecValue::Text(s) => s,
        _ => json_text(v),
    }
}

/// Array elements rendered with the unformatted scalar rule and joined
/// with commas; elements are never suffix-processed.
pub open spec fn comma_joined(s: Seq<SpecValue>) -> Seq<char>
    decreases s.len(),
{
    if s.len() == 0 {
        Seq::empty()
    } else if s.len() == 1 {
        plain_scalar(s[0])
    } else {
        plain_scalar(s[0]) + seq![','] + comma_joined(s.subrange(1, s.len() as int))
    }
}

proof fn lemma_comma_joined_push(s: Seq<SpecValue>, x: SpecValue)
    ensures
        comma_joined(s.push(x)) == if s.len() == 0 {
            plain_scalar(x)
        } else {
            comma_joined(s) + seq![','] + plain_scalar(x)
        },
    decreases s.len(),
{
    let p = s.push(x);
    if s.len() == 0 {
        assert(p.len() == 1 && p[0] == x);
    } else {
        assert(p.subrange(1, p.len() as int) =~= s.subrange(1, s.len() as int).push(x));
        lemma_comma_joined_push(s.subrange(1, s.len() as int), x);
        assert(comma_joined(p) =~= comma_joined(s) + seq![','] + plain_scalar(x));
    }
}

/// The display key joined onto the parent path; the root has an empty
/// path.
pub open spec fn joined_path(path: Seq<char>, key: Seq<char>) -> Seq<char> {
    if path.len() == 0 {
        key
    } else {
        path + seq!['.'] + key
    }
}

/// All `path=value` pairs of an object subtree, in field order: formatted
/// fields contribute their text, nested objects only extend the path,
/// arrays collapse to one comma-joined value, null becomes the empty
/// value.
pub open spec fn plain_pairs(v: SpecValue, path: Seq<char>) -> Seq<(Seq<char>, Seq<char>)>
    decreases v, 3int,
{
    match v {
        SpecValue::Obj(fields) => plain_entry_pairs(fields, object_entries(fields), 0, path),
        _ => Seq::empty(),
    }
}

/// The pairs of the processed entries from position `j` on.
pub open spec fn plain_entry_pairs(
    fields: Seq<(Seq<char>, SpecValue)>,
    es: Seq<(Seq<char>, Option<Seq<char>>, int)>,
    j: int,
    path: Seq<char>,
) -> Seq<(Seq<char>, Seq<char>)>
    decreases fields, 2int, es.len() - j,
{
    if j < 0 || j >= es.len() {
        Seq::empty()
    } else {
        plain_entry_pair(fields, es[j], path) + plain_entry_pairs(fields, es, j + 1, path)
    }
}

/// The pairs contributed by one processed entry.
pub open spec fn plain_entry_pair(
    fields: Seq<(Seq<char>, SpecValue)>,
    e: (Seq<char>, Option<Seq<char>>, int),
    path: Seq<char>,
) -> Seq<(Seq<char>, Seq<char>)>
    decreases fields, 1int,
{
    let p = joined_path(path, e.0);
    match e.1 {
        Some(txt) => seq![(p, txt)],
        None => if 0 <= e.2 < fields.len() {
            match fields[e.2].1 {
                SpecValue::Obj(_) => plain_pairs(fields[e.2].1, p),
                SpecValue::Arr(items) => seq![(p, comma_joined(items))],
                SpecValue::Null => seq![(p, Seq::<char>::empty())],
                _ => seq![(p, plain_scalar(fields[e.2].1))],
            }
        } else {
            Seq::empty()
        },
    }
}

/// Stable insertion of a pair into a path-sorted pair list.
pub open spec fn insert_pair(
    x: (Seq<char>, Seq<char>),
    s: Seq<(Seq<char>, Seq<char>)>,
) -> Seq<(Seq<char>, Seq<char>)>
    decreases s.len(),
{
    if s.len() == 0 {
        seq![x]
    } else if key_lt(s[0].0, x.0) {
        seq![s[0]] + insert_pair(x, s.subrange(1, s.len() as int))
    } else {
        seq![x] + s
    }
}

/// Stable insertion sort of pairs by canonical path order.
pub open spec fn sort_pairs(s: Seq<(Seq<char>, Seq<char>)>) -> Seq<(Seq<char>, Seq<char>)>
    decreases s.len(),
{
    if s.len() == 0 {
        s
    } else {
        insert_pair(s[0], sort_pairs(s.subrange(1, s.len() as int)))
    }
}

/// The value holds a literal space.
pub open spec fn has_space(t: Seq<char>) -> bool {
    exists|i: int| 0 <= i < t.len() && t[i] == ' '
}

/// A value as it appears in a token: wrapped in double quotes when it
/// holds a space, with no internal escaping.
pub open spec fn quoted_value(t: Seq<char>) -> Seq<char> {
    if has_space(t) {
        seq!['"'] + t + seq!['"']
    } else {
        t
    }
}

/// One `path=value` token.
pub open spec fn token_text(p: (Seq<char>, Seq<char>)) -> Seq<char> {
    p.0 + seq!['='] + quoted_value(p.1)
}

/// Tokens joined with single spaces.
pub open spec fn joined_tokens(s: Seq<(Seq<char>, Seq<char>)>) -> Seq<char>
    decreases s.len(),
{
    if s.len() == 0 {
        Seq::empty()
    } else if s.len() == 1 {
        token_text(s[0])
    } else {
        token_text(s[0]) + seq![' '] + joined_tokens(s.subrange(1, s.len() as int))
    }
}

proof fn lemma_joined_tokens_push(s: Seq<(Seq<char>, Seq<char>)>, x: (Seq<char>, Seq<char>))
    ensures
        joined_tokens(s.push(x)) == if s.len() == 0 {
            token_text(x)
        } else {
            joined_tokens(s) + seq![' '] + token_text(x)
        },
    decreases s.len(),
{
    let p = s.push(x);
    if s.len() == 0 {
        assert(p.len() == 1 && p[0] == x);
    } else {
        assert(p.subrange(1, p.len() as int) =~= s.subrange(1, s.len() as int).push(x));
        lemma_joined_tokens_push(s.subrange(1, s.len() as int), x);
        assert(joined_tokens(p) =~= joined_tokens(s) + seq![' '] + token_text(x));
    }
}

/// The whole line encoding of a tree: objects flatten to sorted
/// `path=value` tokens; a top-level array is comma-joined; a top-level
/// scalar is its unformatted text.
pub open spec fn plain_line(v: SpecValue) -> Seq<char> {
    match v {
        SpecValue::Obj(_) => joined_tokens(sort_pairs(plain_pairs(v, Seq::empty()))),
        SpecValue::Arr(items) => comma_joined(items),
        _ => plain_scalar(v),
    }
}

/// One collected pair, path and rendered value.
pub struct PairEntry {
    pub path: String,
    pub val: String,
}

pub open spec fn pair_view(p: PairEntry) -> (Seq<char>, Seq<char>) {
    (p.path@, p.val@)
}

pub open spec fn pair_views(s: Seq<PairEntry>) -> Seq<(Seq<char>, Seq<char>)> {
    Seq::new(s.len(), |i: int| pair_view(s[i]))
}

/// The unformatted scalar rendering of one value.
fn plain_scalar_exec(v: &Value) -> (r: String)
    ensures
        r@ == plain_scalar(v@),
{
    match v {
        Value::Null => "null".to_owned(),
        Value::Bool(b) => if *b {
            "true".to_owned()
        } else {
            "false".to_owned()
        },
        Value::Int(n) => fmt_i64(*n),
        Value::UInt(n) => fmt_u64(*n),
        Value::Frac(s) => s.clone(),
        Value::Text(s) => s.clone(),
        _ => to_json(v),
    }
}

/// Render and comma-join the elements of an array.
#[verifier::loop_isolation(false)]
fn comma_join_exec(items: &Vec<Value>) -> (r: String)
    ensures
        r@ == comma_joined(vec_view(items@)),
{
    let ghost gitems = vec_view(items@);
    proof {
        lemma_vec_view(items@);
    }
    let n = items.len();
    let mut out = String::new();
    let mut i: usize = 0;
    while i < n
        invariant
            n == items.len(),
            0 <= i <= n,
            out@ == comma_joined(gitems.subrange(0, i as int)),
        decreases n - i,
    {
        if i > 0 {
            out.push(',');
        }
        let part = plain_scalar_exec(&items[i]);
        out.append(part.as_str());
        proof {
            assert(gitems.subrange(0, i + 1) =~= gitems.subrange(0, i as int).push(
                gitems[i as int],
            ));
            lemma_comma_joined_push(gitems.subrange(0, i as int), gitems[i as int]);
            assert(out@ =~= comma_joined(gitems.subrange(0, i + 1)));
        }
        i = i + 1;
    }
    proof {
        assert(gitems.subrange(0, n as int) =~= gitems);
    }
    out
}

/// The token value holds a literal space.
fn str_has_space(s: &str) -> (r: bool)
    ensures
        r == has_space(s@),
{
    let n = s.unicode_len();
    let mut i: usize = 0;
    while i < n
        invariant
            n == s@.len(),
            0 <= i <= n,
            forall|k: int| 0 <= k < i ==> s@[k] != ' ',
        decreases n - i,
    {
        if s.get_char(i) == ' ' {
            return true;
        }
        i = i + 1;
    }
    false
}

/// Collect the pairs of an object subtree onto `out`, in field order.
#[verifier::loop_isolation(false)]
fn collect_pairs(v: &Value, path: &String, out: &mut Vec<PairEntry>)
    ensures
        pair_views(final (out)@) == pair_views(old(out)@) + plain_pairs(v@, path@),
    decreases *v, 3int, 0int,
{
    let ghost base = pair_views(old(out)@);
    match v {
        Value::Obj(fields) => {
            let ghost gf = fields_view(fields@);
            proof {
                lemma_fields_view(fields@);
                lemma_object_entries_wf(gf);
            }
            let entries = process_object(fields);
            let ghost ges = entry_views(entries@);
            let m = entries.len();
            let mut j: usize = 0;
            while j < m
                invariant
                    m == entries.len(),
                    0 <= j <= m,
                    pair_views(out@) + plain_entry_pairs(gf, ges, j as int, path@) == base
                        + plain_entry_pairs(gf, ges, 0, path@),
                decreases m - j,
            {
                proof {
                    assert(entry_view(entries@[j as int]) == ges[j as int]);
                    assert(0 <= ges[j as int].2 < gf.len());
                }
                collect_entry_pairs(fields, &entries[j], path, out);
                proof {
                    assert(plain_entry_pairs(gf, ges, j as int, path@) == plain_entry_pair(
                        gf,
                        ges[j as int],
                        path@,
                    ) + plain_entry_pairs(gf, ges, j + 1, path@));
                }
                j = j + 1;
            }
            proof {
                assert(plain_entry_pairs(gf, ges, m as int, path@) =~= Seq::<
                    (Seq<char>, Seq<char>),
                >::empty());
                assert(pair_views(out@) =~= base + plain_pairs(value_view(*v), path@));
            }
        },
        _ => {
            proof {
                assert(pair_views(out@) =~= base + plain_pairs(value_view(*v), path@));
            }
        },
    }
}

/// Collect the pairs of one processed entry.
#[verifier::loop_isolation(false)]
fn collect_entry_pairs(
    fields: &Vec<(String, Value)>,
    e: &crate::fields::FieldEntry,
    path: &String,
    out: &mut Vec<PairEntry>,
)
    requires
        0 <= entry_view(*e).2 < fields_view(fields@).len(),
    ensures
        pair_views(final (out)@) == pair_views(old(out)@) + plain_entry_pair(
            fields_view(fields@),
            entry_view(*e),
            path@,
        ),
    decreases *fields, 1int, 0int,
{
    let ghost gf = fields_view(fields@);
    let ghost ge = entry_view(*e);
    let ghost prev = pair_views(old(out)@);
    proof {
        lemma_fields_view(fields@);
    }
    let p: String = if path.as_str().unicode_len() == 0 {
        e.display.clone()
    } else {
        let mut p0 = path.clone();
        p0.push('.');
        p0.append(e.display.as_str());
        p0
    };
    proof {
        assert(p@ == joined_path(path@, ge.0));
    }
    match &e.formatted {
        Some(txt) => {
            let pe = PairEntry { path: p, val: txt.clone() };
            out.push(pe);
            proof {
                assert(pair_views(out@) =~= prev + plain_entry_pair(gf, ge, path@));
            }
        },
        None => {
            let idx = e.idx;
            let val = &fields[idx].1;
            proof {
                assert(value_view(*val) == gf[ge.2].1);
            }
            match val {
                Value::Obj(_) => {
                    proof {
                        vstd::std_specs::vec::axiom_vec_index_decreases(*fields, idx as int);
                        assert(decreases_to!(*fields => fields@[idx as int]));
                        assert(decreases_to!(*fields => fields@[idx as int].1));
                    }
                    collect_pairs(val, &p, out);
                    proof {
                        assert(pair_views(out@) =~= prev + plain_entry_pair(gf, ge, path@));
                    }
                },
                Value::Arr(items) => {
                    let joined = comma_join_exec(items);
                    let pe = PairEntry { path: p, val: joined };
                    out.push(pe);
                    proof {
                        assert(pair_views(out@) =~= prev + plain_entry_pair(gf, ge, path@));
                    }
                },
                Value::Null => {
                    let pe = PairEntry { path: p, val: String::new() };
                    out.push(pe);
                    proof {
                        assert(pair_views(out@) =~= prev + plain_entry_pair(gf, ge, path@));
                    }
                },
                _ => {
                    let sc = plain_scalar_exec(val);
                    let pe = PairEntry { path: p, val: sc };
                    out.push(pe);
                    proof {
                        assert(pair_views(out@) =~= prev + plain_entry_pair(gf, ge, path@));
                    }
                },
            }
        },
    }
}

/// Stable insertion into a path-sorted pair list.
fn insert_sorted_pair(x: PairEntry, v: Vec<PairEntry>) -> (r: Vec<PairEntry>)
    ensures
        pair_views(r@) == insert_pair(pair_view(x), pair_views(v@)),
    decreases v@.len(),
{
    if v.len() == 0 {
        let mut r: Vec<PairEntry> = Vec::new();
        r.push(x);
        proof {
            assert(pair_views(r@) =~= insert_pair(pair_view(x), pair_views(v@)));
        }
        r
    } else if str_key_lt(v[0].path.as_str(), x.path.as_str()) {
        let mut rest = v;
        let first = rest.remove(0);
        let ghost grest = pair_views(rest@);
        let mut r = insert_sorted_pair(x, rest);
        r.insert(0, first);
        proof {
            assert(grest =~= pair_views(v@).subrange(1, pair_views(v@).len() as int));
            assert(pair_views(r@) =~= insert_pair(pair_view(x), pair_views(v@)));
        }
        r
    } else {
        let mut r = v;
        r.insert(0, x);
        proof {
            assert(pair_views(r@) =~= insert_pair(pair_view(x), pair_views(v@)));
        }
        r
    }
}

/// Stable insertion sort of collected pairs by path.
fn sort_pair_vec(v: Vec<PairEntry>) -> (r: Vec<PairEntry>)
    ensures
        pair_views(r@) == sort_pairs(pair_views(v@)),
    decreases v@.len(),
{
    if v.len() == 0 {
        proof {
            assert(pair_views(v@) =~= Seq::<(Seq<char>, Seq<char>)>::empty());
        }
        v
    } else {
        let mut rest = v;
        let first = rest.remove(0);
        let ghost grest = pair_views(rest@);
        let sorted = sort_pair_vec(rest);
        proof {
            assert(grest =~= pair_views(v@).subrange(1, pair_views(v@).len() as int));
        }
        insert_sorted_pair(first, sorted)
    }
}

/// Join sorted pairs into the final space-separated token line.
#[verifier::loop_isolation(false)]
fn join_tokens_exec(ps: &Vec<PairEntry>) -> (r: String)
    ensures
        r@ == joined_tokens(pair_views(ps@)),
{
    let ghost gps = pair_views(ps@);
    let n = ps.len();
    let mut out = String::new();
    let mut i: usize = 0;
    while i < n
        invariant
            n == ps.len(),
            0 <= i <= n,
            out@ == joined_tokens(gps.subrange(0, i as int)),
        decreases n - i,
    {
        if i > 0 {
            out.push(' ');
        }
        let p = &ps[i];
        out.append(p.path.as_str());
        out.push('=');
        let space = str_has_space(p.val.as_str());
        if space {
            out.push('"');
            out.append(p.val.as_str());
            out.push('"');
        } else {
            out.append(p.val.as_str());
        }
        proof {
            assert(gps.subrange(0, i + 1) =~= gps.subrange(0, i as int).push(gps[i as int]));
            lemma_joined_tokens_push(gps.subrange(0, i as int), gps[i as int]);
            assert(out@ =~= joined_tokens(gps.subrange(0, i + 1)));
        }
        i = i + 1;
    }
    proof {
        assert(gps.subrange(0, n as int) =~= gps);
    }
    out
}

/// The flattened-line encoding of a tree: a single line, no trailing
/// newline, `path=value` tokens in canonical path order.
pub fn output_plain(value: &Value) -> (r: String)
    ensures
        r@ == plain_line(value@),
{
    match value {
        Value::Obj(_) => {
            let mut pairs: Vec<PairEntry> = Vec::new();
            let empty_path = String::new();
            collect_pairs(value, &empty_path, &mut pairs);
            proof {
                assert(pair_views(pairs@) =~= plain_pairs(value@, Seq::empty()));
            }
            let sorted = sort_pair_vec(pairs);
            join_tokens_exec(&sorted)
        },
        Value::Arr(items) => comma_join_exec(items),
        _ => plain_scalar_exec(value),
    }
}

/// The flattened-line encoding of a tree.
pub fn to_plain(value: &Value) -> (r: String)
    ensures
        r@ == plain_line(value@),
{
    output_plain(value)
}

} // verus!
