//! The compact encoding: standard JSON text of a value tree, on one line.
//! Strings are escaped with the two-character escapes for quote,
//! backslash, backspace, form feed, newline, carriage return and tab, and
//! `\u00..` for the remaining control characters; nothing else is touched.

use vstd::prelude::*;

use crate::numfmt::dec_int;
use crate::numfmt::dec_nat;
use crate::numfmt::fmt_i64;
use crate::numfmt::fmt_u64;
use crate::numfmt::spec_digit;
use crate::redact::redact;
use crate::redact::redact_value;
use crate::strutil::char_string;
use crate::strutil::lemma_spaces_add;
use crate::strutil::spaces;
use crate::value::fields_view;
use crate::value::lemma_fields_view;
use crate::value::lemma_vec_view;
use crate::value::value_view;
use crate::value::vec_view;
use crate::value::SpecValue;
use crate::value::Value;

verus! {

/// The lowercase hexadecimal digit of a value below sixteen.
pub open spec fn spec_hex_digit(d: int) -> char {
    if d < 10 {
        spec_digit(d)
    } else if d == 10 {
        'a'
    } else if d == 11 {
        'b'
    } else if d == 12 {
        'c'
    } else if d == 13 {
        'd'
    } else if d == 14 {
        'e'
    } else {
        'f'
    }
}

fn hex_digit_char(d: u32) -> (c: char)
    requires
        d < 16,
    ensures
        c == spec_hex_digit(d as int),
{
    match d {
        0 => '0',
        1 => '1',
        2 => '2',
        3 => '3',
        4 => '4',
        5 => '5',
        6 => '6',
        7 => '7',
        8 => '8',
        9 => '9',
        10 => 'a',
        11 => 'b',
        12 => 'c',
        13 => 'd',
        14 => 'e',
        _ => 'f',
    }
}

/// The JSON escape of one string character.
pub open spec fn json_escape_char(c: char) -> Seq<char> {
    if c == '"' {
        seq!['\\', '"']
    } else if c == '\\' {
        seq!['\\', '\\']
    } else if c == '\u{8}' {
        seq!['\\', 'b']
    } else if c == '\u{c}' {
        seq!['\\', 'f']
    } else if c == '\n' {
        seq!['\\', 'n']
    } else if c == '\r' {
        seq!['\\', 'r']
    } else if c == '\t' {
        seq!['\\', 't']
    } else if (c as int) < 0x20 {
        seq!['\\', 'u', '0', '0', spec_hex_digit(c as int / 16), spec_hex_digit(c as int % 16)]
    } else {
        seq![c]
    }
}

/// The JSON escape of a whole string, without the quotes.
pub open spec fn json_escaped(s: Seq<char>) -> Seq<char>
    decreases s.len(),
{
    if s.len() == 0 {
        Seq::empty()
    } else {
        json_escape_char(s[0]) + json_escaped(s.subrange(1, s.len() as int))
    }
}

/// A quoted, escaped JSON string.
pub open spec fn json_string(s: Seq<char>) -> Seq<char> {
    seq!['"'] + json_escaped(s) + seq!['"']
}

proof fn lemma_json_escaped_push(s: Seq<char>, c: char)
    ensures
        json_escaped(s.push(c)) == json_escaped(s) + json_escape_char(c),
    decreases s.len(),
{
    let p = s.push(c);
    if s.len() == 0 {
        assert(p.subrange(1, p.len() as int) =~= Seq::<char>::empty());
        assert(p[0] == c);
        assert(json_escaped(p) == json_escape_char(c) + json_escaped(Seq::<char>::empty()));
        assert(json_escaped(p) =~= json_escaped(s) + json_escape_char(c));
    } else {
        assert(p.subrange(1, p.len() as int) =~= s.subrange(1, s.len() as int).push(c));
        lemma_json_escaped_push(s.subrange(1, s.len() as int), c);
        assert(json_escaped(p) =~= json_escaped(s) + json_escape_char(c));
    }
}

/// Quote and escape a string.
pub fn json_quote(s: &str) -> (r: String)
    ensures
        r@ == json_string(s@),
{
    let n = s.unicode_len();
    let mut out = char_string('"');
    let mut i: usize = 0;
    while i < n
        invariant
            n == s@.len(),
            0 <= i <= n,
            out@ == seq!['"'] + json_escaped(s@.subrange(0, i as int)),
        decreases n - i,
    {
        let c = s.get_char(i);
        if c == '"' {
            out.push('\\');
            out.push('"');
        } else if c == '\\' {
            out.push('\\');
            out.push('\\');
        } else if c == '\u{8}' {
            out.push('\\');
            out.push('b');
        } else if c == '\u{c}' {
            out.push('\\');
            out.push('f');
        } else if c == '\n' {
            out.push('\\');
            out.push('n');
        } else if c == '\r' {
            out.push('\\');
            out.push('r');
        } else if c == '\t' {
            out.push('\\');
            out.push('t');
        } else if (c as u32) < 0x20 {
            out.push('\\');
            out.push('u');
            out.push('0');
            out.push('0');
            out.push(hex_digit_char((c as u32) / 16));
            out.push(hex_digit_char((c as u32) % 16));
        } else {
            out.push(c);
        }
        proof {
            assert(s@.subrange(0, i + 1) =~= s@.subrange(0, i as int).push(s@[i as int]));
            lemma_json_escaped_push(s@.subrange(0, i as int), s@[i as int]);
            assert(out@ =~= seq!['"'] + json_escaped(s@.subrange(0, i + 1)));
        }
        i = i + 1;
    }
    out.push('"');
    proof {
        assert(s@.subrange(0, n as int) =~= s@);
        assert(out@ =~= json_string(s@));
    }
    out
}

/// Compact JSON text of a value tree.
pub open spec fn json_text(v: SpecValue) -> Seq<char>
    decreases v, 0int,
{
    match v {
        SpecValue::Null => "null"@,
        SpecValue::Bool(b) => if b {
            "true"@
        } else {
            "false"@
        },
        SpecValue::Int(n) => dec_int(n),
        SpecValue::UInt(n) => dec_nat(n),
        SpecValue::Frac(s) => s,
        SpecValue::Text(s) => json_string(s),
        SpecValue::Arr(items) => seq!['['] + json_items(items) + seq![']'],
        SpecValue::Obj(fields) => seq!['{'] + json_members(fields) + seq!['}'],
    }
}

/// The comma-separated element list of a JSON array.
pub open spec fn json_items(s: Seq<SpecValue>) -> Seq<char>
    decreases s, 1int,
{
    if s.len() == 0 {
        Seq::empty()
    } else if s.len() == 1 {
        json_text(s[0])
    } else {
        json_text(s[0]) + seq![','] + json_items(s.subrange(1, s.len() as int))
    }
}

/// The comma-separated member list of a JSON object.
pub open spec fn json_members(s: Seq<(Seq<char>, SpecValue)>) -> Seq<char>
    decreases s, 1int,
{
    if s.len() == 0 {
        Seq::empty()
    } else if s.len() == 1 {
        json_string(s[0].0) + seq![':'] + json_text(s[0].1)
    } else {
        json_string(s[0].0) + seq![':'] + json_text(s[0].1) + seq![','] + json_members(
            s.subrange(1, s.len() as int),
        )
    }
}

proof fn lemma_json_items_push(s: Seq<SpecValue>, x: SpecValue)
    ensures
        json_items(s.push(x)) == if s.len() == 0 {
            json_text(x)
        } else {
            json_items(s) + seq![','] + json_text(x)
        },
    decreases s.len(),
{
    let p = s.push(x);
    if s.len() == 0 {
        assert(p.len() == 1 && p[0] == x);
    } else {
        assert(p.subrange(1, p.len() as int) =~= s.subrange(1, s.len() as int).push(x));
        lemma_json_items_push(s.subrange(1, s.len() as int), x);
        if s.len() == 1 {
            assert(json_items(p) =~= json_items(s) + seq![','] + json_text(x));
        } else {
            assert(json_items(p) =~= json_items(s) + seq![','] + json_text(x));
        }
    }
}

proof fn lemma_json_members_push(s: Seq<(Seq<char>, SpecValue)>, x: (Seq<char>, SpecValue))
    ensures
        json_members(s.push(x)) == if s.len() == 0 {
            json_string(x.0) + seq![':'] + json_text(x.1)
        } else {
            json_members(s) + seq![','] + json_string(x.0) + seq![':'] + json_text(x.1)
        },
    decreases s.len(),
{
    let p = s.push(x);
    if s.len() == 0 {
        assert(p.len() == 1 && p[0] == x);
    } else {
        assert(p.subrange(1, p.len() as int) =~= s.subrange(1, s.len() as int).push(x));
        lemma_json_members_push(s.subrange(1, s.len() as int), x);
        assert(json_members(p) =~= json_members(s) + seq![','] + json_string(x.0) + seq![':']
            + json_text(x.1));
    }
}

/// Serialize a tree as compact JSON text.
#[verifier::loop_isolation(false)]
#[verifier::rlimit(60)]
pub fn to_json(v: &Value) -> (r: String)
    ensures
        r@ == json_text(v@),
    decreases *v,
{
    match v {
        Value::Null => "null".to_owned(),
        Value::Bool(b) => if *b {
            "true".to_owned()
        } else {
            "false".to_owned()
        },
        Value::Int(n) => fmt_i64(*n),
        Value::UInt(n) => fmt_u64(*n),
        Value::Frac(s) => s.clone(),
        Value::Text(s) => json_quote(s.as_str()),
        Value::Arr(items) => {
            let ghost gitems = vec_view(items@);
            proof {
                lemma_vec_view(items@);
            }
            let n = items.len();
            let mut out = char_string('[');
            let mut i: usize = 0;
            while i < n
                invariant
                    n == items.len(),
                    0 <= i <= n,
                    out@ == seq!['['] + json_items(gitems.subrange(0, i as int)),
                decreases n - i,
            {
                if i > 0 {
                    out.push(',');
                }
                proof {
                    vstd::std_specs::vec::axiom_vec_index_decreases(*items, i as int);
                }
                let part = to_json(&items[i]);
                out.append(part.as_str());
                proof {
                    assert(gitems.subrange(0, i + 1) =~= gitems.subrange(0, i as int).push(
                        gitems[i as int],
                    ));
                    lemma_json_items_push(gitems.subrange(0, i as int), gitems[i as int]);
                    assert(out@ =~= seq!['['] + json_items(gitems.subrange(0, i + 1)));
                }
                i = i + 1;
            }
            out.push(']');
            proof {
                assert(gitems.subrange(0, n as int) =~= gitems);
                assert(out@ =~= json_text(value_view(*v)));
            }
            out
        },
        Value::Obj(fields) => {
            let ghost gf = fields_view(fields@);
            proof {
                lemma_fields_view(fields@);
            }
            let n = fields.len();
            let mut out = char_string('{');
            let mut i: usize = 0;
            while i < n
                invariant
                    n == fields.len(),
                    0 <= i <= n,
                    out@ == seq!['{'] + json_members(gf.subrange(0, i as int)),
                decreases n - i,
            {
                if i > 0 {
                    out.push(',');
                }
                let (k, val) = &fields[i];
                let quoted = json_quote(k.as_str());
                out.append(quoted.as_str());
                out.push(':');
                proof {
                    vstd::std_specs::vec::axiom_vec_index_decreases(*fields, i as int);
                    assert(decreases_to!(*fields => fields@[i as int]));
                    assert(decreases_to!(*v => fields@[i as int].1));
                }
                let part = to_json(val);
                out.append(part.as_str());
                proof {
                    assert(gf.subrange(0, i + 1) =~= gf.subrange(0, i as int).push(gf[i as int]));
                    lemma_json_members_push(gf.subrange(0, i as int), gf[i as int]);
                    assert(out@ =~= seq!['{'] + json_members(gf.subrange(0, i + 1)));
                }
                i = i + 1;
            }
            out.push('}');
            proof {
                assert(gf.subrange(0, n as int) =~= gf);
                assert(out@ =~= json_text(value_view(*v)));
            }
            out
        },
    }
}

/// The compact encoding: redact a copy of the tree, then serialize it as
/// one line of JSON with all keys and all other values untouched.
pub fn output_json(value: &Value) -> (r: String)
    ensures
        r@ == json_text(redact(value@)),
{
    let red = redact_value(value);
    to_json(&red)
}

/// Pretty JSON text of a value tree at `ind` nesting levels: two-space
/// indentation, one element or member per line, empty containers inline.
pub open spec fn json_pretty(v: SpecValue, ind: nat) -> Seq<char>
    decreases v, 0int,
{
    match v {
        SpecValue::Arr(items) => if items.len() == 0 {
            "[]"@
        } else {
            seq!['[', '\n'] + pretty_items(items, 0, ind + 1) + seq!['\n'] + spaces(2 * ind)
                + seq![']']
        },
        SpecValue::Obj(fields) => if fields.len() == 0 {
            "{}"@
        } else {
            seq!['{', '\n'] + pretty_members(fields, 0, ind + 1) + seq!['\n'] + spaces(2 * ind)
                + seq!['}']
        },
        _ => json_text(v),
    }
}

/// The indented element lines of a pretty array from position `j` on,
/// comma-and-newline separated.
pub open spec fn pretty_items(s: Seq<SpecValue>, j: int, ind: nat) -> Seq<char>
    decreases s, 1int, s.len() - j,
{
    if j < 0 || j >= s.len() {
        Seq::empty()
    } else if j == s.len() - 1 {
        spaces(2 * ind) + json_pretty(s[j], ind)
    } else {
        spaces(2 * ind) + json_pretty(s[j], ind) + seq![',', '\n'] + pretty_items(
            s,
            j + 1,
            ind,
        )
    }
}

/// The indented member lines of a pretty object from position `j` on.
pub open spec fn pretty_members(s: Seq<(Seq<char>, SpecValue)>, j: int, ind: nat) -> Seq<char>
    decreases s, 1int, s.len() - j,
{
    if j < 0 || j >= s.len() {
        Seq::empty()
    } else if j == s.len() - 1 {
        spaces(2 * ind) + json_string(s[j].0) + seq![':', ' '] + json_pretty(s[j].1, ind)
    } else {
        spaces(2 * ind) + json_string(s[j].0) + seq![':', ' '] + json_pretty(s[j].1, ind)
            + seq![',', '\n'] + pretty_members(s, j + 1, ind)
    }
}

/// Append the pretty text of one value.
#[verifier::loop_isolation(false)]
fn pretty_into(v: &Value, prefix: &String, Ghost(ind): Ghost<nat>, out: &mut String)
    requires
        prefix@ == spaces(2 * ind),
    ensures
        final (out)@ == old(out)@ + json_pretty(v@, ind),
    decreases *v, 3int, 0int,
{
    let ghost base = old(out)@;
    match v {
        Value::Arr(items) => {
            if items.len() == 0 {
                out.append("[]");
                proof {
                    lemma_vec_view(items@);
                    assert(out@ =~= base + json_pretty(value_view(*v), ind));
                }
            } else {
                proof {
                    assert(decreases_to!(*v => *items));
                }
                pretty_array(items, prefix, Ghost(ind), out);
                proof {
                    lemma_vec_view(items@);
                    assert(out@ =~= base + json_pretty(value_view(*v), ind));
                }
            }
        },
        Value::Obj(fields) => {
            if fields.len() == 0 {
                out.append("{}");
                proof {
                    lemma_fields_view(fields@);
                    assert(out@ =~= base + json_pretty(value_view(*v), ind));
                }
            } else {
                proof {
                    assert(decreases_to!(*v => *fields));
                }
                pretty_object(fields, prefix, Ghost(ind), out);
                proof {
                    lemma_fields_view(fields@);
                    assert(out@ =~= base + json_pretty(value_view(*v), ind));
                }
            }
        },
        _ => {
            let t = to_json(v);
            out.append(t.as_str());
        },
    }
}

/// Append the pretty text of a non-empty array.
#[verifier::loop_isolation(false)]
fn pretty_array(items: &Vec<Value>, prefix: &String, Ghost(ind): Ghost<nat>, out: &mut String)
    requires
        prefix@ == spaces(2 * ind),
        items@.len() > 0,
    ensures
        final (out)@ == old(out)@ + (seq!['[', '\n'] + pretty_items(vec_view(items@), 0, ind + 1)
            + seq!['\n'] + spaces(2 * ind) + seq![']']),
    decreases *items, 2int, 0int,
{
    let ghost base = old(out)@;
    let ghost gitems = vec_view(items@);
    proof {
        lemma_vec_view(items@);
    }
    let n = items.len();
    let mut child = prefix.clone();
    child.append("  ");
    proof {
        lemma_spaces_add(2 * ind, 2);
        reveal_strlit("  ");
        reveal_with_fuel(spaces, 5);
        assert(child@ =~= spaces(2 * (ind + 1)));
    }
    out.push('[');
    out.push('\n');
    let mut j: usize = 0;
    while j < n
        invariant
            n == items.len(),
            n > 0,
            0 <= j <= n,
            out@ + pretty_items(gitems, j as int, ind + 1) == base + seq!['[', '\n']
                + pretty_items(gitems, 0, ind + 1),
        decreases n - j,
    {
        let ghost prev = out@;
        out.append(child.as_str());
        proof {
            vstd::std_specs::vec::axiom_vec_index_decreases(*items, j as int);
        }
        pretty_into(&items[j], &child, Ghost(ind + 1), out);
        if j + 1 < n {
            out.push(',');
            out.push('\n');
            proof {
                assert(out@ =~= prev + (spaces(2 * (ind + 1)) + json_pretty(
                    gitems[j as int],
                    ind + 1,
                ) + seq![',', '\n']));
            }
        } else {
            proof {
                assert(out@ =~= prev + (spaces(2 * (ind + 1)) + json_pretty(
                    gitems[j as int],
                    ind + 1,
                )));
                assert(pretty_items(gitems, j + 1, ind + 1) =~= Seq::<char>::empty());
            }
        }
        j = j + 1;
    }
    out.push('\n');
    out.append(prefix.as_str());
    out.push(']');
    proof {
        assert(pretty_items(gitems, n as int, ind + 1) =~= Seq::<char>::empty());
        assert(out@ =~= base + (seq!['[', '\n'] + pretty_items(gitems, 0, ind + 1)
            + seq!['\n'] + spaces(2 * ind) + seq![']']));
    }
}

/// Append the pretty text of a non-empty object.
#[verifier::loop_isolation(false)]
fn pretty_object(
    fields: &Vec<(String, Value)>,
    prefix: &String,
    Ghost(ind): Ghost<nat>,
    out: &mut String,
)
    requires
        prefix@ == spaces(2 * ind),
        fields@.len() > 0,
    ensures
        final (out)@ == old(out)@ + (seq!['{', '\n'] + pretty_members(
            fields_view(fields@),
            0,
            ind + 1,
        ) + seq!['\n'] + spaces(2 * ind) + seq!['}']),
    decreases *fields, 2int, 0int,
{
    let ghost base = old(out)@;
    let ghost gf = fields_view(fields@);
    proof {
        lemma_fields_view(fields@);
    }
    let n = fields.len();
    let mut child = prefix.clone();
    child.append("  ");
    proof {
        lemma_spaces_add(2 * ind, 2);
        reveal_strlit("  ");
        reveal_with_fuel(spaces, 5);
        assert(child@ =~= spaces(2 * (ind + 1)));
    }
    out.push('{');
    out.push('\n');
    let mut j: usize = 0;
    while j < n
        invariant
            n == fields.len(),
            n > 0,
            0 <= j <= n,
            out@ + pretty_members(gf, j as int, ind + 1) == base + seq!['{', '\n']
                + pretty_members(gf, 0, ind + 1),
        decreases n - j,
    {
        let ghost prev = out@;
        out.append(child.as_str());
        let (k, val) = &fields[j];
        let quoted = json_quote(k.as_str());
        out.append(quoted.as_str());
        out.push(':');
        out.push(' ');
        proof {
            vstd::std_specs::vec::axiom_vec_index_decreases(*fields, j as int);
            assert(decreases_to!(*fields => fields@[j as int]));
            assert(decreases_to!(*fields => fields@[j as int].1));
        }
        pretty_into(val, &child, Ghost(ind + 1), out);
        if j + 1 < n {
            out.push(',');
            out.push('\n');
            proof {
                assert(out@ =~= prev + (spaces(2 * (ind + 1)) + json_string(gf[j as int].0)
                    + seq![':', ' '] + json_pretty(gf[j as int].1, ind + 1) + seq![',', '\n']));
            }
        } else {
            proof {
                assert(out@ =~= prev + (spaces(2 * (ind + 1)) + json_string(gf[j as int].0)
                    + seq![':', ' '] + json_pretty(gf[j as int].1, ind + 1)));
                assert(pretty_members(gf, j + 1, ind + 1) =~= Seq::<char>::empty());
            }
        }
        j = j + 1;
    }
    out.push('\n');
    out.append(prefix.as_str());
    out.push('}');
    proof {
        assert(pretty_members(gf, n as int, ind + 1) =~= Seq::<char>::empty());
        assert(out@ =~= base + (seq!['{', '\n'] + pretty_members(gf, 0, ind + 1) + seq!['\n']
            + spaces(2 * ind) + seq!['}']));
    }
}

/// Serialize a tree as pretty JSON text, two spaces per nesting level.
pub fn to_json_pretty(v: &Value) -> (r: String)
    ensures
        r@ == json_pretty(v@, 0),
{
    let mut out = String::new();
    let prefix = String::new();
    proof {
        assert(prefix@ =~= spaces(0));
    }
    pretty_into(v, &prefix, Ghost(0nat), &mut out);
    proof {
        assert(out@ =~= json_pretty(v@, 0));
    }
    out
}

/// The pretty variant of the compact encoding: redact, then serialize
/// with indentation.
pub fn output_json_pretty(value: &Value) -> (r: String)
    ensures
        r@ == json_pretty(redact(value@), 0),
{
    let red = redact_value(value);
    to_json_pretty(&red)
}

} // verus!
