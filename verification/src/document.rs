//! The document encoding: a quoted multi-line block rendering.  It opens
//! with a `---` line, indents two spaces per nesting level, shows
//! suffix-formatted values as quoted strings, and renders arrays of
//! objects as dashed blocks and arrays of scalars as dashed lines.

use vstd::prelude::*;

use crate::fields::entry_view;
use crate::fields::entry_views;
use crate::fields::lemma_object_entries_wf;
use crate::fields::object_entries;
use crate::fields::process_object;
use crate::json::json_text;
use crate::json::to_json;
use crate::numfmt::dec_int;
use crate::numfmt::dec_nat;
use crate::numfmt::fmt_i64;
use crate::numfmt::fmt_u64;
use crate::strutil::char_string;
use crate::strutil::lemma_spaces_add;
use crate::strutil::spaces;
use crate::value::fields_view;
use crate::value::lemma_fields_view;
use crate::value::lemma_vec_view;
use crate::value::value_view;
use crate::value::vec_view;
use crate::value::SpecValue;
use crate::value::Value;

verus! {

/// The document escape of one string character: backslash, double quote,
/// newline, carriage return and tab become two-character escapes;
/// everything else stands for itself.
pub open spec fn doc_escape_char(c: char) -> Seq<char> {
    if c == '\\' {
        seq!['\\', '\\']
    } else if c == '"' {
        seq!['\\', '"']
    } else if c == '\n' {
        seq!['\\', 'n']
    } else if c == '\r' {
        seq!['\\', 'r']
    } else if c == '\t' {
        seq!['\\', 't']
    } else {
        seq![c]
    }
}

/// The document escape of a whole string, without the quotes.
pub open spec fn doc_escaped(s: Seq<char>) -> Seq<char>
    decreases s.len(),
{
    if s.len() == 0 {
        Seq::empty()
    } else {
        doc_escape_char(s[0]) + doc_escaped(s.subrange(1, s.len() as int))
    }
}

/// A quoted, escaped document string.
pub open spec fn doc_quoted(s: Seq<char>) -> Seq<char> {
    seq!['"'] + doc_escaped(s) + seq!['"']
}

/// Double quotes of a sequence escaped, nothing else.
pub open spec fn quotes_escaped(s: Seq<char>) -> Seq<char>
    decreases s.len(),
{
    if s.len() == 0 {
        Seq::empty()
    } else {
        (if s[0] == '"' {
            seq!['\\', '"']
        } else {
            seq![s[0]]
        }) + quotes_escaped(s.subrange(1, s.len() as int))
    }
}

/// The scalar rendering of the document encoding: strings quoted with the
/// escape set, other scalars as their literal text, containers as their
/// compact JSON with only the quotes escaped, wrapped in quotes.
pub open spec fn doc_scalar(v: SpecValue) -> Seq<char> {
    match v {
        SpecValue::Null => "null"@,
        SpecValue::Bool(b) => if b {
            "true"@
        } else {
            "false"@
        },
        SpecValue::Int(n) => dec_int(n),
        SpecValue::UInt(n) => dec_nat(n),
        SpecValue::Frac(s) => s,
        SpecValue::Text(s) => doc_quoted(s),
        _ => seq!['"'] + quotes_escaped(json_text(v)) + seq!['"'],
    }
}

/// The block lines of one value at `ind` nesting levels: objects render
/// their processed entries in canonical order, anything else is a single
/// scalar line.
pub open spec fn doc_lines(v: SpecValue, ind: nat) -> Seq<Seq<char>>
    decreases v, 3int, 0int,
{
    match v {
        SpecValue::Obj(fields) => doc_entries_lines(fields, object_entries(fields), 0, ind),
        _ => seq![spaces(2 * ind) + doc_scalar(v)],
    }
}

/// The lines of the processed entries from position `j` on.
pub open spec fn doc_entries_lines(
    fields: Seq<(Seq<char>, SpecValue)>,
    es: Seq<(Seq<char>, Option<Seq<char>>, int)>,
    j: int,
    ind: nat,
) -> Seq<Seq<char>>
    decreases fields, 2int, es.len() - j,
{
    if j < 0 || j >= es.len() {
        Seq::empty()
    } else {
        doc_entry_lines(fields, es[j], ind) + doc_entries_lines(fields, es, j + 1, ind)
    }
}

/// The lines of one processed entry: formatted text is always shown
/// quoted; raw values branch on their kind, with empty containers inline
/// and dashed blocks for array elements.
pub open spec fn doc_entry_lines(
    fields: Seq<(Seq<char>, SpecValue)>,
    e: (Seq<char>, Option<Seq<char>>, int),
    ind: nat,
) -> Seq<Seq<char>>
    decreases fields, 1int, 0int,
{
    let pre = spaces(2 * ind);
    match e.1 {
        Some(txt) => seq![pre + e.0 + ": "@ + doc_quoted(txt)],
        None => if 0 <= e.2 < fields.len() {
            match fields[e.2].1 {
                SpecValue::Obj(inner) => if inner.len() == 0 {
                    seq![pre + e.0 + ": {}"@]
                } else {
                    seq![pre + e.0 + ":"@] + doc_lines(fields[e.2].1, ind + 1)
                },
                SpecValue::Arr(items) => if items.len() == 0 {
                    seq![pre + e.0 + ": []"@]
                } else {
                    seq![pre + e.0 + ":"@] + doc_array_lines(items, 0, ind)
                },
                _ => seq![pre + e.0 + ": "@ + doc_scalar(fields[e.2].1)],
            }
        } else {
            Seq::empty()
        },
    }
}

/// The dashed lines of an array's elements from position `j` on: object
/// elements open a `-` line and render as a block two levels deeper,
/// other elements are one dashed scalar line.
pub open spec fn doc_array_lines(items: Seq<SpecValue>, j: int, ind: nat) -> Seq<Seq<char>>
    decreases items, 2int, items.len() - j,
{
    if j < 0 || j >= items.len() {
        Seq::empty()
    } else {
        (match items[j] {
            SpecValue::Obj(_) => seq![spaces(2 * ind) + "  -"@] + doc_lines(items[j], ind + 2),
            _ => seq![spaces(2 * ind) + "  - "@ + doc_scalar(items[j])],
        }) + doc_array_lines(items, j + 1, ind)
    }
}

/// Lines joined with newlines, no trailing newline.
pub open spec fn join_lines(ls: Seq<Seq<char>>) -> Seq<char>
    decreases ls.len(),
{
    if ls.len() == 0 {
        Seq::empty()
    } else if ls.len() == 1 {
        ls[0]
    } else {
        ls[0] + seq!['\n'] + join_lines(ls.subrange(1, ls.len() as int))
    }
}

proof fn lemma_join_lines_push(ls: Seq<Seq<char>>, x: Seq<char>)
    ensures
        join_lines(ls.push(x)) == if ls.len() == 0 {
            x
        } else {
            join_lines(ls) + seq!['\n'] + x
        },
    decreases ls.len(),
{
    let p = ls.push(x);
    if ls.len() == 0 {
        assert(p.len() == 1 && p[0] == x);
    } else {
        assert(p.subrange(1, p.len() as int) =~= ls.subrange(1, ls.len() as int).push(x));
        lemma_join_lines_push(ls.subrange(1, ls.len() as int), x);
        assert(join_lines(p) =~= join_lines(ls) + seq!['\n'] + x);
    }
}

/// The whole document: a `---` separator line followed by the root's
/// block lines, newline-joined with no trailing newline.
pub open spec fn doc_text(v: SpecValue) -> Seq<char> {
    join_lines(seq!["---"@] + doc_lines(v, 0))
}

/// Quote and escape a string for the document encoding.
fn doc_quote(s: &str) -> (r: String)
    ensures
        r@ == doc_quoted(s@),
{
    let n = s.unicode_len();
    let mut out = char_string('"');
    let mut i: usize = 0;
    while i < n
        invariant
            n == s@.len(),
            0 <= i <= n,
            out@ == seq!['"'] + doc_escaped(s@.subrange(0, i as int)),
        decreases n - i,
    {
        let c = s.get_char(i);
        if c == '\\' {
            out.push('\\');
            out.push('\\');
        } else if c == '"' {
            out.push('\\');
            out.push('"');
        } else if c == '\n' {
            out.push('\\');
            out.push('n');
        } else if c == '\r' {
            out.push('\\');
            out.push('r');
        } else if c == '\t' {
            out.push('\\');
            out.push('t');
        } else {
            out.push(c);
        }
        proof {
            assert(s@.subrange(0, i + 1) =~= s@.subrange(0, i as int).push(s@[i as int]));
            lemma_doc_escaped_push(s@.subrange(0, i as int), s@[i as int]);
            assert(out@ =~= seq!['"'] + doc_escaped(s@.subrange(0, i + 1)));
        }
        i = i + 1;
    }
    out.push('"');
    proof {
        assert(s@.subrange(0, n as int) =~= s@);
        assert(out@ =~= doc_quoted(s@));
    }
    out
}

proof fn lemma_doc_escaped_push(s: Seq<char>, c: char)
    ensures
        doc_escaped(s.push(c)) == doc_escaped(s) + doc_escape_char(c),
    decreases s.len(),
{
    let p = s.push(c);
    if s.len() == 0 {
        assert(p.subrange(1, p.len() as int) =~= Seq::<char>::empty());
        assert(p[0] == c);
        assert(doc_escaped(p) == doc_escape_char(c) + doc_escaped(Seq::<char>::empty()));
        assert(doc_escaped(p) =~= doc_escaped(s) + doc_escape_char(c));
    } else {
        assert(p.subrange(1, p.len() as int) =~= s.subrange(1, s.len() as int).push(c));
        lemma_doc_escaped_push(s.subrange(1, s.len() as int), c);
        assert(doc_escaped(p) =~= doc_escaped(s) + doc_escape_char(c));
    }
}

proof fn lemma_quotes_escaped_push(s: Seq<char>, c: char)
    ensures
        quotes_escaped(s.push(c)) == quotes_escaped(s) + (if c == '"' {
            seq!['\\', '"']
        } else {
            seq![c]
        }),
    decreases s.len(),
{
    let p = s.push(c);
    let tail: Seq<char> = if c == '"' {
        seq!['\\', '"']
    } else {
        seq![c]
    };
    if s.len() == 0 {
        assert(p.subrange(1, p.len() as int) =~= Seq::<char>::empty());
        assert(p[0] == c);
        assert(quotes_escaped(p) == tail + quotes_escaped(Seq::<char>::empty()));
        assert(quotes_escaped(p) =~= quotes_escaped(s) + tail);
    } else {
        assert(p.subrange(1, p.len() as int) =~= s.subrange(1, s.len() as int).push(c));
        lemma_quotes_escaped_push(s.subrange(1, s.len() as int), c);
        assert(quotes_escaped(p) =~= quotes_escaped(s) + tail);
    }
}

/// The document scalar rendering of one value.
fn doc_scalar_exec(v: &Value) -> (r: String)
    ensures
        r@ == doc_scalar(v@),
{
    match v {
        Value::Null => "null".to_owned(),
        Value::Bool(b) => if *b {
            "true".to_owned()
        } else {
            "false".to_owned()
        },
        Value::Int(n) => fmt_i64(*n),
        Value::UInt(n) => fmt_u64(*n),
        Value::Frac(s) => s.clone(),
        Value::Text(s) => doc_quote(s.as_str()),
        _ => {
            let j = to_json(v);
            let jn = j.as_str().unicode_len();
            let mut out = char_string('"');
            let mut i: usize = 0;
            while i < jn
                invariant
                    jn == j@.len(),
                    0 <= i <= jn,
                    out@ == seq!['"'] + quotes_escaped(j@.subrange(0, i as int)),
                decreases jn - i,
            {
                let c = j.as_str().get_char(i);
                if c == '"' {
                    out.push('\\');
                    out.push('"');
                } else {
                    out.push(c);
                }
                proof {
                    assert(j@.subrange(0, i + 1) =~= j@.subrange(0, i as int).push(
                        j@[i as int],
                    ));
                    lemma_quotes_escaped_push(j@.subrange(0, i as int), j@[i as int]);
                    assert(out@ =~= seq!['"'] + quotes_escaped(j@.subrange(0, i + 1)));
                }
                i = i + 1;
            }
            out.push('"');
            proof {
                assert(j@.subrange(0, jn as int) =~= j@);
                assert(out@ =~= doc_scalar(value_view(*v)));
            }
            out
        },
    }
}

/// Push one rendered line.
fn push_line(lines: &mut Vec<String>, line: String)
    ensures
        final (lines).deep_view() == old(lines).deep_view().push(line@),
{
    let ghost prev = lines.deep_view();
    lines.push(line);
    proof {
        assert(lines.deep_view() =~= prev.push(line@));
    }
}

/// Append the block lines of one value.
#[verifier::loop_isolation(false)]
fn doc_value_lines(v: &Value, prefix: &String, Ghost(ind): Ghost<nat>, lines: &mut Vec<String>)
    requires
        prefix@ == spaces(2 * ind),
    ensures
        final (lines).deep_view() == old(lines).deep_view() + doc_lines(v@, ind),
    decreases *v, 3int, 0int,
{
    let ghost base = old(lines).deep_view();
    match v {
        Value::Obj(fields) => {
            let ghost gf = fields_view(fields@);
            proof {
                lemma_fields_view(fields@);
                lemma_object_entries_wf(gf);
            }
            let entries = process_object(fields);
            let ghost ges = entry_views(entries@);
            let m = entries.len();
            let mut j: usize = 0;
            while j < m
                invariant
                    m == entries.len(),
                    0 <= j <= m,
                    lines.deep_view() + doc_entries_lines(gf, ges, j as int, ind) == base
                        + doc_entries_lines(gf, ges, 0, ind),
                decreases m - j,
            {
                let ghost prev = lines.deep_view();
                proof {
                    assert(entry_view(entries@[j as int]) == ges[j as int]);
                    assert(0 <= ges[j as int].2 < gf.len());
                }
                doc_entry_exec(fields, &entries[j], prefix, Ghost(ind), lines);
                proof {
                    assert(doc_entries_lines(gf, ges, j as int, ind) == doc_entry_lines(
                        gf,
                        ges[j as int],
                        ind,
                    ) + doc_entries_lines(gf, ges, j + 1, ind));
                }
                j = j + 1;
            }
            proof {
                assert(doc_entries_lines(gf, ges, m as int, ind) =~= Seq::<Seq<char>>::empty());
                assert(lines.deep_view() =~= base + doc_lines(value_view(*v), ind));
            }
        },
        _ => {
            let mut line = prefix.clone();
            let sc = doc_scalar_exec(v);
            line.append(sc.as_str());
            push_line(lines, line);
            proof {
                assert(lines.deep_view() =~= base + doc_lines(value_view(*v), ind));
            }
        },
    }
}

/// Append the lines of one processed entry.
#[verifier::loop_isolation(false)]
fn doc_entry_exec(
    fields: &Vec<(String, Value)>,
    e: &crate::fields::FieldEntry,
    prefix: &String,
    Ghost(ind): Ghost<nat>,
    lines: &mut Vec<String>,
)
    requires
        prefix@ == spaces(2 * ind),
        0 <= entry_view(*e).2 < fields_view(fields@).len(),
        (entry_view(*e).1 is None) ==> entry_view(*e).0 == fields_view(
            fields@,
        )[entry_view(*e).2].0,
    ensures
        final (lines).deep_view() == old(lines).deep_view() + doc_entry_lines(
            fields_view(fields@),
            entry_view(*e),
            ind,
        ),
    decreases *fields, 1int, 0int,
{
    let ghost gf = fields_view(fields@);
    let ghost ge = entry_view(*e);
    let ghost prev = old(lines).deep_view();
    proof {
        lemma_fields_view(fields@);
    }
    match &e.formatted {
        Some(txt) => {
            let mut line = prefix.clone();
            line.append(e.display.as_str());
            line.append(": ");
            let q = doc_quote(txt.as_str());
            line.append(q.as_str());
            push_line(lines, line);
            proof {
                assert(lines.deep_view() =~= prev + doc_entry_lines(gf, ge, ind));
            }
        },
        None => {
            let idx = e.idx;
            let val = &fields[idx].1;
            proof {
                assert(value_view(*val) == gf[ge.2].1);
            }
            match val {
                Value::Obj(inner) => {
                    if inner.len() == 0 {
                        let mut line = prefix.clone();
                        line.append(e.display.as_str());
                        line.append(": {}");
                        push_line(lines, line);
                        proof {
                            assert(fields_view(inner@) =~= Seq::<(Seq<char>, SpecValue)>::empty());
                            assert(lines.deep_view() =~= prev + doc_entry_lines(gf, ge, ind));
                        }
                    } else {
                        let mut line = prefix.clone();
                        line.append(e.display.as_str());
                        line.append(":");
                        push_line(lines, line);
                        let mut child = prefix.clone();
                        child.append("  ");
                        proof {
                            lemma_spaces_add(2 * ind, 2);
                            reveal_strlit("  ");
                            reveal_with_fuel(spaces, 5);
                            assert(child@ =~= spaces(2 * (ind + 1)));
                            vstd::std_specs::vec::axiom_vec_index_decreases(*fields, idx as int);
                            assert(decreases_to!(*fields => fields@[idx as int]));
                            crate::value::lemma_fields_view(inner@);
                        }
                        doc_value_lines(val, &child, Ghost(ind + 1), lines);
                        proof {
                            assert(lines.deep_view() =~= prev + doc_entry_lines(gf, ge, ind));
                        }
                    }
                },
                Value::Arr(items) => {
                    if items.len() == 0 {
                        let mut line = prefix.clone();
                        line.append(e.display.as_str());
                        line.append(": []");
                        push_line(lines, line);
                        proof {
                            assert(vec_view(items@) =~= Seq::<SpecValue>::empty());
                            assert(lines.deep_view() =~= prev + doc_entry_lines(gf, ge, ind));
                        }
                    } else {
                        let mut line = prefix.clone();
                        line.append(e.display.as_str());
                        line.append(":");
                        push_line(lines, line);
                        proof {
                            vstd::std_specs::vec::axiom_vec_index_decreases(*fields, idx as int);
                            assert(decreases_to!(*fields => fields@[idx as int]));
                            assert(decreases_to!(*fields => fields@[idx as int].1));
                        }
                        doc_array_items(items, prefix, Ghost(ind), lines);
                        proof {
                            lemma_vec_view(items@);
                            assert(lines.deep_view() =~= prev + doc_entry_lines(gf, ge, ind));
                        }
                    }
                },
                _ => {
                    let mut line = prefix.clone();
                    line.append(e.display.as_str());
                    line.append(": ");
                    let sc = doc_scalar_exec(val);
                    line.append(sc.as_str());
                    push_line(lines, line);
                    proof {
                        assert(lines.deep_view() =~= prev + doc_entry_lines(gf, ge, ind));
                    }
                },
            }
        },
    }
}

/// Append the dashed lines of an array's elements.
#[verifier::loop_isolation(false)]
fn doc_array_items(items: &Vec<Value>, prefix: &String, Ghost(ind): Ghost<nat>, lines: &mut Vec<
    String,
>)
    requires
        prefix@ == spaces(2 * ind),
    ensures
        final (lines).deep_view() == old(lines).deep_view() + doc_array_lines(
            vec_view(items@),
            0,
            ind,
        ),
    decreases *items, 2int, 0int,
{
    let ghost base = old(lines).deep_view();
    let ghost gitems = vec_view(items@);
    proof {
        lemma_vec_view(items@);
    }
    let n = items.len();
    let mut t: usize = 0;
    while t < n
        invariant
            n == items.len(),
            0 <= t <= n,
            lines.deep_view() + doc_array_lines(gitems, t as int, ind) == base
                + doc_array_lines(gitems, 0, ind),
        decreases n - t,
    {
        let ghost prev = lines.deep_view();
        let ghost item_block = (match gitems[t as int] {
            SpecValue::Obj(_) => seq![spaces(2 * ind) + "  -"@] + doc_lines(
                gitems[t as int],
                ind + 2,
            ),
            _ => seq![spaces(2 * ind) + "  - "@ + doc_scalar(gitems[t as int])],
        });
        let item = &items[t];
        match item {
            Value::Obj(_) => {
                let mut line = prefix.clone();
                line.append("  -");
                push_line(lines, line);
                let mut child = prefix.clone();
                child.append("    ");
                proof {
                    lemma_spaces_add(2 * ind, 4);
                    reveal_strlit("    ");
                    reveal_with_fuel(spaces, 7);
                    assert(child@ =~= spaces(2 * (ind + 2)));
                    vstd::std_specs::vec::axiom_vec_index_decreases(*items, t as int);
                }
                doc_value_lines(item, &child, Ghost(ind + 2), lines);
                proof {
                    assert(lines.deep_view() =~= prev + item_block);
                }
            },
            _ => {
                let mut line = prefix.clone();
                line.append("  - ");
                let sc = doc_scalar_exec(item);
                line.append(sc.as_str());
                push_line(lines, line);
                proof {
                    assert(lines.deep_view() =~= prev + item_block);
                }
            },
        }
        proof {
            assert(doc_array_lines(gitems, t as int, ind) == item_block + doc_array_lines(
                gitems,
                t + 1,
                ind,
            ));
        }
        t = t + 1;
    }
    proof {
        assert(doc_array_lines(gitems, n as int, ind) =~= Seq::<Seq<char>>::empty());
        assert(lines.deep_view() =~= base + doc_array_lines(gitems, 0, ind));
    }
}

/// Join rendered lines with newlines.
#[verifier::loop_isolation(false)]
fn join_lines_exec(lines: &Vec<String>) -> (r: String)
    ensures
        r@ == join_lines(lines.deep_view()),
{
    let ghost gl = lines.deep_view();
    let n = lines.len();
    let mut out = String::new();
    let mut i: usize = 0;
    while i < n
        invariant
            n == lines.len(),
            0 <= i <= n,
            out@ == join_lines(gl.subrange(0, i as int)),
        decreases n - i,
    {
        if i > 0 {
            out.push('\n');
        }
        out.append(lines[i].as_str());
        proof {
            assert(gl.subrange(0, i + 1) =~= gl.subrange(0, i as int).push(gl[i as int]));
            lemma_join_lines_push(gl.subrange(0, i as int), gl[i as int]);
            assert(out@ =~= join_lines(gl.subrange(0, i + 1)));
        }
        i = i + 1;
    }
    proof {
        assert(gl.subrange(0, n as int) =~= gl);
    }
    out
}

/// The document encoding of a tree: `---`, then the quoted block
/// structure, newline-joined with no trailing newline.
pub fn output_yaml(value: &Value) -> (r: String)
    ensures
        r@ == doc_text(value@),
{
    let mut lines: Vec<String> = Vec::new();
    lines.push("---".to_owned());
    proof {
        assert(lines.deep_view() =~= seq!["---"@]);
    }
    let prefix = String::new();
    proof {
        assert(prefix@ =~= spaces(0));
    }
    doc_value_lines(value, &prefix, Ghost(0nat), &mut lines);
    proof {
        assert(lines.deep_view() =~= seq!["---"@] + doc_lines(value@, 0));
    }
    join_lines_exec(&lines)
}

/// The document encoding of a tree.
pub fn to_yaml(value: &Value) -> (r: String)
    ensures
        r@ == doc_text(value@),
{
    output_yaml(value)
}

} // verus!
