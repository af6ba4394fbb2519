//! Per-object field processing shared by the document and line renderers:
//! classify every field, revert the renamed members of display-key
//! collisions, and sort the survivors by canonical key order.

use vstd::prelude::*;

use crate::classify::classify;
use crate::classify::classify_field;
use crate::classify::display_key;
use crate::jcs::key_lt;
use crate::jcs::str_key_lt;
use crate::value::fields_view;
use crate::value::SpecValue;
use crate::value::Value;

verus! {

/// One processed field: its display key, its formatted text when a rule
/// applied and survived collision resolution, and the index of the source
/// field in the owning object.
pub struct FieldEntry {
    pub display: String,
    pub formatted: Option<String>,
    pub idx: usize,
}

/// The model of a processed field.
pub open spec fn entry_view(e: FieldEntry) -> (Seq<char>, Option<Seq<char>>, int) {
    (
        e.display@,
        match e.formatted {
            Some(s) => Some(s@),
            None => None,
        },
        e.idx as int,
    )
}

/// The models of a processed field list.
pub open spec fn entry_views(s: Seq<FieldEntry>) -> Seq<(Seq<char>, Option<Seq<char>>, int)> {
    Seq::new(s.len(), |i: int| entry_view(s[i]))
}

/// Another field of the same object aliases to the same display name.
pub open spec fn collides(gf: Seq<(Seq<char>, SpecValue)>, i: int) -> bool {
    exists|j: int|
        0 <= j < gf.len() && j != i && display_key(gf[j].0, gf[j].1) == display_key(
            gf[i].0,
            gf[i].1,
        )
}

/// The entries of one object after classification and collision
/// resolution, still in field order: a classified field keeps its stripped
/// key and formatted text unless its display name collides, in which case
/// it reverts to the original key and the raw value; unmatched fields pass
/// through untouched.
pub open spec fn resolved_entries(gf: Seq<(Seq<char>, SpecValue)>) -> Seq<
    (Seq<char>, Option<Seq<char>>, int),
> {
    Seq::new(
        gf.len(),
        |i: int|
            match classify(gf[i].0, gf[i].1) {
                Some(p) => if collides(gf, i) {
                    (gf[i].0, None, i)
                } else {
                    (p.0, Some(p.1), i)
                },
                None => (gf[i].0, None, i),
            },
    )
}

/// Stable insertion of an entry into a display-key-sorted entry list: the
/// entry lands before the first element that does not order strictly below
/// it.
pub open spec fn insert_entry(
    x: (Seq<char>, Option<Seq<char>>, int),
    s: Seq<(Seq<char>, Option<Seq<char>>, int)>,
) -> Seq<(Seq<char>, Option<Seq<char>>, int)>
    decreases s.len(),
{
    if s.len() == 0 {
        seq![x]
    } else if key_lt(s[0].0, x.0) {
        seq![s[0]] + insert_entry(x, s.subrange(1, s.len() as int))
    } else {
        seq![x] + s
    }
}

/// Stable insertion sort by canonical display-key order.
pub open spec fn sort_entries(s: Seq<(Seq<char>, Option<Seq<char>>, int)>) -> Seq<
    (Seq<char>, Option<Seq<char>>, int),
>
    decreases s.len(),
{
    if s.len() == 0 {
        s
    } else {
        insert_entry(s[0], sort_entries(s.subrange(1, s.len() as int)))
    }
}

/// The fully processed, sorted entry list of one object's fields.
pub open spec fn object_entries(gf: Seq<(Seq<char>, SpecValue)>) -> Seq<
    (Seq<char>, Option<Seq<char>>, int),
> {
    sort_entries(resolved_entries(gf))
}

/// Insertion only rearranges: every element of the output is the inserted
/// entry or one of the input's.
pub proof fn lemma_insert_entry_elems(
    x: (Seq<char>, Option<Seq<char>>, int),
    s: Seq<(Seq<char>, Option<Seq<char>>, int)>,
)
    ensures
        insert_entry(x, s).len() == s.len() + 1,
        forall|i: int|
            0 <= i < insert_entry(x, s).len() ==> #[trigger] insert_entry(x, s)[i] == x
                || exists|j: int| 0 <= j < s.len() && insert_entry(x, s)[i] == s[j],
    decreases s.len(),
{
    if s.len() > 0 && key_lt(s[0].0, x.0) {
        let tail = s.subrange(1, s.len() as int);
        lemma_insert_entry_elems(x, tail);
        assert forall|i: int| 0 <= i < insert_entry(x, s).len() implies #[trigger] insert_entry(
            x,
            s,
        )[i] == x || exists|j: int| 0 <= j < s.len() && insert_entry(x, s)[i] == s[j] by {
            if i > 0 {
                let e = insert_entry(x, tail)[i - 1];
                assert(insert_entry(x, s)[i] == e);
                if e != x {
                    let j = choose|j: int| 0 <= j < tail.len() && e == tail[j];
                    assert(insert_entry(x, s)[i] == s[j + 1]);
                }
            }
        }
    }
}

/// Sorting only rearranges: every element of the output is one of the
/// input's.
pub proof fn lemma_sort_entries_elems(s: Seq<(Seq<char>, Option<Seq<char>>, int)>)
    ensures
        sort_entries(s).len() == s.len(),
        forall|i: int|
            0 <= i < sort_entries(s).len() ==> exists|j: int|
                0 <= j < s.len() && #[trigger] sort_entries(s)[i] == s[j],
    decreases s.len(),
{
    if s.len() > 0 {
        let tail = s.subrange(1, s.len() as int);
        lemma_sort_entries_elems(tail);
        lemma_insert_entry_elems(s[0], sort_entries(tail));
        assert forall|i: int| 0 <= i < sort_entries(s).len() implies exists|j: int|
            0 <= j < s.len() && #[trigger] sort_entries(s)[i] == s[j] by {
            let e = sort_entries(s)[i];
            assert(insert_entry(s[0], sort_entries(tail))[i] == e);
            if e == s[0] {
                assert(0 <= 0 < s.len() && e == s[0]);
            } else {
                let j = choose|j: int|
                    0 <= j < sort_entries(tail).len() && e == sort_entries(tail)[j];
                let j2 = choose|j2: int| 0 <= j2 < tail.len() && sort_entries(tail)[j] == tail[j2];
                assert(e == s[j2 + 1]);
            }
        }
    }
}

/// Insertion loses nothing: the inserted entry and every entry of the
/// input stand somewhere in the output.
pub proof fn lemma_insert_entry_contains(
    x: (Seq<char>, Option<Seq<char>>, int),
    s: Seq<(Seq<char>, Option<Seq<char>>, int)>,
)
    ensures
        exists|p: int| 0 <= p < insert_entry(x, s).len() && insert_entry(x, s)[p] == x,
        forall|j: int|
            0 <= j < s.len() ==> exists|p: int|
                0 <= p < insert_entry(x, s).len() && insert_entry(x, s)[p] == #[trigger] s[j],
    decreases s.len(),
{
    let r = insert_entry(x, s);
    if s.len() == 0 {
        assert(r[0] == x);
    } else if key_lt(s[0].0, x.0) {
        let tail = s.subrange(1, s.len() as int);
        lemma_insert_entry_contains(x, tail);
        let rt = insert_entry(x, tail);
        let p0 = choose|p: int| 0 <= p < rt.len() && rt[p] == x;
        assert(r[p0 + 1] == x);
        assert forall|j: int| 0 <= j < s.len() implies exists|p: int|
            0 <= p < r.len() && r[p] == #[trigger] s[j] by {
            if j == 0 {
                assert(r[0] == s[0]);
            } else {
                assert(tail[j - 1] == s[j]);
                let p = choose|p: int| 0 <= p < rt.len() && rt[p] == tail[j - 1];
                assert(r[p + 1] == s[j]);
            }
        }
    } else {
        assert(r[0] == x);
        assert forall|j: int| 0 <= j < s.len() implies exists|p: int|
            0 <= p < r.len() && r[p] == #[trigger] s[j] by {
            assert(r[j + 1] == s[j]);
        }
    }
}

/// Sorting loses nothing: every entry of the input stands somewhere in
/// the output.
pub proof fn lemma_sort_entries_contains(s: Seq<(Seq<char>, Option<Seq<char>>, int)>)
    ensures
        forall|j: int|
            0 <= j < s.len() ==> exists|p: int|
                0 <= p < sort_entries(s).len() && sort_entries(s)[p] == #[trigger] s[j],
    decreases s.len(),
{
    if s.len() > 0 {
        let tail = s.subrange(1, s.len() as int);
        lemma_sort_entries_contains(tail);
        lemma_insert_entry_contains(s[0], sort_entries(tail));
        let r = sort_entries(s);
        assert forall|j: int| 0 <= j < s.len() implies exists|p: int|
            0 <= p < r.len() && r[p] == #[trigger] s[j] by {
            if j == 0 {
                let p = choose|p: int| 0 <= p < r.len() && r[p] == s[0];
                assert(r[p] == s[j]);
            } else {
                assert(tail[j - 1] == s[j]);
                let q = choose|q: int|
                    0 <= q < sort_entries(tail).len() && sort_entries(tail)[q] == tail[j - 1];
                let p = choose|p: int| 0 <= p < r.len() && r[p] == sort_entries(tail)[q];
                assert(r[p] == s[j]);
            }
        }
    }
}

/// Every index carried by an object's processed entries points into the
/// field list, and an entry without formatted text carries the field's own
/// key as its display key.
pub proof fn lemma_object_entries_wf(gf: Seq<(Seq<char>, SpecValue)>)
    ensures
        object_entries(gf).len() == gf.len(),
        forall|i: int|
            0 <= i < object_entries(gf).len() ==> {
                let e = #[trigger] object_entries(gf)[i];
                &&& 0 <= e.2 < gf.len()
                &&& (e.1 is None ==> e.0 == gf[e.2].0)
                &&& (match classify(gf[e.2].0, gf[e.2].1) {
                    Some(p) => if collides(gf, e.2) {
                        e == (gf[e.2].0, Option::<Seq<char>>::None, e.2)
                    } else {
                        e == (p.0, Some(p.1), e.2)
                    },
                    None => e == (gf[e.2].0, Option::<Seq<char>>::None, e.2),
                })
            },
{
    lemma_sort_entries_elems(resolved_entries(gf));
    assert forall|i: int| 0 <= i < object_entries(gf).len() implies {
        let e = #[trigger] object_entries(gf)[i];
        &&& 0 <= e.2 < gf.len()
        &&& (e.1 is None ==> e.0 == gf[e.2].0)
        &&& (match classify(gf[e.2].0, gf[e.2].1) {
            Some(p) => if collides(gf, e.2) {
                e == (gf[e.2].0, Option::<Seq<char>>::None, e.2)
            } else {
                e == (p.0, Some(p.1), e.2)
            },
            None => e == (gf[e.2].0, Option::<Seq<char>>::None, e.2),
        })
    } by {
        let e = object_entries(gf)[i];
        let j = choose|j: int|
            0 <= j < resolved_entries(gf).len() && sort_entries(resolved_entries(gf))[i]
                == resolved_entries(gf)[j];
        assert(resolved_entries(gf)[j].2 == j);
    }
}

/// Classify and collision-resolve the fields of one object, in field
/// order.
fn resolve_fields(fields: &Vec<(String, Value)>) -> (r: Vec<FieldEntry>)
    ensures
        entry_views(r@) == resolved_entries(fields_view(fields@)),
{
    let ghost gf = fields_view(fields@);
    proof {
        crate::value::lemma_fields_view(fields@);
    }
    let n = fields.len();
    let mut cand: Vec<FieldEntry> = Vec::new();
    let mut i: usize = 0;
    while i < n
        invariant
            n == fields.len(),
            gf == fields_view(fields@),
            gf.len() == n,
            forall|k: int|
                0 <= k < n ==> #[trigger] gf[k] == (
                    fields@[k].0@,
                    crate::value::value_view(fields@[k].1),
                ),
            0 <= i <= n,
            cand@.len() == i,
            forall|k: int|
                0 <= k < i ==> #[trigger] entry_view(cand@[k]) == (
                    match classify(gf[k].0, gf[k].1) {
                        Some(p) => (p.0, Some(p.1), k),
                        None => (gf[k].0, Option::<Seq<char>>::None, k),
                    }),
        decreases n - i,
    {
        let (k, v) = &fields[i];
        let e = match classify_field(k.as_str(), v) {
            Some(p) => FieldEntry { display: p.0, formatted: Some(p.1), idx: i },
            None => FieldEntry { display: k.clone(), formatted: None, idx: i },
        };
        cand.push(e);
        i = i + 1;
    }
    proof {
        assert forall|k: int| 0 <= k < n implies (#[trigger] cand@[k].display)@ == display_key(
            gf[k].0,
            gf[k].1,
        ) by {
            assert(entry_view(cand@[k]) == (match classify(gf[k].0, gf[k].1) {
                Some(p) => (p.0, Some(p.1), k),
                None => (gf[k].0, Option::<Seq<char>>::None, k),
            }));
        }
    }
    let mut out: Vec<FieldEntry> = Vec::new();
    let mut i: usize = 0;
    while i < n
        invariant
            n == fields.len(),
            gf == fields_view(fields@),
            gf.len() == n,
            forall|k: int|
                0 <= k < n ==> #[trigger] gf[k] == (
                    fields@[k].0@,
                    crate::value::value_view(fields@[k].1),
                ),
            cand@.len() == n,
            forall|k: int|
                0 <= k < n ==> #[trigger] entry_view(cand@[k]) == (
                    match classify(gf[k].0, gf[k].1) {
                        Some(p) => (p.0, Some(p.1), k),
                        None => (gf[k].0, Option::<Seq<char>>::None, k),
                    }),
            forall|k: int| 0 <= k < n ==> (#[trigger] cand@[k].display)@ == display_key(
                gf[k].0,
                gf[k].1,
            ),
            0 <= i <= n,
            out@.len() == i,
            forall|k: int|
                0 <= k < i ==> #[trigger] entry_view(out@[k]) == resolved_entries(gf)[k],
        decreases n - i,
    {
        let renamed = cand[i].formatted.is_some();
        let mut hit = false;
        if renamed {
            let mut j: usize = 0;
            while j < n
                invariant
                    n == fields.len(),
                    gf.len() == n,
                    cand@.len() == n,
                    forall|k: int| 0 <= k < n ==> (#[trigger] cand@[k].display)@ == display_key(
                        gf[k].0,
                        gf[k].1,
                    ),
                    0 <= j <= n,
                    0 <= i < n,
                    hit == exists|q: int|
                        0 <= q < j && q != i && display_key(gf[q].0, gf[q].1) == display_key(
                            gf[i as int].0,
                            gf[i as int].1,
                        ),
                decreases n - j,
            {
                if j != i {
                    if crate::value::str_eq(cand[j].display.as_str(), cand[i].display.as_str()) {
                        proof {
                            assert(display_key(gf[j as int].0, gf[j as int].1) == display_key(
                                gf[i as int].0,
                                gf[i as int].1,
                            ));
                        }
                        hit = true;
                    }
                }
                j = j + 1;
            }
        }
        proof {
            if renamed {
                assert(hit == collides(gf, i as int));
            }
        }
        let e = if renamed && hit {
            let (k, _) = &fields[i];
            FieldEntry { display: k.clone(), formatted: None, idx: i }
        } else {
            let c = &cand[i];
            let f = match &c.formatted {
                Some(t) => Some(t.clone()),
                None => None,
            };
            FieldEntry { display: c.display.clone(), formatted: f, idx: c.idx }
        };
        proof {
            assert(entry_view(e) == resolved_entries(gf)[i as int]);
        }
        out.push(e);
        i = i + 1;
    }
    proof {
        assert(entry_views(out@) =~= resolved_entries(gf));
    }
    out
}

/// Stable insertion into a sorted entry list.
fn insert_sorted(x: FieldEntry, v: Vec<FieldEntry>) -> (r: Vec<FieldEntry>)
    ensures
        entry_views(r@) == insert_entry(entry_view(x), entry_views(v@)),
    decreases v@.len(),
{
    if v.len() == 0 {
        let mut r: Vec<FieldEntry> = Vec::new();
        r.push(x);
        proof {
            assert(entry_views(r@) =~= insert_entry(entry_view(x), entry_views(v@)));
        }
        r
    } else if str_key_lt(v[0].display.as_str(), x.display.as_str()) {
        let mut rest = v;
        let first = rest.remove(0);
        let ghost grest = entry_views(rest@);
        let mut r = insert_sorted(x, rest);
        r.insert(0, first);
        proof {
            assert(grest =~= entry_views(v@).subrange(1, entry_views(v@).len() as int));
            assert(entry_views(r@) =~= insert_entry(entry_view(x), entry_views(v@)));
        }
        r
    } else {
        let mut r = v;
        r.insert(0, x);
        proof {
            assert(entry_views(r@) =~= insert_entry(entry_view(x), entry_views(v@)));
        }
        r
    }
}

/// Stable insertion sort of processed entries by display key.
fn sort_field_entries(v: Vec<FieldEntry>) -> (r: Vec<FieldEntry>)
    ensures
        entry_views(r@) == sort_entries(entry_views(v@)),
    decreases v@.len(),
{
    if v.len() == 0 {
        proof {
            assert(entry_views(v@) =~= Seq::<(Seq<char>, Option<Seq<char>>, int)>::empty());
        }
        v
    } else {
        let mut rest = v;
        let first = rest.remove(0);
        let ghost grest = entry_views(rest@);
        let sorted = sort_field_entries(rest);
        proof {
            assert(grest =~= entry_views(v@).subrange(1, entry_views(v@).len() as int));
        }
        insert_sorted(first, sorted)
    }
}

/// The processed, collision-resolved, canonically sorted entries of one
/// object's fields.
pub fn process_object(fields: &Vec<(String, Value)>) -> (r: Vec<FieldEntry>)
    ensures
        entry_views(r@) == object_entries(fields_view(fields@)),
{
    let resolved = resolve_fields(fields);
    sort_field_entries(resolved)
}

} // verus!
