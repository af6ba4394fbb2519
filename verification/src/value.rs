//! The structured value tree that every renderer consumes: null, booleans,
//! numbers (integer-valued and fractional kept apart), text, arrays and
//! objects with ordered string keys.

use vstd::prelude::*;

verus! {

/// Mathematical model of a [`Value`] tree.
///
/// Numbers keep three shapes: signed integers, unsigned integers that may
/// exceed `i64`, and fractional numbers carried as their exact literal text
/// so that rendering reproduces the source spelling byte for byte.
pub enum SpecValue {
    Null,
    Bool(bool),
    Int(int),
    UInt(int),
    Frac(Seq<char>),
    Text(Seq<char>),
    Arr(Seq<SpecValue>),
    Obj(Seq<(Seq<char>, SpecValue)>),
}

/// A structured value tree: the input of every renderer.
pub enum Value {
    Null,
    Bool(bool),
    Int(i64),
    UInt(u64),
    Frac(String),
    Text(String),
    Arr(Vec<Value>),
    Obj(Vec<(String, Value)>),
}

pub open spec fn value_view(v: Value) -> SpecValue
    decreases v, 0int,
{
    match v {
        Value::Null => SpecValue::Null,
        Value::Bool(b) => SpecValue::Bool(b),
        Value::Int(n) => SpecValue::Int(n as int),
        Value::UInt(n) => SpecValue::UInt(n as int),
        Value::Frac(s) => SpecValue::Frac(s@),
        Value::Text(s) => SpecValue::Text(s@),
        Value::Arr(items) => SpecValue::Arr(vec_view(items@)),
        Value::Obj(fields) => SpecValue::Obj(fields_view(fields@)),
    }
}

pub open spec fn vec_view(s: Seq<Value>) -> Seq<SpecValue>
    decreases s, 1int,
{
    if s.len() == 0 {
        Seq::empty()
    } else {
        seq![value_view(s[0])] + vec_view(s.subrange(1, s.len() as int))
    }
}

pub open spec fn fields_view(s: Seq<(String, Value)>) -> Seq<(Seq<char>, SpecValue)>
    decreases s, 1int,
{
    if s.len() == 0 {
        Seq::empty()
    } else {
        seq![(s[0].0@, value_view(s[0].1))] + fields_view(s.subrange(1, s.len() as int))
    }
}

/// `vec_view` is the pointwise view of its argument.
pub broadcast proof fn lemma_vec_view(s: Seq<Value>)
    ensures
        (#[trigger] vec_view(s)).len() == s.len(),
        forall|i: int| 0 <= i < s.len() ==> vec_view(s)[i] == value_view(s[i]),
    decreases s.len(),
{
    if s.len() > 0 {
        lemma_vec_view(s.subrange(1, s.len() as int));
    }
}

/// `fields_view` is the pointwise view of its argument.
pub broadcast proof fn lemma_fields_view(s: Seq<(String, Value)>)
    ensures
        (#[trigger] fields_view(s)).len() == s.len(),
        forall|i: int|
            0 <= i < s.len() ==> fields_view(s)[i] == (s[i].0@, value_view(s[i].1)),
    decreases s.len(),
{
    if s.len() > 0 {
        lemma_fields_view(s.subrange(1, s.len() as int));
    }
}

impl View for Value {
    type V = SpecValue;

    open spec fn view(&self) -> SpecValue {
        value_view(*self)
    }
}

impl SpecValue {
    /// Scalars are everything but arrays and objects.
    pub open spec fn is_scalar(self) -> bool {
        match self {
            SpecValue::Arr(_) => false,
            SpecValue::Obj(_) => false,
            _ => true,
        }
    }

    /// Integers, unsigned integers and fractional numbers.
    pub open spec fn is_number(self) -> bool {
        match self {
            SpecValue::Int(_) => true,
            SpecValue::UInt(_) => true,
            SpecValue::Frac(_) => true,
            _ => false,
        }
    }

    /// The signed 64-bit reading of an integer-valued number, if it has one.
    pub open spec fn spec_as_i64(self) -> Option<int> {
        match self {
            SpecValue::Int(n) => Some(n),
            SpecValue::UInt(n) => if n <= i64::MAX as int {
                Some(n)
            } else {
                None
            },
            _ => None,
        }
    }

    /// The unsigned 64-bit reading of an integer-valued number, if it has one.
    pub open spec fn spec_as_u64(self) -> Option<int> {
        match self {
            SpecValue::Int(n) => if n >= 0 {
                Some(n)
            } else {
                None
            },
            SpecValue::UInt(n) => Some(n),
            _ => None,
        }
    }
}

/// The field list of an object model; empty on every other shape.
pub open spec fn obj_fields(v: SpecValue) -> Seq<(Seq<char>, SpecValue)> {
    match v {
        SpecValue::Obj(fields) => fields,
        _ => Seq::empty(),
    }
}

/// The first value bound to `key` in a field list.
pub open spec fn spec_get(fields: Seq<(Seq<char>, SpecValue)>, key: Seq<char>) -> Option<
    SpecValue,
>
    decreases fields.len(),
{
    if fields.len() == 0 {
        None
    } else if fields[0].0 == key {
        Some(fields[0].1)
    } else {
        spec_get(fields.subrange(1, fields.len() as int), key)
    }
}

proof fn lemma_spec_get_step(fields: Seq<(Seq<char>, SpecValue)>, key: Seq<char>, i: int)
    requires
        0 <= i < fields.len(),
        fields[i].0 != key,
    ensures
        spec_get(fields.subrange(i, fields.len() as int), key) == spec_get(
            fields.subrange(i + 1, fields.len() as int),
            key,
        ),
{
    let tail = fields.subrange(i, fields.len() as int);
    assert(tail[0] == fields[i]);
    assert(tail.subrange(1, tail.len() as int) =~= fields.subrange(
        i + 1,
        fields.len() as int,
    ));
}

impl Value {
    /// True on everything but arrays and objects.
    pub fn is_scalar(&self) -> (r: bool)
        ensures
            r == self@.is_scalar(),
    {
        match self {
            Value::Arr(_) => false,
            Value::Obj(_) => false,
            _ => true,
        }
    }

    /// True on the three number shapes.
    pub fn is_number(&self) -> (r: bool)
        ensures
            r == self@.is_number(),
    {
        match self {
            Value::Int(_) => true,
            Value::UInt(_) => true,
            Value::Frac(_) => true,
            _ => false,
        }
    }

    /// True only on `Null`.
    pub fn is_null(&self) -> (r: bool)
        ensures
            r == (self@ == SpecValue::Null),
    {
        match self {
            Value::Null => true,
            _ => false,
        }
    }

    /// True only on objects.
    pub fn is_object(&self) -> (r: bool)
        ensures
            r == (self@ matches SpecValue::Obj(_)),
    {
        match self {
            Value::Obj(_) => true,
            _ => false,
        }
    }

    /// The signed 64-bit reading of an integer-valued number.
    pub fn as_i64(&self) -> (r: Option<i64>)
        ensures
            match r {
                Some(n) => self@.spec_as_i64() == Some(n as int),
                None => self@.spec_as_i64() is None,
            },
    {
        match self {
            Value::Int(n) => Some(*n),
            Value::UInt(n) => if *n <= i64::MAX as u64 {
                Some(*n as i64)
            } else {
                None
            },
            _ => None,
        }
    }

    /// The unsigned 64-bit reading of an integer-valued number.
    pub fn as_u64(&self) -> (r: Option<u64>)
        ensures
            match r {
                Some(n) => self@.spec_as_u64() == Some(n as int),
                None => self@.spec_as_u64() is None,
            },
    {
        match self {
            Value::Int(n) => if *n >= 0 {
                Some(*n as u64)
            } else {
                None
            },
            Value::UInt(n) => Some(*n),
            _ => None,
        }
    }

    /// The text of a string value.
    pub fn as_str(&self) -> (r: Option<&str>)
        ensures
            match r {
                Some(s) => self@ == SpecValue::Text(s@),
                None => !(self@ matches SpecValue::Text(_)),
            },
    {
        match self {
            Value::Text(s) => Some(s.as_str()),
            _ => None,
        }
    }

    /// The first value bound to `key` when `self` is an object; `None` on
    /// other shapes and on objects without the key.
    pub fn get<'a>(&'a self, key: &str) -> (r: Option<&'a Value>)
        ensures
            match r {
                Some(v) => spec_get(obj_fields(self@), key@) == Some(v@),
                None => spec_get(obj_fields(self@), key@) is None,
            },
    {
        match self {
            Value::Obj(fields) => {
                proof {
                    lemma_fields_view(fields@);
                }
                let ghost gf = fields_view(fields@);
                let n = fields.len();
                proof {
                    assert(gf.subrange(0, n as int) =~= gf);
                }
                let mut i: usize = 0;
                while i < n
                    invariant
                        n == fields.len(),
                        0 <= i <= n,
                        gf == obj_fields(value_view(*self)),
                        gf.len() == n,
                        forall|k: int|
                            0 <= k < n ==> #[trigger] gf[k] == (
                                fields@[k].0@,
                                value_view(fields@[k].1),
                            ),
                        spec_get(gf, key@) == spec_get(gf.subrange(i as int, n as int), key@),
                    decreases n - i,
                {
                    let (k, v) = &fields[i];
                    if str_eq(k.as_str(), key) {
                        proof {
                            let tail = gf.subrange(i as int, n as int);
                            assert(tail[0] == gf[i as int]);
                        }
                        return Some(v);
                    }
                    proof {
                        lemma_spec_get_step(gf, key@, i as int);
                    }
                    i = i + 1;
                }
                proof {
                    assert(gf.subrange(n as int, n as int) =~= Seq::<
                        (Seq<char>, SpecValue),
                    >::empty());
                }
                None
            },
            _ => None,
        }
    }

    /// A deep copy of the tree.
    #[verifier::loop_isolation(false)]
    pub fn dup(&self) -> (r: Value)
        ensures
            r@ == self@,
        decreases *self,
    {
        match self {
            Value::Null => Value::Null,
            Value::Bool(b) => Value::Bool(*b),
            Value::Int(n) => Value::Int(*n),
            Value::UInt(n) => Value::UInt(*n),
            Value::Frac(s) => Value::Frac(s.clone()),
            Value::Text(s) => Value::Text(s.clone()),
            Value::Arr(items) => {
                let n = items.len();
                let mut out: Vec<Value> = Vec::new();
                let mut i: usize = 0;
                while i < n
                    invariant
                        n == items.len(),
                        0 <= i <= n,
                        out@.len() == i,
                        forall|k: int|
                            0 <= k < i ==> value_view(#[trigger] out@[k]) == value_view(
                                items@[k],
                            ),
                    decreases n - i,
                {
                    proof {
                        assert((*self)->Arr_0 == *items);
                        vstd::std_specs::vec::axiom_vec_index_decreases(*items, i as int);
                        assert(decreases_to!(*self => items@[i as int]));
                    }
                    let item = items[i].dup();
                    out.push(item);
                    i = i + 1;
                }
                let r = Value::Arr(out);
                proof {
                    lemma_vec_view(out@);
                    lemma_vec_view(items@);
                    assert(vec_view(out@) =~= vec_view(items@));
                }
                r
            },
            Value::Obj(fields) => {
                let n = fields.len();
                let mut out: Vec<(String, Value)> = Vec::new();
                let mut i: usize = 0;
                while i < n
                    invariant
                        n == fields.len(),
                        0 <= i <= n,
                        out@.len() == i,
                        forall|k: int|
                            0 <= k < i ==> (#[trigger] out@[k]).0@ == fields@[k].0@
                                && value_view(out@[k].1) == value_view(fields@[k].1),
                    decreases n - i,
                {
                    proof {
                        assert((*self)->Obj_0 == *fields);
                        vstd::std_specs::vec::axiom_vec_index_decreases(*fields, i as int);
                        assert(decreases_to!(*fields => fields@[i as int]));
                        assert(decreases_to!(*self => fields@[i as int].1));
                    }
                    let (k, v) = &fields[i];
                    let pair = (k.clone(), v.dup());
                    out.push(pair);
                    i = i + 1;
                }
                let r = Value::Obj(out);
                proof {
                    lemma_fields_view(out@);
                    lemma_fields_view(fields@);
                    assert(fields_view(out@) =~= fields_view(fields@));
                }
                r
            },
        }
    }

    /// A null value.
    pub fn null() -> (r: Value)
        ensures
            r@ == SpecValue::Null,
    {
        Value::Null
    }

    /// A boolean value.
    pub fn from_bool(b: bool) -> (r: Value)
        ensures
            r@ == SpecValue::Bool(b),
    {
        Value::Bool(b)
    }

    /// A signed integer number.
    pub fn from_i64(n: i64) -> (r: Value)
        ensures
            r@ == SpecValue::Int(n as int),
    {
        Value::Int(n)
    }

    /// An unsigned integer number.
    pub fn from_u64(n: u64) -> (r: Value)
        ensures
            r@ == SpecValue::UInt(n as int),
    {
        Value::UInt(n)
    }

    /// A fractional number, carried as its literal text.
    pub fn frac(text: &str) -> (r: Value)
        ensures
            r@ == SpecValue::Frac(text@),
    {
        Value::Frac(text.to_owned())
    }

    /// A string value.
    pub fn text(s: &str) -> (r: Value)
        ensures
            r@ == SpecValue::Text(s@),
    {
        Value::Text(s.to_owned())
    }
}

/// Character-for-character string equality.
pub fn str_eq(a: &str, b: &str) -> (r: bool)
    ensures
        r == (a@ == b@),
{
    let an = a.unicode_len();
    let bn = b.unicode_len();
    if an != bn {
        assert(a@.len() != b@.len());
        return false;
    }
    let mut i: usize = 0;
    while i < an
        invariant
            an == a@.len(),
            bn == b@.len(),
            an == bn,
            0 <= i <= an,
            forall|k: int| 0 <= k < i ==> a@[k] == b@[k],
        decreases an - i,
    {
        if a.get_char(i) != b.get_char(i) {
            return false;
        }
        i = i + 1;
    }
    proof {
        assert(a@ =~= b@);
    }
    true
}

} // verus!
