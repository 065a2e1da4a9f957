//! A document tree of JSON/YAML values: what the Swagger 2.0 conversion, the
//! Orval config migration, schema enums and defaults read.
//!
//! Mappings keep their entries in document order, as a list of key/value
//! pairs; numbers keep their integer value, and a fractional number is kept
//! as its decimal text.
use vstd::prelude::*;

use crate::text;

verus! {

/// A number: non-negative and negative integers as themselves, anything
/// else as its decimal text.
#[derive(Debug)]
pub enum Number {
    PosInt(u64),
    NegInt(i64),
    Float(String),
}

/// A JSON/YAML value.
#[derive(Debug)]
pub enum Value {
    Null,
    Bool(bool),
    Number(Number),
    String(String),
    Sequence(Vec<Value>),
    Mapping(Vec<(Value, Value)>),
    Tagged(String, Box<Value>),
}

/// The entries of a mapping, in order.
pub type Mapping = Vec<(Value, Value)>;

/// The mathematical content of a `Number`.
pub enum NumberV {
    PosInt(u64),
    NegInt(i64),
    Float(Seq<char>),
}

/// The mathematical content of a `Value`.
pub enum ValueV {
    Null,
    Bool(bool),
    Number(NumberV),
    String(Seq<char>),
    Sequence(Seq<ValueV>),
    Mapping(Seq<(ValueV, ValueV)>),
    Tagged(Seq<char>, Box<ValueV>),
}

impl View for Number {
    type V = NumberV;

    open spec fn view(&self) -> NumberV {
        match self {
            Number::PosInt(n) => NumberV::PosInt(*n),
            Number::NegInt(n) => NumberV::NegInt(*n),
            Number::Float(s) => NumberV::Float(s@),
        }
    }
}

/// The mathematical content of `v`.
pub open spec fn value_view(v: Value) -> ValueV
    decreases v,
{
    match v {
        Value::Null => ValueV::Null,
        Value::Bool(b) => ValueV::Bool(b),
        Value::Number(n) => ValueV::Number(n@),
        Value::String(s) => ValueV::String(s@),
        Value::Sequence(items) => ValueV::Sequence(
            Seq::new(
                items@.len(),
                |i: int|
                    if 0 <= i < items@.len() {
                        value_view(items@[i])
                    } else {
                        ValueV::Null
                    },
            ),
        ),
        Value::Mapping(m) => ValueV::Mapping(
            Seq::new(
                m@.len(),
                |i: int|
                    if 0 <= i < m@.len() {
                        (value_view(m@[i].0), value_view(m@[i].1))
                    } else {
                        (ValueV::Null, ValueV::Null)
                    },
            ),
        ),
        Value::Tagged(t, v) => ValueV::Tagged(t@, Box::new(value_view(*v))),
    }
}

impl View for Value {
    type V = ValueV;

    open spec fn view(&self) -> ValueV {
        value_view(*self)
    }
}

/// The views of the entries of a mapping.
pub open spec fn entries_view(m: Seq<(Value, Value)>) -> Seq<(ValueV, ValueV)> {
    Seq::new(m.len(), |i: int| (m[i].0@, m[i].1@))
}

/// `v` is the string `s`.
pub open spec fn is_str(v: ValueV, s: Seq<char>) -> bool {
    v matches ValueV::String(t) && t == s
}

/// The index of the first entry of `m` whose key is the string `key`
/// (or `m.len()` when there is none).
pub open spec fn key_index(m: Seq<(ValueV, ValueV)>, key: Seq<char>) -> int
    decreases m.len(),
{
    if m.len() == 0 {
        0
    } else if is_str(m[0].0, key) {
        0
    } else {
        1 + key_index(m.drop_first(), key)
    }
}

/// The value stored under the string key `key` in `m`, if any
/// (`Mapping::get` / `Map::get` with a string key).
pub open spec fn map_get(m: Seq<(ValueV, ValueV)>, key: Seq<char>) -> Option<ValueV>
    decreases m.len(),
{
    if m.len() == 0 {
        None
    } else if is_str(m[0].0, key) {
        Some(m[0].1)
    } else {
        map_get(m.drop_first(), key)
    }
}

/// `Value::get` with a string key: the entry's value when `v` is a mapping
/// that holds `key`.
pub open spec fn spec_get(v: ValueV, key: Seq<char>) -> Option<ValueV> {
    match v {
        ValueV::Mapping(m) => map_get(m, key),
        _ => None,
    }
}

/// `Value::as_str` on an optional value.
pub open spec fn opt_str(v: Option<ValueV>) -> Option<Seq<char>> {
    match v {
        Some(ValueV::String(s)) => Some(s),
        _ => None,
    }
}

/// `Value::as_bool` on an optional value.
pub open spec fn opt_bool(v: Option<ValueV>) -> Option<bool> {
    match v {
        Some(ValueV::Bool(b)) => Some(b),
        _ => None,
    }
}

/// `Value::as_sequence` on an optional value.
pub open spec fn opt_seq(v: Option<ValueV>) -> Option<Seq<ValueV>> {
    match v {
        Some(ValueV::Sequence(s)) => Some(s),
        _ => None,
    }
}

/// `Value::as_mapping` on an optional value.
pub open spec fn opt_map(v: Option<ValueV>) -> Option<Seq<(ValueV, ValueV)>> {
    match v {
        Some(ValueV::Mapping(m)) => Some(m),
        _ => None,
    }
}

/// The view of an optional value.
pub open spec fn opt_view(v: Option<&Value>) -> Option<ValueV> {
    match v {
        Some(x) => Some(x@),
        None => None,
    }
}

/// `key_index` and `map_get` agree, and no earlier key matches.
pub proof fn lemma_map_get_index(m: Seq<(ValueV, ValueV)>, key: Seq<char>)
    ensures
        0 <= key_index(m, key) <= m.len(),
        key_index(m, key) < m.len() ==> is_str(m[key_index(m, key)].0, key),
        key_index(m, key) < m.len() ==> map_get(m, key) == Some(m[key_index(m, key)].1),
        key_index(m, key) == m.len() ==> map_get(m, key) is None,
        forall|k: int| 0 <= k < key_index(m, key) ==> !is_str(#[trigger] m[k].0, key),
    decreases m.len(),
{
    if m.len() > 0 && !is_str(m[0].0, key) {
        lemma_map_get_index(m.drop_first(), key);
        assert forall|k: int| 0 <= k < key_index(m, key) implies !is_str(#[trigger] m[k].0, key) by {
            if k > 0 {
                assert(m[k] == m.drop_first()[k - 1]);
            }
        }
    }
}

/// Whether `v` is the string `s`.
pub fn value_is_str(v: &Value, s: &[char]) -> (r: bool)
    ensures
        r == is_str(v@, s@),
{
    match v {
        Value::String(t) => {
            let c = text::chars_of(t.as_str());
            text::slices_equal(c.as_slice(), s)
        },
        _ => false,
    }
}

/// The position of the entry of `m` under the string key `key`.
pub fn find_key(m: &Vec<(Value, Value)>, key: &str) -> (r: Option<usize>)
    ensures
        match r {
            Some(i) => i < m@.len() && i == key_index(entries_view(m@), key@) && map_get(
                entries_view(m@),
                key@,
            ) == Some(m@[i as int].1@),
            None => map_get(entries_view(m@), key@) is None && key_index(entries_view(m@), key@)
                == m@.len(),
        },
{
    let ghost e = entries_view(m@);
    let kc = text::chars_of(key);
    let mut i: usize = 0;
    proof {
        lemma_map_get_index(e, key@);
    }
    while i < m.len()
        invariant
            0 <= i <= m@.len(),
            e == entries_view(m@),
            kc@ == key@,
            forall|k: int| 0 <= k < i ==> !is_str(#[trigger] e[k].0, key@),
            0 <= key_index(e, key@) <= m@.len(),
            key_index(e, key@) < m@.len() ==> is_str(e[key_index(e, key@)].0, key@),
            key_index(e, key@) < m@.len() ==> map_get(e, key@) == Some(e[key_index(e, key@)].1),
            key_index(e, key@) == m@.len() ==> map_get(e, key@) is None,
            forall|k: int| 0 <= k < key_index(e, key@) ==> !is_str(#[trigger] e[k].0, key@),
        decreases m.len() - i,
    {
        if value_is_str(&m[i].0, kc.as_slice()) {
            proof {
                assert(e[i as int] == (m@[i as int].0@, m@[i as int].1@));
                assert(is_str(e[i as int].0, key@));
                if key_index(e, key@) > i {
                    assert(!is_str(e[i as int].0, key@));
                }
                if key_index(e, key@) < i {
                    assert(!is_str(e[key_index(e, key@)].0, key@));
                }
            }
            return Some(i);
        }
        assert(e[i as int] == (m@[i as int].0@, m@[i as int].1@));
        i = i + 1;
    }
    None
}

/// `Value::get` with a string key.
pub fn get<'a>(v: &'a Value, key: &str) -> (r: Option<&'a Value>)
    ensures
        opt_view(r) == spec_get(v@, key@),
{
    match v {
        Value::Mapping(m) => {
            proof {
                if let ValueV::Mapping(mm) = v@ {
                    assert(mm =~= entries_view(m@));
                }
            }
            match find_key(m, key) {
                Some(i) => Some(&m[i].1),
                None => None,
            }
        },
        _ => None,
    }
}

impl Number {
    /// A copy of this number.
    pub fn deep_copy(&self) -> (r: Number)
        ensures
            r@ == self@,
    {
        match self {
            Number::PosInt(n) => Number::PosInt(*n),
            Number::NegInt(n) => Number::NegInt(*n),
            Number::Float(s) => Number::Float(s.clone()),
        }
    }
}

impl Value {
    /// A copy of this value.
    pub fn deep_copy(&self) -> (r: Value)
        ensures
            r@ == self@,
        decreases self,
    {
        match self {
            Value::Null => Value::Null,
            Value::Bool(b) => Value::Bool(*b),
            Value::Number(n) => Value::Number(n.deep_copy()),
            Value::String(s) => Value::String(s.clone()),
            Value::Sequence(items) => {
                let c = copy_values(items);
                let r = Value::Sequence(c);
                proof {
                    reveal_with_fuel(value_view, 2);
                    assert(r@->Sequence_0 =~= self@->Sequence_0);
                }
                r
            },
            Value::Mapping(m) => {
                let c = copy_mapping(m);
                let r = Value::Mapping(c);
                proof {
                    reveal_with_fuel(value_view, 2);
                    assert(r@->Mapping_0 =~= entries_view(c@));
                    assert(self@->Mapping_0 =~= entries_view(m@));
                }
                r
            },
            Value::Tagged(t, v) => Value::Tagged(t.clone(), Box::new((**v).deep_copy())),
        }
    }
}

/// A copy of the values `items`.
pub fn copy_values(items: &Vec<Value>) -> (r: Vec<Value>)
    ensures
        r@.len() == items@.len(),
        forall|k: int| 0 <= k < items@.len() ==> (#[trigger] r@[k])@ == items@[k]@,
    decreases items,
{
    let mut out: Vec<Value> = Vec::new();
    let mut i: usize = 0;
    while i < items.len()
        invariant
            0 <= i <= items.len(),
            out@.len() == i,
            forall|k: int| 0 <= k < i ==> (#[trigger] out@[k])@ == items@[k]@,
        decreases items.len() - i,
    {
        proof {
            assert(decreases_to!(*items => items[i as int]));
        }
        out.push(items[i].deep_copy());
        i = i + 1;
    }
    out
}

/// A copy of the entries `m`.
pub fn copy_mapping(m: &Vec<(Value, Value)>) -> (r: Vec<(Value, Value)>)
    ensures
        entries_view(r@) == entries_view(m@),
    decreases m,
{
    let mut out: Vec<(Value, Value)> = Vec::new();
    let mut i: usize = 0;
    while i < m.len()
        invariant
            0 <= i <= m.len(),
            out@.len() == i,
            forall|k: int|
                0 <= k < i ==> (#[trigger] out@[k]).0@ == m@[k].0@ && out@[k].1@ == m@[k].1@,
        decreases m.len() - i,
    {
        proof {
            assert(decreases_to!(*m => m[i as int]));
        }
        let k = m[i].0.deep_copy();
        let v = m[i].1.deep_copy();
        out.push((k, v));
        i = i + 1;
    }
    assert(entries_view(out@) =~= entries_view(m@));
    out
}

// ---- Equality and insertion ------------------------------------------------------

/// Whether two numbers are the same.
pub fn number_eq(a: &Number, b: &Number) -> (r: bool)
    ensures
        r == (a@ == b@),
{
    match (a, b) {
        (Number::PosInt(x), Number::PosInt(y)) => *x == *y,
        (Number::NegInt(x), Number::NegInt(y)) => *x == *y,
        (Number::Float(x), Number::Float(y)) => *x == *y,
        _ => false,
    }
}

/// Whether two values are the same value.
pub fn value_eq(a: &Value, b: &Value) -> (r: bool)
    ensures
        r == (a@ == b@),
    decreases *a,
{
    proof {
        reveal_with_fuel(value_view, 2);
    }
    match (a, b) {
        (Value::Null, Value::Null) => true,
        (Value::Bool(x), Value::Bool(y)) => *x == *y,
        (Value::Number(x), Value::Number(y)) => number_eq(x, y),
        (Value::String(x), Value::String(y)) => *x == *y,
        (Value::Sequence(x), Value::Sequence(y)) => {
            if x.len() != y.len() {
                assert(a@->Sequence_0.len() != b@->Sequence_0.len());
                return false;
            }
            let mut i: usize = 0;
            while i < x.len()
                invariant
                    0 <= i <= x@.len(),
                    x@.len() == y@.len(),
                    *a == Value::Sequence(*x),
                    *b == Value::Sequence(*y),
                    forall|k: int| 0 <= k < i ==> (#[trigger] x@[k])@ == y@[k]@,
                decreases x@.len() - i,
            {
                proof {
                    assert(decreases_to!(*x => x[i as int]));
                }
                if !value_eq(&x[i], &y[i]) {
                    proof {
                        reveal_with_fuel(value_view, 2);
                        assert(a@->Sequence_0[i as int] != b@->Sequence_0[i as int]);
                    }
                    return false;
                }
                i = i + 1;
            }
            proof {
                reveal_with_fuel(value_view, 2);
                assert(a@->Sequence_0 =~= b@->Sequence_0);
            }
            true
        },
        (Value::Mapping(x), Value::Mapping(y)) => {
            if x.len() != y.len() {
                assert(a@->Mapping_0.len() != b@->Mapping_0.len());
                return false;
            }
            let mut i: usize = 0;
            while i < x.len()
                invariant
                    0 <= i <= x@.len(),
                    x@.len() == y@.len(),
                    *a == Value::Mapping(*x),
                    *b == Value::Mapping(*y),
                    forall|k: int|
                        0 <= k < i ==> (#[trigger] x@[k]).0@ == y@[k].0@ && x@[k].1@ == y@[k].1@,
                decreases x@.len() - i,
            {
                proof {
                    assert(decreases_to!(*x => x[i as int]));
                }
                if !value_eq(&x[i].0, &y[i].0) || !value_eq(&x[i].1, &y[i].1) {
                    proof {
                        reveal_with_fuel(value_view, 2);
                        assert(a@->Mapping_0[i as int] != b@->Mapping_0[i as int]);
                    }
                    return false;
                }
                i = i + 1;
            }
            proof {
                reveal_with_fuel(value_view, 2);
                assert(a@->Mapping_0 =~= b@->Mapping_0);
            }
            true
        },
        (Value::Tagged(t1, v1), Value::Tagged(t2, v2)) => *t1 == *t2 && value_eq(&**v1, &**v2),
        _ => false,
    }
}

/// The index of the first entry of `m` under the key `k` (or `m.len()`).
pub open spec fn vkey_pos(m: Seq<(ValueV, ValueV)>, k: ValueV) -> int
    decreases m.len(),
{
    if m.len() == 0 {
        0
    } else if m[0].0 == k {
        0
    } else {
        1 + vkey_pos(m.drop_first(), k)
    }
}

/// `Mapping::insert`: a new key goes at the end, an existing key keeps its
/// place and gets the new value.
pub open spec fn vmap_insert(m: Seq<(ValueV, ValueV)>, k: ValueV, v: ValueV) -> Seq<
    (ValueV, ValueV),
> {
    let i = vkey_pos(m, k);
    if 0 <= i < m.len() {
        m.update(i, (m[i].0, v))
    } else {
        m.push((k, v))
    }
}

/// Inserts `(k, v)` into the entries `m` as `Mapping::insert` does.
pub fn mapping_insert(m: &mut Vec<(Value, Value)>, k: Value, v: Value)
    ensures
        entries_view(final(m)@) == vmap_insert(entries_view(old(m)@), k@, v@),
{
    let ghost pv = entries_view(m@);
    let mut i: usize = 0;
    assert(pv.skip(0) =~= pv);
    while i < m.len()
        invariant
            0 <= i <= m@.len(),
            m@ == old(m)@,
            pv == entries_view(m@),
            vkey_pos(pv.skip(i as int), k@) + i == vkey_pos(pv, k@),
        decreases m.len() - i,
    {
        assert(pv.skip(i as int)[0] == pv[i as int]);
        if value_eq(&m[i].0, &k) {
            assert(vkey_pos(pv.skip(i as int), k@) == 0);
            let key = m[i].0.deep_copy();
            m.set(i, (key, v));
            assert(entries_view(m@) =~= vmap_insert(pv, k@, v@));
            return;
        }
        assert(pv.skip(i as int).drop_first() =~= pv.skip(i + 1));
        i = i + 1;
    }
    m.push((k, v));
    assert(entries_view(m@) =~= vmap_insert(pv, k@, v@));
}

/// A string value.
pub fn str_value(s: &str) -> (r: Value)
    ensures
        r@ == ValueV::String(s@),
{
    Value::String(text::owned(s))
}

/// The views of a list of values.
pub open spec fn values_view(v: Seq<Value>) -> Seq<ValueV> {
    Seq::new(v.len(), |i: int| v[i]@)
}

/// The view of a sequence value is the views of its items.
pub proof fn lemma_sequence_view(items: Vec<Value>)
    ensures
        (Value::Sequence(items))@ == ValueV::Sequence(values_view(items@)),
{
    reveal_with_fuel(value_view, 2);
    assert((Value::Sequence(items))@->Sequence_0 =~= values_view(items@));
}

/// The view of a mapping value is the views of its entries.
pub proof fn lemma_mapping_value_view(m: Vec<(Value, Value)>)
    ensures
        (Value::Mapping(m))@ == ValueV::Mapping(entries_view(m@)),
{
    reveal_with_fuel(value_view, 2);
    assert((Value::Mapping(m))@->Mapping_0 =~= entries_view(m@));
}

/// The entries of a mapping value.
pub fn as_mapping(v: Option<&Value>) -> (r: Option<&Vec<(Value, Value)>>)
    ensures
        match r {
            Some(m) => opt_map(opt_view(v)) == Some(entries_view(m@)),
            None => opt_map(opt_view(v)) is None,
        },
{
    match v {
        Some(Value::Mapping(m)) => {
            proof {
                lemma_mapping_value_view(*m);
            }
            Some(m)
        },
        _ => None,
    }
}

/// The items of a sequence value.
pub fn as_sequence(v: Option<&Value>) -> (r: Option<&Vec<Value>>)
    ensures
        match r {
            Some(s) => opt_seq(opt_view(v)) == Some(values_view(s@)),
            None => opt_seq(opt_view(v)) is None,
        },
{
    match v {
        Some(Value::Sequence(s)) => {
            proof {
                lemma_sequence_view(*s);
            }
            Some(s)
        },
        _ => None,
    }
}

/// The string of a string value.
pub fn as_str(v: Option<&Value>) -> (r: Option<&String>)
    ensures
        match r {
            Some(s) => opt_str(opt_view(v)) == Some(s@),
            None => opt_str(opt_view(v)) is None,
        },
{
    match v {
        Some(Value::String(s)) => Some(s),
        _ => None,
    }
}

/// The boolean of a boolean value.
pub fn as_bool(v: Option<&Value>) -> (r: Option<bool>)
    ensures
        r == opt_bool(opt_view(v)),
{
    match v {
        Some(Value::Bool(b)) => Some(*b),
        _ => None,
    }
}

/// The value under the string key `key` in the entries `m`.
pub fn map_lookup<'a>(m: &'a Vec<(Value, Value)>, key: &str) -> (r: Option<&'a Value>)
    ensures
        opt_view(r) == map_get(entries_view(m@), key@),
{
    match find_key(m, key) {
        Some(i) => Some(&m[i].1),
        None => None,
    }
}

proof fn lemma_vkey_pos(m: Seq<(ValueV, ValueV)>, k: ValueV)
    ensures
        0 <= vkey_pos(m, k) <= m.len(),
        vkey_pos(m, k) < m.len() ==> m[vkey_pos(m, k)].0 == k,
    decreases m.len(),
{
    if m.len() > 0 && m[0].0 != k {
        lemma_vkey_pos(m.drop_first(), k);
    }
}

/// Looking up a string key after inserting under a string key: the new
/// value for the same key, the old lookup for another.
pub proof fn lemma_get_after_insert(m: Seq<(ValueV, ValueV)>, a: Seq<char>, v: ValueV, b: Seq<char>)
    ensures
        map_get(vmap_insert(m, ValueV::String(a), v), b) == if a == b {
            Some(v)
        } else {
            map_get(m, b)
        },
    decreases m.len(),
{
    let k = ValueV::String(a);
    let r = vmap_insert(m, k, v);
    if m.len() == 0 {
        assert(r =~= seq![(k, v)]);
        assert(r.drop_first() =~= Seq::<(ValueV, ValueV)>::empty());
        assert(map_get(Seq::<(ValueV, ValueV)>::empty(), b) is None);
        assert(map_get(m, b) is None);
    } else if m[0].0 == k {
        assert(r == m.update(0, (m[0].0, v)));
        assert(r.drop_first() =~= m.drop_first());
        assert(r[0].0 == k);
    } else {
        let t = m.drop_first();
        lemma_get_after_insert(t, a, v, b);
        lemma_vkey_pos(t, k);
        let rt = vmap_insert(t, k, v);
        assert(vkey_pos(m, k) == 1 + vkey_pos(t, k));
        if vkey_pos(t, k) < t.len() {
            assert(m[1 + vkey_pos(t, k)] == t[vkey_pos(t, k)]);
        }
        assert(r =~= seq![m[0]] + rt);
        assert(r[0] == m[0]);
        assert(r.drop_first() =~= rt);
    }
}

} // verus!
