//! A JSON value model used for operation payloads and record metadata.

use vstd::prelude::*;

verus! {

/// A JSON number, kept the way JSON libraries keep it: non-negative
/// integers, negative integers, and other numbers as IEEE-754 bit patterns.
#[derive(Clone, Copy, PartialEq, Eq, Debug, Structural)]
pub enum JsonNumber {
    /// A non-negative integer.
    PosInt(u64),
    /// A negative integer.
    NegInt(i64),
    /// Any other number, as the bits of an `f64`.
    Float(u64),
}

/// A JSON value.
#[derive(Debug)]
pub enum JsonValue {
    Null,
    Bool(bool),
    Number(JsonNumber),
    Str(String),
    Array(Vec<JsonValue>),
    Object(Vec<(String, JsonValue)>),
}

/// The mathematical form of a JSON value.
pub enum Json {
    Null,
    Bool(bool),
    Number(JsonNumber),
    Str(Seq<char>),
    Array(Seq<Json>),
    Object(Seq<(Seq<char>, Json)>),
}

impl JsonValue {
    pub open spec fn json(&self) -> Json
        decreases self,
    {
        match self {
            JsonValue::Null => Json::Null,
            JsonValue::Bool(b) => Json::Bool(*b),
            JsonValue::Number(n) => Json::Number(*n),
            JsonValue::Str(s) => Json::Str(s@),
            JsonValue::Array(items) => Json::Array(
                Seq::new(items@.len(), |i: int| if 0 <= i < items@.len() { items@[i].json() } else { Json::Null }),
            ),
            JsonValue::Object(fields) => Json::Object(
                Seq::new(fields@.len(), |i: int| if 0 <= i < fields@.len() { (fields@[i].0@, fields@[i].1.json()) } else { (Seq::empty(), Json::Null) }),
            ),
        }
    }
}


impl View for JsonValue {
    type V = Json;

    open spec fn view(&self) -> Json {
        self.json()
    }
}

impl JsonValue {
    /// A copy of this value.
    pub fn deep_clone(&self) -> (r: JsonValue)
        ensures
            r@ == self@,
    {
        json_clone(self)
    }

    /// Whether this is JSON `null`.
    pub fn is_null(&self) -> (r: bool)
        ensures
            r == (self@ == Json::Null),
    {
        match self {
            JsonValue::Null => true,
            _ => false,
        }
    }
}

/// A copy of a JSON value.
pub fn json_clone(v: &JsonValue) -> (r: JsonValue)
    ensures
        r@ == v@,
    decreases v,
{
    match v {
        JsonValue::Null => JsonValue::Null,
        JsonValue::Bool(b) => JsonValue::Bool(*b),
        JsonValue::Number(n) => JsonValue::Number(*n),
        JsonValue::Str(s) => JsonValue::Str(s.clone()),
        JsonValue::Array(xs) => {
            let mut out: Vec<JsonValue> = Vec::new();
            let mut i: usize = 0;
            while i < xs.len()
                invariant
                    i <= xs.len(),
                    v == JsonValue::Array(*xs),
                    out@.len() == i,
                    forall|j: int| 0 <= j < i ==> out@[j]@ == xs@[j]@,
                decreases xs.len() - i,
            {
                proof {
                    assert(decreases_to!(*xs => xs[i as int]));
                    assert(decreases_to!(*v => v->Array_0));
                    assert(decreases_to!(v => xs@[i as int]));
                }
                out.push(json_clone(&xs[i]));
                i += 1;
            }
            let r = JsonValue::Array(out);
            assert(r@->Array_0 =~= v@->Array_0);
            r
        },
        JsonValue::Object(fs) => {
            let mut out: Vec<(String, JsonValue)> = Vec::new();
            let mut i: usize = 0;
            while i < fs.len()
                invariant
                    i <= fs.len(),
                    v == JsonValue::Object(*fs),
                    out@.len() == i,
                    forall|j: int| 0 <= j < i ==> out@[j].0@ == fs@[j].0@ && out@[j].1@ == fs@[j].1@,
                decreases fs.len() - i,
            {
                proof {
                    assert(decreases_to!(*fs => fs[i as int]));
                    assert(decreases_to!(*v => v->Object_0));
                    assert(decreases_to!(fs[i as int] => fs[i as int].1));
                    assert(decreases_to!(v => fs@[i as int].1));
                }
                out.push((fs[i].0.clone(), json_clone(&fs[i].1)));
                i += 1;
            }
            let r = JsonValue::Object(out);
            assert(r@->Object_0 =~= v@->Object_0);
            r
        },
    }
}


impl Clone for JsonValue {
    fn clone(&self) -> (r: Self)
        ensures
            r@ == self@,
    {
        self.deep_clone()
    }
}

/// Structural equality of two JSON values (equal as JSON documents, with
/// object fields compared in order).
pub fn json_eq(a: &JsonValue, b: &JsonValue) -> (r: bool)
    ensures
        r == (a.json() == b.json()),
    decreases a,
{
    match (a, b) {
        (JsonValue::Null, JsonValue::Null) => true,
        (JsonValue::Bool(x), JsonValue::Bool(y)) => *x == *y,
        (JsonValue::Number(x), JsonValue::Number(y)) => *x == *y,
        (JsonValue::Str(x), JsonValue::Str(y)) => *x == *y,
        (JsonValue::Array(xs), JsonValue::Array(ys)) => {
            if xs.len() != ys.len() {
                assert(a.json()->Array_0.len() != b.json()->Array_0.len());
                return false;
            }
            let mut i: usize = 0;
            while i < xs.len()
                invariant
                    xs.len() == ys.len(),
                    i <= xs.len(),
                    a == JsonValue::Array(*xs),
                    b == JsonValue::Array(*ys),
                    forall|j: int| 0 <= j < i ==> xs@[j].json() == ys@[j].json(),
                decreases xs.len() - i,
            {
                proof {
                    assert(decreases_to!(a => xs@[i as int]));
                }
                if !json_eq(&xs[i], &ys[i]) {
                    assert(a.json()->Array_0[i as int] != b.json()->Array_0[i as int]);
                    return false;
                }
                i += 1;
            }
            assert(a.json()->Array_0 =~= b.json()->Array_0);
            true
        },
        (JsonValue::Object(xs), JsonValue::Object(ys)) => {
            if xs.len() != ys.len() {
                assert(a.json()->Object_0.len() != b.json()->Object_0.len());
                return false;
            }
            let mut i: usize = 0;
            while i < xs.len()
                invariant
                    xs.len() == ys.len(),
                    i <= xs.len(),
                    a == JsonValue::Object(*xs),
                    b == JsonValue::Object(*ys),
                    forall|j: int| 0 <= j < i ==> xs@[j].0@ == ys@[j].0@ && xs@[j].1.json() == ys@[j].1.json(),
                decreases xs.len() - i,
            {
                proof {
                    assert(decreases_to!(a => xs@[i as int].1));
                }
                if xs[i].0 != ys[i].0 || !json_eq(&xs[i].1, &ys[i].1) {
                    assert(a.json()->Object_0[i as int] != b.json()->Object_0[i as int]);
                    return false;
                }
                i += 1;
            }
            assert(a.json()->Object_0 =~= b.json()->Object_0);
            true
        },
        _ => false,
    }
}


/// The value of field `name`, if present (the first with that name).
pub open spec fn field_value(fields: Seq<(Seq<char>, Json)>, name: Seq<char>) -> Option<Json>
    decreases fields.len(),
{
    if fields.len() == 0 {
        None
    } else if fields[0].0 == name {
        Some(fields[0].1)
    } else {
        field_value(fields.drop_first(), name)
    }
}

/// `field_value` finds the first field with the name, and nothing when no
/// field has it.
pub proof fn lemma_field_value_first(fields: Seq<(Seq<char>, Json)>, name: Seq<char>, i: int)
    requires
        0 <= i <= fields.len(),
        forall|j: int| 0 <= j < i ==> fields[j].0 != name,
        i < fields.len() ==> fields[i].0 == name,
    ensures
        field_value(fields, name) == (if i < fields.len() { Some(fields[i].1) } else { None::<Json> }),
    decreases i,
{
    if i > 0 {
        let rest = fields.drop_first();
        assert forall|j: int| 0 <= j < i - 1 implies rest[j].0 != name by {
            assert(rest[j] == fields[j + 1]);
        }
        if i < fields.len() {
            assert(rest[i - 1] == fields[i]);
        }
        lemma_field_value_first(rest, name, i - 1);
    }
}

/// The fields of an object's value, in order.
pub open spec fn object_fields(fs: Seq<(String, JsonValue)>) -> Seq<(Seq<char>, Json)> {
    Seq::new(fs.len(), |i: int| (fs[i].0@, fs[i].1.json()))
}

/// `v.get(key)`: the field `key` of an object.
pub open spec fn json_get(v: Json, key: Seq<char>) -> Option<Json> {
    match v {
        Json::Object(fs) => field_value(fs, key),
        _ => None,
    }
}

/// `v[key]`: the field `key` of an object, or `null` when there is none.
pub open spec fn json_index(v: Json, key: Seq<char>) -> Json {
    match json_get(v, key) {
        Some(x) => x,
        None => Json::Null,
    }
}

/// `v[i]`: element `i` of an array, or `null` when there is none.
pub open spec fn json_at(v: Json, i: int) -> Json {
    match v {
        Json::Array(xs) => if 0 <= i < xs.len() { xs[i] } else { Json::Null },
        _ => Json::Null,
    }
}

/// The text of a string.
pub open spec fn json_as_str(v: Json) -> Option<Seq<char>> {
    match v {
        Json::Str(s) => Some(s),
        _ => None,
    }
}

/// A number that is a non-negative integer.
pub open spec fn json_as_u64(v: Json) -> Option<u64> {
    match v {
        Json::Number(JsonNumber::PosInt(n)) => Some(n),
        _ => None,
    }
}

/// A number that is an integer within `i64`.
pub open spec fn json_as_i64(v: Json) -> Option<i64> {
    match v {
        Json::Number(JsonNumber::PosInt(n)) => if n <= i64::MAX { Some(n as i64) } else { None },
        Json::Number(JsonNumber::NegInt(n)) => Some(n),
        _ => None,
    }
}

/// The elements of an array.
pub open spec fn json_as_array(v: Json) -> Option<Seq<Json>> {
    match v {
        Json::Array(xs) => Some(xs),
        _ => None,
    }
}

/// The fields of an object.
pub open spec fn json_as_object(v: Json) -> Option<Seq<(Seq<char>, Json)>> {
    match v {
        Json::Object(fs) => Some(fs),
        _ => None,
    }
}

/// The number a value holds.
pub open spec fn json_as_number(v: Json) -> Option<JsonNumber> {
    match v {
        Json::Number(n) => Some(n),
        _ => None,
    }
}

/// The field `key` of an object value (`None` when `v` is no object or has
/// no such field).
pub fn get_field<'a>(v: &'a JsonValue, key: &str) -> (r: Option<&'a JsonValue>)
    ensures
        match r {
            Some(x) => json_get(v@, key@) == Some(x@),
            None => json_get(v@, key@) is None,
        },
{
    match v {
        JsonValue::Object(fs) => {
            let ghost fields = v@->Object_0;
            assert(fields =~= object_fields(fs@));
            let k = key.to_owned();
            let mut i: usize = 0;
            while i < fs.len()
                invariant
                    i <= fs.len(),
                    fields == object_fields(fs@),
                    v@ == Json::Object(fields),
                    k@ == key@,
                    forall|j: int| 0 <= j < i ==> fields[j].0 != key@,
                decreases fs.len() - i,
            {
                if fs[i].0 == k {
                    proof {
                        lemma_field_value_first(fields, key@, i as int);
                    }
                    return Some(&fs[i].1);
                }
                i += 1;
            }
            proof {
                lemma_field_value_first(fields, key@, fs.len() as int);
            }
            None
        },
        _ => None,
    }
}

/// `v[key]` of an object value (`None` standing for `null`).
pub fn index_field<'a>(v: &'a JsonValue, key: &str) -> (r: Option<&'a JsonValue>)
    ensures
        match r {
            Some(x) => json_index(v@, key@) == x@ && json_get(v@, key@) == Some(x@),
            None => json_index(v@, key@) == Json::Null && json_get(v@, key@) is None,
        },
{
    get_field(v, key)
}

/// The text of a string value.
pub fn as_str(v: &JsonValue) -> (r: Option<&String>)
    ensures
        match r {
            Some(s) => json_as_str(v@) == Some(s@),
            None => json_as_str(v@) is None,
        },
{
    match v {
        JsonValue::Str(s) => Some(s),
        _ => None,
    }
}

/// A non-negative integer value.
pub fn as_u64(v: &JsonValue) -> (r: Option<u64>)
    ensures
        r == json_as_u64(v@),
{
    match v {
        JsonValue::Number(JsonNumber::PosInt(n)) => Some(*n),
        _ => None,
    }
}

/// An integer value within `i64`.
pub fn as_i64(v: &JsonValue) -> (r: Option<i64>)
    ensures
        r == json_as_i64(v@),
{
    match v {
        JsonValue::Number(JsonNumber::PosInt(n)) => if *n <= 9223372036854775807u64 { Some(*n as i64) } else { None },
        JsonValue::Number(JsonNumber::NegInt(n)) => Some(*n),
        _ => None,
    }
}

/// The elements of an array value.
pub fn as_array(v: &JsonValue) -> (r: Option<&Vec<JsonValue>>)
    ensures
        match r {
            Some(xs) => json_as_array(v@) == Some(xs@.map_values(|x: JsonValue| x@)),
            None => json_as_array(v@) is None,
        },
{
    match v {
        JsonValue::Array(xs) => {
            assert(v@->Array_0 =~= xs@.map_values(|x: JsonValue| x@));
            Some(xs)
        },
        _ => None,
    }
}

/// The fields of an object value.
pub fn as_object(v: &JsonValue) -> (r: Option<&Vec<(String, JsonValue)>>)
    ensures
        match r {
            Some(fs) => json_as_object(v@) == Some(object_fields(fs@)),
            None => json_as_object(v@) is None,
        },
{
    match v {
        JsonValue::Object(fs) => {
            assert(v@->Object_0 =~= object_fields(fs@));
            Some(fs)
        },
        _ => None,
    }
}

/// The number a value holds.
pub fn as_number(v: &JsonValue) -> (r: Option<JsonNumber>)
    ensures
        r == json_as_number(v@),
{
    match v {
        JsonValue::Number(n) => Some(*n),
        _ => None,
    }
}

} // verus!
