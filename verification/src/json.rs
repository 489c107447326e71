//! A JSON value as the library reads it: the proxy hands parsed request and
//! response bodies over in this form, and the cache keeps responses in it.

use vstd::prelude::*;

verus! {

/// A floating-point value: the `f64` with the given bits, or the `f64`
/// nearest to an unsigned integer.
#[derive(Debug, Clone, Copy, PartialEq, Eq, Structural)]
pub enum FloatValue {
    Bits(u64),
    NearestTo(u64),
}

/// Whether a floating-point value is finite (not infinite, not NaN).
pub open spec fn float_is_finite(f: FloatValue) -> bool {
    match f {
        FloatValue::Bits(b) => (b / 0x10_0000_0000_0000) % 2048 != 2047,
        FloatValue::NearestTo(_) => true,
    }
}

pub fn is_finite(f: FloatValue) -> (b: bool)
    ensures
        b == float_is_finite(f),
{
    match f {
        FloatValue::Bits(b) => (b / 0x10_0000_0000_0000) % 2048 != 2047,
        FloatValue::NearestTo(_) => true,
    }
}

/// A JSON number: a non-negative integer, a negative integer, or any other
/// number as a floating-point value.
#[derive(Debug, Clone, Copy, PartialEq, Eq, Structural)]
pub enum JsonNumber {
    PosInt(u64),
    NegInt(i64),
    Float(FloatValue),
}

/// A JSON value. Object members keep their order; a parsed object holds each
/// key once.
#[derive(Debug)]
pub enum Json {
    Null,
    Bool(bool),
    Number(JsonNumber),
    String(String),
    Array(Vec<Json>),
    Object(Vec<(String, Json)>),
}

/// The value of the first member named `key`, if `j` is an object that has one.
pub open spec fn json_get(j: Json, key: Seq<char>) -> Option<Json> {
    match j {
        Json::Object(fields) => find_field(fields@, key),
        _ => None,
    }
}

pub open spec fn find_field(fields: Seq<(String, Json)>, key: Seq<char>) -> Option<Json>
    decreases fields.len(),
{
    if fields.len() == 0 {
        None
    } else if fields[0].0@ == key {
        Some(fields[0].1)
    } else {
        find_field(fields.skip(1), key)
    }
}

/// `Some(n)` for a non-negative integer that fits in a `u64`.
pub open spec fn json_as_u64(j: Json) -> Option<u64> {
    match j {
        Json::Number(JsonNumber::PosInt(n)) => Some(n),
        _ => None,
    }
}

pub open spec fn json_as_bool(j: Json) -> Option<bool> {
    match j {
        Json::Bool(b) => Some(b),
        _ => None,
    }
}

pub open spec fn json_as_str(j: Json) -> Option<Seq<char>> {
    match j {
        Json::String(s) => Some(s@),
        _ => None,
    }
}

/// The `u64` member `key` of `j`, if there is one.
pub open spec fn field_u64(j: Json, key: Seq<char>) -> Option<u64> {
    match json_get(j, key) {
        Some(v) => json_as_u64(v),
        None => None,
    }
}

/// The `u64` member `inner` of the member `outer` of `j`, if there is one.
pub open spec fn nested_u64(j: Json, outer: Seq<char>, inner: Seq<char>) -> Option<u64> {
    match json_get(j, outer) {
        Some(o) => field_u64(o, inner),
        None => None,
    }
}

pub open spec fn unwrap_or_zero(o: Option<u64>) -> u64 {
    match o {
        Some(v) => v,
        None => 0,
    }
}

impl Json {
    /// The member `key` of an object (what `serde_json::Value::get` gives).
    pub fn get(&self, key: &String) -> (r: Option<&Json>)
        ensures
            r matches Some(v) ==> json_get(*self, key@) == Some(*v),
            r is None ==> json_get(*self, key@) is None,
    {
        match self {
            Json::Object(fields) => {
                let mut i: usize = 0;
                assert(fields@.skip(0) =~= fields@);
                while i < fields.len()
                    invariant
                        i <= fields@.len(),
                        json_get(*self, key@) == find_field(fields@, key@),
                        find_field(fields@, key@) == find_field(fields@.skip(i as int), key@),
                    decreases fields.len() - i,
                {
                    assert(fields@.skip(i as int).skip(1) =~= fields@.skip(i + 1));
                    assert(fields@.skip(i as int)[0] == fields@[i as int]);
                    if fields[i].0 == *key {
                        return Some(&fields[i].1);
                    }
                    i = i + 1;
                }
                None
            },
            _ => None,
        }
    }

    pub fn as_u64(&self) -> (r: Option<u64>)
        ensures
            r == json_as_u64(*self),
    {
        match self {
            Json::Number(JsonNumber::PosInt(n)) => Some(*n),
            _ => None,
        }
    }

    pub fn as_bool(&self) -> (r: Option<bool>)
        ensures
            r == json_as_bool(*self),
    {
        match self {
            Json::Bool(b) => Some(*b),
            _ => None,
        }
    }

    pub fn as_str(&self) -> (r: Option<&String>)
        ensures
            r matches Some(s) ==> json_as_str(*self) == Some(s@),
            r is None ==> json_as_str(*self) is None,
    {
        match self {
            Json::String(s) => Some(s),
            _ => None,
        }
    }
}

/// The `u64` member `key` of `j`.
pub fn get_u64(j: &Json, key: &String) -> (r: Option<u64>)
    ensures
        r == field_u64(*j, key@),
{
    match j.get(key) {
        Some(v) => v.as_u64(),
        None => None,
    }
}

/// The `u64` member `inner` of the member `outer` of `j`.
pub fn get_nested_u64(j: &Json, outer: &String, inner: &String) -> (r: Option<u64>)
    ensures
        r == nested_u64(*j, outer@, inner@),
{
    match j.get(outer) {
        Some(o) => get_u64(o, inner),
        None => None,
    }
}

/// What a JSON value is, with text as character sequences.
pub enum JsonV {
    Null,
    Bool(bool),
    Number(JsonNumber),
    Str(Seq<char>),
    Array(Seq<JsonV>),
    Object(Seq<(Seq<char>, JsonV)>),
}

/// The value that a `Json` holds.
pub open spec fn jview(j: Json) -> JsonV
    decreases j, 0int,
{
    match j {
        Json::Null => JsonV::Null,
        Json::Bool(b) => JsonV::Bool(b),
        Json::Number(n) => JsonV::Number(n),
        Json::String(s) => JsonV::Str(s@),
        Json::Array(items) => {
            proof {
                vstd::std_specs::vec::axiom_vec_decreases_to_view(items);
            }
            JsonV::Array(jview_list(items@))
        },
        Json::Object(fields) => {
            proof {
                vstd::std_specs::vec::axiom_vec_decreases_to_view(fields);
            }
            JsonV::Object(jview_fields(fields@))
        },
    }
}

pub open spec fn jview_list(s: Seq<Json>) -> Seq<JsonV>
    decreases s, 1int,
{
    if s.len() == 0 {
        Seq::empty()
    } else {
        jview_list(s.drop_last()).push(jview(s.last()))
    }
}

pub open spec fn jview_fields(s: Seq<(String, Json)>) -> Seq<(Seq<char>, JsonV)>
    decreases s, 1int,
{
    if s.len() == 0 {
        Seq::empty()
    } else {
        jview_fields(s.drop_last()).push((s.last().0@, jview(s.last().1)))
    }
}

pub proof fn lemma_jview_list_push(s: Seq<Json>, x: Json)
    ensures
        jview_list(s.push(x)) == jview_list(s).push(jview(x)),
{
    assert(s.push(x).drop_last() =~= s);
}

pub proof fn lemma_jview_fields_push(s: Seq<(String, Json)>, x: (String, Json))
    ensures
        jview_fields(s.push(x)) == jview_fields(s).push((x.0@, jview(x.1))),
{
    assert(s.push(x).drop_last() =~= s);
}

pub proof fn lemma_jview_list_len(s: Seq<Json>)
    ensures
        jview_list(s).len() == s.len(),
        forall|i: int| 0 <= i < s.len() ==> #[trigger] jview_list(s)[i] == jview(s[i]),
    decreases s.len(),
{
    if s.len() > 0 {
        lemma_jview_list_len(s.drop_last());
    }
}

pub proof fn lemma_jview_fields_len(s: Seq<(String, Json)>)
    ensures
        jview_fields(s).len() == s.len(),
        forall|i: int| 0 <= i < s.len() ==> #[trigger] jview_fields(s)[i] == (s[i].0@, jview(s[i].1)),
    decreases s.len(),
{
    if s.len() > 0 {
        lemma_jview_fields_len(s.drop_last());
    }
}

} // verus!
