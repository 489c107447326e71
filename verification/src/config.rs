//! `config.toml` as the manager reads and edits it: TOML values and tables
//! turned into JSON for the UI, JSON turned back into TOML values, and the
//! edits that each kind of save makes to the document.

use vstd::prelude::*;
use crate::json::{self, FloatValue, Json, JsonNumber, JsonV, jview, jview_list, jview_fields};

verus! {

// ───────────────────────── keyed sequences ─────────────────────────

/// Some entry of `s` has the key `k`.
pub open spec fn has_key<X>(s: Seq<(Seq<char>, X)>, k: Seq<char>) -> bool {
    exists|i: int| 0 <= i < s.len() && #[trigger] s[i].0 == k
}

/// `i` is the first entry of `s` with the key `k`.
pub open spec fn is_first_key<X>(s: Seq<(Seq<char>, X)>, k: Seq<char>, i: int) -> bool {
    &&& 0 <= i < s.len()
    &&& s[i].0 == k
    &&& forall|j: int| 0 <= j < i ==> #[trigger] s[j].0 != k
}

/// The position of the first entry with the key `k`.
pub open spec fn key_pos<X>(s: Seq<(Seq<char>, X)>, k: Seq<char>) -> int {
    choose|i: int| is_first_key(s, k, i)
}

/// The value of the first entry with the key `k`.
pub open spec fn lookup<X>(s: Seq<(Seq<char>, X)>, k: Seq<char>) -> Option<X> {
    if has_key(s, k) {
        Some(s[key_pos(s, k)].1)
    } else {
        None
    }
}

/// What setting the key `k` to `v` makes of `s`: the first entry with that
/// key takes the new value where it stands, or a new entry is appended.
pub open spec fn put<X>(s: Seq<(Seq<char>, X)>, k: Seq<char>, v: X) -> Seq<(Seq<char>, X)> {
    if has_key(s, k) {
        s.update(key_pos(s, k), (k, v))
    } else {
        s.push((k, v))
    }
}

/// `s` without its entries that have the key `k`, the others in order.
pub open spec fn without<X>(s: Seq<(Seq<char>, X)>, k: Seq<char>) -> Seq<(Seq<char>, X)>
    decreases s.len(),
{
    if s.len() == 0 {
        s
    } else if s.last().0 == k {
        without(s.drop_last(), k)
    } else {
        without(s.drop_last(), k).push(s.last())
    }
}

/// No two entries of `s` have the same key.
pub open spec fn unique_keys<X>(s: Seq<(Seq<char>, X)>) -> bool {
    forall|i: int, j: int| 0 <= i < j < s.len() ==> #[trigger] s[i].0 != #[trigger] s[j].0
}

pub proof fn lemma_first_key_exists<X>(s: Seq<(Seq<char>, X)>, k: Seq<char>, i: int)
    requires
        0 <= i < s.len(),
        s[i].0 == k,
    ensures
        has_key(s, k),
        is_first_key(s, k, key_pos(s, k)),
    decreases i,
{
    if exists|j: int| 0 <= j < i && #[trigger] s[j].0 == k {
        let j = choose|j: int| 0 <= j < i && #[trigger] s[j].0 == k;
        lemma_first_key_exists(s, k, j);
    } else {
        assert(is_first_key(s, k, i));
    }
}

pub proof fn lemma_key_pos<X>(s: Seq<(Seq<char>, X)>, k: Seq<char>, i: int)
    requires
        is_first_key(s, k, i),
    ensures
        has_key(s, k),
        key_pos(s, k) == i,
{
    lemma_first_key_exists(s, k, i);
    let p = key_pos(s, k);
    if p < i {
        assert(s[p].0 != k);
    } else if p > i {
        assert(s[i].0 != k);
    }
}

pub proof fn lemma_has_key_pos<X>(s: Seq<(Seq<char>, X)>, k: Seq<char>)
    requires
        has_key(s, k),
    ensures
        is_first_key(s, k, key_pos(s, k)),
{
    let i = choose|i: int| 0 <= i < s.len() && #[trigger] s[i].0 == k;
    lemma_first_key_exists(s, k, i);
}

/// Putting into a sequence with distinct keys keeps them distinct.
pub proof fn lemma_put_unique<X>(s: Seq<(Seq<char>, X)>, k: Seq<char>, v: X)
    requires
        unique_keys(s),
    ensures
        unique_keys(put(s, k, v)),
        has_key(put(s, k, v), k),
        forall|q: Seq<char>| has_key(put(s, k, v), q) <==> (q == k || has_key(s, q)),
{
    let r = put(s, k, v);
    if has_key(s, k) {
        lemma_has_key_pos(s, k);
        let p = key_pos(s, k);
        assert(r[p].0 == k);
        assert forall|q: Seq<char>| has_key(r, q) <==> (q == k || has_key(s, q)) by {
            if has_key(s, q) {
                let i = choose|i: int| 0 <= i < s.len() && #[trigger] s[i].0 == q;
                assert(r[i].0 == q);
            }
            if has_key(r, q) {
                let i = choose|i: int| 0 <= i < r.len() && #[trigger] r[i].0 == q;
                assert(s[i].0 == q || q == k);
            }
        }
    } else {
        assert(r[s.len() as int].0 == k);
        assert forall|q: Seq<char>| has_key(r, q) <==> (q == k || has_key(s, q)) by {
            if has_key(s, q) {
                let i = choose|i: int| 0 <= i < s.len() && #[trigger] s[i].0 == q;
                assert(r[i].0 == q);
            }
            if has_key(r, q) {
                let i = choose|i: int| 0 <= i < r.len() && #[trigger] r[i].0 == q;
                if i < s.len() {
                    assert(s[i].0 == q);
                }
            }
        }
        assert forall|i: int, j: int| 0 <= i < j < r.len() implies #[trigger] r[i].0 != #[trigger] r[j].0 by {
            if j == s.len() {
                assert(s[i].0 == r[i].0);
            }
        }
    }
}

/// Putting a key that is not there yet appends it.
pub proof fn lemma_put_fresh<X>(s: Seq<(Seq<char>, X)>, k: Seq<char>, v: X)
    requires
        forall|i: int| 0 <= i < s.len() ==> #[trigger] s[i].0 != k,
    ensures
        put(s, k, v) == s.push((k, v)),
{
}

// ───────────────────────── the TOML model ─────────────────────────

/// A TOML value (what may stand on the right of `=`).
#[derive(Debug)]
pub enum TomlValue {
    String(String),
    Integer(i64),
    Float(FloatValue),
    Boolean(bool),
    /// A date-time, as its TOML text.
    Datetime(String),
    Array(Vec<TomlValue>),
    InlineTable(Vec<(String, TomlValue)>),
}

/// An entry of a TOML table.
#[derive(Debug)]
pub enum TomlItem {
    Empty,
    Value(TomlValue),
    Table(Vec<(String, TomlItem)>),
    ArrayOfTables(Vec<Vec<(String, TomlItem)>>),
}

/// What a TOML value is, with text as character sequences.
pub enum TomlV {
    Str(Seq<char>),
    Integer(i64),
    Float(FloatValue),
    Boolean(bool),
    Datetime(Seq<char>),
    Array(Seq<TomlV>),
    InlineTable(Seq<(Seq<char>, TomlV)>),
}

/// What a TOML table entry is.
pub enum ItemV {
    Empty,
    Value(TomlV),
    Table(Seq<(Seq<char>, ItemV)>),
    ArrayOfTables(Seq<Seq<(Seq<char>, ItemV)>>),
}

pub open spec fn tview(v: TomlValue) -> TomlV
    decreases v, 0int,
{
    match v {
        TomlValue::String(s) => TomlV::Str(s@),
        TomlValue::Integer(i) => TomlV::Integer(i),
        TomlValue::Float(f) => TomlV::Float(f),
        TomlValue::Boolean(b) => TomlV::Boolean(b),
        TomlValue::Datetime(s) => TomlV::Datetime(s@),
        TomlValue::Array(items) => {
            proof {
                vstd::std_specs::vec::axiom_vec_decreases_to_view(items);
            }
            TomlV::Array(tview_list(items@))
        },
        TomlValue::InlineTable(fields) => {
            proof {
                vstd::std_specs::vec::axiom_vec_decreases_to_view(fields);
            }
            TomlV::InlineTable(tview_fields(fields@))
        },
    }
}

pub open spec fn tview_list(s: Seq<TomlValue>) -> Seq<TomlV>
    decreases s, 1int,
{
    if s.len() == 0 {
        Seq::empty()
    } else {
        tview_list(s.drop_last()).push(tview(s.last()))
    }
}

pub open spec fn tview_fields(s: Seq<(String, TomlValue)>) -> Seq<(Seq<char>, TomlV)>
    decreases s, 1int,
{
    if s.len() == 0 {
        Seq::empty()
    } else {
        tview_fields(s.drop_last()).push((s.last().0@, tview(s.last().1)))
    }
}

pub open spec fn iview(i: TomlItem) -> ItemV
    decreases i, 0int,
{
    match i {
        TomlItem::Empty => ItemV::Empty,
        TomlItem::Value(v) => ItemV::Value(tview(v)),
        TomlItem::Table(t) => {
            proof {
                vstd::std_specs::vec::axiom_vec_decreases_to_view(t);
            }
            ItemV::Table(table_view(t@))
        },
        TomlItem::ArrayOfTables(ts) => {
            proof {
                vstd::std_specs::vec::axiom_vec_decreases_to_view(ts);
            }
            ItemV::ArrayOfTables(aot_view(ts@))
        },
    }
}

pub open spec fn table_view(s: Seq<(String, TomlItem)>) -> Seq<(Seq<char>, ItemV)>
    decreases s, 1int,
{
    if s.len() == 0 {
        Seq::empty()
    } else {
        table_view(s.drop_last()).push((s.last().0@, iview(s.last().1)))
    }
}

pub open spec fn aot_view(s: Seq<Vec<(String, TomlItem)>>) -> Seq<Seq<(Seq<char>, ItemV)>>
    decreases s, 1int,
{
    if s.len() == 0 {
        Seq::empty()
    } else {
        proof {
            vstd::std_specs::vec::axiom_vec_decreases_to_view(s.last());
        }
        aot_view(s.drop_last()).push(table_view(s.last()@))
    }
}

pub proof fn lemma_tview_fields_len(s: Seq<(String, TomlValue)>)
    ensures
        tview_fields(s).len() == s.len(),
        forall|i: int| 0 <= i < s.len() ==> #[trigger] tview_fields(s)[i] == (s[i].0@, tview(s[i].1)),
    decreases s.len(),
{
    if s.len() > 0 {
        lemma_tview_fields_len(s.drop_last());
    }
}

pub proof fn lemma_table_view_len(s: Seq<(String, TomlItem)>)
    ensures
        table_view(s).len() == s.len(),
        forall|i: int| 0 <= i < s.len() ==> #[trigger] table_view(s)[i] == (s[i].0@, iview(s[i].1)),
    decreases s.len(),
{
    if s.len() > 0 {
        lemma_table_view_len(s.drop_last());
    }
}

pub proof fn lemma_aot_view_len(s: Seq<Vec<(String, TomlItem)>>)
    ensures
        aot_view(s).len() == s.len(),
        forall|i: int| 0 <= i < s.len() ==> #[trigger] aot_view(s)[i] == table_view(s[i]@),
    decreases s.len(),
{
    if s.len() > 0 {
        lemma_aot_view_len(s.drop_last());
    }
}

// ───────────────────────── TOML → JSON ─────────────────────────

/// The JSON number of a TOML integer.
pub open spec fn int_number(i: i64) -> JsonNumber {
    if i >= 0 { JsonNumber::PosInt(i as u64) } else { JsonNumber::NegInt(i) }
}

/// The JSON form of a TOML value: strings, integers, booleans and
/// date-times (as text) carry over; a finite float becomes a JSON number and
/// a NaN or infinite one `null`; arrays and inline tables convert element by
/// element, in order.
pub open spec fn toml_json(v: TomlV) -> JsonV
    decreases v, 0int,
{
    match v {
        TomlV::Str(s) => JsonV::Str(s),
        TomlV::Integer(i) => JsonV::Number(int_number(i)),
        TomlV::Float(f) => if json::float_is_finite(f) {
            JsonV::Number(JsonNumber::Float(f))
        } else {
            JsonV::Null
        },
        TomlV::Boolean(b) => JsonV::Bool(b),
        TomlV::Datetime(s) => JsonV::Str(s),
        TomlV::Array(items) => JsonV::Array(toml_json_list(items)),
        TomlV::InlineTable(fields) => JsonV::Object(toml_json_fields(fields)),
    }
}

pub open spec fn toml_json_list(s: Seq<TomlV>) -> Seq<JsonV>
    decreases s, 1int,
{
    if s.len() == 0 {
        Seq::empty()
    } else {
        toml_json_list(s.drop_last()).push(toml_json(s.last()))
    }
}

pub open spec fn toml_json_fields(s: Seq<(Seq<char>, TomlV)>) -> Seq<(Seq<char>, JsonV)>
    decreases s, 1int,
{
    if s.len() == 0 {
        Seq::empty()
    } else {
        toml_json_fields(s.drop_last()).push((s.last().0, toml_json(s.last().1)))
    }
}

pub proof fn lemma_tview_list_push(s: Seq<TomlValue>, x: TomlValue)
    ensures
        tview_list(s.push(x)) == tview_list(s).push(tview(x)),
{
    assert(s.push(x).drop_last() =~= s);
}

pub proof fn lemma_tview_fields_push(s: Seq<(String, TomlValue)>, x: (String, TomlValue))
    ensures
        tview_fields(s.push(x)) == tview_fields(s).push((x.0@, tview(x.1))),
{
    assert(s.push(x).drop_last() =~= s);
}

pub proof fn lemma_table_view_push(s: Seq<(String, TomlItem)>, x: (String, TomlItem))
    ensures
        table_view(s.push(x)) == table_view(s).push((x.0@, iview(x.1))),
{
    assert(s.push(x).drop_last() =~= s);
}

pub proof fn lemma_toml_json_list_push(s: Seq<TomlV>, x: TomlV)
    ensures
        toml_json_list(s.push(x)) == toml_json_list(s).push(toml_json(x)),
{
    assert(s.push(x).drop_last() =~= s);
}

pub proof fn lemma_toml_json_fields_push(s: Seq<(Seq<char>, TomlV)>, x: (Seq<char>, TomlV))
    ensures
        toml_json_fields(s.push(x)) == toml_json_fields(s).push((x.0, toml_json(x.1))),
{
    assert(s.push(x).drop_last() =~= s);
}

fn copy_text(s: &String) -> (r: String)
    ensures
        r@ == s@,
{
    s.clone()
}

/// The JSON form of a TOML value.
#[verifier::loop_isolation(false)]
pub fn toml_value_to_json(value: &TomlValue) -> (j: Json)
    ensures
        jview(j) == toml_json(tview(*value)),
    decreases value,
{
    match value {
        TomlValue::String(s) => Json::String(copy_text(s)),
        TomlValue::Integer(i) => {
            let n = if *i >= 0 { JsonNumber::PosInt(*i as u64) } else { JsonNumber::NegInt(*i) };
            Json::Number(n)
        },
        TomlValue::Float(f) => {
            if json::is_finite(*f) {
                Json::Number(JsonNumber::Float(*f))
            } else {
                Json::Null
            }
        },
        TomlValue::Boolean(b) => Json::Bool(*b),
        TomlValue::Datetime(s) => Json::String(copy_text(s)),
        TomlValue::Array(items) => {
            let mut js: Vec<Json> = Vec::new();
            let mut i: usize = 0;
            while i < items.len()
                invariant
                    i <= items@.len(),
                    jview_list(js@) == toml_json_list(tview_list(items@.take(i as int))),
                decreases items.len() - i,
            {
                proof {
                    vstd::std_specs::vec::axiom_vec_index_decreases(*items, i as int);
                    assert(decreases_to!(*value => (*value)->Array_0));
                }
                let x = toml_value_to_json(&items[i]);
                proof {
                    json::lemma_jview_list_push(js@, x);
                    assert(items@.take(i + 1) =~= items@.take(i as int).push(items[i as int]));
                    lemma_tview_list_push(items@.take(i as int), items[i as int]);
                    lemma_toml_json_list_push(tview_list(items@.take(i as int)), tview(items[i as int]));
                }
                js.push(x);
                i = i + 1;
            }
            assert(items@.take(items@.len() as int) =~= items@);
            Json::Array(js)
        },
        TomlValue::InlineTable(fields) => {
            let mut js: Vec<(String, Json)> = Vec::new();
            let mut i: usize = 0;
            while i < fields.len()
                invariant
                    i <= fields@.len(),
                    jview_fields(js@) == toml_json_fields(tview_fields(fields@.take(i as int))),
                decreases fields.len() - i,
            {
                proof {
                    vstd::std_specs::vec::axiom_vec_index_decreases(*fields, i as int);
                    assert(decreases_to!(*value => (*value)->InlineTable_0));
                    assert(decreases_to!(fields[i as int] => fields[i as int].1));
                }
                let x = toml_value_to_json(&fields[i].1);
                let k = copy_text(&fields[i].0);
                proof {
                    json::lemma_jview_fields_push(js@, (k, x));
                    assert(fields@.take(i + 1) =~= fields@.take(i as int).push(fields[i as int]));
                    lemma_tview_fields_push(fields@.take(i as int), fields[i as int]);
                    lemma_toml_json_fields_push(
                        tview_fields(fields@.take(i as int)),
                        (fields[i as int].0@, tview(fields[i as int].1)),
                    );
                }
                js.push((k, x));
                i = i + 1;
            }
            assert(fields@.take(fields@.len() as int) =~= fields@);
            Json::Object(js)
        },
    }
}

// ───────────────────────── JSON → TOML ─────────────────────────

/// The TOML form of a JSON value: an integer that fits in an `i64` stays an
/// integer and any other number becomes a float; `null` becomes the empty
/// string; an object becomes an inline table whose members are set one after
/// the other, so that a repeated key keeps its first place and its last value.
pub open spec fn json_toml(j: JsonV) -> TomlV
    decreases j, 0int,
{
    match j {
        JsonV::Null => TomlV::Str(Seq::empty()),
        JsonV::Bool(b) => TomlV::Boolean(b),
        JsonV::Number(n) => match n {
            JsonNumber::PosInt(u) => if u <= i64::MAX as u64 {
                TomlV::Integer(u as i64)
            } else {
                TomlV::Float(FloatValue::NearestTo(u))
            },
            JsonNumber::NegInt(i) => TomlV::Integer(i),
            JsonNumber::Float(f) => TomlV::Float(f),
        },
        JsonV::Str(s) => TomlV::Str(s),
        JsonV::Array(items) => TomlV::Array(json_toml_list(items)),
        JsonV::Object(fields) => TomlV::InlineTable(json_toml_fields(fields)),
    }
}

pub open spec fn json_toml_list(s: Seq<JsonV>) -> Seq<TomlV>
    decreases s, 1int,
{
    if s.len() == 0 {
        Seq::empty()
    } else {
        json_toml_list(s.drop_last()).push(json_toml(s.last()))
    }
}

pub open spec fn json_toml_fields(s: Seq<(Seq<char>, JsonV)>) -> Seq<(Seq<char>, TomlV)>
    decreases s, 1int,
{
    if s.len() == 0 {
        Seq::empty()
    } else {
        put(json_toml_fields(s.drop_last()), s.last().0, json_toml(s.last().1))
    }
}

/// A JSON value that comes back unchanged from TOML: no `null`, integers
/// within `i64`, finite floats, and objects without repeated keys.
pub open spec fn representable(j: JsonV) -> bool
    decreases j, 0int,
{
    match j {
        JsonV::Null => false,
        JsonV::Bool(_) => true,
        JsonV::Number(n) => match n {
            JsonNumber::PosInt(u) => u <= i64::MAX as u64,
            JsonNumber::NegInt(i) => i < 0,
            JsonNumber::Float(f) => json::float_is_finite(f),
        },
        JsonV::Str(_) => true,
        JsonV::Array(items) => representable_list(items),
        JsonV::Object(fields) => unique_keys(fields) && representable_fields(fields),
    }
}

pub open spec fn representable_list(s: Seq<JsonV>) -> bool
    decreases s, 1int,
{
    if s.len() == 0 {
        true
    } else {
        representable_list(s.drop_last()) && representable(s.last())
    }
}

pub open spec fn representable_fields(s: Seq<(Seq<char>, JsonV)>) -> bool
    decreases s, 1int,
{
    if s.len() == 0 {
        true
    } else {
        representable_fields(s.drop_last()) && representable(s.last().1)
    }
}

/// A representable JSON value turned into TOML and back is the same value.
pub proof fn lemma_json_toml_roundtrip(j: JsonV)
    requires
        representable(j),
    ensures
        toml_json(json_toml(j)) == j,
    decreases j, 0int,
{
    match j {
        JsonV::Array(items) => {
            lemma_json_toml_roundtrip_list(items);
        },
        JsonV::Object(fields) => {
            lemma_json_toml_roundtrip_fields(fields);
        },
        _ => {},
    }
}

pub proof fn lemma_json_toml_roundtrip_list(s: Seq<JsonV>)
    requires
        representable_list(s),
    ensures
        toml_json_list(json_toml_list(s)) == s,
    decreases s, 1int,
{
    if s.len() > 0 {
        lemma_json_toml_roundtrip_list(s.drop_last());
        lemma_json_toml_roundtrip(s.last());
        lemma_toml_json_list_push(json_toml_list(s.drop_last()), json_toml(s.last()));
        assert(s.drop_last().push(s.last()) =~= s);
    }
}

pub proof fn lemma_json_toml_fields_keys(s: Seq<(Seq<char>, JsonV)>)
    requires
        unique_keys(s),
    ensures
        json_toml_fields(s).len() == s.len(),
        forall|i: int| 0 <= i < s.len() ==> #[trigger] json_toml_fields(s)[i] == (s[i].0, json_toml(s[i].1)),
    decreases s.len(),
{
    if s.len() > 0 {
        let p = s.drop_last();
        assert(unique_keys(p));
        lemma_json_toml_fields_keys(p);
        assert forall|i: int| 0 <= i < json_toml_fields(p).len() implies #[trigger] json_toml_fields(p)[i].0 != s.last().0 by {
            assert(s[i].0 != s[s.len() - 1].0);
        }
        lemma_put_fresh(json_toml_fields(p), s.last().0, json_toml(s.last().1));
    }
}

pub proof fn lemma_json_toml_roundtrip_fields(s: Seq<(Seq<char>, JsonV)>)
    requires
        unique_keys(s),
        representable_fields(s),
    ensures
        toml_json_fields(json_toml_fields(s)) == s,
    decreases s, 1int,
{
    if s.len() > 0 {
        let p = s.drop_last();
        assert(unique_keys(p));
        lemma_json_toml_roundtrip_fields(p);
        lemma_json_toml_roundtrip(s.last().1);
        lemma_json_toml_fields_keys(p);
        assert forall|i: int| 0 <= i < json_toml_fields(p).len() implies #[trigger] json_toml_fields(p)[i].0 != s.last().0 by {
            assert(s[i].0 != s[s.len() - 1].0);
        }
        lemma_put_fresh(json_toml_fields(p), s.last().0, json_toml(s.last().1));
        lemma_toml_json_fields_push(json_toml_fields(p), (s.last().0, json_toml(s.last().1)));
        assert(p.push(s.last()) =~= s);
    }
}

/// Sets the key `k` of an inline table to `v`, where it stands or at the end.
fn put_field(fields: &mut Vec<(String, TomlValue)>, k: String, v: TomlValue)
    ensures
        tview_fields(final(fields)@) == put(tview_fields(old(fields)@), k@, tview(v)),
{
    proof {
        lemma_tview_fields_len(fields@);
    }
    let ghost old_view = tview_fields(fields@);
    let mut i: usize = 0;
    while i < fields.len()
        invariant
            i <= fields@.len(),
            fields@ == old(fields)@,
            old_view == tview_fields(fields@),
            old_view.len() == fields@.len(),
            forall|j: int| 0 <= j < fields@.len() ==> #[trigger] old_view[j] == (fields@[j].0@, tview(fields@[j].1)),
            forall|j: int| 0 <= j < i ==> #[trigger] old_view[j].0 != k@,
        decreases fields.len() - i,
    {
        if fields[i].0 == k {
            proof {
                lemma_key_pos(old_view, k@, i as int);
            }
            let ghost before = fields@;
            fields.set(i, (k, v));
            proof {
                lemma_tview_fields_len(fields@);
                lemma_tview_fields_len(before);
                assert(tview_fields(fields@) =~= old_view.update(i as int, (k@, tview(v))));
            }
            return;
        }
        i = i + 1;
    }
    let ghost before = fields@;
    let ghost kv = k@;
    fields.push((k, v));
    proof {
        lemma_tview_fields_push(before, (k, v));
        lemma_put_fresh(old_view, kv, tview(v));
    }
}

/// The TOML form of a JSON value.
#[verifier::loop_isolation(false)]
pub fn json_value_to_toml(value: &Json) -> (t: TomlValue)
    ensures
        tview(t) == json_toml(jview(*value)),
    decreases value,
{
    match value {
        Json::Null => TomlValue::String(String::new()),
        Json::Bool(b) => TomlValue::Boolean(*b),
        Json::Number(n) => match n {
            JsonNumber::PosInt(u) => {
                if *u <= 0x7fff_ffff_ffff_ffff {
                    TomlValue::Integer(*u as i64)
                } else {
                    TomlValue::Float(FloatValue::NearestTo(*u))
                }
            },
            JsonNumber::NegInt(i) => TomlValue::Integer(*i),
            JsonNumber::Float(f) => TomlValue::Float(*f),
        },
        Json::String(s) => TomlValue::String(copy_text(s)),
        Json::Array(items) => {
            let mut ts: Vec<TomlValue> = Vec::new();
            let mut i: usize = 0;
            while i < items.len()
                invariant
                    i <= items@.len(),
                    tview_list(ts@) == json_toml_list(jview_list(items@.take(i as int))),
                decreases items.len() - i,
            {
                proof {
                    vstd::std_specs::vec::axiom_vec_index_decreases(*items, i as int);
                    assert(decreases_to!(*value => (*value)->Array_0));
                }
                let x = json_value_to_toml(&items[i]);
                proof {
                    lemma_tview_list_push(ts@, x);
                    assert(items@.take(i + 1) =~= items@.take(i as int).push(items[i as int]));
                    json::lemma_jview_list_push(items@.take(i as int), items[i as int]);
                    assert(jview_list(items@.take(i as int)).push(jview(items[i as int])).drop_last()
                        =~= jview_list(items@.take(i as int)));
                }
                ts.push(x);
                i = i + 1;
            }
            assert(items@.take(items@.len() as int) =~= items@);
            TomlValue::Array(ts)
        },
        Json::Object(fields) => {
            let mut ts: Vec<(String, TomlValue)> = Vec::new();
            let mut i: usize = 0;
            while i < fields.len()
                invariant
                    i <= fields@.len(),
                    tview_fields(ts@) == json_toml_fields(jview_fields(fields@.take(i as int))),
                decreases fields.len() - i,
            {
                proof {
                    vstd::std_specs::vec::axiom_vec_index_decreases(*fields, i as int);
                    assert(decreases_to!(*value => (*value)->Object_0));
                    assert(decreases_to!(fields[i as int] => fields[i as int].1));
                }
                let x = json_value_to_toml(&fields[i].1);
                let k = copy_text(&fields[i].0);
                proof {
                    assert(fields@.take(i + 1) =~= fields@.take(i as int).push(fields[i as int]));
                    json::lemma_jview_fields_push(fields@.take(i as int), fields[i as int]);
                    let jv = jview_fields(fields@.take(i as int)).push((fields[i as int].0@, jview(fields[i as int].1)));
                    assert(jv.drop_last() =~= jview_fields(fields@.take(i as int)));
                }
                put_field(&mut ts, k, x);
                i = i + 1;
            }
            assert(fields@.take(fields@.len() as int) =~= fields@);
            TomlValue::InlineTable(ts)
        },
    }
}

// ───────────────────────── tables → JSON ─────────────────────────

/// The JSON members of a table: each value, table and array of tables in
/// order, tables as objects and arrays of tables as arrays of objects;
/// empty entries are left out.
pub open spec fn table_json(s: Seq<(Seq<char>, ItemV)>) -> Seq<(Seq<char>, JsonV)>
    decreases s, 1int,
{
    if s.len() == 0 {
        Seq::empty()
    } else {
        let r = table_json(s.drop_last());
        let k = s.last().0;
        match s.last().1 {
            ItemV::Empty => r,
            ItemV::Value(v) => r.push((k, toml_json(v))),
            ItemV::Table(t) => r.push((k, JsonV::Object(table_json(t)))),
            ItemV::ArrayOfTables(ts) => r.push((k, JsonV::Array(aot_json(ts)))),
        }
    }
}

pub open spec fn aot_json(ts: Seq<Seq<(Seq<char>, ItemV)>>) -> Seq<JsonV>
    decreases ts, 1int,
{
    if ts.len() == 0 {
        Seq::empty()
    } else {
        aot_json(ts.drop_last()).push(JsonV::Object(table_json(ts.last())))
    }
}

/// The JSON members of the plain values at the top of a table (its tables
/// and arrays of tables are left out).
pub open spec fn root_json(s: Seq<(Seq<char>, ItemV)>) -> Seq<(Seq<char>, JsonV)>
    decreases s.len(),
{
    if s.len() == 0 {
        Seq::empty()
    } else {
        let r = root_json(s.drop_last());
        match s.last().1 {
            ItemV::Value(v) => r.push((s.last().0, toml_json(v))),
            _ => r,
        }
    }
}

/// The JSON object of the table `key` of `doc`, or an empty object where
/// `doc` has no table under that key.
pub open spec fn section_json(doc: Seq<(Seq<char>, ItemV)>, key: Seq<char>) -> JsonV {
    match lookup(doc, key) {
        Some(ItemV::Table(t)) => JsonV::Object(table_json(t)),
        _ => JsonV::Object(Seq::empty()),
    }
}

/// The JSON of the value `key` of `doc`: an array element by element, any
/// other value as itself; an empty array where `doc` has no value there.
pub open spec fn array_json(doc: Seq<(Seq<char>, ItemV)>, key: Seq<char>) -> JsonV {
    match lookup(doc, key) {
        Some(ItemV::Value(v)) => toml_json(v),
        _ => JsonV::Array(Seq::empty()),
    }
}

/// The JSON object of a TOML table.
#[verifier::loop_isolation(false)]
pub fn toml_table_to_json(table: &Vec<(String, TomlItem)>) -> (j: Json)
    ensures
        jview(j) == JsonV::Object(table_json(table_view(table@))),
    decreases table,
{
    let mut js: Vec<(String, Json)> = Vec::new();
    let mut i: usize = 0;
    while i < table.len()
        invariant
            i <= table@.len(),
            jview_fields(js@) == table_json(table_view(table@.take(i as int))),
        decreases table.len() - i,
    {
        proof {
            vstd::std_specs::vec::axiom_vec_index_decreases(*table, i as int);
            assert(decreases_to!(table[i as int] => table[i as int].1));
            assert(table@.take(i + 1) =~= table@.take(i as int).push(table[i as int]));
            lemma_table_view_push(table@.take(i as int), table[i as int]);
            let tv = table_view(table@.take(i as int)).push((table[i as int].0@, iview(table[i as int].1)));
            assert(tv.drop_last() =~= table_view(table@.take(i as int)));
        }
        let entry = &table[i];
        match &entry.1 {
            TomlItem::Empty => {},
            TomlItem::Value(v) => {
                let x = toml_value_to_json(v);
                let k = copy_text(&entry.0);
                proof {
                    json::lemma_jview_fields_push(js@, (k, x));
                }
                js.push((k, x));
            },
            TomlItem::Table(sub) => {
                proof {
                    assert(decreases_to!(table[i as int].1 => (table[i as int].1)->Table_0));
                }
                let x = toml_table_to_json(sub);
                let k = copy_text(&entry.0);
                proof {
                    json::lemma_jview_fields_push(js@, (k, x));
                }
                js.push((k, x));
            },
            TomlItem::ArrayOfTables(ts) => {
                let mut arr: Vec<Json> = Vec::new();
                let mut j: usize = 0;
                while j < ts.len()
                    invariant
                        j <= ts@.len(),
                        jview_list(arr@) == aot_json(aot_view(ts@.take(j as int))),
                    decreases ts.len() - j,
                {
                    proof {
                        assert(decreases_to!(table[i as int].1 => (table[i as int].1)->ArrayOfTables_0));
                        vstd::std_specs::vec::axiom_vec_index_decreases(*ts, j as int);
                        assert(ts@.take(j + 1) =~= ts@.take(j as int).push(ts[j as int]));
                        assert(ts@.take(j + 1).drop_last() =~= ts@.take(j as int));
                        let av = aot_view(ts@.take(j as int)).push(table_view(ts[j as int]@));
                        assert(av.drop_last() =~= aot_view(ts@.take(j as int)));
                    }
                    let o = toml_table_to_json(&ts[j]);
                    proof {
                        json::lemma_jview_list_push(arr@, o);
                    }
                    arr.push(o);
                    j = j + 1;
                }
                assert(ts@.take(ts@.len() as int) =~= ts@);
                let k = copy_text(&entry.0);
                let x = Json::Array(arr);
                proof {
                    json::lemma_jview_fields_push(js@, (k, x));
                }
                js.push((k, x));
            },
        }
        i = i + 1;
    }
    assert(table@.take(table@.len() as int) =~= table@);
    Json::Object(js)
}

/// The JSON object of the plain values at the top of a document (what the
/// UI lists as root keys).
#[verifier::loop_isolation(false)]
pub fn extract_root_keys(doc: &Vec<(String, TomlItem)>) -> (j: Json)
    ensures
        jview(j) == JsonV::Object(root_json(table_view(doc@))),
{
    let mut js: Vec<(String, Json)> = Vec::new();
    let mut i: usize = 0;
    while i < doc.len()
        invariant
            i <= doc@.len(),
            jview_fields(js@) == root_json(table_view(doc@.take(i as int))),
        decreases doc.len() - i,
    {
        proof {
            assert(doc@.take(i + 1) =~= doc@.take(i as int).push(doc[i as int]));
            lemma_table_view_push(doc@.take(i as int), doc[i as int]);
            let tv = table_view(doc@.take(i as int)).push((doc[i as int].0@, iview(doc[i as int].1)));
            assert(tv.drop_last() =~= table_view(doc@.take(i as int)));
        }
        if let TomlItem::Value(v) = &doc[i].1 {
            let x = toml_value_to_json(v);
            let k = copy_text(&doc[i].0);
            proof {
                json::lemma_jview_fields_push(js@, (k, x));
            }
            js.push((k, x));
        }
        i = i + 1;
    }
    assert(doc@.take(doc@.len() as int) =~= doc@);
    Json::Object(js)
}

/// The position of the first entry of a table with the given key.
pub(crate) fn entry_index(table: &Vec<(String, TomlItem)>, key: &str) -> (r: Option<usize>)
    ensures
        match r {
            Some(i) => is_first_key(table_view(table@), key@, i as int),
            None => !has_key(table_view(table@), key@),
        },
{
    proof {
        lemma_table_view_len(table@);
    }
    let ghost tv = table_view(table@);
    let mut i: usize = 0;
    while i < table.len()
        invariant
            i <= table@.len(),
            tv == table_view(table@),
            tv.len() == table@.len(),
            forall|j: int| 0 <= j < table@.len() ==> #[trigger] tv[j] == (table@[j].0@, iview(table@[j].1)),
            forall|j: int| 0 <= j < i ==> #[trigger] tv[j].0 != key@,
        decreases table.len() - i,
    {
        if text_eq(&table[i].0, key) {
            return Some(i);
        }
        i = i + 1;
    }
    None
}

fn text_eq(a: &String, b: &str) -> (r: bool)
    ensures
        r == (a@ == b@),
{
    let t = b.to_string();
    *a == t
}

/// The table `key` of a document as a JSON object (`{}` where there is no
/// such table).
pub fn extract_table_as_json(doc: &Vec<(String, TomlItem)>, key: &str) -> (j: Json)
    ensures
        jview(j) == section_json(table_view(doc@), key@),
{
    match entry_index(doc, key) {
        Some(i) => {
            proof {
                lemma_key_pos(table_view(doc@), key@, i as int);
                lemma_table_view_len(doc@);
            }
            match &doc[i].1 {
                TomlItem::Table(t) => toml_table_to_json(t),
                _ => Json::Object(Vec::new()),
            }
        },
        None => Json::Object(Vec::new()),
    }
}

/// The tables under `key` (such as `[mcp_servers.foo]`) as one JSON object
/// with a member per table.
pub fn extract_dotted_tables_as_json(doc: &Vec<(String, TomlItem)>, top_key: &str) -> (j: Json)
    ensures
        jview(j) == section_json(table_view(doc@), top_key@),
{
    extract_table_as_json(doc, top_key)
}

/// The value `key` of a document as JSON (an array element by element),
/// `[]` where there is no value under that key.
pub fn extract_array_as_json(doc: &Vec<(String, TomlItem)>, key: &str) -> (j: Json)
    ensures
        jview(j) == array_json(table_view(doc@), key@),
{
    match entry_index(doc, key) {
        Some(i) => {
            proof {
                lemma_key_pos(table_view(doc@), key@, i as int);
                lemma_table_view_len(doc@);
            }
            match &doc[i].1 {
                TomlItem::Value(v) => toml_value_to_json(v),
                _ => Json::Array(Vec::new()),
            }
        },
        None => Json::Array(Vec::new()),
    }
}

// ───────────────────────── saves ─────────────────────────

/// Why a save was refused.
#[derive(Debug)]
pub enum ConfigError {
    /// The features to save are not a JSON object.
    FeaturesNotObject,
    /// The notify list to save is neither an array nor `null`.
    NotifyNotArrayOrNull,
    /// The entry with this key is not a table.
    NotATable(String),
    /// The `ucodex_internal` entry is not a table.
    InternalNotATable,
    /// The text to save is not valid TOML.
    InvalidToml,
    /// The document that a save made is not valid TOML.
    InvalidGeneratedToml,
}

/// One change to the top level of the document. A save is a list of them,
/// carried out in order.
#[derive(Debug)]
pub enum ConfigEdit {
    /// Remove the entry `key`.
    Remove(String),
    /// Set the entry `key` to a value.
    SetValue(String, TomlValue),
    /// Make `key` a table with exactly these entries; an existing table keeps
    /// its place.
    SetTable(String, Vec<(String, TomlItem)>),
    /// Set the entry of the table `table` (made where missing) named `key`.
    SetTableValue(String, String, TomlValue),
}

pub enum EditV {
    Remove(Seq<char>),
    SetValue(Seq<char>, TomlV),
    SetTable(Seq<char>, Seq<(Seq<char>, ItemV)>),
    SetTableValue(Seq<char>, Seq<char>, TomlV),
}

pub open spec fn eview(e: ConfigEdit) -> EditV {
    match e {
        ConfigEdit::Remove(k) => EditV::Remove(k@),
        ConfigEdit::SetValue(k, v) => EditV::SetValue(k@, tview(v)),
        ConfigEdit::SetTable(k, t) => EditV::SetTable(k@, table_view(t@)),
        ConfigEdit::SetTableValue(t, k, v) => EditV::SetTableValue(t@, k@, tview(v)),
    }
}

pub open spec fn eviews(es: Seq<ConfigEdit>) -> Seq<EditV> {
    es.map_values(|e: ConfigEdit| eview(e))
}

/// The table under `k` in `d`, or no entries where there is none.
pub open spec fn sub_table(d: Seq<(Seq<char>, ItemV)>, k: Seq<char>) -> Seq<(Seq<char>, ItemV)> {
    match lookup(d, k) {
        Some(ItemV::Table(t)) => t,
        _ => Seq::empty(),
    }
}

/// The entry `k` of `d` is a value or an array of tables, so that it cannot
/// serve as a table.
pub open spec fn blocks_table(d: Seq<(Seq<char>, ItemV)>, k: Seq<char>) -> bool {
    lookup(d, k) matches Some(ItemV::Value(_)) || lookup(d, k) matches Some(ItemV::ArrayOfTables(_))
}

/// What an edit makes of the top level of a document.
pub open spec fn edit_result(d: Seq<(Seq<char>, ItemV)>, e: EditV) -> Seq<(Seq<char>, ItemV)> {
    match e {
        EditV::Remove(k) => without(d, k),
        EditV::SetValue(k, v) => put(d, k, ItemV::Value(v)),
        EditV::SetTable(k, t) => put(d, k, ItemV::Table(t)),
        EditV::SetTableValue(tk, k, v) => put(d, tk, ItemV::Table(put(sub_table(d, tk), k, ItemV::Value(v)))),
    }
}

pub open spec fn edits_result(d: Seq<(Seq<char>, ItemV)>, es: Seq<EditV>) -> Seq<(Seq<char>, ItemV)>
    decreases es.len(),
{
    if es.len() == 0 {
        d
    } else {
        edit_result(edits_result(d, es.drop_last()), es.last())
    }
}

/// The entries of `acc` after setting each member of `fs`, in order, as a
/// TOML value.
pub open spec fn value_entries(acc: Seq<(Seq<char>, ItemV)>, fs: Seq<(Seq<char>, JsonV)>) -> Seq<(Seq<char>, ItemV)>
    decreases fs.len(),
{
    if fs.len() == 0 {
        acc
    } else {
        put(value_entries(acc, fs.drop_last()), fs.last().0, ItemV::Value(json_toml(fs.last().1)))
    }
}

/// The entries of a section's table after setting each property in order:
/// where `nested_env` holds, an `env` object fills the sub-table `env` and
/// an `env` of another kind is left out; every other property is a value.
pub open spec fn props_entries(acc: Seq<(Seq<char>, ItemV)>, props: Seq<(Seq<char>, JsonV)>, nested_env: bool) -> Seq<(Seq<char>, ItemV)>
    decreases props.len(),
{
    if props.len() == 0 {
        acc
    } else {
        let t = props_entries(acc, props.drop_last(), nested_env);
        let k = props.last().0;
        let v = props.last().1;
        if nested_env && k == "env"@ {
            match v {
                JsonV::Object(em) => put(t, k, ItemV::Table(value_entries(sub_table(t, k), em))),
                _ => t,
            }
        } else {
            put(t, k, ItemV::Value(json_toml(v)))
        }
    }
}

/// The tables of a section: each member that is an object fills the table
/// of its key; members of other kinds are left out.
pub open spec fn section_entries(acc: Seq<(Seq<char>, ItemV)>, members: Seq<(Seq<char>, JsonV)>, nested_env: bool) -> Seq<(Seq<char>, ItemV)>
    decreases members.len(),
{
    if members.len() == 0 {
        acc
    } else {
        let t = section_entries(acc, members.drop_last(), nested_env);
        match members.last().1 {
            JsonV::Object(props) => put(
                t,
                members.last().0,
                ItemV::Table(props_entries(sub_table(t, members.last().0), props, nested_env)),
            ),
            _ => t,
        }
    }
}

/// The strings of a JSON array, in order; its other elements are left out.
pub open spec fn string_items(items: Seq<JsonV>) -> Seq<TomlV>
    decreases items.len(),
{
    if items.len() == 0 {
        Seq::empty()
    } else {
        let r = string_items(items.drop_last());
        match items.last() {
            JsonV::Str(s) => r.push(TomlV::Str(s)),
            _ => r,
        }
    }
}

/// The edits of a root-keys save: each `null` member removes its key and
/// every other member sets its key to its TOML form.
pub open spec fn root_key_edits(ks: Seq<(Seq<char>, JsonV)>) -> Seq<EditV> {
    ks.map_values(|m: (Seq<char>, JsonV)| if m.1 is Null {
        EditV::Remove(m.0)
    } else {
        EditV::SetValue(m.0, json_toml(m.1))
    })
}

/// The edits of saving the members `fs` of a features object (see
/// `features_edits`).
pub open spec fn features_save(fs: Seq<(Seq<char>, JsonV)>) -> Seq<EditV> {
    if fs.len() == 0 {
        seq![EditV::Remove("features"@)]
    } else {
        seq![EditV::SetTable("features"@, value_entries(Seq::empty(), fs))]
    }
}

/// The edits of saving a section of tables (see `section_edits`).
pub open spec fn section_save(section: Seq<char>, members: JsonV, nested_env: bool) -> Seq<EditV> {
    match members {
        JsonV::Object(ms) => if ms.len() == 0 {
            seq![EditV::Remove(section)]
        } else {
            seq![EditV::Remove(section), EditV::SetTable(section, section_entries(Seq::empty(), ms, nested_env))]
        },
        _ => seq![EditV::Remove(section)],
    }
}

/// The edits of saving a notify array (see `notify_edits`).
pub open spec fn notify_save(items: Seq<JsonV>) -> Seq<EditV> {
    if items.len() == 0 {
        seq![EditV::Remove("notify"@)]
    } else {
        seq![EditV::SetValue("notify"@, TomlV::Array(string_items(items)))]
    }
}

/// Sets the entry `k` of a table to `v`, where it stands or at the end.
fn put_entry(entries: &mut Vec<(String, TomlItem)>, k: String, v: TomlItem)
    ensures
        table_view(final(entries)@) == put(table_view(old(entries)@), k@, iview(v)),
{
    proof {
        lemma_table_view_len(entries@);
    }
    let ghost old_view = table_view(entries@);
    let mut i: usize = 0;
    while i < entries.len()
        invariant
            i <= entries@.len(),
            entries@ == old(entries)@,
            old_view == table_view(entries@),
            old_view.len() == entries@.len(),
            forall|j: int| 0 <= j < entries@.len() ==> #[trigger] old_view[j] == (entries@[j].0@, iview(entries@[j].1)),
            forall|j: int| 0 <= j < i ==> #[trigger] old_view[j].0 != k@,
        decreases entries.len() - i,
    {
        if entries[i].0 == k {
            proof {
                lemma_key_pos(old_view, k@, i as int);
            }
            let ghost before = entries@;
            entries.set(i, (k, v));
            proof {
                lemma_table_view_len(entries@);
                assert(table_view(entries@) =~= old_view.update(i as int, (k@, iview(v))));
            }
            return;
        }
        i = i + 1;
    }
    let ghost before = entries@;
    let ghost kv = k@;
    entries.push((k, v));
    proof {
        lemma_table_view_push(before, (k, v));
        lemma_put_fresh(old_view, kv, iview(v));
    }
}

/// Takes the table under `key` out of `entries` (leaving an empty entry in
/// its place), or gives no entries where there is no table there.
fn take_table(entries: &mut Vec<(String, TomlItem)>, key: &String) -> (sub: Vec<(String, TomlItem)>)
    ensures
        table_view(sub@) == sub_table(table_view(old(entries)@), key@),
        forall|x: ItemV| #[trigger] put(table_view(final(entries)@), key@, x) == put(table_view(old(entries)@), key@, x),
{
    proof {
        lemma_table_view_len(entries@);
    }
    match entry_index(entries, key.as_str()) {
        Some(i) => {
            let ghost before = entries@;
            proof {
                lemma_key_pos(table_view(before), key@, i as int);
            }
            let mut e = (copy_text(key), TomlItem::Empty);
            entries.set_and_swap(i, &mut e);
            match e.1 {
                TomlItem::Table(sub) => {
                    proof {
                        lemma_table_view_len(entries@);
                        let tv = table_view(entries@);
                        assert(tv =~= table_view(before).update(i as int, (key@, ItemV::Empty)));
                        assert(is_first_key(tv, key@, i as int));
                        lemma_key_pos(tv, key@, i as int);
                        assert forall|x: ItemV| #[trigger] put(tv, key@, x) == put(table_view(before), key@, x) by {
                            assert(tv.update(i as int, (key@, x)) =~= table_view(before).update(i as int, (key@, x)));
                        }
                    }
                    sub
                },
                other => {
                    let mut back = (e.0, other);
                    entries.set_and_swap(i, &mut back);
                    proof {
                        assert(entries@ =~= before);
                    }
                    Vec::new()
                },
            }
        },
        None => Vec::new(),
    }
}

/// Sets each member of `fs`, in order, as a TOML value in `entries`.
fn put_values(entries: &mut Vec<(String, TomlItem)>, fs: &Vec<(String, Json)>)
    ensures
        table_view(final(entries)@) == value_entries(table_view(old(entries)@), jview_fields(fs@)),
{
    let ghost start = table_view(entries@);
    let mut i: usize = 0;
    while i < fs.len()
        invariant
            i <= fs@.len(),
            table_view(entries@) == value_entries(start, jview_fields(fs@.take(i as int))),
        decreases fs.len() - i,
    {
        let v = json_value_to_toml(&fs[i].1);
        let k = copy_text(&fs[i].0);
        proof {
            assert(fs@.take(i + 1) =~= fs@.take(i as int).push(fs[i as int]));
            json::lemma_jview_fields_push(fs@.take(i as int), fs[i as int]);
            let jv = jview_fields(fs@.take(i as int)).push((fs[i as int].0@, jview(fs[i as int].1)));
            assert(jv.drop_last() =~= jview_fields(fs@.take(i as int)));
        }
        put_entry(entries, k, TomlItem::Value(v));
        i = i + 1;
    }
    assert(fs@.take(fs@.len() as int) =~= fs@);
}

/// Sets each property of a section's table in order (see `props_entries`).
fn put_props(entries: &mut Vec<(String, TomlItem)>, props: &Vec<(String, Json)>, nested_env: bool)
    ensures
        table_view(final(entries)@) == props_entries(table_view(old(entries)@), jview_fields(props@), nested_env),
{
    let ghost start = table_view(entries@);
    let mut i: usize = 0;
    while i < props.len()
        invariant
            i <= props@.len(),
            table_view(entries@) == props_entries(start, jview_fields(props@.take(i as int)), nested_env),
        decreases props.len() - i,
    {
        proof {
            assert(props@.take(i + 1) =~= props@.take(i as int).push(props[i as int]));
            json::lemma_jview_fields_push(props@.take(i as int), props[i as int]);
            let jv = jview_fields(props@.take(i as int)).push((props[i as int].0@, jview(props[i as int].1)));
            assert(jv.drop_last() =~= jview_fields(props@.take(i as int)));
        }
        let k = &props[i].0;
        if nested_env && text_eq(k, "env") {
            if let Json::Object(em) = &props[i].1 {
                let mut sub = take_table(entries, k);
                put_values(&mut sub, em);
                put_entry(entries, copy_text(k), TomlItem::Table(sub));
            }
        } else {
            let v = json_value_to_toml(&props[i].1);
            put_entry(entries, copy_text(k), TomlItem::Value(v));
        }
        i = i + 1;
    }
    assert(props@.take(props@.len() as int) =~= props@);
}

/// The tables of a section (see `section_entries`).
fn put_sections(entries: &mut Vec<(String, TomlItem)>, members: &Vec<(String, Json)>, nested_env: bool)
    ensures
        table_view(final(entries)@) == section_entries(table_view(old(entries)@), jview_fields(members@), nested_env),
{
    let ghost start = table_view(entries@);
    let mut i: usize = 0;
    while i < members.len()
        invariant
            i <= members@.len(),
            table_view(entries@) == section_entries(start, jview_fields(members@.take(i as int)), nested_env),
        decreases members.len() - i,
    {
        proof {
            assert(members@.take(i + 1) =~= members@.take(i as int).push(members[i as int]));
            json::lemma_jview_fields_push(members@.take(i as int), members[i as int]);
            let jv = jview_fields(members@.take(i as int)).push((members[i as int].0@, jview(members[i as int].1)));
            assert(jv.drop_last() =~= jview_fields(members@.take(i as int)));
        }
        let k = &members[i].0;
        if let Json::Object(props) = &members[i].1 {
            let mut sub = take_table(entries, k);
            put_props(&mut sub, props, nested_env);
            put_entry(entries, copy_text(k), TomlItem::Table(sub));
        }
        i = i + 1;
    }
    assert(members@.take(members@.len() as int) =~= members@);
}

pub(crate) fn text(s: &str) -> (r: String)
    ensures
        r@ == s@,
{
    s.to_string()
}

/// Whether the entry `key` of a document cannot serve as a table.
pub(crate) fn table_blocked(doc: &Vec<(String, TomlItem)>, key: &str) -> (b: bool)
    ensures
        b == blocks_table(table_view(doc@), key@),
{
    match entry_index(doc, key) {
        Some(i) => {
            proof {
                lemma_key_pos(table_view(doc@), key@, i as int);
                lemma_table_view_len(doc@);
            }
            match &doc[i].1 {
                TomlItem::Value(_) => true,
                TomlItem::ArrayOfTables(_) => true,
                _ => false,
            }
        },
        None => false,
    }
}

/// The edits that saving the `[features]` table makes: an empty object
/// removes the table, any other object replaces its entries with the
/// object's members as TOML values.
pub fn features_edits(doc: &Vec<(String, TomlItem)>, features: &Json) -> (r: Result<Vec<ConfigEdit>, ConfigError>)
    ensures
        match jview(*features) {
            JsonV::Object(fs) => if fs.len() > 0 && blocks_table(table_view(doc@), "features"@) {
                r matches Err(ConfigError::NotATable(k)) && k@ == "features"@
            } else {
                r matches Ok(es) && eviews(es@) == features_save(fs)
            },
            _ => r matches Err(ConfigError::FeaturesNotObject),
        },
{
    match features {
        Json::Object(fs) => {
            proof {
                json::lemma_jview_fields_len(fs@);
            }
            if fs.len() == 0 {
                let es = vec![ConfigEdit::Remove(text("features"))];
                assert(eviews(es@) =~= seq![EditV::Remove("features"@)]);
                return Ok(es);
            }
            if table_blocked(doc, "features") {
                return Err(ConfigError::NotATable(text("features")));
            }
            let mut entries: Vec<(String, TomlItem)> = Vec::new();
            put_values(&mut entries, fs);
            let es = vec![ConfigEdit::SetTable(text("features"), entries)];
            assert(eviews(es@) =~= seq![EditV::SetTable("features"@, value_entries(Seq::empty(), jview_fields(fs@)))]);
            Ok(es)
        },
        _ => Err(ConfigError::FeaturesNotObject),
    }
}

/// The edits that switching one feature makes: the key is set in the
/// `[features]` table, which is made where missing.
pub fn feature_edits(doc: &Vec<(String, TomlItem)>, key: &str, value: bool) -> (r: Result<Vec<ConfigEdit>, ConfigError>)
    ensures
        blocks_table(table_view(doc@), "features"@) ==> (r matches Err(ConfigError::NotATable(k)) && k@ == "features"@),
        !blocks_table(table_view(doc@), "features"@) ==> (r matches Ok(es) && eviews(es@) == seq![
            EditV::SetTableValue("features"@, key@, TomlV::Boolean(value)),
        ]),
{
    if table_blocked(doc, "features") {
        return Err(ConfigError::NotATable(text("features")));
    }
    let es = vec![ConfigEdit::SetTableValue(text("features"), text(key), TomlValue::Boolean(value))];
    assert(eviews(es@) =~= seq![EditV::SetTableValue("features"@, key@, TomlV::Boolean(value))]);
    Ok(es)
}

/// The edits that saving a section of tables (`mcp_servers`, `plugins`,
/// `projects`, `model_providers`) makes: the section is removed, then, for
/// a non-empty object, made again with a table for each member that is an
/// object (see `section_entries`).
pub fn section_edits(section: &str, members: &Json, nested_env: bool) -> (es: Vec<ConfigEdit>)
    ensures
        eviews(es@) == section_save(section@, jview(*members), nested_env),
{
    let mut es = vec![ConfigEdit::Remove(text(section))];
    if let Json::Object(ms) = members {
        proof {
            json::lemma_jview_fields_len(ms@);
        }
        if ms.len() > 0 {
            let mut entries: Vec<(String, TomlItem)> = Vec::new();
            put_sections(&mut entries, ms, nested_env);
            es.push(ConfigEdit::SetTable(text(section), entries));
            assert(eviews(es@) =~= seq![
                EditV::Remove(section@),
                EditV::SetTable(section@, section_entries(Seq::empty(), jview_fields(ms@), nested_env)),
            ]);
            return es;
        }
    }
    assert(eviews(es@) =~= seq![EditV::Remove(section@)]);
    es
}

/// The edits of a `[mcp_servers.*]` save; an `env` object of a server
/// becomes its `env` sub-table.
pub fn mcp_servers_edits(servers: &Json) -> (es: Vec<ConfigEdit>)
    ensures
        eviews(es@) == section_save("mcp_servers"@, jview(*servers), true),
{
    section_edits("mcp_servers", servers, true)
}

/// The edits of a `[plugins.*]` save.
pub fn plugins_edits(plugins: &Json) -> (es: Vec<ConfigEdit>)
    ensures
        eviews(es@) == section_save("plugins"@, jview(*plugins), false),
{
    section_edits("plugins", plugins, false)
}

/// The edits of a `[projects.*]` save.
pub fn projects_edits(projects: &Json) -> (es: Vec<ConfigEdit>)
    ensures
        eviews(es@) == section_save("projects"@, jview(*projects), false),
{
    section_edits("projects", projects, false)
}

/// The edits of a `[model_providers.*]` save.
pub fn model_providers_edits(providers: &Json) -> (es: Vec<ConfigEdit>)
    ensures
        eviews(es@) == section_save("model_providers"@, jview(*providers), false),
{
    section_edits("model_providers", providers, false)
}

/// The edits of a `notify` save: an empty array or `null` removes the key,
/// a non-empty array sets it to the array's strings.
pub fn notify_edits(notify: &Json) -> (r: Result<Vec<ConfigEdit>, ConfigError>)
    ensures
        match jview(*notify) {
            JsonV::Array(items) => r matches Ok(es) && eviews(es@) == notify_save(items),
            JsonV::Null => r matches Ok(es) && eviews(es@) == seq![EditV::Remove("notify"@)],
            _ => r matches Err(ConfigError::NotifyNotArrayOrNull),
        },
{
    match notify {
        Json::Array(items) => {
            proof {
                json::lemma_jview_list_len(items@);
            }
            if items.len() == 0 {
                let es = vec![ConfigEdit::Remove(text("notify"))];
                assert(eviews(es@) =~= seq![EditV::Remove("notify"@)]);
                return Ok(es);
            }
            let mut arr: Vec<TomlValue> = Vec::new();
            let mut i: usize = 0;
            while i < items.len()
                invariant
                    i <= items@.len(),
                    tview_list(arr@) == string_items(jview_list(items@.take(i as int))),
                decreases items.len() - i,
            {
                proof {
                    assert(items@.take(i + 1) =~= items@.take(i as int).push(items[i as int]));
                    json::lemma_jview_list_push(items@.take(i as int), items[i as int]);
                    let jv = jview_list(items@.take(i as int)).push(jview(items[i as int]));
                    assert(jv.drop_last() =~= jview_list(items@.take(i as int)));
                }
                if let Json::String(s) = &items[i] {
                    let x = TomlValue::String(copy_text(s));
                    proof {
                        lemma_tview_list_push(arr@, x);
                    }
                    arr.push(x);
                }
                i = i + 1;
            }
            assert(items@.take(items@.len() as int) =~= items@);
            let es = vec![ConfigEdit::SetValue(text("notify"), TomlValue::Array(arr))];
            assert(eviews(es@) =~= seq![
                EditV::SetValue("notify"@, TomlV::Array(string_items(jview_list(items@)))),
            ]);
            Ok(es)
        },
        Json::Null => {
            let es = vec![ConfigEdit::Remove(text("notify"))];
            assert(eviews(es@) =~= seq![EditV::Remove("notify"@)]);
            Ok(es)
        },
        _ => Err(ConfigError::NotifyNotArrayOrNull),
    }
}

/// The edits of a root-keys save: each member of an object in order, `null`
/// removing its key and any other value setting it; nothing for a value
/// that is not an object.
pub fn root_keys_edits(keys: &Json) -> (es: Vec<ConfigEdit>)
    ensures
        match jview(*keys) {
            JsonV::Object(ks) => eviews(es@) == root_key_edits(ks),
            _ => es@.len() == 0,
        },
{
    let mut es: Vec<ConfigEdit> = Vec::new();
    if let Json::Object(ks) = keys {
        proof {
            json::lemma_jview_fields_len(ks@);
        }
        let mut i: usize = 0;
        while i < ks.len()
            invariant
                i <= ks@.len(),
                jview_fields(ks@).len() == ks@.len(),
                forall|j: int| 0 <= j < ks@.len() ==> #[trigger] jview_fields(ks@)[j] == (ks@[j].0@, jview(ks@[j].1)),
                eviews(es@) == root_key_edits(jview_fields(ks@).take(i as int)),
            decreases ks.len() - i,
        {
            let k = copy_text(&ks[i].0);
            let e = match &ks[i].1 {
                Json::Null => ConfigEdit::Remove(k),
                v => ConfigEdit::SetValue(k, json_value_to_toml(v)),
            };
            let ghost prev = es@;
            es.push(e);
            proof {
                assert(eviews(es@) =~= eviews(prev).push(eview(e)));
                assert(root_key_edits(jview_fields(ks@).take(i + 1)) =~= root_key_edits(jview_fields(ks@).take(i as int)).push(
                    eview(e),
                ));
            }
            i = i + 1;
        }
        assert(jview_fields(ks@).take(ks@.len() as int) =~= jview_fields(ks@));
    }
    es
}

// ───────────────────────── carrying out edits ─────────────────────────

/// Removes every entry with the key `key`.
fn remove_key(entries: &mut Vec<(String, TomlItem)>, key: &String)
    ensures
        table_view(final(entries)@) == without(table_view(old(entries)@), key@),
{
    let mut rest: Vec<(String, TomlItem)> = Vec::new();
    std::mem::swap(entries, &mut rest);
    let ghost orig = rest@;
    let total: usize = rest.len();
    let mut n: usize = 0;
    assert(orig.take(0) =~= Seq::<(String, TomlItem)>::empty());
    assert(orig.skip(0) =~= orig);
    while rest.len() > 0
        invariant
            n <= orig.len(),
            rest@.len() + n == orig.len(),
            orig.len() == total,
            rest@ == orig.skip(n as int),
            table_view(entries@) == without(table_view(orig.take(n as int)), key@),
        decreases rest.len(),
    {
        let e = rest.remove(0);
        proof {
            assert(e == orig[n as int]);
            assert(rest@ =~= orig.skip(n + 1));
            assert(orig.take(n + 1) =~= orig.take(n as int).push(orig[n as int]));
            lemma_table_view_push(orig.take(n as int), orig[n as int]);
            let tv = table_view(orig.take(n as int)).push((orig[n as int].0@, iview(orig[n as int].1)));
            assert(tv.drop_last() =~= table_view(orig.take(n as int)));
        }
        if e.0 == *key {
        } else {
            let ghost before = entries@;
            entries.push(e);
            proof {
                lemma_table_view_push(before, e);
            }
        }
        n = n + 1;
    }
    assert(orig.take(orig.len() as int) =~= orig);
}

/// Carries out one edit on the entries of a document.
pub fn apply_edit(doc: &mut Vec<(String, TomlItem)>, edit: ConfigEdit)
    ensures
        table_view(final(doc)@) == edit_result(table_view(old(doc)@), eview(edit)),
{
    match edit {
        ConfigEdit::Remove(k) => remove_key(doc, &k),
        ConfigEdit::SetValue(k, v) => put_entry(doc, k, TomlItem::Value(v)),
        ConfigEdit::SetTable(k, t) => put_entry(doc, k, TomlItem::Table(t)),
        ConfigEdit::SetTableValue(tk, k, v) => {
            let mut sub = take_table(doc, &tk);
            put_entry(&mut sub, k, TomlItem::Value(v));
            put_entry(doc, tk, TomlItem::Table(sub));
        },
    }
}

/// Carries out edits on the entries of a document, in order.
pub fn apply_edits(doc: &mut Vec<(String, TomlItem)>, edits: Vec<ConfigEdit>)
    ensures
        table_view(final(doc)@) == edits_result(table_view(old(doc)@), eviews(edits@)),
{
    let ghost start = table_view(doc@);
    let ghost orig = edits@;
    let mut rest = edits;
    let total: usize = rest.len();
    let mut n: usize = 0;
    assert(eviews(orig.take(0)) =~= Seq::<EditV>::empty());
    assert(orig.skip(0) =~= orig);
    while rest.len() > 0
        invariant
            n <= orig.len(),
            rest@.len() + n == orig.len(),
            orig.len() == total,
            rest@ == orig.skip(n as int),
            table_view(doc@) == edits_result(start, eviews(orig.take(n as int))),
        decreases rest.len(),
    {
        let e = rest.remove(0);
        proof {
            assert(e == orig[n as int]);
            assert(rest@ =~= orig.skip(n + 1));
            assert(eviews(orig.take(n + 1)) =~= eviews(orig.take(n as int)).push(eview(orig[n as int])));
            assert(eviews(orig.take(n + 1)).drop_last() =~= eviews(orig.take(n as int)));
        }
        apply_edit(doc, e);
        n = n + 1;
    }
    assert(orig.take(orig.len() as int) =~= orig);
}

// ───────────────────────── reading back what a save wrote ─────────────────────────

/// The JSON form of a table entry (as `table_json` gives it).
pub open spec fn item_json(i: ItemV) -> JsonV {
    match i {
        ItemV::Value(v) => toml_json(v),
        ItemV::Table(t) => JsonV::Object(table_json(t)),
        ItemV::ArrayOfTables(ts) => JsonV::Array(aot_json(ts)),
        ItemV::Empty => JsonV::Null,
    }
}

/// The strings of a JSON array, in order, as JSON.
pub open spec fn json_strings(items: Seq<JsonV>) -> Seq<JsonV>
    decreases items.len(),
{
    if items.len() == 0 {
        Seq::empty()
    } else {
        let r = json_strings(items.drop_last());
        match items.last() {
            JsonV::Str(s) => r.push(JsonV::Str(s)),
            _ => r,
        }
    }
}

/// A section whose save reads back unchanged: distinct keys, every member
/// an object of representable values, and (for `nested_env`) any `env`
/// property an object.
pub open spec fn section_readable(ms: Seq<(Seq<char>, JsonV)>, nested_env: bool) -> bool {
    &&& unique_keys(ms)
    &&& forall|i: int| 0 <= i < ms.len() ==> {
        &&& #[trigger] ms[i].1 matches JsonV::Object(props)
        &&& representable(ms[i].1)
        &&& nested_env ==> forall|j: int| 0 <= j < props.len() && props[j].0 == "env"@ ==> (#[trigger] props[j].1 is Object)
    }
}

pub proof fn lemma_lookup_put_same<X>(d: Seq<(Seq<char>, X)>, k: Seq<char>, v: X)
    ensures
        lookup(put(d, k, v), k) == Some(v),
{
    let r = put(d, k, v);
    if has_key(d, k) {
        lemma_has_key_pos(d, k);
        let p = key_pos(d, k);
        assert(is_first_key(r, k, p));
        lemma_key_pos(r, k, p);
    } else {
        assert(is_first_key(r, k, d.len() as int));
        lemma_key_pos(r, k, d.len() as int);
    }
}

pub proof fn lemma_without_no_key<X>(d: Seq<(Seq<char>, X)>, k: Seq<char>)
    ensures
        !has_key(without(d, k), k),
    decreases d.len(),
{
    if d.len() > 0 {
        lemma_without_no_key(d.drop_last(), k);
        let w = without(d.drop_last(), k);
        if d.last().0 != k {
            assert forall|i: int| 0 <= i < w.push(d.last()).len() implies #[trigger] w.push(d.last())[i].0 != k by {
                if i < w.len() {
                    assert(w[i] == w.push(d.last())[i]);
                }
            }
        }
    }
}

pub proof fn lemma_edits_one(d: Seq<(Seq<char>, ItemV)>, e: EditV)
    ensures
        edits_result(d, seq![e]) == edit_result(d, e),
{
    assert(seq![e].drop_last() =~= Seq::<EditV>::empty());
    assert(edits_result(d, Seq::<EditV>::empty()) == d);
}

pub proof fn lemma_edits_two(d: Seq<(Seq<char>, ItemV)>, e1: EditV, e2: EditV)
    ensures
        edits_result(d, seq![e1, e2]) == edit_result(edit_result(d, e1), e2),
{
    assert(seq![e1, e2].drop_last() =~= seq![e1]);
    lemma_edits_one(d, e1);
}

pub proof fn lemma_table_json_elems(s: Seq<(Seq<char>, ItemV)>)
    requires
        forall|i: int| 0 <= i < s.len() ==> !(#[trigger] s[i].1 is Empty),
    ensures
        table_json(s).len() == s.len(),
        forall|i: int| 0 <= i < s.len() ==> #[trigger] table_json(s)[i] == (s[i].0, item_json(s[i].1)),
    decreases s.len(),
{
    if s.len() > 0 {
        let p = s.drop_last();
        assert forall|i: int| 0 <= i < p.len() implies !(#[trigger] p[i].1 is Empty) by {
            assert(p[i] == s[i]);
        }
        lemma_table_json_elems(p);
        assert(!(s[s.len() - 1].1 is Empty));
    }
}

pub proof fn lemma_representable_fields_each(fs: Seq<(Seq<char>, JsonV)>)
    requires
        representable_fields(fs),
    ensures
        forall|i: int| 0 <= i < fs.len() ==> representable(#[trigger] fs[i].1),
    decreases fs.len(),
{
    if fs.len() > 0 {
        lemma_representable_fields_each(fs.drop_last());
        assert forall|i: int| 0 <= i < fs.len() implies representable(#[trigger] fs[i].1) by {
            if i < fs.len() - 1 {
                assert(fs.drop_last()[i] == fs[i]);
            }
        }
    }
}

pub proof fn lemma_value_entries_fresh(fs: Seq<(Seq<char>, JsonV)>)
    requires
        unique_keys(fs),
    ensures
        value_entries(Seq::empty(), fs).len() == fs.len(),
        forall|i: int| 0 <= i < fs.len() ==> #[trigger] value_entries(Seq::empty(), fs)[i] == (
            fs[i].0,
            ItemV::Value(json_toml(fs[i].1)),
        ),
    decreases fs.len(),
{
    if fs.len() > 0 {
        let p = fs.drop_last();
        assert(unique_keys(p));
        lemma_value_entries_fresh(p);
        let t = value_entries(Seq::empty(), p);
        assert forall|i: int| 0 <= i < t.len() implies #[trigger] t[i].0 != fs.last().0 by {
            assert(fs[i].0 != fs[fs.len() - 1].0);
        }
        lemma_put_fresh(t, fs.last().0, ItemV::Value(json_toml(fs.last().1)));
    }
}

/// The members of an object with distinct keys and representable values,
/// set one by one as TOML values, read back as the same members.
pub proof fn lemma_values_read_back(fs: Seq<(Seq<char>, JsonV)>)
    requires
        unique_keys(fs),
        representable_fields(fs),
    ensures
        table_json(value_entries(Seq::empty(), fs)) == fs,
{
    let t = value_entries(Seq::empty(), fs);
    lemma_value_entries_fresh(fs);
    lemma_representable_fields_each(fs);
    lemma_table_json_elems(t);
    assert forall|i: int| 0 <= i < fs.len() implies #[trigger] table_json(t)[i] == fs[i] by {
        lemma_json_toml_roundtrip(fs[i].1);
    }
    assert(table_json(t) =~= fs);
}

/// Reading back a features save: after the edits that save the members of a
/// features object (distinct keys, representable values), the `[features]`
/// table reads as that object; an empty object leaves no table, which reads
/// as `{}`.
pub proof fn lemma_features_read_back(doc: Seq<(Seq<char>, ItemV)>, fs: Seq<(Seq<char>, JsonV)>)
    requires
        unique_keys(fs),
        representable_fields(fs),
    ensures
        section_json(edits_result(doc, features_save(fs)), "features"@) == JsonV::Object(fs),
{
    if fs.len() == 0 {
        lemma_edits_one(doc, EditV::Remove("features"@));
        lemma_without_no_key(doc, "features"@);
        assert(fs =~= Seq::<(Seq<char>, JsonV)>::empty());
    } else {
        let t = value_entries(Seq::empty(), fs);
        lemma_edits_one(doc, EditV::SetTable("features"@, t));
        lemma_lookup_put_same(doc, "features"@, ItemV::Table(t));
        lemma_values_read_back(fs);
    }
}

/// What a property of a readable section becomes in its table.
pub open spec fn prop_item(p: (Seq<char>, JsonV), nested_env: bool) -> ItemV {
    if nested_env && p.0 == "env"@ {
        match p.1 {
            JsonV::Object(em) => ItemV::Table(value_entries(Seq::empty(), em)),
            _ => ItemV::Empty,
        }
    } else {
        ItemV::Value(json_toml(p.1))
    }
}

pub proof fn lemma_props_fresh(props: Seq<(Seq<char>, JsonV)>, nested_env: bool)
    requires
        unique_keys(props),
        nested_env ==> forall|j: int| 0 <= j < props.len() && props[j].0 == "env"@ ==> (#[trigger] props[j].1 is Object),
    ensures
        props_entries(Seq::empty(), props, nested_env).len() == props.len(),
        forall|i: int| 0 <= i < props.len() ==> #[trigger] props_entries(Seq::empty(), props, nested_env)[i] == (
            props[i].0,
            prop_item(props[i], nested_env),
        ),
    decreases props.len(),
{
    if props.len() > 0 {
        let p = props.drop_last();
        assert(unique_keys(p));
        assert forall|j: int| nested_env && 0 <= j < p.len() && p[j].0 == "env"@ implies (#[trigger] p[j].1 is Object) by {
            assert(p[j] == props[j]);
        }
        lemma_props_fresh(p, nested_env);
        let t = props_entries(Seq::empty(), p, nested_env);
        let k = props.last().0;
        assert forall|i: int| 0 <= i < t.len() implies #[trigger] t[i].0 != k by {
            assert(props[i].0 != props[props.len() - 1].0);
        }
        assert(!has_key(t, k));
        lemma_put_fresh(t, k, prop_item(props.last(), nested_env));
        if nested_env && k == "env"@ {
            assert(props[props.len() - 1].1 is Object);
        }
    }
}

pub proof fn lemma_sections_fresh(ms: Seq<(Seq<char>, JsonV)>, nested_env: bool)
    requires
        unique_keys(ms),
        forall|i: int| 0 <= i < ms.len() ==> (#[trigger] ms[i].1 is Object),
    ensures
        section_entries(Seq::empty(), ms, nested_env).len() == ms.len(),
        forall|i: int| 0 <= i < ms.len() ==> #[trigger] section_entries(Seq::empty(), ms, nested_env)[i] == (
            ms[i].0,
            ItemV::Table(props_entries(Seq::empty(), ms[i].1->Object_0, nested_env)),
        ),
    decreases ms.len(),
{
    if ms.len() > 0 {
        let p = ms.drop_last();
        assert(unique_keys(p));
        assert forall|i: int| 0 <= i < p.len() implies (#[trigger] p[i].1 is Object) by {
            assert(p[i] == ms[i]);
        }
        lemma_sections_fresh(p, nested_env);
        let t = section_entries(Seq::empty(), p, nested_env);
        let k = ms.last().0;
        assert forall|i: int| 0 <= i < t.len() implies #[trigger] t[i].0 != k by {
            assert(ms[i].0 != ms[ms.len() - 1].0);
        }
        assert(!has_key(t, k));
        assert(ms[ms.len() - 1].1 is Object);
        lemma_put_fresh(t, k, ItemV::Table(props_entries(Seq::empty(), ms.last().1->Object_0, nested_env)));
    }
}

/// The properties of a readable server, saved as its table, read back
/// unchanged.
pub proof fn lemma_props_read_back(props: Seq<(Seq<char>, JsonV)>, nested_env: bool)
    requires
        unique_keys(props),
        representable_fields(props),
        nested_env ==> forall|j: int| 0 <= j < props.len() && props[j].0 == "env"@ ==> (#[trigger] props[j].1 is Object),
    ensures
        table_json(props_entries(Seq::empty(), props, nested_env)) == props,
{
    let t = props_entries(Seq::empty(), props, nested_env);
    lemma_props_fresh(props, nested_env);
    lemma_representable_fields_each(props);
    assert forall|i: int| 0 <= i < t.len() implies !(#[trigger] t[i].1 is Empty) by {
        if nested_env && props[i].0 == "env"@ {
            assert(props[i].1 is Object);
        }
    }
    lemma_table_json_elems(t);
    assert forall|i: int| 0 <= i < props.len() implies #[trigger] table_json(t)[i] == props[i] by {
        if nested_env && props[i].0 == "env"@ {
            assert(props[i].1 is Object);
            let em = props[i].1->Object_0;
            lemma_values_read_back(em);
        } else {
            lemma_json_toml_roundtrip(props[i].1);
        }
    }
    assert(table_json(t) =~= props);
}

/// Reading back a section save (`mcp_servers`, `plugins`, `projects`,
/// `model_providers`): after the edits that save a readable object, the
/// section reads as that object.
pub proof fn lemma_section_read_back(
    doc: Seq<(Seq<char>, ItemV)>,
    section: Seq<char>,
    ms: Seq<(Seq<char>, JsonV)>,
    nested_env: bool,
)
    requires
        section_readable(ms, nested_env),
    ensures
        section_json(edits_result(doc, section_save(section, JsonV::Object(ms), nested_env)), section) == JsonV::Object(ms),
{
    if ms.len() == 0 {
        lemma_edits_one(doc, EditV::Remove(section));
        lemma_without_no_key(doc, section);
        assert(ms =~= Seq::<(Seq<char>, JsonV)>::empty());
    } else {
        assert forall|i: int| 0 <= i < ms.len() implies (#[trigger] ms[i].1 is Object) by {
            assert(ms[i].1 matches JsonV::Object(_));
        }
        let e = section_entries(Seq::empty(), ms, nested_env);
        lemma_edits_two(doc, EditV::Remove(section), EditV::SetTable(section, e));
        lemma_lookup_put_same(without(doc, section), section, ItemV::Table(e));
        lemma_sections_fresh(ms, nested_env);
        assert forall|i: int| 0 <= i < e.len() implies !(#[trigger] e[i].1 is Empty) by {
            assert(e[i] == (ms[i].0, ItemV::Table(props_entries(Seq::empty(), ms[i].1->Object_0, nested_env))));
        }
        lemma_table_json_elems(e);
        assert forall|i: int| 0 <= i < ms.len() implies #[trigger] table_json(e)[i] == ms[i] by {
            let props = ms[i].1->Object_0;
            assert(ms[i].1 matches JsonV::Object(_));
            assert(representable(ms[i].1));
            lemma_props_read_back(props, nested_env);
        }
        assert(table_json(e) =~= ms);
    }
}

pub proof fn lemma_string_items_json(items: Seq<JsonV>)
    ensures
        toml_json_list(string_items(items)) == json_strings(items),
    decreases items.len(),
{
    if items.len() > 0 {
        lemma_string_items_json(items.drop_last());
        if let JsonV::Str(s) = items.last() {
            lemma_toml_json_list_push(string_items(items.drop_last()), TomlV::Str(s));
        }
    }
}

/// Reading back a notify save: after the edits that save an array, the
/// `notify` value reads as the array's strings, in order (`[]` for an
/// empty array, whose save removes the key).
pub proof fn lemma_notify_read_back(doc: Seq<(Seq<char>, ItemV)>, items: Seq<JsonV>)
    ensures
        array_json(edits_result(doc, notify_save(items)), "notify"@) == JsonV::Array(json_strings(items)),
{
    if items.len() == 0 {
        lemma_edits_one(doc, EditV::Remove("notify"@));
        lemma_without_no_key(doc, "notify"@);
    } else {
        let v = TomlV::Array(string_items(items));
        lemma_edits_one(doc, EditV::SetValue("notify"@, v));
        lemma_lookup_put_same(doc, "notify"@, ItemV::Value(v));
        lemma_string_items_json(items);
    }
}

pub proof fn lemma_lookup_push<X>(s: Seq<(Seq<char>, X)>, x: (Seq<char>, X), k: Seq<char>)
    ensures
        lookup(s.push(x), k) == (if has_key(s, k) {
            lookup(s, k)
        } else if x.0 == k {
            Some(x.1)
        } else {
            None::<X>
        }),
{
    let r = s.push(x);
    if has_key(s, k) {
        lemma_has_key_pos(s, k);
        let p = key_pos(s, k);
        assert(is_first_key(r, k, p));
        lemma_key_pos(r, k, p);
    } else if x.0 == k {
        assert(is_first_key(r, k, s.len() as int));
        lemma_key_pos(r, k, s.len() as int);
    } else {
        assert forall|i: int| 0 <= i < r.len() implies #[trigger] r[i].0 != k by {
            if i < s.len() {
                assert(r[i] == s[i]);
            }
        }
    }
}

pub proof fn lemma_lookup_put_other<X>(d: Seq<(Seq<char>, X)>, k: Seq<char>, v: X, q: Seq<char>)
    requires
        q != k,
    ensures
        lookup(put(d, k, v), q) == lookup(d, q),
{
    if has_key(d, k) {
        lemma_has_key_pos(d, k);
        let p = key_pos(d, k);
        let r = d.update(p, (k, v));
        if has_key(d, q) {
            lemma_has_key_pos(d, q);
            let pq = key_pos(d, q);
            assert(is_first_key(r, q, pq));
            lemma_key_pos(r, q, pq);
        } else {
            assert forall|i: int| 0 <= i < r.len() implies #[trigger] r[i].0 != q by {
                if i != p {
                    assert(r[i] == d[i]);
                }
            }
        }
    } else {
        lemma_lookup_push(d, (k, v), q);
    }
}

pub proof fn lemma_lookup_without<X>(d: Seq<(Seq<char>, X)>, k: Seq<char>, q: Seq<char>)
    requires
        q != k,
    ensures
        lookup(without(d, k), q) == lookup(d, q),
        has_key(without(d, k), q) == has_key(d, q),
    decreases d.len(),
{
    if d.len() > 0 {
        let p = d.drop_last();
        lemma_lookup_without(p, k, q);
        assert(p.push(d.last()) =~= d);
        lemma_lookup_push(p, d.last(), q);
        if d.last().0 != k {
            lemma_lookup_push(without(p, k), d.last(), q);
        }
        assert(has_key(d, q) <==> (has_key(p, q) || d.last().0 == q)) by {
            if has_key(d, q) {
                let i = choose|i: int| 0 <= i < d.len() && #[trigger] d[i].0 == q;
                if i < p.len() {
                    assert(p[i] == d[i]);
                }
            }
            if has_key(p, q) {
                let i = choose|i: int| 0 <= i < p.len() && #[trigger] p[i].0 == q;
                assert(d[i] == p[i]);
            }
        }
        if d.last().0 != k {
            let w = without(p, k);
            assert(has_key(w.push(d.last()), q) <==> (has_key(w, q) || d.last().0 == q)) by {
                let wp = w.push(d.last());
                if has_key(wp, q) {
                    let i = choose|i: int| 0 <= i < wp.len() && #[trigger] wp[i].0 == q;
                    if i < w.len() {
                        assert(w[i] == wp[i]);
                    }
                }
                if has_key(w, q) {
                    let i = choose|i: int| 0 <= i < w.len() && #[trigger] w[i].0 == q;
                    assert(wp[i] == w[i]);
                }
            }
        }
    }
}

pub proof fn lemma_without_unique<X>(d: Seq<(Seq<char>, X)>, k: Seq<char>)
    requires
        unique_keys(d),
    ensures
        unique_keys(without(d, k)),
    decreases d.len(),
{
    if d.len() > 0 {
        let p = d.drop_last();
        assert(unique_keys(p));
        lemma_without_unique(p, k);
        if d.last().0 != k {
            let w = without(p, k);
            lemma_lookup_without(p, k, d.last().0);
            assert(!has_key(p, d.last().0)) by {
                if has_key(p, d.last().0) {
                    let i = choose|i: int| 0 <= i < p.len() && #[trigger] p[i].0 == d.last().0;
                    assert(d[i].0 == d[d.len() - 1].0);
                }
            }
            assert forall|i: int, j: int| 0 <= i < j < w.push(d.last()).len() implies #[trigger] w.push(d.last())[i].0
                != #[trigger] w.push(d.last())[j].0 by {
                let wp = w.push(d.last());
                if j == w.len() {
                    assert(wp[i] == w[i]);
                    if w[i].0 == d.last().0 {
                        assert(has_key(w, d.last().0));
                    }
                } else {
                    assert(wp[i] == w[i]);
                    assert(wp[j] == w[j]);
                }
            }
        }
    }
}

/// In a table with distinct keys, a key of the JSON members of the plain
/// values is found exactly where the table has a plain value under it.
pub proof fn lemma_root_json_lookup(d: Seq<(Seq<char>, ItemV)>, k: Seq<char>)
    requires
        unique_keys(d),
    ensures
        lookup(root_json(d), k) == (match lookup(d, k) {
            Some(ItemV::Value(v)) => Some(toml_json(v)),
            _ => None::<JsonV>,
        }),
    decreases d.len(),
{
    if d.len() > 0 {
        let p = d.drop_last();
        assert(unique_keys(p));
        lemma_root_json_lookup(p, k);
        assert(p.push(d.last()) =~= d);
        lemma_lookup_push(p, d.last(), k);
        let rp = root_json(p);
        if let ItemV::Value(v) = d.last().1 {
            lemma_lookup_push(rp, (d.last().0, toml_json(v)), k);
        }
        if d.last().0 == k && has_key(rp, k) {
            let i = choose|i: int| 0 <= i < rp.len() && #[trigger] rp[i].0 == k;
            lemma_has_key_pos(rp, k);
            assert(lookup(rp, k) is Some);
            assert(lookup(p, k) is Some);
            assert(has_key(p, k));
            let j = choose|j: int| 0 <= j < p.len() && #[trigger] p[j].0 == k;
            assert(d[j].0 == d[d.len() - 1].0);
        }
    }
}

/// In a table with distinct keys, a key of the table's JSON members is found
/// exactly where the table has a non-empty entry under it.
pub proof fn lemma_table_json_lookup(d: Seq<(Seq<char>, ItemV)>, k: Seq<char>)
    requires
        unique_keys(d),
    ensures
        lookup(table_json(d), k) == (match lookup(d, k) {
            Some(ItemV::Empty) => None::<JsonV>,
            Some(i) => Some(item_json(i)),
            None => None::<JsonV>,
        }),
    decreases d.len(),
{
    if d.len() > 0 {
        let p = d.drop_last();
        assert(unique_keys(p));
        lemma_table_json_lookup(p, k);
        assert(p.push(d.last()) =~= d);
        lemma_lookup_push(p, d.last(), k);
        let tp = table_json(p);
        if !(d.last().1 is Empty) {
            lemma_lookup_push(tp, (d.last().0, item_json(d.last().1)), k);
        }
        if d.last().0 == k && has_key(tp, k) {
            lemma_has_key_pos(tp, k);
            assert(lookup(tp, k) is Some);
            assert(has_key(p, k));
            let j = choose|j: int| 0 <= j < p.len() && #[trigger] p[j].0 == k;
            assert(d[j].0 == d[d.len() - 1].0);
        }
    }
}

/// What a root-keys save leaves under a key: nothing for `null`, else the
/// member's TOML form.
pub open spec fn root_key_result(v: JsonV) -> Option<ItemV> {
    if v is Null {
        None
    } else {
        Some(ItemV::Value(json_toml(v)))
    }
}

pub proof fn lemma_root_keys_prefix(doc: Seq<(Seq<char>, ItemV)>, ks: Seq<(Seq<char>, JsonV)>, n: int)
    requires
        unique_keys(doc),
        unique_keys(ks),
        0 <= n <= ks.len(),
    ensures
        unique_keys(edits_result(doc, root_key_edits(ks.take(n)))),
        forall|j: int| 0 <= j < n ==> #[trigger] lookup(edits_result(doc, root_key_edits(ks.take(n))), ks[j].0)
            == root_key_result(ks[j].1),
    decreases n,
{
    if n > 0 {
        lemma_root_keys_prefix(doc, ks, n - 1);
        let prev = edits_result(doc, root_key_edits(ks.take(n - 1)));
        let es = root_key_edits(ks.take(n));
        assert(es.drop_last() =~= root_key_edits(ks.take(n - 1)));
        let e = es.last();
        let k = ks[n - 1].0;
        let cur = edits_result(doc, es);
        assert(cur == edit_result(prev, e));
        if ks[n - 1].1 is Null {
            assert(e == EditV::Remove(k));
            lemma_without_unique(prev, k);
            lemma_without_no_key(prev, k);
            assert forall|j: int| 0 <= j < n implies #[trigger] lookup(cur, ks[j].0) == root_key_result(ks[j].1) by {
                if j < n - 1 {
                    assert(ks[j].0 != ks[n - 1].0);
                    lemma_lookup_without(prev, k, ks[j].0);
                }
            }
        } else {
            let x = ItemV::Value(json_toml(ks[n - 1].1));
            assert(e == EditV::SetValue(k, json_toml(ks[n - 1].1)));
            lemma_put_unique(prev, k, x);
            lemma_lookup_put_same(prev, k, x);
            assert forall|j: int| 0 <= j < n implies #[trigger] lookup(cur, ks[j].0) == root_key_result(ks[j].1) by {
                if j < n - 1 {
                    assert(ks[j].0 != ks[n - 1].0);
                    lemma_lookup_put_other(prev, k, x, ks[j].0);
                }
            }
        }
    } else {
        assert(root_key_edits(ks.take(0)) =~= Seq::<EditV>::empty());
    }
}

/// Reading back a root-keys save: after the edits that save an object with
/// distinct keys to a document with distinct keys, a `null` member's key
/// is gone from the root keys and a representable member reads back as
/// itself.
pub proof fn lemma_root_keys_read_back(doc: Seq<(Seq<char>, ItemV)>, ks: Seq<(Seq<char>, JsonV)>)
    requires
        unique_keys(doc),
        unique_keys(ks),
    ensures
        forall|i: int| 0 <= i < ks.len() && ks[i].1 is Null ==> #[trigger] lookup(
            root_json(edits_result(doc, root_key_edits(ks))),
            ks[i].0,
        ) is None,
        forall|i: int| 0 <= i < ks.len() && representable(ks[i].1) ==> #[trigger] lookup(
            root_json(edits_result(doc, root_key_edits(ks))),
            ks[i].0,
        ) == Some(ks[i].1),
{
    lemma_root_keys_prefix(doc, ks, ks.len() as int);
    assert(ks.take(ks.len() as int) =~= ks);
    let r = edits_result(doc, root_key_edits(ks));
    assert forall|i: int| 0 <= i < ks.len() implies (ks[i].1 is Null ==> #[trigger] lookup(root_json(r), ks[i].0) is None)
        && (representable(ks[i].1) ==> lookup(root_json(r), ks[i].0) == Some(ks[i].1)) by {
        lemma_root_json_lookup(r, ks[i].0);
        if representable(ks[i].1) {
            lemma_json_toml_roundtrip(ks[i].1);
        }
    }
}

/// Reading back a single feature switch: after its edit, the `[features]`
/// table (with distinct keys before) reads the key as the boolean.
pub proof fn lemma_feature_read_back(doc: Seq<(Seq<char>, ItemV)>, key: Seq<char>, value: bool)
    requires
        unique_keys(sub_table(doc, "features"@)),
    ensures
        section_json(
            edits_result(doc, seq![EditV::SetTableValue("features"@, key, TomlV::Boolean(value))]),
            "features"@,
        ) matches JsonV::Object(ms) && lookup(ms, key) == Some(JsonV::Bool(value)),
{
    let sub = sub_table(doc, "features"@);
    let x = ItemV::Value(TomlV::Boolean(value));
    let t = put(sub, key, x);
    lemma_edits_one(doc, EditV::SetTableValue("features"@, key, TomlV::Boolean(value)));
    lemma_lookup_put_same(doc, "features"@, ItemV::Table(t));
    lemma_put_unique(sub, key, x);
    lemma_lookup_put_same(sub, key, x);
    lemma_table_json_lookup(t, key);
}

// ───────────────────────── loading, messages, validation ─────────────────────────

/// Everything the manager shows of `config.toml`: the text itself and each
/// part of the document as JSON.
#[derive(Debug)]
pub struct CodexConfigSnapshot {
    /// The text of the file.
    pub raw_toml: String,
    /// The plain values at the top (tables and arrays of tables left out).
    pub root_keys: Json,
    pub features: Json,
    pub mcp_servers: Json,
    pub plugins: Json,
    pub projects: Json,
    pub marketplaces: Json,
    pub notify: Json,
    pub model_providers: Json,
    pub profiles: Json,
    pub skills: Json,
}

/// The snapshot of a file with the text `raw` whose document has the
/// entries `doc`.
pub fn config_snapshot(raw: String, doc: &Vec<(String, TomlItem)>) -> (s: CodexConfigSnapshot)
    ensures
        s.raw_toml@ == raw@,
        jview(s.root_keys) == JsonV::Object(root_json(table_view(doc@))),
        jview(s.features) == section_json(table_view(doc@), "features"@),
        jview(s.mcp_servers) == section_json(table_view(doc@), "mcp_servers"@),
        jview(s.plugins) == section_json(table_view(doc@), "plugins"@),
        jview(s.projects) == section_json(table_view(doc@), "projects"@),
        jview(s.marketplaces) == section_json(table_view(doc@), "marketplaces"@),
        jview(s.notify) == array_json(table_view(doc@), "notify"@),
        jview(s.model_providers) == section_json(table_view(doc@), "model_providers"@),
        jview(s.profiles) == section_json(table_view(doc@), "profiles"@),
        jview(s.skills) == section_json(table_view(doc@), "skills"@),
{
    CodexConfigSnapshot {
        raw_toml: raw,
        root_keys: extract_root_keys(doc),
        features: extract_table_as_json(doc, "features"),
        mcp_servers: extract_dotted_tables_as_json(doc, "mcp_servers"),
        plugins: extract_dotted_tables_as_json(doc, "plugins"),
        projects: extract_dotted_tables_as_json(doc, "projects"),
        marketplaces: extract_dotted_tables_as_json(doc, "marketplaces"),
        notify: extract_array_as_json(doc, "notify"),
        model_providers: extract_dotted_tables_as_json(doc, "model_providers"),
        profiles: extract_dotted_tables_as_json(doc, "profiles"),
        skills: extract_dotted_tables_as_json(doc, "skills"),
    }
}

/// The message shown for a refused save.
pub open spec fn config_error_text(e: ConfigError) -> Seq<char> {
    match e {
        ConfigError::FeaturesNotObject => "features 必须是 JSON 对象"@,
        ConfigError::NotifyNotArrayOrNull => "notify 必须是数组或 null"@,
        ConfigError::NotATable(k) => k@ + " 必须是 TOML table"@,
        ConfigError::InternalNotATable => "ucodex_internal 必须是 table"@,
        ConfigError::InvalidToml => "config.toml 不是有效的 TOML 格式"@,
        ConfigError::InvalidGeneratedToml => "写入失败：生成的 TOML 格式不合法"@,
    }
}

impl ConfigError {
    /// The message shown for this error.
    pub fn message(&self) -> (m: String)
        ensures
            m@ == config_error_text(*self),
    {
        match self {
            ConfigError::FeaturesNotObject => text("features 必须是 JSON 对象"),
            ConfigError::NotifyNotArrayOrNull => text("notify 必须是数组或 null"),
            ConfigError::NotATable(k) => {
                let mut v = crate::text::chars_of(k.as_str());
                let tail = crate::text::chars_of(" 必须是 TOML table");
                crate::text::push_all(&mut v, tail.as_slice());
                crate::text::string_from_chars(v.as_slice())
            },
            ConfigError::InternalNotATable => text("ucodex_internal 必须是 table"),
            ConfigError::InvalidToml => text("config.toml 不是有效的 TOML 格式"),
            ConfigError::InvalidGeneratedToml => text("写入失败：生成的 TOML 格式不合法"),
        }
    }
}

/// Whether `toml` reads the text as a document.
pub uninterp spec fn toml_accepts(text: Seq<char>) -> bool;

/// Whether `str::parse::<toml::Table>` succeeds on the text. The TOML grammar
/// that decides it is named by `toml_accepts`, not restated.
#[verifier::external_body]
fn parses_as_toml(text: &str) -> (ok: bool)
    ensures
        ok == toml_accepts(text@),
{
    text.parse::<toml::Table>().is_ok()
}

/// Checks text handed in to replace the whole file.
pub fn check_raw_toml(raw: &str) -> (r: Result<(), ConfigError>)
    ensures
        r is Ok <==> toml_accepts(raw@),
        r matches Err(e) ==> e is InvalidToml,
{
    if parses_as_toml(raw) {
        Ok(())
    } else {
        Err(ConfigError::InvalidToml)
    }
}

/// Checks the text that a save is about to write.
pub fn check_generated_toml(content: &str) -> (r: Result<(), ConfigError>)
    ensures
        r is Ok <==> toml_accepts(content@),
        r matches Err(e) ==> e is InvalidGeneratedToml,
{
    if parses_as_toml(content) {
        Ok(())
    } else {
        Err(ConfigError::InvalidGeneratedToml)
    }
}

/// The text with a line break at its end (one added where it has none).
pub fn ensure_trailing_newline(text: String) -> (r: String)
    ensures
        r@ == if text@.len() > 0 && text@.last() == '\n' { text@ } else { text@.push('\n') },
{
    let mut v = crate::text::chars_of(text.as_str());
    let n = v.len();
    if n > 0 && v[n - 1] == '\n' {
        return text;
    }
    v.push('\n');
    crate::text::string_from_chars(v.as_slice())
}

/// A features save leaves every top-level entry other than `features` as it
/// was.
pub proof fn lemma_features_save_keeps_others(doc: Seq<(Seq<char>, ItemV)>, fs: Seq<(Seq<char>, JsonV)>, k: Seq<char>)
    requires
        k != "features"@,
    ensures
        lookup(edits_result(doc, features_save(fs)), k) == lookup(doc, k),
{
    if fs.len() == 0 {
        lemma_edits_one(doc, EditV::Remove("features"@));
        lemma_lookup_without(doc, "features"@, k);
    } else {
        let t = value_entries(Seq::empty(), fs);
        lemma_edits_one(doc, EditV::SetTable("features"@, t));
        lemma_lookup_put_other(doc, "features"@, ItemV::Table(t), k);
    }
}

/// A section save leaves every top-level entry other than the section as it
/// was.
pub proof fn lemma_section_save_keeps_others(
    doc: Seq<(Seq<char>, ItemV)>,
    section: Seq<char>,
    members: JsonV,
    nested_env: bool,
    k: Seq<char>,
)
    requires
        k != section,
    ensures
        lookup(edits_result(doc, section_save(section, members, nested_env)), k) == lookup(doc, k),
{
    lemma_lookup_without(doc, section, k);
    match members {
        JsonV::Object(ms) => if ms.len() == 0 {
            lemma_edits_one(doc, EditV::Remove(section));
        } else {
            let e = section_entries(Seq::empty(), ms, nested_env);
            lemma_edits_two(doc, EditV::Remove(section), EditV::SetTable(section, e));
            lemma_lookup_put_other(without(doc, section), section, ItemV::Table(e), k);
        },
        _ => {
            lemma_edits_one(doc, EditV::Remove(section));
        },
    }
}

/// A notify save leaves every top-level entry other than `notify` as it was.
pub proof fn lemma_notify_save_keeps_others(doc: Seq<(Seq<char>, ItemV)>, items: Seq<JsonV>, k: Seq<char>)
    requires
        k != "notify"@,
    ensures
        lookup(edits_result(doc, notify_save(items)), k) == lookup(doc, k),
{
    if items.len() == 0 {
        lemma_edits_one(doc, EditV::Remove("notify"@));
        lemma_lookup_without(doc, "notify"@, k);
    } else {
        let v = TomlV::Array(string_items(items));
        lemma_edits_one(doc, EditV::SetValue("notify"@, v));
        lemma_lookup_put_other(doc, "notify"@, ItemV::Value(v), k);
    }
}

} // verus!
