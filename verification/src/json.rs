//! A JSON value the library can build and inspect, and its mathematical
//! model. Objects keep each key once; the server converts the value to
//! `serde_json::Value` to send it.

use vstd::prelude::*;

use crate::chars::str_eq;

verus! {

/// A JSON value. Numbers are held as their decimal text.
pub enum JsonValue {
    /// `null`
    Null,
    /// `true` or `false`
    Bool(bool),
    /// A number, as written.
    Number(String),
    /// A string.
    Str(String),
    /// An array.
    Array(Vec<JsonValue>),
    /// An object: keys and values, each key once.
    Object(Vec<(String, JsonValue)>),
}

/// The model of a JSON value: text as character sequences.
pub enum Json {
    /// `null`
    Null,
    /// `true` or `false`
    Bool(bool),
    /// A number, as written.
    Number(Seq<char>),
    /// A string.
    Str(Seq<char>),
    /// An array.
    Array(Seq<Json>),
    /// An object: keys and values in order.
    Object(Seq<(Seq<char>, Json)>),
}

/// The model of a value.
pub open spec fn json_view(v: JsonValue) -> Json
    decreases v,
{
    match v {
        JsonValue::Null => Json::Null,
        JsonValue::Bool(b) => Json::Bool(b),
        JsonValue::Number(n) => Json::Number(n@),
        JsonValue::Str(s) => Json::Str(s@),
        JsonValue::Array(items) => Json::Array(
            Seq::new(
                items@.len(),
                |i: int|
                    {
                        if 0 <= i < items@.len() {
                            json_view(items@[i])
                        } else {
                            Json::Null
                        }
                    },
            ),
        ),
        JsonValue::Object(fields) => Json::Object(
            Seq::new(
                fields@.len(),
                |i: int|
                    {
                        if 0 <= i < fields@.len() {
                            (fields@[i].0@, json_view(fields@[i].1))
                        } else {
                            (Seq::empty(), Json::Null)
                        }
                    },
            ),
        ),
    }
}

impl View for JsonValue {
    type V = Json;

    open spec fn view(&self) -> Json {
        json_view(*self)
    }
}

/// The model of each key and value of an object.
pub open spec fn fields_view(fs: Seq<(String, JsonValue)>) -> Seq<(Seq<char>, Json)> {
    Seq::new(fs.len(), |i: int| (fs[i].0@, fs[i].1@))
}

/// The model of each item of an array.
pub open spec fn items_view(items: Seq<JsonValue>) -> Seq<Json> {
    Seq::new(items.len(), |i: int| items[i]@)
}

/// An object's model is the model of its fields.
pub proof fn lemma_object_view(fs: Vec<(String, JsonValue)>)
    ensures
        JsonValue::Object(fs)@ == Json::Object(fields_view(fs@)),
{
    assert(JsonValue::Object(fs)@->Object_0 =~= fields_view(fs@));
}

/// An array's model is the model of its items.
pub proof fn lemma_array_view(items: Vec<JsonValue>)
    ensures
        JsonValue::Array(items)@ == Json::Array(items_view(items@)),
{
    assert(JsonValue::Array(items)@->Array_0 =~= items_view(items@));
}

/// The value of the first field called `k`.
pub open spec fn obj_get(fs: Seq<(Seq<char>, Json)>, k: Seq<char>) -> Option<Json>
    decreases fs.len(),
{
    if fs.len() == 0 {
        None
    } else if fs[0].0 == k {
        Some(fs[0].1)
    } else {
        obj_get(fs.drop_first(), k)
    }
}

/// The fields with `k` set to `v`: the first field called `k` replaced in
/// place, or a new field at the end (`value[k] = v` on an object).
pub open spec fn obj_set(fs: Seq<(Seq<char>, Json)>, k: Seq<char>, v: Json) -> Seq<(Seq<char>, Json)>
    decreases fs.len(),
{
    if fs.len() == 0 {
        seq![(k, v)]
    } else if fs[0].0 == k {
        seq![(k, v)] + fs.drop_first()
    } else {
        seq![fs[0]] + obj_set(fs.drop_first(), k, v)
    }
}

proof fn lemma_obj_set_at(fs: Seq<(Seq<char>, Json)>, k: Seq<char>, v: Json, i: int)
    requires
        0 <= i < fs.len(),
        fs[i].0 == k,
        forall|j: int| 0 <= j < i ==> fs[j].0 != k,
    ensures
        obj_set(fs, k, v) == fs.update(i, (k, v)),
        obj_get(fs, k) == Some(fs[i].1),
    decreases fs.len(),
{
    if i == 0 {
        assert(seq![(k, v)] + fs.drop_first() =~= fs.update(0, (k, v)));
    } else {
        let rest = fs.drop_first();
        assert forall|j: int| 0 <= j < i - 1 implies rest[j].0 != k by {
            assert(rest[j] == fs[j + 1]);
        }
        assert(fs[0].0 != k);
        lemma_obj_set_at(rest, k, v, i - 1);
        assert(seq![fs[0]] + rest.update(i - 1, (k, v)) =~= fs.update(i, (k, v)));
    }
}

proof fn lemma_obj_set_absent(fs: Seq<(Seq<char>, Json)>, k: Seq<char>, v: Json)
    requires
        forall|j: int| 0 <= j < fs.len() ==> fs[j].0 != k,
    ensures
        obj_set(fs, k, v) == fs.push((k, v)),
        obj_get(fs, k) is None,
    decreases fs.len(),
{
    if fs.len() == 0 {
        assert(seq![(k, v)] =~= fs.push((k, v)));
    } else {
        let rest = fs.drop_first();
        assert forall|j: int| 0 <= j < rest.len() implies rest[j].0 != k by {
            assert(rest[j] == fs[j + 1]);
        }
        assert(fs[0].0 != k);
        lemma_obj_set_absent(rest, k, v);
        assert(seq![fs[0]] + rest.push((k, v)) =~= fs.push((k, v)));
    }
}

/// Reading a field back after setting it gives the value set; other
/// fields are untouched.
pub proof fn lemma_obj_get_set(fs: Seq<(Seq<char>, Json)>, k: Seq<char>, v: Json, k2: Seq<char>)
    ensures
        obj_get(obj_set(fs, k, v), k) == Some(v),
        k2 != k ==> obj_get(obj_set(fs, k, v), k2) == obj_get(fs, k2),
    decreases fs.len(),
{
    if fs.len() == 0 {
        let r = seq![(k, v)];
        assert(r.drop_first() =~= Seq::<(Seq<char>, Json)>::empty());
        assert(obj_get(r, k) == Some(v));
        if k2 != k {
            assert(obj_get(r, k2) == obj_get(r.drop_first(), k2));
        }
    } else if fs[0].0 == k {
        let r = seq![(k, v)] + fs.drop_first();
        assert(r[0] == (k, v));
        assert(r.drop_first() =~= fs.drop_first());
        if k2 != k {
            assert(obj_get(r, k2) == obj_get(r.drop_first(), k2));
            assert(obj_get(fs, k2) == obj_get(fs.drop_first(), k2));
        }
    } else {
        lemma_obj_get_set(fs.drop_first(), k, v, k2);
        let r = seq![fs[0]] + obj_set(fs.drop_first(), k, v);
        assert(r[0] == fs[0]);
        assert(r.drop_first() =~= obj_set(fs.drop_first(), k, v));
        if k2 != k {
            if fs[0].0 == k2 {
                assert(obj_get(r, k2) == Some(fs[0].1));
            } else {
                assert(obj_get(r, k2) == obj_get(r.drop_first(), k2));
            }
        }
    }
}

/// Set field `k` of an object's fields to `v`.
pub fn obj_set_field(fs: &mut Vec<(String, JsonValue)>, k: String, v: JsonValue)
    ensures
        fields_view(final(fs)@) == obj_set(fields_view(old(fs)@), k@, v@),
{
    let ghost before = fields_view(fs@);
    let mut i: usize = 0;
    while i < fs.len()
        invariant
            before == fields_view(fs@),
            before == fields_view(old(fs)@),
            i <= fs@.len(),
            forall|j: int| 0 <= j < i ==> before[j].0 != k@,
        decreases fs@.len() - i,
    {
        if str_eq(fs[i].0.as_str(), k.as_str()) {
            proof {
                lemma_obj_set_at(before, k@, v@, i as int);
            }
            let ghost kv = k@;
            let ghost vv = v@;
            fs.set(i, (k, v));
            assert(fields_view(fs@) =~= before.update(i as int, (kv, vv)));
            return;
        }
        i = i + 1;
    }
    proof {
        lemma_obj_set_absent(before, k@, v@);
    }
    let ghost kv = k@;
    let ghost vv = v@;
    fs.push((k, v));
    assert(fields_view(fs@) =~= before.push((kv, vv)));
}

/// The value of field `k` of an object's fields.
pub fn obj_get_field<'a>(fs: &'a Vec<(String, JsonValue)>, k: &str) -> (r: Option<&'a JsonValue>)
    ensures
        match r {
            Some(v) => obj_get(fields_view(fs@), k@) == Some(v@),
            None => obj_get(fields_view(fs@), k@) is None,
        },
{
    let ghost all = fields_view(fs@);
    let mut i: usize = 0;
    while i < fs.len()
        invariant
            all == fields_view(fs@),
            i <= fs@.len(),
            forall|j: int| 0 <= j < i ==> all[j].0 != k@,
        decreases fs@.len() - i,
    {
        if str_eq(fs[i].0.as_str(), k) {
            proof {
                lemma_obj_set_at(all, k@, Json::Null, i as int);
            }
            return Some(&fs[i].1);
        }
        i = i + 1;
    }
    proof {
        lemma_obj_set_absent(all, k@, Json::Null);
    }
    None
}

proof fn lemma_field_smaller(v: JsonValue, i: int)
    requires
        v is Object,
        0 <= i < v->Object_0@.len(),
    ensures
        decreases_to!(v => v->Object_0@[i].1),
{
    match v {
        JsonValue::Object(fields) => {
            assert(decreases_to!(v => fields));
            assert(decreases_to!(fields => fields@));
            assert(decreases_to!(fields@ => fields@[i]));
            assert(decreases_to!(fields@[i] => fields@[i].1));
        },
        _ => {},
    }
}

proof fn lemma_item_smaller(v: JsonValue, i: int)
    requires
        v is Array,
        0 <= i < v->Array_0@.len(),
    ensures
        decreases_to!(v => v->Array_0@[i]),
{
    match v {
        JsonValue::Array(items) => {
            assert(decreases_to!(v => items));
            assert(decreases_to!(items => items@));
            assert(decreases_to!(items@ => items@[i]));
        },
        _ => {},
    }
}

/// A copy of a value.
pub fn json_clone(v: &JsonValue) -> (r: JsonValue)
    ensures
        r@ == v@,
    decreases v,
{
    match v {
        JsonValue::Null => JsonValue::Null,
        JsonValue::Bool(b) => JsonValue::Bool(*b),
        JsonValue::Number(n) => JsonValue::Number(n.clone()),
        JsonValue::Str(s) => JsonValue::Str(s.clone()),
        JsonValue::Array(items) => {
            let mut out: Vec<JsonValue> = Vec::new();
            let mut i: usize = 0;
            while i < items.len()
                invariant
                    *v == JsonValue::Array(*items),
                    i <= items@.len(),
                    out@.len() == i,
                    forall|j: int| 0 <= j < i ==> (#[trigger] out@[j])@ == items@[j]@,
                decreases items@.len() - i,
            {
                proof {
                    lemma_item_smaller(*v, i as int);
                }
                let c = json_clone(&items[i]);
                out.push(c);
                i = i + 1;
            }
            proof {
                lemma_array_view(out);
                lemma_array_view(*items);
                assert(items_view(out@) =~= items_view(items@));
            }
            JsonValue::Array(out)
        },
        JsonValue::Object(fields) => {
            let mut out: Vec<(String, JsonValue)> = Vec::new();
            let mut i: usize = 0;
            while i < fields.len()
                invariant
                    *v == JsonValue::Object(*fields),
                    i <= fields@.len(),
                    out@.len() == i,
                    forall|j: int|
                        0 <= j < i ==> (#[trigger] out@[j]).0@ == fields@[j].0@ && out@[j].1@
                            == fields@[j].1@,
                decreases fields@.len() - i,
            {
                proof {
                    lemma_field_smaller(*v, i as int);
                }
                let c = json_clone(&fields[i].1);
                out.push((fields[i].0.clone(), c));
                i = i + 1;
            }
            proof {
                lemma_object_view(out);
                lemma_object_view(*fields);
                assert(fields_view(out@) =~= fields_view(fields@));
            }
            JsonValue::Object(out)
        },
    }
}

} // verus!
