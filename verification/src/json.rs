//! A library-owned JSON tree: what the API response is read as once
//! serde_json has parsed it, together with its mathematical model and the
//! lookups the envelope walk needs.

use vstd::prelude::*;
use crate::text::str_eq;

verus! {

/// A parsed JSON value. A number is kept only as far as the envelope walk
/// can read it: a signed 64-bit integer, or `OtherNum` for any number
/// outside that range (the walk treats those as mistyped fields).
pub enum Json {
    Null,
    Bool(bool),
    Int(i64),
    OtherNum,
    Str(String),
    Arr(Vec<Json>),
    Obj(Vec<(String, Json)>),
}

/// The mathematical model of a JSON value.
pub ghost enum JsonModel {
    Null,
    Bool(bool),
    Int(i64),
    OtherNum,
    Str(Seq<char>),
    Arr(Seq<JsonModel>),
    Obj(Seq<(Seq<char>, JsonModel)>),
}

/// Model of a JSON tree.
pub open spec fn json_view(j: Json) -> JsonModel
    decreases j,
{
    match j {
        Json::Null => JsonModel::Null,
        Json::Bool(b) => JsonModel::Bool(b),
        Json::Int(i) => JsonModel::Int(i),
        Json::OtherNum => JsonModel::OtherNum,
        Json::Str(s) => JsonModel::Str(s@),
        Json::Arr(a) => JsonModel::Arr(jsons_view(a@)),
        Json::Obj(o) => JsonModel::Obj(entries_view(o@)),
    }
}

/// Models of a sequence of JSON trees, element for element.
pub open spec fn jsons_view(s: Seq<Json>) -> Seq<JsonModel>
    decreases s,
{
    if s.len() == 0 {
        Seq::empty()
    } else {
        jsons_view(s.subrange(0, s.len() - 1)).push(json_view(s[s.len() - 1]))
    }
}

/// Models of a sequence of JSON object entries, entry for entry.
pub open spec fn entries_view(s: Seq<(String, Json)>) -> Seq<(Seq<char>, JsonModel)>
    decreases s,
{
    if s.len() == 0 {
        Seq::empty()
    } else {
        entries_view(s.subrange(0, s.len() - 1)).push(
            (s[s.len() - 1].0@, json_view(s[s.len() - 1].1)),
        )
    }
}

impl View for Json {
    type V = JsonModel;

    open spec fn view(&self) -> JsonModel {
        json_view(*self)
    }
}

pub proof fn lemma_jsons_view_props(s: Seq<Json>)
    ensures
        jsons_view(s).len() == s.len(),
        forall|i: int| 0 <= i < s.len() ==> #[trigger] jsons_view(s)[i] == json_view(s[i]),
    decreases s.len(),
{
    if s.len() > 0 {
        lemma_jsons_view_props(s.subrange(0, s.len() - 1));
    }
}

pub proof fn lemma_entries_view_props(s: Seq<(String, Json)>)
    ensures
        entries_view(s).len() == s.len(),
        forall|i: int|
            0 <= i < s.len() ==> #[trigger] entries_view(s)[i] == (s[i].0@, json_view(s[i].1)),
    decreases s.len(),
{
    if s.len() > 0 {
        lemma_entries_view_props(s.subrange(0, s.len() - 1));
    }
}

/// First entry with the given key at or after position `i`.
pub open spec fn obj_lookup_from(
    es: Seq<(Seq<char>, JsonModel)>,
    key: Seq<char>,
    i: int,
) -> Option<JsonModel>
    decreases es.len() - i when 0 <= i <= es.len()
{
    if i >= es.len() {
        None
    } else if es[i].0 == key {
        Some(es[i].1)
    } else {
        obj_lookup_from(es, key, i + 1)
    }
}

/// Looking a key up in a JSON value: the first entry with that key when
/// the value is an object; nothing otherwise.
pub open spec fn spec_get(m: JsonModel, key: Seq<char>) -> Option<JsonModel> {
    match m {
        JsonModel::Obj(es) => obj_lookup_from(es, key, 0),
        _ => None,
    }
}

/// The value as a signed integer, when it is one.
pub open spec fn spec_as_int(m: JsonModel) -> Option<i64> {
    match m {
        JsonModel::Int(i) => Some(i),
        _ => None,
    }
}

/// The value's elements, when it is an array.
pub open spec fn spec_as_arr(m: JsonModel) -> Option<Seq<JsonModel>> {
    match m {
        JsonModel::Arr(items) => Some(items),
        _ => None,
    }
}

/// The value's text, when it is a string.
pub open spec fn spec_as_str(m: JsonModel) -> Option<Seq<char>> {
    match m {
        JsonModel::Str(s) => Some(s),
        _ => None,
    }
}

/// The integer under a key of an object, when both exist.
pub open spec fn spec_int_at(m: JsonModel, key: Seq<char>) -> Option<i64> {
    match spec_get(m, key) {
        Some(v) => spec_as_int(v),
        None => None,
    }
}

/// The text under a key of an object, when both exist.
pub open spec fn spec_str_at(m: JsonModel, key: Seq<char>) -> Option<Seq<char>> {
    match spec_get(m, key) {
        Some(v) => spec_as_str(v),
        None => None,
    }
}

/// The array under a key of an object, when both exist.
pub open spec fn spec_arr_at(m: JsonModel, key: Seq<char>) -> Option<Seq<JsonModel>> {
    match spec_get(m, key) {
        Some(v) => spec_as_arr(v),
        None => None,
    }
}

proof fn lemma_obj_lookup_skip(es: Seq<(Seq<char>, JsonModel)>, key: Seq<char>, i: int)
    requires
        0 <= i <= es.len(),
        forall|l: int| 0 <= l < i ==> es[l].0 != key,
    ensures
        obj_lookup_from(es, key, 0) == obj_lookup_from(es, key, i),
    decreases i,
{
    if i > 0 {
        lemma_obj_lookup_skip(es, key, i - 1);
    }
}

/// Look a key up in a JSON value: the first entry with that key when the
/// value is an object; nothing otherwise.
pub fn json_get<'a>(j: &'a Json, key: &str) -> (r: Option<&'a Json>)
    ensures
        match r {
            Some(v) => spec_get(j@, key@) == Some(v@),
            None => spec_get(j@, key@) is None,
        },
{
    match j {
        Json::Obj(entries) => {
            proof {
                lemma_entries_view_props(entries@);
            }
            let ghost es = entries_view(entries@);
            let mut i: usize = 0;
            while i < entries.len()
                invariant
                    0 <= i <= entries@.len(),
                    es == entries_view(entries@),
                    es.len() == entries@.len(),
                    forall|l: int|
                        0 <= l < entries@.len() ==> #[trigger] es[l] == (
                            entries@[l].0@,
                            json_view(entries@[l].1),
                        ),
                    forall|l: int| 0 <= l < i ==> es[l].0 != key@,
                    j@ == JsonModel::Obj(es),
                decreases entries@.len() - i,
            {
                let e = &entries[i];
                if str_eq(e.0.as_str(), key) {
                    proof {
                        lemma_obj_lookup_skip(es, key@, i as int);
                    }
                    return Some(&e.1);
                }
                i = i + 1;
            }
            proof {
                lemma_obj_lookup_skip(es, key@, entries@.len() as int);
            }
            None
        },
        _ => None,
    }
}

/// The value as a signed integer, when it is one.
pub fn json_as_int(j: &Json) -> (r: Option<i64>)
    ensures
        r == spec_as_int(j@),
{
    match j {
        Json::Int(i) => Some(*i),
        _ => None,
    }
}

/// The value's elements, when it is an array.
pub fn json_as_array<'a>(j: &'a Json) -> (r: Option<&'a Vec<Json>>)
    ensures
        match r {
            Some(a) => spec_as_arr(j@) == Some(jsons_view(a@)),
            None => spec_as_arr(j@) is None,
        },
{
    match j {
        Json::Arr(a) => Some(a),
        _ => None,
    }
}

/// The value's text, when it is a string.
pub fn json_as_string<'a>(j: &'a Json) -> (r: Option<&'a String>)
    ensures
        match r {
            Some(s) => spec_as_str(j@) == Some(s@),
            None => spec_as_str(j@) is None,
        },
{
    match j {
        Json::Str(s) => Some(s),
        _ => None,
    }
}

} // verus!
