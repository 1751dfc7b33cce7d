//! A JSON value as plain data: what the library builds for the site's config
//! files and reads from query rows.

use vstd::prelude::*;

use serde_json::Value;

verus! {

/// A JSON value. A number that is not an integer fitting `i64` is kept as its
/// text.
#[derive(Debug)]
pub enum Json {
    Null,
    Bool(bool),
    Int(i64),
    OtherNumber(String),
    Str(String),
    Array(Vec<Json>),
    Object(Vec<(String, Json)>),
}

/// A JSON value as mathematical values.
pub enum JsonV {
    Null,
    Bool(bool),
    Int(i64),
    OtherNumber(Seq<char>),
    Str(Seq<char>),
    Array(Seq<JsonV>),
    Object(Seq<(Seq<char>, JsonV)>),
}

impl Json {
    pub open spec fn view(&self) -> JsonV
        decreases self,
    {
        match self {
            Json::Null => JsonV::Null,
            Json::Bool(b) => JsonV::Bool(*b),
            Json::Int(n) => JsonV::Int(*n),
            Json::OtherNumber(s) => JsonV::OtherNumber(s@),
            Json::Str(s) => JsonV::Str(s@),
            Json::Array(v) => JsonV::Array(
                Seq::new(
                    v@.len(),
                    |i: int|
                        if 0 <= i < v@.len() {
                            v@[i].view()
                        } else {
                            JsonV::Null
                        },
                ),
            ),
            Json::Object(v) => JsonV::Object(
                Seq::new(
                    v@.len(),
                    |i: int|
                        if 0 <= i < v@.len() {
                            (v@[i].0@, v@[i].1.view())
                        } else {
                            (Seq::empty(), JsonV::Null)
                        },
                ),
            ),
        }
    }
}

/// The entries of an object as values.
pub open spec fn entries_view(v: Seq<(String, Json)>) -> Seq<(Seq<char>, JsonV)> {
    Seq::new(v.len(), |i: int| (v[i].0@, v[i].1@))
}

/// An object with the given entries, in order.
pub fn object(entries: Vec<(String, Json)>) -> (j: Json)
    ensures
        j@ == JsonV::Object(entries_view(entries@)),
{
    let j = Json::Object(entries);
    assert(j@->Object_0 =~= entries_view(entries@));
    j
}

/// A string value.
pub fn string(s: String) -> (j: Json)
    ensures
        j@ == JsonV::Str(s@),
{
    Json::Str(s)
}

/// One entry of an object.
pub fn entry(key: &str, value: Json) -> (e: (String, Json))
    ensures
        e.0@ == key@,
        e.1@ == value@,
{
    let mut k = String::new();
    crate::text::push_str(&mut k, key);
    (k, value)
}

/// Appends an entry to a list of object entries.
pub fn push_entry(entries: &mut Vec<(String, Json)>, key: &str, value: Json)
    ensures
        entries_view(final(entries)@) == entries_view(old(entries)@).push((key@, value@)),
{
    let e = entry(key, value);
    entries.push(e);
    assert(entries_view(entries@) =~= entries_view(old(entries)@).push((key@, value@)));
}

/// The value at `key` in an object, if it is an object and has one.
pub open spec fn member(j: JsonV, key: Seq<char>) -> Option<JsonV> {
    match j {
        JsonV::Object(es) => first_member(es, key),
        _ => None,
    }
}

/// The first entry with `key`.
pub open spec fn first_member(es: Seq<(Seq<char>, JsonV)>, key: Seq<char>) -> Option<JsonV>
    decreases es.len(),
{
    if es.len() == 0 {
        None
    } else if es[0].0 == key {
        Some(es[0].1)
    } else {
        first_member(es.drop_first(), key)
    }
}

/// The value at `key` of an object (`serde_json::Value::get`).
pub fn get<'a>(j: &'a Json, key: &str) -> (r: Option<&'a Json>)
    ensures
        r matches Some(v) ==> member(j@, key@) == Some(v@),
        r is None ==> member(j@, key@) is None,
{
    match j {
        Json::Object(es) => {
            let k = crate::text::chars_of(key);
            let ghost ev = entries_view(es@);
            assert(j@->Object_0 =~= ev);
            assert(j@ == JsonV::Object(ev));
            assert(ev.skip(0) =~= ev);
            let mut i: usize = 0;
            while i < es.len()
                invariant
                    i <= es@.len(),
                    ev == entries_view(es@),
                    j@ == JsonV::Object(ev),
                    k@ == key@,
                    first_member(ev, key@) == first_member(ev.skip(i as int), key@),
                decreases es@.len() - i,
            {
                let ghost rest = ev.skip(i as int);
                assert(rest.drop_first() =~= ev.skip(i + 1));
                assert(rest[0] == ev[i as int]);
                let name = crate::text::chars_of(es[i].0.as_str());
                assert(ev[i as int] == (es@[i as int].0@, es@[i as int].1@));
                if crate::text::eq_vec(&name, &k) {
                    return Some(&es[i].1);
                }
                i += 1;
            }
            None
        },
        _ => None,
    }
}

/// The text of a string value (`serde_json::Value::as_str`).
pub fn as_str(j: &Json) -> (r: Option<&str>)
    ensures
        r matches Some(s) ==> j@ == JsonV::Str(s@),
        r is None ==> !(j@ is Str),
{
    match j {
        Json::Str(s) => Some(s.as_str()),
        _ => None,
    }
}

/// An integer value that fits `i64` (`serde_json::Value::as_i64`).
pub fn as_i64(j: &Json) -> (r: Option<i64>)
    ensures
        r matches Some(n) ==> j@ == JsonV::Int(n),
        r is None ==> !(j@ is Int),
{
    match j {
        Json::Int(n) => Some(*n),
        _ => None,
    }
}

// ───────────────────────── as YAML ─────────────────────────

#[verifier::external_type_specification]
#[verifier::external_body]
pub struct ExJsonValue(Value);

/// A value as `serde_json` holds it: each variant as its counterpart, a number
/// kept as text read back as a number.
///
/// The `serde_json` value is opaque here; it is only handed to the YAML writer.
#[verifier::external_body]
fn json_value(j: &Json) -> Value {
    match j {
        Json::Null => Value::Null,
        Json::Bool(b) => Value::Bool(*b),
        Json::Int(n) => Value::from(*n),
        Json::OtherNumber(t) => serde_json::from_str(t).unwrap_or(Value::Null),
        Json::Str(s) => Value::String(s.clone()),
        Json::Array(items) => Value::Array(items.iter().map(json_value).collect()),
        Json::Object(es) => Value::Object(es.iter().map(|(k, v)| (k.clone(), json_value(v))).collect()),
    }
}

/// A value as `serde_json` parsed it, as plain data: each variant as its
/// counterpart, a number that is an `i64` as itself and any other as the text
/// it displays as.
#[verifier::external_body]
fn json_from(v: &Value) -> Json {
    match v {
        Value::Null => Json::Null,
        Value::Bool(b) => Json::Bool(*b),
        Value::Number(n) => match n.as_i64() {
            Some(i) => Json::Int(i),
            None => Json::OtherNumber(n.to_string()),
        },
        Value::String(s) => Json::Str(s.clone()),
        Value::Array(items) => Json::Array(items.iter().map(json_from).collect()),
        Value::Object(es) => Json::Object(es.iter().map(|(k, x)| (k.clone(), json_from(x))).collect()),
    }
}

/// The values of the JSON array `serde_json::from_str` reads from a text, or
/// `None` where the text is not a JSON array.
pub uninterp spec fn json_rows(text: Seq<char>) -> Option<Seq<JsonV>>;

/// `serde_json::from_str` into a list of values.
///
/// The list is named by `json_rows`, a function of the text alone.
#[verifier::external_body]
pub(crate) fn read_rows(text: &str) -> (r: Option<Vec<Json>>)
    ensures
        r matches Some(v) ==> json_rows(text@) == Some(v@.map_values(|j: Json| j@)),
        r is None ==> json_rows(text@) is None,
{
    serde_json::from_str::<Vec<Value>>(text).ok().map(|rows| rows.iter().map(json_from).collect())
}

/// The text `serde_yml::to_string` writes for a JSON value, or `None` when it
/// refuses it.
pub uninterp spec fn yaml_of(j: JsonV) -> Option<Seq<char>>;

/// `serde_yml::to_string` on the value as `serde_json` holds it.
///
/// The text is named by `yaml_of`: it is a function of the value alone, an
/// object's keys being written in `serde_json`'s sorted order.
#[verifier::external_body]
fn yaml_text_of(j: &Json) -> (r: Option<String>)
    ensures
        r matches Some(s) ==> yaml_of(j@) == Some(s@),
        r is None ==> yaml_of(j@) is None,
{
    serde_yml::to_string(&json_value(j)).ok()
}

/// The YAML text of a value, or no text when it cannot be written.
pub open spec fn yaml_text_spec(j: JsonV) -> Seq<char> {
    match yaml_of(j) {
        Some(t) => t,
        None => Seq::empty(),
    }
}

/// A value written as YAML, or empty text when it cannot be written.
pub fn yaml_text(j: &Json) -> (s: String)
    ensures
        s@ == yaml_text_spec(j@),
{
    match yaml_text_of(j) {
        Some(s) => s,
        None => String::new(),
    }
}

} // verus!
