//! A mathematical model of parsed JSON documents, and trusted access to
//! `serde_json`'s parser and value accessors through it.
use vstd::prelude::*;

verus! {

/// The shape of a JSON value, as far as the configuration reader looks at
/// it: strings, arrays and objects are modeled; null, booleans and numbers
/// are lumped together, since no accessor of this crate takes them apart.
pub enum Json {
    Other,
    Str(Seq<char>),
    Arr(Seq<Json>),
    Obj(Map<Seq<char>, Json>),
}

#[verifier::external_type_specification]
#[verifier::external_body]
pub struct ExValue(serde_json::Value);

/// The JSON document that the text parses to, or `None` where the text is
/// not one well-formed document; a function of the text alone.
pub uninterp spec fn json_of(s: Seq<char>) -> Option<Json>;

/// What a `serde_json::Value` holds, as a `Json` model value.
pub uninterp spec fn json_model(v: serde_json::Value) -> Json;

/// Relies on `serde_json::from_str::<Value>`: whether it accepts the text
/// as one JSON document, and what that document holds, are functions of
/// the text alone.
#[verifier::external_body]
pub(crate) fn parse_json(s: &str) -> (r: Option<serde_json::Value>)
    ensures
        (r is Some) == (json_of(s@) is Some),
        r matches Some(v) ==> json_of(s@) matches Some(j) && json_model(v) == j,
{
    serde_json::from_str::<serde_json::Value>(s).ok()
}

/// Relies on `serde_json::Value::get` with a string index: on an object it
/// looks the key up; on every other value it returns `None`.
#[verifier::external_body]
pub(crate) fn json_get<'a>(v: &'a serde_json::Value, key: &str) -> (r: Option<
    &'a serde_json::Value,
>)
    ensures
        match json_model(*v) {
            Json::Obj(m) => {
                &&& (r is Some) == m.contains_key(key@)
                &&& (r matches Some(w) ==> m.contains_key(key@) && json_model(*w) == m[key@])
            },
            _ => r is None,
        },
{
    v.get(key)
}

/// Relies on `serde_json::Value::as_array`: `Some` exactly on an array,
/// handing its elements out in order.
#[verifier::external_body]
pub(crate) fn json_as_array<'a>(v: &'a serde_json::Value) -> (r: Option<
    &'a Vec<serde_json::Value>,
>)
    ensures
        match json_model(*v) {
            Json::Arr(a) => r matches Some(vec) && vec@.len() == a.len() && (forall|i: int|
                0 <= i < a.len() ==> json_model(#[trigger] vec@[i]) == a[i]),
            _ => r is None,
        },
{
    v.as_array()
}

/// Relies on `serde_json::Value::as_str`: `Some` exactly on a string value,
/// handing the string out unchanged.
#[verifier::external_body]
pub(crate) fn json_as_str<'a>(v: &'a serde_json::Value) -> (r: Option<&'a str>)
    ensures
        match json_model(*v) {
            Json::Str(t) => r matches Some(s) && s@ == t,
            _ => r is None,
        },
{
    v.as_str()
}

} // verus!
