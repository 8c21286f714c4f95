//! JSON values of the `serde_json` crate, and what is relied on of them.
use vstd::prelude::*;

verus! {

/// What a JSON value says. A number is given by its JSON text.
pub enum Json {
    Null,
    Bool(bool),
    Number(Seq<char>),
    String(Seq<char>),
    Array(Seq<Json>),
    Object(Map<Seq<char>, Json>),
}

/// `serde_json::Value`, whose inside is not looked into.
#[verifier::external_type_specification]
#[verifier::external_body]
pub struct ExValue(serde_json::Value);

/// `serde_json::Map`, whose inside is not looked into.
#[verifier::external_type_specification]
#[verifier::external_body]
#[verifier::reject_recursive_types(K)]
#[verifier::reject_recursive_types(V)]
pub struct ExJsonMap<K, V>(serde_json::Map<K, V>);

/// What a `serde_json::Value` says.
pub uninterp spec fn json(v: serde_json::Value) -> Json;

/// The entries of a `serde_json::Map`: what each of its keys leads to.
pub uninterp spec fn json_entries(m: serde_json::Map<String, serde_json::Value>) -> Map<
    Seq<char>,
    Json,
>;

/// `serde_json::Value::as_object`: the entries of an object, and nothing of any other value.
pub assume_specification[ serde_json::Value::as_object ](v: &serde_json::Value) -> (r: Option<
    &serde_json::Map<String, serde_json::Value>,
>)
    ensures
        match r {
            Some(m) => json(*v) == Json::Object(json_entries(*m)),
            None => !(json(*v) is Object),
        },
;

/// `serde_json::Value::as_str`: the text of a string, and nothing of any other value.
pub assume_specification[ serde_json::Value::as_str ](v: &serde_json::Value) -> (r: Option<&str>)
    ensures
        match r {
            Some(s) => json(*v) == Json::String(s@),
            None => !(json(*v) is String),
        },
;

/// `serde_json::Value::clone`: a value that says the same.
#[verifier::external_body]
pub(crate) fn copy_value(v: &serde_json::Value) -> (r: serde_json::Value)
    ensures
        json(r) == json(*v),
{
    v.clone()
}

/// `serde_json::Map::get`: what the key leads to, if it is there.
#[verifier::external_body]
pub(crate) fn entry<'a>(
    m: &'a serde_json::Map<String, serde_json::Value>,
    key: &str,
) -> (r: Option<&'a serde_json::Value>)
    ensures
        match r {
            Some(v) => json_entries(*m).contains_key(key@) && json(*v) == json_entries(*m)[key@],
            None => !json_entries(*m).contains_key(key@),
        },
{
    m.get(key)
}

/// `serde_json::Map::new`: a map without entries.
#[verifier::external_body]
pub(crate) fn new_map() -> (r: serde_json::Map<String, serde_json::Value>)
    ensures
        json_entries(r).is_empty(),
{
    serde_json::Map::new()
}

/// `serde_json::Map::insert`: from then on the key leads to the value, whatever it led to before.
#[verifier::external_body]
pub(crate) fn insert_entry(
    m: &mut serde_json::Map<String, serde_json::Value>,
    key: String,
    value: serde_json::Value,
)
    ensures
        json_entries(*final(m)) == json_entries(*old(m)).insert(key@, json(value)),
{
    m.insert(key, value);
}

/// `serde_json::Value::String`: a text as a value.
#[verifier::external_body]
pub(crate) fn string_value(text: String) -> (r: serde_json::Value)
    ensures
        json(r) == Json::String(text@),
{
    serde_json::Value::String(text)
}

/// `serde_json::Value::Object`: a map as a value.
#[verifier::external_body]
pub(crate) fn object_value(m: serde_json::Map<String, serde_json::Value>) -> (r: serde_json::Value)
    ensures
        json(r) == Json::Object(json_entries(m)),
{
    serde_json::Value::Object(m)
}

} // verus!
