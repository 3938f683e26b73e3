use vstd::prelude::*;

verus! {

#[verifier::external_type_specification]
#[verifier::external_body]
pub struct ExValue(serde_json::Value);

/// The mathematical content of a JSON value, as this crate observes it
/// through serde_json. A number carries its unsigned-integer reading,
/// when it has one, and the plain decimal rendering of its floating
/// value (JSON numbers are finite). An object carries its entries as
/// serde_json's default map iterates them: each key once, sorted.
pub ghost enum JsonV {
    Null,
    Bool(bool),
    Num(Option<u64>, Seq<char>),
    Str(Seq<char>),
    Arr(Seq<JsonV>),
    Obj(Seq<(Seq<char>, JsonV)>),
}

/// What serde_json::from_str yields for a text: nothing for a text it
/// rejects, else the content of the parsed value. Parsing is a function
/// of the text alone.
pub uninterp spec fn json_of(s: Seq<char>) -> Option<JsonV>;

/// The content of a parsed serde_json value.
pub uninterp spec fn content_of(v: serde_json::Value) -> JsonV;

/// The entry of an object with the given key, or nothing. An object
/// holds each key once, so the first match is the only one.
pub open spec fn spec_lookup(es: Seq<(Seq<char>, JsonV)>, key: Seq<char>) -> Option<JsonV>
    decreases es.len(),
{
    if es.len() == 0 {
        None
    } else if es[0].0 == key {
        Some(es[0].1)
    } else {
        spec_lookup(es.drop_first(), key)
    }
}

/// Field lookup: the object's entry for `key`, nothing on any other
/// kind of value.
pub open spec fn spec_get(j: JsonV, key: Seq<char>) -> Option<JsonV> {
    match j {
        JsonV::Obj(es) => spec_lookup(es, key),
        _ => None,
    }
}

/// The JSON string literal that stands for the text `s`, exactly as
/// serde_json renders it: quoted, with '"', '\\' and control characters
/// escaped.
pub uninterp spec fn json_str_of(s: Seq<char>) -> Seq<char>;

/// Relies on serde_json::to_string on a string slice. Its serializer
/// escapes only '"', '\\' and characters below U+0020, so text free of
/// those renders as itself between two quotes; serializing a string
/// into memory cannot fail.
#[verifier::external_body]
pub fn json_quote(s: &str) -> (r: String)
    ensures
        r@ == json_str_of(s@),
        (forall|i: int|
            0 <= i < s@.len() ==> s@[i] != '"' && s@[i] != '\\' && (s@[i] as u32) >= 32) ==> r@
            == seq!['"'] + s@ + seq!['"'],
{
    serde_json::to_string(s).unwrap()
}

/// Relies on serde_json::from_str for a tree-form value: it accepts a
/// text exactly when the text parses, and the value it hands back holds
/// that text's content.
#[verifier::external_body]
pub fn json_parse(s: &str) -> (r: Option<serde_json::Value>)
    ensures
        r is Some <==> json_of(s@) is Some,
        r matches Some(v) ==> json_of(s@) == Some(content_of(v)),
{
    serde_json::from_str(s).ok()
}

/// Relies on serde_json::Value::get with a string key: the object's
/// entry for that key, None for a missing key or any other value.
#[verifier::external_body]
pub fn value_get<'a>(v: &'a serde_json::Value, key: &str) -> (r: Option<&'a serde_json::Value>)
    ensures
        r is Some <==> spec_get(content_of(*v), key@) is Some,
        r matches Some(f) ==> spec_get(content_of(*v), key@) == Some(content_of(*f)),
{
    v.get(key)
}

/// Relies on serde_json::Value::as_u64: the value of an unsigned
/// integer number, None for any other value.
#[verifier::external_body]
pub fn value_as_u64(v: &serde_json::Value) -> (r: Option<u64>)
    ensures
        r == (match content_of(*v) {
            JsonV::Num(u, _) => u,
            _ => None::<u64>,
        }),
{
    v.as_u64()
}

/// Relies on serde_json::Value::as_str: the text of a string value,
/// None for any other value.
#[verifier::external_body]
pub fn value_as_str(v: &serde_json::Value) -> (r: Option<String>)
    ensures
        r is Some <==> content_of(*v) is Str,
        r matches Some(s) ==> content_of(*v) == JsonV::Str(s@),
{
    v.as_str().map(str::to_owned)
}

/// Relies on serde_json::Value::is_null.
#[verifier::external_body]
pub fn value_is_null(v: &serde_json::Value) -> (r: bool)
    ensures
        r == (content_of(*v) is Null),
{
    v.is_null()
}

/// Relies on serde_json::Value::as_f64 and the decimal rendering of the
/// resulting number. JSON numbers are finite, so the rendering is plain
/// decimal text; None for a value that is not a number. The number
/// crosses into verified code only as that text.
#[verifier::external_body]
pub fn number_decimal(v: &serde_json::Value) -> (r: Option<String>)
    ensures
        r is Some <==> content_of(*v) is Num,
        r matches Some(d) ==> (content_of(*v) matches JsonV::Num(_, dd) && dd == d@),
{
    v.as_f64().map(|f| f.to_string())
}

/// Relies on serde_json::Value::as_array, handing the elements out as a
/// plain vector; None for a value that is not an array.
#[verifier::external_body]
pub fn value_as_array(v: &serde_json::Value) -> (r: Option<Vec<serde_json::Value>>)
    ensures
        r is Some <==> content_of(*v) is Arr,
        r matches Some(a) ==> (content_of(*v) matches JsonV::Arr(es) && a@.len() == es.len()
            && (forall|i: int| 0 <= i < es.len() ==> content_of(#[trigger] a@[i]) == es[i])),
{
    v.as_array().map(|a| a.clone())
}

/// Relies on serde_json::Value::as_object, handing the entries out as
/// key-value pairs; None for a value that is not an object. The default
/// map behind an object holds each key once, in sorted order.
#[verifier::external_body]
pub fn value_object_entries(v: &serde_json::Value) -> (r: Option<
    Vec<(String, serde_json::Value)>,
>)
    ensures
        r is Some <==> content_of(*v) is Obj,
        r matches Some(kv) ==> (content_of(*v) matches JsonV::Obj(es) && kv@.len() == es.len()
            && (forall|i: int|
            0 <= i < es.len() ==> (#[trigger] kv@[i]).0@ == es[i].0 && content_of(kv@[i].1)
                == es[i].1) && (forall|i: int, j: int|
            0 <= i < j < es.len() ==> es[i].0 != es[j].0)),
{
    v.as_object().map(|m| m.iter().map(|(k, val)| (k.clone(), val.clone())).collect())
}

} // verus!
