//! JSON values. Reading, looking into and printing them is the work of `serde_json`; what
//! stands here says what each of the calls gives.
use vstd::prelude::*;

verus! {

/// A JSON value, as the contracts speak of it.
pub enum Json {
    Null,
    Bool(bool),
    /// A number, by the text that it is printed as.
    Number(Seq<char>),
    Text(Seq<char>),
    Array(Seq<Json>),
    Object(Map<Seq<char>, Json>),
}

#[verifier::external_type_specification]
#[verifier::external_body]
pub struct ExValue(serde_json::Value);

/// What a `serde_json::Value` holds. Its maps are ordered by key, so the members of an object
/// have no order of their own.
pub uninterp spec fn json_of(v: serde_json::Value) -> Json;

/// The value that `serde_json::from_str` reads from a text; none where it reports an error.
pub uninterp spec fn json_parse(s: Seq<char>) -> Option<Json>;

/// The text that `serde_json::to_string` prints for a value; none where it reports an error.
pub uninterp spec fn json_text(v: Json) -> Option<Seq<char>>;

/// What some values hold.
pub open spec fn json_seq(v: Seq<serde_json::Value>) -> Seq<Json> {
    v.map_values(|x: serde_json::Value| json_of(x))
}

/// `serde_json::from_str` for a `Value` reads one JSON value that takes up the whole text.
/// Which texts it accepts, and what it reads from them, is named and not spelt out.
#[verifier::external_body]
pub(crate) fn parse_value(s: &str) -> (r: Option<serde_json::Value>)
    ensures
        match r {
            Some(v) => json_parse(s@) == Some(json_of(v)),
            None => json_parse(s@) is None,
        },
{
    serde_json::from_str::<serde_json::Value>(s).ok()
}

/// `serde_json::from_str` for a `Vec<Value>` accepts the texts that it reads as an array, and
/// gives the elements of that array.
#[verifier::external_body]
pub(crate) fn parse_values(s: &str) -> (r: Option<Vec<serde_json::Value>>)
    ensures
        match r {
            Some(v) => json_parse(s@) == Some(Json::Array(json_seq(v@))),
            None => !(json_parse(s@) matches Some(Json::Array(_))),
        },
{
    serde_json::from_str::<Vec<serde_json::Value>>(s).ok()
}

/// `serde_json::to_string` prints a value as compact JSON text. The text is named and not
/// spelt out.
#[verifier::external_body]
pub(crate) fn print_value(v: &serde_json::Value) -> (r: Option<String>)
    ensures
        match r {
            Some(t) => json_text(json_of(*v)) == Some(t@),
            None => json_text(json_of(*v)) is None,
        },
{
    serde_json::to_string(v).ok()
}

/// `serde_json::Value::is_object` tells whether the value is an object.
pub assume_specification[ serde_json::Value::is_object ](v: &serde_json::Value) -> (r: bool)
    ensures
        r == (json_of(*v) is Object),
;

/// `serde_json::Value::as_str` gives the content of a string, and nothing for another value.
pub assume_specification[ serde_json::Value::as_str ](v: &serde_json::Value) -> (r: Option<&str>)
    ensures
        match r {
            Some(t) => json_of(*v) == Json::Text(t@),
            None => !(json_of(*v) is Text),
        },
;

/// `serde_json::Value::get` with a string gives the member of an object under that key;
/// nothing where the object has no such member, or where the value is no object.
#[verifier::external_body]
pub(crate) fn member<'a>(v: &'a serde_json::Value, key: &str) -> (r: Option<&'a serde_json::Value>)
    ensures
        match r {
            Some(m) => json_of(*v) matches Json::Object(o) && o.dom().contains(key@) && json_of(*m)
                == o[key@],
            None => json_of(*v) matches Json::Object(o) ==> !o.dom().contains(key@),
        },
{
    v.get(key)
}

/// `serde_json::Value::String` is the JSON string of a text.
#[verifier::external_body]
pub(crate) fn text_value(s: String) -> (r: serde_json::Value)
    ensures
        json_of(r) == Json::Text(s@),
{
    serde_json::Value::String(s)
}

/// `serde_json::Map::new` makes a map of no members; as a value it is the empty object.
#[verifier::external_body]
pub(crate) fn empty_object() -> (r: serde_json::Value)
    ensures
        json_of(r) == Json::Object(Map::empty()),
{
    serde_json::Value::Object(serde_json::Map::new())
}

/// `serde_json::Map::insert` sets the member of an object under a key, in place of an earlier
/// one under the same key.
#[verifier::external_body]
pub(crate) fn set_member(v: &mut serde_json::Value, key: String, m: serde_json::Value)
    requires
        json_of(*old(v)) is Object,
    ensures
        json_of(*final(v)) == Json::Object(json_of(*old(v))->Object_0.insert(key@, json_of(m))),
{
    if let serde_json::Value::Object(o) = v {
        o.insert(key, m);
    }
}

/// The member of a value under a key, if it is an object that has one.
pub open spec fn json_member(v: Json, key: Seq<char>) -> Option<Json> {
    match v {
        Json::Object(o) => if o.dom().contains(key) {
            Some(o[key])
        } else {
            None
        },
        _ => None,
    }
}

/// The content of a value that is a string.
pub open spec fn json_as_text(v: Json) -> Option<Seq<char>> {
    match v {
        Json::Text(t) => Some(t),
        _ => None,
    }
}

} // verus!
