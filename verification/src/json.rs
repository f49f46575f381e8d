//! JSON values, as far as the exporters read and stamp them.

use vstd::prelude::*;

verus! {

/// What a JSON value holds.
pub enum Json {
    Text(Seq<char>),
    /// The integer, where it is one that fits, and the bits of the double-precision number.
    Number(Option<i64>, u64),
    List(Seq<Json>),
    Dict(Map<Seq<char>, Json>),
    /// Null, true or false.
    Other,
}

/// A value of the `serde_json` crate.
#[verifier::external_type_specification]
#[verifier::external_body]
pub struct ExJsonValue(serde_json::Value);

/// What a `serde_json::Value` holds.
pub uninterp spec fn json_tree(v: serde_json::Value) -> Json;

/// `serde_json::Value::as_str`: the text, when the value is a string.
pub assume_specification[ serde_json::Value::as_str ](v: &serde_json::Value) -> (r: Option<&str>)
    ensures
        (match r {
            Some(s) => json_tree(*v) == Json::Text(s@),
            None => !(json_tree(*v) is Text),
        }),
;

/// `serde_json::Value::as_i64`: the integer, when the value is a number that is one and fits.
pub assume_specification[ serde_json::Value::as_i64 ](v: &serde_json::Value) -> (r: Option<i64>)
    ensures
        r == (match json_tree(*v) {
            Json::Number(n, _) => n,
            _ => None,
        }),
;

/// `serde_json::Value::as_array`: the elements, when the value is an array.
pub assume_specification[ serde_json::Value::as_array ](v: &serde_json::Value) -> (r: Option<
    &Vec<serde_json::Value>,
>)
    ensures
        (match r {
            Some(a) => json_tree(*v) == Json::List(
                a@.map_values(|x: serde_json::Value| json_tree(x)),
            ),
            None => !(json_tree(*v) is List),
        }),
;

/// `serde_json::Value::get` with a text: the value under that key, when the value is an object that
/// has it.
#[verifier::external_body]
pub(crate) fn field<'a>(v: &'a serde_json::Value, key: &str) -> (r: Option<&'a serde_json::Value>)
    ensures
        (match r {
            Some(x) => json_tree(*v).at(key@) == Some(json_tree(*x)),
            None => json_tree(*v).at(key@) is None,
        }),
{
    v.get(key)
}

/// `serde_json::Value::as_f64`: the bits of the double-precision number, when the value is a number.
#[verifier::external_body]
pub(crate) fn double_bits(v: &serde_json::Value) -> (r: Option<u64>)
    ensures
        r == (match json_tree(*v) {
            Json::Number(_, b) => Some(b),
            _ => None,
        }),
{
    v.as_f64().map(|x| x.to_bits())
}

/// `serde_json::Map::insert`, on the map of a value that is an object: the text stands under the key.
/// A value of another kind stays as it is.
#[verifier::external_body]
pub(crate) fn put_text(v: &mut serde_json::Value, key: &str, text: &str)
    ensures
        json_tree(*final(v)) == (match json_tree(*old(v)) {
            Json::Dict(m) => Json::Dict(m.insert(key@, Json::Text(text@))),
            t => t,
        }),
{
    if let Some(m) = v.as_object_mut() {
        m.insert(key.to_string(), serde_json::Value::String(text.to_string()));
    }
}

impl Json {
    /// The value under a key of an object.
    pub open spec fn at(self, key: Seq<char>) -> Option<Json> {
        match self {
            Json::Dict(m) => if m.dom().contains(key) {
                Some(m[key])
            } else {
                None
            },
            _ => None,
        }
    }

    /// The text under a key of an object.
    pub open spec fn text_at(self, key: Seq<char>) -> Option<Seq<char>> {
        match self.at(key) {
            Some(Json::Text(s)) => Some(s),
            _ => None,
        }
    }

    /// The integer under a key of an object.
    pub open spec fn int_at(self, key: Seq<char>) -> Option<i64> {
        match self.at(key) {
            Some(Json::Number(n, _)) => n,
            _ => None,
        }
    }

    /// The bits of the number under a key of an object.
    pub open spec fn bits_at(self, key: Seq<char>) -> Option<u64> {
        match self.at(key) {
            Some(Json::Number(_, b)) => Some(b),
            _ => None,
        }
    }

    /// The elements of the array under a key of an object.
    pub open spec fn list_at(self, key: Seq<char>) -> Option<Seq<Json>> {
        match self.at(key) {
            Some(Json::List(l)) => Some(l),
            _ => None,
        }
    }
}

/// What a row of values holds.
pub open spec fn json_trees(s: Seq<serde_json::Value>) -> Seq<Json> {
    s.map_values(|x: serde_json::Value| json_tree(x))
}

/// The text under a key of an object.
pub fn text_field<'a>(v: &'a serde_json::Value, key: &str) -> (r: Option<&'a str>)
    ensures
        (match r {
            Some(s) => json_tree(*v).text_at(key@) == Some(s@),
            None => json_tree(*v).text_at(key@) is None,
        }),
{
    match field(v, key) {
        Some(x) => x.as_str(),
        None => None,
    }
}

/// The integer under a key of an object.
pub fn int_field(v: &serde_json::Value, key: &str) -> (r: Option<i64>)
    ensures
        r == json_tree(*v).int_at(key@),
{
    match field(v, key) {
        Some(x) => x.as_i64(),
        None => None,
    }
}

/// The bits of the number under a key of an object.
pub fn bits_field(v: &serde_json::Value, key: &str) -> (r: Option<u64>)
    ensures
        r == json_tree(*v).bits_at(key@),
{
    match field(v, key) {
        Some(x) => double_bits(x),
        None => None,
    }
}

/// The elements of the array under a key of an object.
pub fn list_field<'a>(v: &'a serde_json::Value, key: &str) -> (r: Option<&'a Vec<serde_json::Value>>)
    ensures
        (match r {
            Some(a) => json_tree(*v).list_at(key@) == Some(json_trees(a@)),
            None => json_tree(*v).list_at(key@) is None,
        }),
{
    match field(v, key) {
        Some(x) => x.as_array(),
        None => None,
    }
}

/// Under a key stands what the object has there, each kind read as itself alone; nothing stands under a
/// key that it lacks, nor under any key of what is no object.
pub proof fn lemma_json_lookup(m: Map<Seq<char>, Json>, v: Json, key: Seq<char>)
    ensures
        m.dom().contains(key) ==> Json::Dict(m).at(key) == Some(m[key]),
        !m.dom().contains(key) ==> Json::Dict(m).at(key) is None,
        !(v is Dict) ==> v.at(key) is None,
        v.at(key) is None ==> v.text_at(key) is None && v.int_at(key) is None && v.bits_at(key) is None
            && v.list_at(key) is None,
        v.at(key) matches Some(x) ==> {
            &&& x matches Json::Text(t) ==> v.text_at(key) == Some(t)
            &&& !(x is Text) ==> v.text_at(key) is None
            &&& x matches Json::Number(n, b) ==> v.int_at(key) == n && v.bits_at(key) == Some(b)
            &&& !(x is Number) ==> v.int_at(key) is None && v.bits_at(key) is None
            &&& x matches Json::List(l) ==> v.list_at(key) == Some(l)
            &&& !(x is List) ==> v.list_at(key) is None
        },
{
}

} // verus!
