//! JSON values as the library reads them.

use serde_json::Value;
use vstd::prelude::*;
use vstd::string::*;

use crate::double::Double;

verus! {

/// What a JSON value holds.
pub enum JsonModel {
    Null,
    Bool(bool),
    /// The bit pattern of the number as a double, and the number itself where
    /// it is whole and fits.
    Number(u64, Option<i64>),
    Text(Seq<char>),
    Array(Seq<JsonModel>),
    /// The members in the order in which they are walked.
    Object(Seq<(Seq<char>, JsonModel)>),
}

/// The first member of a name among those from `from` on.
pub open spec fn member(members: Seq<(Seq<char>, JsonModel)>, name: Seq<char>, from: int) -> Option<
    JsonModel,
>
    decreases members.len() - from,
{
    if from < 0 || from >= members.len() {
        None
    } else if members[from].0 == name {
        Some(members[from].1)
    } else {
        member(members, name, from + 1)
    }
}

impl JsonModel {
    /// The member of a name, where this is an object that has one.
    pub open spec fn at(self, name: Seq<char>) -> Option<JsonModel> {
        match self {
            JsonModel::Object(members) => member(members, name, 0),
            _ => None,
        }
    }

    pub open spec fn items(self) -> Option<Seq<JsonModel>> {
        match self {
            JsonModel::Array(items) => Some(items),
            _ => None,
        }
    }

    pub open spec fn text(self) -> Option<Seq<char>> {
        match self {
            JsonModel::Text(t) => Some(t),
            _ => None,
        }
    }

    pub open spec fn number(self) -> Option<Double> {
        match self {
            JsonModel::Number(bits, _) => Some(Double { bits }),
            _ => None,
        }
    }

    pub open spec fn whole(self) -> Option<i64> {
        match self {
            JsonModel::Number(_, whole) => whole,
            _ => None,
        }
    }
}

/// Whether a value is a record of up to `n` fields, the first `least` of which a
/// list must have: an object, or a list of the fields in their order.
pub open spec fn is_record(v: JsonModel, least: nat, n: nat) -> bool {
    match v {
        JsonModel::Object(_) => true,
        JsonModel::Array(items) => least <= items.len() <= n,
        _ => false,
    }
}

/// A field of a record: the member of its name, or the item at its place.
pub open spec fn field_of(v: JsonModel, name: Seq<char>, place: int) -> Option<JsonModel> {
    match v {
        JsonModel::Array(items) => if 0 <= place < items.len() {
            Some(items[place])
        } else {
            None
        },
        _ => v.at(name),
    }
}

/// The member of a name of a value that may not be there.
pub open spec fn at(v: Option<JsonModel>, name: Seq<char>) -> Option<JsonModel> {
    match v {
        Some(v) => v.at(name),
        None => None,
    }
}

pub open spec fn items_of(v: Option<JsonModel>) -> Option<Seq<JsonModel>> {
    match v {
        Some(v) => v.items(),
        None => None,
    }
}

pub open spec fn text_at(v: Option<JsonModel>) -> Option<Seq<char>> {
    match v {
        Some(v) => v.text(),
        None => None,
    }
}

pub open spec fn number_of(v: Option<JsonModel>) -> Option<Double> {
    match v {
        Some(v) => v.number(),
        None => None,
    }
}

/// A JSON value.
#[verifier::external_type_specification]
#[verifier::external_body]
pub struct ExValue(Value);

/// What a value holds.
pub uninterp spec fn json(v: Value) -> JsonModel;

/// What a text holds, none where it is no JSON.
pub uninterp spec fn json_of_text(text: Seq<char>) -> Option<JsonModel>;

/// What bytes hold, none where they are no JSON.
pub uninterp spec fn json_of_bytes(bytes: Seq<u8>) -> Option<JsonModel>;

/// `serde_json::from_str` reads a text, or fails where it is no JSON.
#[verifier::external_body]
pub(crate) fn parse_text(text: &str) -> (r: Option<Value>)
    ensures
        match r {
            Some(v) => json_of_text(text@) == Some(json(v)),
            None => json_of_text(text@) is None,
        },
{
    serde_json::from_str(text).ok()
}

/// `serde_json::from_slice` reads bytes, or fails where they are no JSON.
#[verifier::external_body]
pub(crate) fn parse_bytes(bytes: &[u8]) -> (r: Option<Value>)
    ensures
        match r {
            Some(v) => json_of_bytes(bytes@) == Some(json(v)),
            None => json_of_bytes(bytes@) is None,
        },
{
    serde_json::from_slice(bytes).ok()
}

/// `Value::get` finds a member of an object.
#[verifier::external_body]
pub(crate) fn get<'a>(v: &'a Value, name: &str) -> (r: Option<&'a Value>)
    ensures
        match r {
            Some(m) => json(*v).at(name@) == Some(json(*m)),
            None => json(*v).at(name@) is None,
        },
{
    v.get(name)
}

pub open spec fn jsons(items: Seq<Value>) -> Seq<JsonModel> {
    items.map_values(|v: Value| json(v))
}

/// `Value::as_array` lends the items of an array.
#[verifier::external_body]
pub(crate) fn as_array(v: &Value) -> (r: Option<&Vec<Value>>)
    ensures
        match r {
            Some(items) => json(*v).items() == Some(jsons(items@)),
            None => json(*v).items() is None,
        },
{
    v.as_array()
}

/// `Value::as_str` lends a text.
#[verifier::external_body]
pub(crate) fn as_str(v: &Value) -> (r: Option<&str>)
    ensures
        match r {
            Some(s) => json(*v).text() == Some(s@),
            None => json(*v).text() is None,
        },
{
    v.as_str()
}

/// `Value::as_f64` gives a number as a double, here by its bit pattern.
#[verifier::external_body]
fn number_bits(v: &Value) -> (r: Option<u64>)
    ensures
        match r {
            Some(bits) => json(*v).number() == Some(Double { bits }),
            None => json(*v).number() is None,
        },
{
    v.as_f64().map(|x| x.to_bits())
}

/// `Value::as_i64` gives a number that is whole and fits.
#[verifier::external_body]
pub(crate) fn as_whole(v: &Value) -> (r: Option<i64>)
    ensures
        r == json(*v).whole(),
{
    v.as_i64()
}

/// `Value::is_null` tells whether a value is null.
#[verifier::external_body]
pub(crate) fn is_null(v: &Value) -> (r: bool)
    ensures
        r == (json(*v) is Null),
{
    v.is_null()
}

pub open spec fn members_of(entries: Seq<(&String, &Value)>) -> Seq<(Seq<char>, JsonModel)> {
    entries.map_values(|e: (&String, &Value)| (e.0@, json(*e.1)))
}

/// `Value::as_object` with `Map::iter` walks the members of an object.
#[verifier::external_body]
pub(crate) fn members(v: &Value) -> (r: Option<Vec<(&String, &Value)>>)
    ensures
        match r {
            Some(entries) => json(*v) == JsonModel::Object(members_of(entries@)),
            None => !(json(*v) is Object),
        },
{
    v.as_object().map(|m| m.iter().collect())
}

pub(crate) fn has_record_shape(v: &Value, least: usize, n: usize) -> (r: bool)
    ensures
        r == is_record(json(*v), least as nat, n as nat),
{
    match as_array(v) {
        Some(items) => least <= items.len() && items.len() <= n,
        None => members(v).is_some(),
    }
}

pub(crate) fn get_field<'a>(v: &'a Value, name: &str, place: usize) -> (r: Option<&'a Value>)
    ensures
        match r {
            Some(m) => field_of(json(*v), name@, place as int) == Some(json(*m)),
            None => field_of(json(*v), name@, place as int) is None,
        },
{
    match as_array(v) {
        Some(items) => if place < items.len() {
            assert(jsons(items@)[place as int] == json(items@[place as int]));
            Some(&items[place])
        } else {
            None
        },
        None => get(v, name),
    }
}

/// The number that a value holds.
pub fn as_number(v: &Value) -> (r: Option<Double>)
    ensures
        r == json(*v).number(),
{
    match number_bits(v) {
        Some(bits) => Some(Double::from_bits(bits)),
        None => None,
    }
}

/// The member of a name of a value that may not be there.
pub(crate) fn get_in<'a>(v: Option<&'a Value>, name: &str) -> (r: Option<&'a Value>)
    ensures
        match r {
            Some(m) => at(lent(v), name@) == Some(json(*m)),
            None => at(lent(v), name@) is None,
        },
{
    match v {
        Some(v) => get(v, name),
        None => None,
    }
}

pub open spec fn lent(v: Option<&Value>) -> Option<JsonModel> {
    match v {
        Some(v) => Some(json(*v)),
        None => None,
    }
}

pub(crate) fn text_in<'a>(v: Option<&'a Value>) -> (r: Option<&'a str>)
    ensures
        match r {
            Some(s) => text_at(lent(v)) == Some(s@),
            None => text_at(lent(v)) is None,
        },
{
    match v {
        Some(v) => as_str(v),
        None => None,
    }
}

pub(crate) fn items_in<'a>(v: Option<&'a Value>) -> (r: Option<&'a Vec<Value>>)
    ensures
        match r {
            Some(items) => items_of(lent(v)) == Some(jsons(items@)),
            None => items_of(lent(v)) is None,
        },
{
    match v {
        Some(v) => as_array(v),
        None => None,
    }
}

} // verus!
