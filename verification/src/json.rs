//! JSON values: what they say, and how they are built and read.

use vstd::prelude::*;

verus! {

/// `serde_json::Value`, carried through unopened.
#[verifier::external_type_specification]
#[verifier::external_body]
pub struct ExValue(serde_json::Value);

/// What a JSON value says.
pub ghost enum Json {
    Null,
    Bool(bool),
    Integer(int),
    /// A number that is not held as an integer, by the text that it is written as.
    Fraction(Seq<char>),
    Text(Seq<char>),
    List(Seq<Json>),
    Object(Map<Seq<char>, Json>),
}

/// What a `serde_json::Value` holds.
pub uninterp spec fn json_tree(value: serde_json::Value) -> Json;

/// The member of an object under `key`; nothing for any other value.
pub open spec fn member(json: Json, key: Seq<char>) -> Option<Json> {
    match json {
        Json::Object(members) => if members.dom().contains(key) {
            Some(members[key])
        } else {
            None
        },
        _ => None,
    }
}

/// `Value::get` with a text key finds the member of an object under that key, and nothing in
/// any other value.
#[verifier::external_body]
pub(crate) fn json_get<'a>(value: &'a serde_json::Value, key: &str) -> (found: Option<
    &'a serde_json::Value,
>)
    ensures
        match found {
            Some(inner) => member(json_tree(*value), key@) == Some(json_tree(*inner)),
            None => member(json_tree(*value), key@) is None,
        },
{
    value.get(key)
}

/// `Value::as_str` gives the text of a text value, and nothing for any other value.
pub assume_specification[ serde_json::Value::as_str ](value: &serde_json::Value) -> (found: Option<
    &str,
>)
    ensures
        match found {
            Some(text) => json_tree(*value) == Json::Text(text@),
            None => json_tree(*value) !is Text,
        },
;

/// `Value::as_array` gives the items of a list in their order, and nothing for any other value.
pub assume_specification[ serde_json::Value::as_array ](
    value: &serde_json::Value,
) -> (found: Option<&Vec<serde_json::Value>>)
    ensures
        match found {
            Some(items) => json_tree(*value) == Json::List(
                items@.map_values(|item: serde_json::Value| json_tree(item)),
            ),
            None => json_tree(*value) !is List,
        },
;

/// The members of an object with the given pairs.
pub open spec fn members_of(pairs: Seq<(String, serde_json::Value)>) -> Map<Seq<char>, Json>
    decreases pairs.len(),
{
    if pairs.len() == 0 {
        Map::empty()
    } else {
        members_of(pairs.drop_last()).insert(pairs.last().0@, json_tree(pairs.last().1))
    }
}

/// No key occurs twice.
pub open spec fn distinct_keys(pairs: Seq<(String, serde_json::Value)>) -> bool {
    forall|i: int, j: int|
        0 <= i < j < pairs.len() ==> (#[trigger] pairs[i]).0@ != (#[trigger] pairs[j]).0@
}

/// Pairs without a repeated key, collected into a `serde_json::Map`, are its members;
/// `Value::Object` is the object with those members. Which of several pairs with one key would
/// stay is left unsaid.
#[verifier::external_body]
pub(crate) fn json_object(pairs: Vec<(String, serde_json::Value)>) -> (value: serde_json::Value)
    requires
        distinct_keys(pairs@),
    ensures
        json_tree(value) == Json::Object(members_of(pairs@)),
{
    serde_json::Value::Object(pairs.into_iter().collect())
}

/// `Value::String` is the text value that holds the given text.
#[verifier::external_body]
pub(crate) fn json_string(text: &str) -> (value: serde_json::Value)
    ensures
        json_tree(value) == Json::Text(text@),
{
    serde_json::Value::String(text.to_string())
}

/// `Value::from` makes an unsigned number the integer with the same value.
#[verifier::external_body]
pub(crate) fn json_integer(n: u32) -> (value: serde_json::Value)
    ensures
        json_tree(value) == Json::Integer(n as int),
{
    serde_json::Value::from(n)
}

/// `Value::Null` is the null value.
#[verifier::external_body]
pub(crate) fn json_null() -> (value: serde_json::Value)
    ensures
        json_tree(value) == Json::Null,
{
    serde_json::Value::Null
}

/// The compact JSON text of a value.
pub uninterp spec fn json_text(json: Json) -> Seq<char>;

/// `Value`'s `Display` writes the value as compact JSON. The members of an object come in the order
/// of their keys, so the text depends on nothing but what the value says.
#[verifier::external_body]
pub(crate) fn json_to_string(value: &serde_json::Value) -> (text: String)
    ensures
        text@ == json_text(json_tree(*value)),
{
    value.to_string()
}

/// An object built from pairs without a repeated key has each pair's value under its key, and
/// nothing under any other key.
pub proof fn law_objects_hold_their_pairs(pairs: Seq<(String, serde_json::Value)>, key: Seq<char>)
    requires
        distinct_keys(pairs),
    ensures
        forall|i: int|
            0 <= i < pairs.len() ==> member(
                Json::Object(members_of(pairs)),
                (#[trigger] pairs[i]).0@,
            ) == Some(json_tree(pairs[i].1)),
        (forall|i: int| 0 <= i < pairs.len() ==> (#[trigger] pairs[i]).0@ != key) ==> member(
            Json::Object(members_of(pairs)),
            key,
        ) is None,
    decreases pairs.len(),
{
    if pairs.len() > 0 {
        let rest = pairs.drop_last();
        assert forall|i: int, j: int| 0 <= i < j < rest.len() implies (#[trigger] rest[i]).0@ != (
        #[trigger] rest[j]).0@ by {
            assert(rest[i] == pairs[i] && rest[j] == pairs[j]);
        }
        law_objects_hold_their_pairs(rest, key);
        assert forall|i: int| 0 <= i < pairs.len() implies member(
            Json::Object(members_of(pairs)),
            (#[trigger] pairs[i]).0@,
        ) == Some(json_tree(pairs[i].1)) by {
            if i < rest.len() {
                assert(rest[i] == pairs[i]);
                assert(pairs[i].0@ != pairs[pairs.len() - 1].0@);
            }
        }
        if forall|i: int| 0 <= i < pairs.len() ==> (#[trigger] pairs[i]).0@ != key {
            assert forall|i: int| 0 <= i < rest.len() implies (#[trigger] rest[i]).0@ != key by {
                assert(rest[i] == pairs[i]);
            }
            assert(pairs[pairs.len() - 1].0@ != key);
        }
    }
}

/// An object has exactly the members that it holds, and nothing else has any.
pub proof fn law_members_are_those_of_objects(
    members: Map<Seq<char>, Json>,
    key: Seq<char>,
    value: Json,
    other: Seq<char>,
    items: Seq<Json>,
    text: Seq<char>,
    n: int,
    truth: bool,
)
    ensures
        member(Json::Object(members.insert(key, value)), key) == Some(value),
        other != key ==> member(Json::Object(members.insert(key, value)), other) == member(
            Json::Object(members),
            other,
        ),
        member(Json::Object(members.remove(key)), key) is None,
        member(Json::List(items), key) is None,
        member(Json::Text(text), key) is None,
        member(Json::Fraction(text), key) is None,
        member(Json::Integer(n), key) is None,
        member(Json::Bool(truth), key) is None,
        member(Json::Null, key) is None,
{
}

}
