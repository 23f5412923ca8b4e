//! JSON documents: what they hold, and how a member of one is looked up.

use vstd::prelude::*;

verus! {

/// `serde_json::Value`, a JSON document or a part of one. Nothing is known of
/// it but what the functions below say.
#[verifier::external_type_specification]
#[verifier::external_body]
pub struct ExJsonValue(serde_json::Value);

/// What a JSON value holds: an object has members by their keys, and a value
/// of another kind stands for itself.
pub enum JsonTree {
    Object(Map<Seq<char>, JsonTree>),
    Other(serde_json::Value),
}

/// What `value` holds.
pub uninterp spec fn json_tree(value: serde_json::Value) -> JsonTree;

/// What `serde_json::from_str` makes of `text`: a value, or why it is none.
pub uninterp spec fn json_parsed(text: Seq<char>) -> Result<JsonTree, Seq<char>>;

/// What `serde_json::Value::to_string` writes for a value.
pub uninterp spec fn json_written(tree: JsonTree) -> Seq<char>;

/// The member of `tree` with the key `key`, if it is an object that has one.
pub open spec fn member_of(tree: JsonTree, key: Seq<char>) -> Option<JsonTree> {
    match tree {
        JsonTree::Object(members) => if members.contains_key(key) {
            Some(members[key])
        } else {
            None
        },
        JsonTree::Other(_) => None,
    }
}

/// The member of `tree` with the key `key`, written as JSON.
pub open spec fn member_text(tree: JsonTree, key: Seq<char>) -> Option<Seq<char>> {
    match member_of(tree, key) {
        Some(member) => Some(json_written(member)),
        None => None,
    }
}

/// `serde_json::from_str` reads a value from `text`, and what it reads depends
/// on `text` alone.
#[verifier::external_body]
fn read_json(text: &str) -> (result: Result<serde_json::Value, String>)
    ensures
        match result {
            Ok(value) => json_parsed(text@) == Ok::<JsonTree, Seq<char>>(json_tree(value)),
            Err(reason) => json_parsed(text@) == Err::<JsonTree, Seq<char>>(reason@),
        },
{
    serde_json::from_str(text).map_err(|error| error.to_string())
}

/// `serde_json::Value::get` looks a member up by its key; a value that is no
/// object has none.
#[verifier::external_body]
fn get_member<'a>(value: &'a serde_json::Value, key: &str) -> (member: Option<&'a serde_json::Value>)
    ensures
        match member {
            Some(member) => member_of(json_tree(*value), key@) == Some(json_tree(*member)),
            None => member_of(json_tree(*value), key@) is None,
        },
{
    value.get(key)
}

/// `serde_json::Value::to_string` writes a value, and what it writes depends
/// on what the value holds alone: the members of an object are written in the
/// order of their keys.
#[verifier::external_body]
fn write_json(value: &serde_json::Value) -> (text: String)
    ensures
        text@ == json_written(json_tree(*value)),
{
    value.to_string()
}

/// Reads a JSON value.
pub fn parse(text: &str) -> (result: Result<serde_json::Value, String>)
    ensures
        match result {
            Ok(value) => json_parsed(text@) == Ok::<JsonTree, Seq<char>>(json_tree(value)),
            Err(reason) => json_parsed(text@) == Err::<JsonTree, Seq<char>>(reason@),
        },
{
    read_json(text)
}

/// The member of `value` with the key `key`, written as JSON, if it is an
/// object that has one.
pub fn member(value: &serde_json::Value, key: &str) -> (text: Option<String>)
    ensures
        match text {
            Some(text) => member_text(json_tree(*value), key@) == Some(text@),
            None => member_text(json_tree(*value), key@) is None,
        },
{
    match get_member(value, key) {
        Some(member) => Some(write_json(member)),
        None => None,
    }
}

} // verus!
