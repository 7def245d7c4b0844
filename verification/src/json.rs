//! Reading JSON documents with `serde_json`.
//!
//! `serde_json` is not verified. What it makes of a text is taken on
//! trust under a name, and so is what a value of it holds; each of its
//! functions that is called here is stated over these two. Walking a
//! document along a path of member names is verified.

use serde_json::Value;
use vstd::prelude::*;

verus! {

#[verifier::external_type_specification]
#[verifier::external_body]
pub struct ExValue(Value);

/// What a JSON value holds, as far as it is read here.
pub enum JsonTree {
    /// A string.
    Text(Seq<char>),
    /// An array, with its elements.
    Array(Seq<JsonTree>),
    /// An object, with its members: no name twice.
    Object(Seq<(Seq<char>, JsonTree)>),
    /// A number, `true`, `false` or `null`.
    Other,
}

/// What `serde_json` reads from `text`, and `None` where it reads no
/// JSON value from it.
pub uninterp spec fn json_parsed(text: Seq<char>) -> Option<JsonTree>;

/// What the value `value` holds.
pub uninterp spec fn json_tree(value: Value) -> JsonTree;

/// The member `name` of an object, and `None` for a value that is no
/// object or has no such member.
pub open spec fn member_of(tree: JsonTree, name: Seq<char>) -> Option<JsonTree> {
    match tree {
        JsonTree::Object(members) => if exists|i: int|
            0 <= i < members.len() && (#[trigger] members[i]).0 == name {
            Some(
                members[choose|i: int| 0 <= i < members.len() && (#[trigger] members[i]).0 == name].1,
            )
        } else {
            None
        },
        _ => None,
    }
}

/// What stands at `path`: the member of the member, and so on, that the
/// names of `path` lead to.
pub open spec fn value_at(tree: JsonTree, path: Seq<Seq<char>>) -> Option<JsonTree>
    decreases path.len(),
{
    if path.len() == 0 {
        Some(tree)
    } else {
        match member_of(tree, path[0]) {
            Some(member) => value_at(member, path.skip(1)),
            None => None,
        }
    }
}

/// The text of a value that is a string.
pub open spec fn text_of(tree: JsonTree) -> Option<Seq<char>> {
    match tree {
        JsonTree::Text(text) => Some(text),
        _ => None,
    }
}

/// The name of a member.
pub open spec fn name_of() -> spec_fn((Seq<char>, JsonTree)) -> Seq<char> {
    |member: (Seq<char>, JsonTree)| member.0
}

/// The text of a value where it is a string, as a function value.
pub open spec fn text_in() -> spec_fn(JsonTree) -> Option<Seq<char>> {
    |tree: JsonTree| text_of(tree)
}

/// The text at `path` in the JSON document `text`: `None` where `text` is
/// no JSON, `Some(None)` where nothing or no text stands at the path.
pub open spec fn json_text_at(text: Seq<char>, path: Seq<Seq<char>>) -> Option<Option<Seq<char>>> {
    match json_parsed(text) {
        Some(tree) => Some(
            match value_at(tree, path) {
                Some(found) => text_of(found),
                None => None,
            },
        ),
        None => None,
    }
}

/// The member names of the object at `path` in the JSON document `text`,
/// in the order in which the object holds them: `None` where `text` is no
/// JSON or no object stands at the path.
pub open spec fn json_keys_at(text: Seq<char>, path: Seq<Seq<char>>) -> Option<Seq<Seq<char>>> {
    match json_parsed(text) {
        Some(tree) => match value_at(tree, path) {
            Some(JsonTree::Object(members)) => Some(members.map_values(name_of())),
            _ => None,
        },
        None => None,
    }
}

/// The elements of the array at `path` in the JSON document `text`, each
/// with its text where it is one: `None` where `text` is no JSON or no
/// array stands at the path.
pub open spec fn json_texts_at(text: Seq<char>, path: Seq<Seq<char>>) -> Option<
    Seq<Option<Seq<char>>>,
> {
    match json_parsed(text) {
        Some(tree) => match value_at(tree, path) {
            Some(JsonTree::Array(items)) => Some(items.map_values(text_in())),
            _ => None,
        },
        None => None,
    }
}

/// `serde_json::from_str` for a `Value`: the value that the text spells,
/// and `None` where it spells none.
#[verifier::external_body]
fn parse(text: &str) -> (parsed: Option<Value>)
    ensures
        match parsed {
            Some(value) => json_parsed(text@) == Some(json_tree(value)),
            None => json_parsed(text@) is None,
        },
{
    serde_json::from_str::<Value>(text).ok()
}

/// `Value::get` with a name: the member of that name where the value is
/// an object that has one.
#[verifier::external_body]
fn member<'a>(value: &'a Value, name: &str) -> (found: Option<&'a Value>)
    ensures
        match found {
            Some(member) => member_of(json_tree(*value), name@) == Some(json_tree(*member)),
            None => member_of(json_tree(*value), name@) is None,
        },
{
    value.get(name)
}

/// `Value::as_str`: the text of a value that is a string.
#[verifier::external_body]
fn as_text(value: &Value) -> (text: Option<String>)
    ensures
        text.deep_view() == text_of(json_tree(*value)),
{
    value.as_str().map(String::from)
}

/// `Value::as_object` and `Map::keys`: the names of the members of a
/// value that is an object, in the order in which it holds them.
#[verifier::external_body]
fn names(value: &Value) -> (names: Option<Vec<String>>)
    ensures
        names.deep_view() == match json_tree(*value) {
            JsonTree::Object(members) => Some(members.map_values(name_of())),
            _ => None,
        },
{
    value.as_object().map(|members| members.keys().cloned().collect())
}

/// `Value::as_array`: the elements of a value that is an array.
#[verifier::external_body]
fn elements<'a>(value: &'a Value) -> (items: Option<Vec<&'a Value>>)
    ensures
        match items {
            Some(found) => json_tree(*value) matches JsonTree::Array(held) && held.len()
                == found@.len() && forall|i: int|
                0 <= i < held.len() ==> json_tree(*#[trigger] found@[i]) == held[i],
            None => !(json_tree(*value) is Array),
        },
{
    value.as_array().map(|items| items.iter().collect())
}

/// What stands at `path` below `root`.
fn walk<'a>(root: &'a Value, path: &Vec<String>) -> (found: Option<&'a Value>)
    ensures
        match found {
            Some(value) => value_at(json_tree(*root), path.deep_view()) == Some(json_tree(*value)),
            None => value_at(json_tree(*root), path.deep_view()) is None,
        },
{
    let ghost names = path.deep_view();
    let mut current: &Value = root;
    let mut i: usize = 0;
    assert(names.skip(0) =~= names);
    while i < path.len()
        invariant
            i <= path@.len(),
            names == path.deep_view(),
            value_at(json_tree(*root), names) == value_at(json_tree(*current), names.skip(i as int)),
        decreases path@.len() - i,
    {
        let ghost rest = names.skip(i as int);
        assert(rest[0] == path@[i as int]@);
        assert(rest.skip(1) =~= names.skip(i + 1));
        match member(current, path[i].as_str()) {
            Some(next) => {
                current = next;
            },
            None => {
                return None;
            },
        }
        i += 1;
    }
    Some(current)
}

/// The text at `path` in the JSON document `text`.
pub(crate) fn text_at(text: &str, path: &Vec<String>) -> (found: Option<Option<String>>)
    ensures
        found.deep_view() == json_text_at(text@, path.deep_view()),
{
    let document = match parse(text) {
        Some(document) => document,
        None => {
            return None;
        },
    };
    match walk(&document, path) {
        Some(value) => Some(as_text(value)),
        None => Some(None),
    }
}

/// The member names of the object at `path` in the JSON document `text`.
pub(crate) fn keys_at(text: &str, path: &Vec<String>) -> (found: Option<Vec<String>>)
    ensures
        found.deep_view() == json_keys_at(text@, path.deep_view()),
{
    let document = match parse(text) {
        Some(document) => document,
        None => {
            return None;
        },
    };
    match walk(&document, path) {
        Some(value) => names(value),
        None => None,
    }
}

/// The elements of the array at `path` in the JSON document `text`, each
/// with its text where it is one.
pub(crate) fn texts_at(text: &str, path: &Vec<String>) -> (found: Option<Vec<Option<String>>>)
    ensures
        found.deep_view() == json_texts_at(text@, path.deep_view()),
{
    let document = match parse(text) {
        Some(document) => document,
        None => {
            return None;
        },
    };
    let items = match walk(&document, path) {
        Some(value) => match elements(value) {
            Some(items) => items,
            None => {
                return None;
            },
        },
        None => {
            return None;
        },
    };
    let ghost held = value_at(json_tree(document), path.deep_view())->0->Array_0;
    let mut texts: Vec<Option<String>> = Vec::new();
    let mut i: usize = 0;
    while i < items.len()
        invariant
            i <= items@.len(),
            held.len() == items@.len(),
            forall|k: int| 0 <= k < held.len() ==> json_tree(*#[trigger] items@[k]) == held[k],
            texts.deep_view() == held.take(i as int).map_values(text_in()),
        decreases items@.len() - i,
    {
        let ghost before = texts.deep_view();
        texts.push(as_text(items[i]));
        assert(texts.deep_view() =~= before.push(text_of(held[i as int])));
        assert(held.take(i + 1).map_values(text_in()) =~= held.take(i as int).map_values(
            text_in(),
        ).push(text_of(held[i as int])));
        i += 1;
    }
    assert(held.take(i as int) =~= held);
    Some(texts)
}

} // verus!
