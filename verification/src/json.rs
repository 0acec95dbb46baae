//! JSON as the router sees it.
//!
//! Tool arguments, JSON schemas and other pass-through payloads are kept as
//! opaque `serde_json::Value`s: the router never looks inside them, it only
//! moves, copies, parses and prints them. Plugin and classifier settings,
//! which the router does read, are modelled by [`JsonValue`].

use vstd::prelude::*;

verus! {

#[verifier::external_type_specification]
#[verifier::external_body]
pub struct ExValue(serde_json::Value);

/// The value that `serde_json::from_str` yields for `text`, or `None` where
/// it reports an error.
pub uninterp spec fn parsed_json(text: Seq<char>) -> Option<serde_json::Value>;

/// The compact text that `serde_json::Value`'s `Display` writes for `v`.
pub uninterp spec fn json_text(v: serde_json::Value) -> Seq<char>;

/// Whether `v` is the JSON `null` value.
pub uninterp spec fn is_json_null(v: serde_json::Value) -> bool;

/// Parses `text` as JSON with `serde_json::from_str`.
/// Claims that the result is a function of `text` alone (named
/// `parsed_json`); what that function is, is not stated.
#[verifier::external_body]
pub fn parse_json(text: &str) -> (r: Option<serde_json::Value>)
    ensures
        r == parsed_json(text@),
{
    serde_json::from_str::<serde_json::Value>(text).ok()
}

/// `serde_json::Value::Null`: claims the result is the `null` value, and
/// that it is the only value that is `null`.
#[verifier::external_body]
pub fn null_value() -> (r: serde_json::Value)
    ensures
        is_json_null(r),
        forall|v: serde_json::Value| is_json_null(v) ==> v == r,
{
    serde_json::Value::Null
}

/// `<serde_json::Value as Display>::to_string`: claims the text is a
/// function of the value alone (named `json_text`).
#[verifier::external_body]
pub fn value_to_text(v: &serde_json::Value) -> (r: String)
    ensures
        r@ == json_text(*v),
{
    v.to_string()
}

/// `<serde_json::Value as Clone>::clone`: claims the copy equals the
/// original (the impl is derived and copies every node).
pub assume_specification[ <serde_json::Value as Clone>::clone ](v: &serde_json::Value) -> (r: serde_json::Value)
    ensures
        r == *v,
;

/// A copy of `v`.
pub fn copy_value(v: &serde_json::Value) -> (r: serde_json::Value)
    ensures
        r == *v,
{
    v.clone()
}

/// Copies an optional value.
pub fn copy_opt_value(v: &Option<serde_json::Value>) -> (r: Option<serde_json::Value>)
    ensures
        r == *v,
{
    match v {
        Some(x) => Some(copy_value(x)),
        None => None,
    }
}

/// The JSON `null` value.
pub open spec fn json_null() -> serde_json::Value {
    choose|v: serde_json::Value| is_json_null(v)
}

/// `text` parsed as JSON, or `null` where `text` is not valid JSON.
pub open spec fn parsed_or_null(text: Seq<char>) -> serde_json::Value {
    match parsed_json(text) {
        Some(p) => p,
        None => json_null(),
    }
}

/// Parses `text` as JSON, falling back to `null` when it is malformed.
pub fn parse_json_or_null(text: &str) -> (r: serde_json::Value)
    ensures
        r == parsed_or_null(text@),
{
    match parse_json(text) {
        Some(v) => v,
        None => {
            let n = null_value();
            proof {
                assert(is_json_null(json_null()));
            }
            n
        },
    }
}

/// Whether `text` is valid JSON.
pub fn is_valid_json(text: &str) -> (r: bool)
    ensures
        r == parsed_json(text@).is_some(),
{
    parse_json(text).is_some()
}

} // verus!

verus! {

/// A JSON document as plugin and classifier settings carry it.
///
/// Numbers keep the text `serde_json` prints for them. An object is an
/// association list: when a key occurs more than once, the later entry
/// shadows the earlier ones, as repeated inserts into a JSON map do.
#[derive(Debug, PartialEq)]
pub enum JsonValue {
    Null,
    Bool(bool),
    Number(String),
    Str(String),
    Array(Vec<JsonValue>),
    Object(Vec<(String, JsonValue)>),
}

/// The value bound to `key` in the association list `entries`: the last
/// entry with that key, if any.
pub open spec fn lookup(entries: Seq<(String, JsonValue)>, key: Seq<char>) -> Option<JsonValue>
    decreases entries.len(),
{
    if entries.len() == 0 {
        None
    } else if entries.last().0@ == key {
        Some(entries.last().1)
    } else {
        lookup(entries.drop_last(), key)
    }
}

/// The string held by `v`, if it is a JSON string.
pub open spec fn str_of(v: Option<JsonValue>) -> Option<Seq<char>> {
    match v {
        Some(JsonValue::Str(s)) => Some(s@),
        _ => None,
    }
}

/// The value bound to `key` in `entries` (the last entry with that key).
pub fn get<'a>(entries: &'a Vec<(String, JsonValue)>, key: &str) -> (r: Option<&'a JsonValue>)
    ensures
        match r {
            Some(v) => lookup(entries@, key@) == Some(*v),
            None => lookup(entries@, key@).is_none(),
        },
{
    let mut i: usize = entries.len();
    proof {
        assert(entries@.take(i as int) =~= entries@);
    }
    while i > 0
        invariant
            i <= entries.len(),
            lookup(entries@, key@) == lookup(entries@.take(i as int), key@),
        decreases i,
    {
        proof {
            assert(entries@.take(i as int).drop_last() =~= entries@.take(i - 1));
        }
        let same = crate::text::str_eq(entries[i - 1].0.as_str(), key);
        proof {
            assert(entries@.take(i as int).last() == entries@[i - 1]);
        }
        if same {
            return Some(&entries[i - 1].1);
        }
        i = i - 1;
    }
    None
}

/// The string bound to `key` in `entries`, if that value is a JSON string.
pub fn get_str<'a>(entries: &'a Vec<(String, JsonValue)>, key: &str) -> (r: Option<&'a String>)
    ensures
        match r {
            Some(s) => str_of(lookup(entries@, key@)) == Some(s@),
            None => str_of(lookup(entries@, key@)).is_none(),
        },
{
    match get(entries, key) {
        Some(JsonValue::Str(s)) => Some(s),
        _ => None,
    }
}

} // verus!
