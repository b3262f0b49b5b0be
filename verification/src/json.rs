//! Reading single values out of JSON text, and writing texts into it.
use crate::chat::slack::input::or_empty;
use crate::text;
use vstd::prelude::*;

verus! {

/// The text that stands in a JSON document at a JSON pointer (`/a/b`); `None` where the document
/// cannot be read or holds no text there.
pub uninterp spec fn json_text(json: Seq<char>, pointer: Seq<char>) -> Option<Seq<char>>;

/// `serde_json::from_str`, `Value::pointer` and `Value::as_str`: the text depends on the document and
/// the pointer alone.
#[verifier::external_body]
pub(crate) fn text_at(json: &str, pointer: &str) -> (r: Option<String>)
    ensures
        text::opt_view(r) == json_text(json@, pointer@),
{
    serde_json::from_str::<serde_json::Value>(json).ok().and_then(
        |v| v.pointer(pointer).and_then(|x| x.as_str().map(|t| t.to_string())),
    )
}

/// How many items the array at a JSON pointer has; `None` where there is no array.
pub uninterp spec fn json_items(json: Seq<char>, pointer: Seq<char>) -> Option<usize>;

/// `serde_json::from_str`, `Value::pointer` and `Value::as_array`: the length of the array depends on
/// the document and the pointer alone.
#[verifier::external_body]
pub(crate) fn items_at(json: &str, pointer: &str) -> (r: Option<usize>)
    ensures
        r == json_items(json@, pointer@),
{
    serde_json::from_str::<serde_json::Value>(json).ok().and_then(
        |v| v.pointer(pointer).and_then(|x| x.as_array().map(|a| a.len())),
    )
}

/// How many items the array at a JSON pointer has; none where there is no array.
pub open spec fn item_count(json: Seq<char>, pointer: Seq<char>) -> nat {
    match json_items(json, pointer) {
        Some(n) => n as nat,
        None => 0,
    }
}

/// How many items the array at a JSON pointer has; none where there is no array.
pub fn count_at(json: &str, pointer: &str) -> (n: usize)
    ensures
        n == item_count(json@, pointer@),
{
    match items_at(json, pointer) {
        Some(n) => n,
        None => 0,
    }
}

/// The truth value at a JSON pointer.
pub uninterp spec fn json_bool(json: Seq<char>, pointer: Seq<char>) -> Option<bool>;

/// `serde_json::from_str`, `Value::pointer` and `Value::as_bool`: the truth value depends on the
/// document and the pointer alone.
#[verifier::external_body]
pub(crate) fn bool_at(json: &str, pointer: &str) -> (r: Option<bool>)
    ensures
        r == json_bool(json@, pointer@),
{
    serde_json::from_str::<serde_json::Value>(json).ok().and_then(
        |v| v.pointer(pointer).and_then(|x| x.as_bool()),
    )
}

/// The whole number, not below zero, at a JSON pointer.
pub uninterp spec fn json_number(json: Seq<char>, pointer: Seq<char>) -> Option<u64>;

/// `serde_json::from_str`, `Value::pointer` and `Value::as_u64`: the number depends on the document
/// and the pointer alone.
#[verifier::external_body]
pub(crate) fn number_at(json: &str, pointer: &str) -> (r: Option<u64>)
    ensures
        r == json_number(json@, pointer@),
{
    serde_json::from_str::<serde_json::Value>(json).ok().and_then(
        |v| v.pointer(pointer).and_then(|x| x.as_u64()),
    )
}

/// Whether anything stands at a JSON pointer.
pub uninterp spec fn json_has(json: Seq<char>, pointer: Seq<char>) -> bool;

/// `serde_json::from_str` and `Value::pointer`: whether something is there depends on the document
/// and the pointer alone.
#[verifier::external_body]
pub(crate) fn has_at(json: &str, pointer: &str) -> (r: bool)
    ensures
        r == json_has(json@, pointer@),
{
    serde_json::from_str::<serde_json::Value>(json).is_ok_and(|v| v.pointer(pointer).is_some())
}

/// What stands in a JSON document at a JSON pointer, written as JSON again.
pub uninterp spec fn json_value(json: Seq<char>, pointer: Seq<char>) -> Option<Seq<char>>;

/// `serde_json::from_str`, `Value::pointer` and `Value::to_string`: the value's text depends on the
/// document and the pointer alone.
#[verifier::external_body]
pub(crate) fn value_at(json: &str, pointer: &str) -> (r: Option<String>)
    ensures
        text::opt_view(r) == json_value(json@, pointer@),
{
    serde_json::from_str::<serde_json::Value>(json).ok().and_then(
        |v| v.pointer(pointer).map(|x| x.to_string()),
    )
}

/// The text at a JSON pointer, empty where there is none.
pub fn text_or_empty(json: &str, pointer: &str) -> (out: String)
    ensures
        out@ == or_empty(json_text(json@, pointer@)),
{
    match text_at(json, pointer) {
        Some(t) => t,
        None => String::new(),
    }
}

/// Whether a JSON pointer leads to `true`.
pub fn is_true(json: &str, pointer: &str) -> (r: bool)
    ensures
        r == (json_bool(json@, pointer@) == Some(true)),
{
    match bool_at(json, pointer) {
        Some(b) => b,
        None => false,
    }
}

/// The texts of a JSON object that holds nothing else, by their keys; or why the text is no such
/// object.
pub uninterp spec fn json_texts(json: Seq<char>) -> Result<Map<Seq<char>, Seq<char>>, Seq<char>>;

/// A text is a JSON object that holds texts, and nothing else.
pub open spec fn holds_texts(json: Seq<char>, m: Map<Seq<char>, Seq<char>>) -> bool {
    json_texts(json) matches Ok(x) && x == m
}

/// Pairs as a map: of two under one key the later one counts.
pub open spec fn pairs_map(pairs: Seq<(Seq<char>, Seq<char>)>) -> Map<Seq<char>, Seq<char>>
    decreases pairs.len(),
{
    if pairs.len() == 0 {
        Map::empty()
    } else {
        pairs_map(pairs.drop_last()).insert(pairs.last().0, pairs.last().1)
    }
}

/// `serde_json::from_str` into a map of texts: its pairs, or the error's text, which depend on the JSON
/// alone.
#[verifier::external_body]
pub(crate) fn texts_in(json: &str) -> (r: Result<Vec<(String, String)>, String>)
    ensures
        match r {
            Ok(v) => json_texts(json@) matches Ok(m) && m == pairs_map(text::pair_views(v@)),
            Err(e) => json_texts(json@) matches Err(why) && why == e@,
        },
{
    serde_json::from_str::<std::collections::BTreeMap<String, String>>(json)
        .map(|m| m.into_iter().collect())
        .map_err(|e| e.to_string())
}

/// `serde_json::to_string_pretty` of a map of texts: an object that reads back as the map.
#[verifier::external_body]
pub(crate) fn texts_json(pairs: Vec<(String, String)>) -> (out: String)
    ensures
        holds_texts(out@, pairs_map(text::pair_views(pairs@))),
{
    let m: std::collections::BTreeMap<String, String> = pairs.into_iter().collect();
    serde_json::to_string_pretty(&m).unwrap_or_default()
}

/// A text as a JSON string.
pub uninterp spec fn json_quoted(s: Seq<char>) -> Seq<char>;

/// `Value::to_string` of a `serde_json::Value::String`: the text in quotes, with JSON's escapes, which
/// depends on the text alone.
#[verifier::external_body]
pub(crate) fn quoted(s: &str) -> (out: String)
    ensures
        out@ == json_quoted(s@),
{
    serde_json::Value::String(s.to_string()).to_string()
}

} // verus!
