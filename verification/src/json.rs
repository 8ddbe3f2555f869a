//! The JSON documents the library reads and writes, and the calls into
//! `serde_json` that read and write them.  Each call stands behind a wrapper
//! whose result is named by a spec function of the text it reads or the
//! values it writes.

use vstd::prelude::*;
use crate::text::{join_spec, int_decimal};

verus! {

/// One entry of the `assigned` array of a dispatch reply, as far as the
/// dispatcher looks at it: an integer that fits `i64`, a string, or
/// anything else.
#[derive(Debug)]
pub enum JsonItem {
    Int(i64),
    Text(String),
    Other,
}

/// The mathematical form of a [`JsonItem`].
pub enum JsonItemView {
    Int(i64),
    Text(Seq<char>),
    Other,
}

impl DeepView for JsonItem {
    type V = JsonItemView;

    open spec fn deep_view(&self) -> JsonItemView {
        match self {
            JsonItem::Int(i) => JsonItemView::Int(*i),
            JsonItem::Text(s) => JsonItemView::Text(s@),
            JsonItem::Other => JsonItemView::Other,
        }
    }
}

/// The two members of a dispatch reply object: `reason` when it is a
/// string, `assigned` when it is an array.
#[derive(Debug)]
pub struct DecisionJson {
    pub reason: Option<String>,
    pub assigned: Option<Vec<JsonItem>>,
}

/// The mathematical form of a [`DecisionJson`].
pub struct DecisionJsonView {
    pub reason: Option<Seq<char>>,
    pub assigned: Option<Seq<JsonItemView>>,
}

impl DeepView for DecisionJson {
    type V = DecisionJsonView;

    open spec fn deep_view(&self) -> DecisionJsonView {
        DecisionJsonView { reason: self.reason.deep_view(), assigned: self.assigned.deep_view() }
    }
}

/// What `serde_json` reads from a dispatch reply: `None` when the text is
/// not a JSON document, else the `reason` and `assigned` members.
pub uninterp spec fn decision_json_of(text: Seq<char>) -> Option<DecisionJsonView>;

/// Parses `text` with `serde_json::from_str::<serde_json::Value>` and reads
/// `v["reason"].as_str()` and `v["assigned"].as_array()`, each array entry
/// through `as_i64` and `as_str`.  The contract names the outcome; it says
/// nothing of which texts parse.
#[verifier::external_body]
pub(crate) fn read_decision_json(text: &str) -> (r: Option<DecisionJson>)
    ensures
        r.deep_view() == decision_json_of(text@),
{
    let v: serde_json::Value = serde_json::from_str(text).ok()?;
    let reason = v["reason"].as_str().map(|s| s.to_string());
    let assigned = v["assigned"].as_array().map(|arr| arr.iter().map(|item| match (item.as_i64(), item.as_str()) {
        (Some(id), _) => JsonItem::Int(id),
        (None, Some(s)) => JsonItem::Text(s.to_string()),
        (None, None) => JsonItem::Other,
    }).collect());
    Some(DecisionJson { reason, assigned })
}

/// What `serde_json::from_str::<Vec<String>>` reads from a text.
pub uninterp spec fn string_list_of(text: Seq<char>) -> Option<Seq<Seq<char>>>;

/// Calls `serde_json::from_str::<Vec<String>>`; `None` stands for its error.
#[verifier::external_body]
pub(crate) fn decode_string_list(text: &str) -> (r: Option<Vec<String>>)
    ensures
        r.deep_view() == string_list_of(text@),
{
    serde_json::from_str::<Vec<String>>(text).ok()
}

/// What `serde_json::from_str::<Vec<i64>>` reads from a text.
pub uninterp spec fn id_list_of(text: Seq<char>) -> Option<Seq<i64>>;

/// Calls `serde_json::from_str::<Vec<i64>>`; `None` stands for its error.
#[verifier::external_body]
pub(crate) fn decode_id_list(text: &str) -> (r: Option<Vec<i64>>)
    ensures
        r.deep_view() == id_list_of(text@),
{
    serde_json::from_str::<Vec<i64>>(text).ok()
}

/// The JSON text that `serde_json::to_string` writes for a list of strings.
pub uninterp spec fn string_list_json(list: Seq<Seq<char>>) -> Seq<char>;

/// Calls `serde_json::to_string` on a list of strings, which cannot fail
/// for that type; the `"[]"` of the error arm is never reached.  The
/// contract names the text and states that `serde_json::from_str` reads
/// the same list back from it (every string is written with its escapes
/// and read back through them).
#[verifier::external_body]
pub(crate) fn encode_string_list(list: &Vec<String>) -> (r: String)
    ensures
        r@ == string_list_json(list.deep_view()),
        string_list_of(r@) == Some(list.deep_view()),
{
    serde_json::to_string(list).unwrap_or_else(|_| "[]".to_string())
}

/// The JSON text that `serde_json::to_string` writes for a list of
/// integers: the compact form, each integer in decimal, separated by
/// commas, in square brackets.
pub open spec fn id_list_json(ids: Seq<i64>) -> Seq<char> {
    "["@ + join_spec(ids.map_values(|i: i64| int_decimal(i as int)), ","@) + "]"@
}

/// Calls `serde_json::to_string` on a list of integers, which cannot fail
/// for that type; the `"[]"` of the error arm is never reached.  The
/// compact writer puts `[`, the integers as `itoa` writes them with `,`
/// between, and `]`; `serde_json::from_str` reads the same integers back
/// from that text.
#[verifier::external_body]
pub(crate) fn encode_id_list(ids: &Vec<i64>) -> (r: String)
    ensures
        r@ == id_list_json(ids@),
        id_list_of(r@) == Some(ids@),
{
    serde_json::to_string(ids).unwrap_or_else(|_| "[]".to_string())
}

/// What `serde_json` reads from the body of a chat completion: the error
/// message of the parser, or `v["choices"][0]["message"]["content"]` when
/// it is a string.
pub uninterp spec fn completion_content_of(body: Seq<char>) -> Result<Option<Seq<char>>, Seq<char>>;

/// The mathematical form of the outcome of [`completion_content`].
pub open spec fn content_result_view(r: Result<Option<String>, String>) -> Result<Option<Seq<char>>, Seq<char>> {
    match r {
        Ok(c) => Ok(c.deep_view()),
        Err(e) => Err(e@),
    }
}

/// Parses `body` with `serde_json::from_str::<serde_json::Value>`; on error
/// returns the error's `Display` text, else the string at
/// `choices[0].message.content`, if there is one.
#[verifier::external_body]
pub(crate) fn completion_content(body: &str) -> (r: Result<Option<String>, String>)
    ensures
        content_result_view(r) == completion_content_of(body@),
{
    match serde_json::from_str::<serde_json::Value>(body) {
        Ok(v) => Ok(v["choices"][0]["message"]["content"].as_str().map(|s| s.to_string())),
        Err(e) => Err(e.to_string()),
    }
}

/// What `serde_json` reads from the data of one streamed event: the string
/// at `choices[0].delta.content`, if the data parse and there is one.
pub uninterp spec fn stream_delta_of(data: Seq<char>) -> Option<Seq<char>>;

/// Parses `data` with `serde_json::from_str::<serde_json::Value>` and reads
/// `choices[0].delta.content` as a string.
#[verifier::external_body]
pub(crate) fn stream_delta(data: &str) -> (r: Option<String>)
    ensures
        r.deep_view() == stream_delta_of(data@),
{
    let v: serde_json::Value = serde_json::from_str(data).ok()?;
    v["choices"][0]["delta"]["content"].as_str().map(|s| s.to_string())
}

} // verus!
