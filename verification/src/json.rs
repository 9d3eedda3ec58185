//! JSON texts.
use crate::text::views;
use vstd::prelude::*;

verus! {

/// What the text of a JSON document holds at its top.
#[derive(Clone, Copy, Debug, PartialEq, Eq, Structural)]
pub enum JsonKind {
    Null,
    Bool,
    Number,
    Text,
    Array,
    Object,
}

/// The kind of the value that `serde_json::from_str` reads from a text, or the
/// message of its error where the text is no JSON document.
pub uninterp spec fn json_kind(s: Seq<char>) -> Result<JsonKind, Seq<char>>;

/// `serde_json::from_str` into a `serde_json::Value`, of which only the kind is
/// kept. The outcome is named; the empty object is an object.
#[verifier::external_body]
pub(crate) fn parse_kind(s: &str) -> (res: Result<JsonKind, String>)
    ensures
        match res {
            Ok(kind) => json_kind(s@) == Ok::<JsonKind, Seq<char>>(kind),
            Err(message) => json_kind(s@) == Err::<JsonKind, Seq<char>>(message@),
        },
        s@ == "{}"@ ==> res is Ok && res->Ok_0 == JsonKind::Object,
{
    match serde_json::from_str::<serde_json::Value>(s) {
        Ok(serde_json::Value::Null) => Ok(JsonKind::Null),
        Ok(serde_json::Value::Bool(_)) => Ok(JsonKind::Bool),
        Ok(serde_json::Value::Number(_)) => Ok(JsonKind::Number),
        Ok(serde_json::Value::String(_)) => Ok(JsonKind::Text),
        Ok(serde_json::Value::Array(_)) => Ok(JsonKind::Array),
        Ok(serde_json::Value::Object(_)) => Ok(JsonKind::Object),
        Err(e) => Err(e.to_string()),
    }
}

/// The text that `serde_json::to_string` gives for a list of strings.
pub uninterp spec fn json_list_text(items: Seq<Seq<char>>) -> Seq<char>;

/// The list of strings that `serde_json::from_str` reads from a text, none
/// where the text is no JSON array of strings.
pub uninterp spec fn json_list(s: Seq<char>) -> Option<Seq<Seq<char>>>;

/// `serde_json::to_string` of a list of strings. It succeeds, and what it
/// writes is read back as the same list.
#[verifier::external_body]
pub(crate) fn list_to_json(items: &Vec<String>) -> (res: Result<String, String>)
    ensures
        res is Ok,
        res->Ok_0@ == json_list_text(views(items@)),
        json_list(res->Ok_0@) == Some(views(items@)),
{
    serde_json::to_string(items).map_err(|e| e.to_string())
}

/// `serde_json::from_str` into a list of strings, of whose error nothing is
/// kept.
#[verifier::external_body]
pub(crate) fn list_from_json(s: &str) -> (res: Option<Vec<String>>)
    ensures
        match res {
            Some(items) => json_list(s@) == Some(views(items@)),
            None => json_list(s@) is None,
        },
{
    serde_json::from_str::<Vec<String>>(s).ok()
}

} // verus!
