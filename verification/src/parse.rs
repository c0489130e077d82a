//! Flattening a document given as text: the text is parsed by `serde_json`,
//! the parsed value is brought into the library's own form, and that is
//! flattened.

use crate::flatten::{entries_view, flatten};
use crate::model::{leaves, Json, PathEntry};
use crate::value::{lemma_array_view, lemma_object_view, JsonValue};
use vstd::prelude::*;

verus! {

/// `serde_json::Value`, a parsed document. Nothing of its inside is known here.
#[verifier::external_type_specification]
#[verifier::external_body]
pub struct ExValue(serde_json::Value);

/// `serde_json::Error`, the reason why a text was not parsed.
#[verifier::external_type_specification]
#[verifier::external_body]
pub struct ExError(serde_json::Error);

/// The document that `serde_json::from_str` reads from `text`, or `None` where
/// it rejects the text.
pub uninterp spec fn json_of_text(text: Seq<char>) -> Option<Json>;

/// The document that a `serde_json::Value` holds: numbers by the text that
/// `serde_json` prints for them, the members of an object in the order in
/// which its map hands them out.
pub uninterp spec fn json_of_value(value: serde_json::Value) -> Json;

/// The documents that a list of parsed values holds.
pub open spec fn json_of_items(items: Seq<serde_json::Value>) -> Seq<Json> {
    Seq::new(items.len(), |i: int| json_of_value(items[i]))
}

/// The keys of a list of parsed members, with the documents that they hold.
pub open spec fn json_of_members(members: Seq<(String, serde_json::Value)>) -> Seq<
    (Seq<char>, Json),
> {
    Seq::new(members.len(), |i: int| (members[i].0@, json_of_value(members[i].1)))
}

/// The outermost layer of a parsed value, with what lies below still as
/// `serde_json` holds it.
enum Layer {
    Null,
    Bool(bool),
    Number(String),
    String(String),
    Array(Vec<serde_json::Value>),
    Object(Vec<(String, serde_json::Value)>),
}

impl Layer {
    /// The document that the layer and what lies below it make up.
    spec fn json(self) -> Json {
        match self {
            Layer::Null => Json::Null,
            Layer::Bool(b) => Json::Bool(b),
            Layer::Number(text) => Json::Number(text@),
            Layer::String(text) => Json::String(text@),
            Layer::Array(items) => Json::Array(json_of_items(items@)),
            Layer::Object(members) => Json::Object(json_of_members(members@)),
        }
    }
}

/// Why a text is not a JSON document: the error of the parser, as it gave it.
#[derive(Debug)]
pub struct ParseError {
    pub source: serde_json::Error,
}

/// The entries that flattening the text at `root` yields, or `None` where the
/// text is not a JSON document.
pub open spec fn text_leaves(text: Seq<char>, root: Seq<char>) -> Option<Seq<PathEntry>> {
    match json_of_text(text) {
        Some(doc) => Some(leaves(doc, root)),
        None => None,
    }
}

/// Calls `serde_json::from_str` for a `serde_json::Value`. Trusted: the
/// outcome depends on the text alone, and is what `json_of_text` names.
#[verifier::external_body]
fn parse_text(text: &str) -> (outcome: Result<serde_json::Value, serde_json::Error>)
    ensures
        match outcome {
            Ok(value) => json_of_text(text@) == Some(json_of_value(value)),
            Err(_) => json_of_text(text@) is None,
        },
{
    serde_json::from_str(text)
}

/// Takes a `serde_json::Value` apart by its variant. Trusted: the layer has
/// the variant and the fields of the value, a number as `serde_json` prints
/// it, the members of an object as its map hands them out.
#[verifier::external_body]
fn peel(value: serde_json::Value) -> (layer: Layer)
    ensures
        layer.json() == json_of_value(value),
{
    match value {
        serde_json::Value::Null => Layer::Null,
        serde_json::Value::Bool(b) => Layer::Bool(b),
        serde_json::Value::Number(n) => Layer::Number(n.to_string()),
        serde_json::Value::String(s) => Layer::String(s),
        serde_json::Value::Array(items) => Layer::Array(items),
        serde_json::Value::Object(map) => Layer::Object(map.into_iter().collect()),
    }
}

/// Brings a parsed value into the library's own form.
pub fn lift(value: serde_json::Value) -> (doc: JsonValue)
    ensures
        doc@ == json_of_value(value),
    decreases json_of_value(value),
{
    match peel(value) {
        Layer::Null => JsonValue::Null,
        Layer::Bool(b) => JsonValue::Bool(b),
        Layer::Number(text) => JsonValue::Number(text),
        Layer::String(text) => JsonValue::String(text),
        Layer::Array(items) => {
            let ghost all = items@;
            let mut lifted: Vec<JsonValue> = Vec::new();
            for item in it: items
                invariant
                    it.seq() == all,
                    json_of_value(value) == Json::Array(json_of_items(all)),
                    lifted@.len() == it.index(),
                    forall|j: int|
                        0 <= j < lifted@.len() ==> (#[trigger] lifted@[j])@ == json_of_value(
                            all[j],
                        ),
            {
                proof {
                    let j = it.index();
                    assert(json_of_value(value)->Array_0[j] == json_of_value(all[j]));
                    assert(decreases_to!(json_of_value(value)
                        => json_of_value(value)->Array_0[j]));
                }
                let doc = lift(item);
                lifted.push(doc);
            }
            let doc = JsonValue::Array(lifted);
            proof {
                lemma_array_view(doc);
                assert(doc@->Array_0 =~= json_of_items(all));
            }
            doc
        },
        Layer::Object(members) => {
            let ghost all = members@;
            let mut lifted: Vec<(String, JsonValue)> = Vec::new();
            for member in it: members
                invariant
                    it.seq() == all,
                    json_of_value(value) == Json::Object(json_of_members(all)),
                    lifted@.len() == it.index(),
                    forall|j: int|
                        0 <= j < lifted@.len() ==> (#[trigger] lifted@[j]).0@ == all[j].0@ && (
                        lifted@[j]).1@ == json_of_value(all[j].1),
            {
                proof {
                    let j = it.index();
                    assert(json_of_value(value)->Object_0[j].1 == json_of_value(all[j].1));
                    assert(decreases_to!(json_of_value(value)
                        => json_of_value(value)->Object_0[j].1));
                }
                let (key, inner) = member;
                let doc = lift(inner);
                lifted.push((key, doc));
            }
            let doc = JsonValue::Object(lifted);
            proof {
                lemma_object_view(doc);
                assert(doc@->Object_0 =~= json_of_members(all));
            }
            doc
        },
    }
}

/// What the outcome of parsing comes to: the entries of the parsed document,
/// standing at `root`, or the parser's error, kept as it is.
pub fn flatten_parsed(outcome: Result<serde_json::Value, serde_json::Error>, root: &str) -> (result:
    Result<Vec<(String, bool)>, ParseError>)
    ensures
        match outcome {
            Ok(value) => result matches Ok(entries) && entries_view(entries@) == leaves(
                json_of_value(value),
                root@,
            ),
            Err(error) => result matches Err(report) && report.source == error,
        },
{
    match outcome {
        Ok(value) => {
            let doc = lift(value);
            Ok(flatten(&doc, root))
        },
        Err(error) => Err(ParseError { source: error }),
    }
}

/// The entries of the document that `input` spells, standing at `root`, in
/// the order of the walk; or the parser's error where `input` is not a JSON
/// document.
pub fn get_leafs_from_json(input: &str, root: &str) -> (result: Result<
    Vec<(String, bool)>,
    ParseError,
>)
    ensures
        match text_leaves(input@, root@) {
            Some(expected) => result matches Ok(entries) && entries_view(entries@) == expected,
            None => result is Err,
        },
{
    flatten_parsed(parse_text(input), root)
}

} // verus!
