//! The executable form of a document.

use crate::model::Json;
use vstd::prelude::*;

verus! {

/// A JSON document held in memory. A number keeps its decimal text; an object
/// keeps its members as a list of keys and values.
#[derive(Debug, PartialEq, Eq)]
pub enum JsonValue {
    Null,
    Bool(bool),
    Number(String),
    String(String),
    Array(Vec<JsonValue>),
    Object(Vec<(String, JsonValue)>),
}

impl View for JsonValue {
    type V = Json;

    /// The document that the value holds. The tests on `i` only let the
    /// recursion be seen to end: every index that is asked for lies within.
    open spec fn view(&self) -> Json
        decreases self,
    {
        match self {
            JsonValue::Null => Json::Null,
            JsonValue::Bool(b) => Json::Bool(*b),
            JsonValue::Number(text) => Json::Number(text@),
            JsonValue::String(text) => Json::String(text@),
            JsonValue::Array(items) => Json::Array(
                Seq::new(
                    items@.len(),
                    |i: int|
                        if 0 <= i < items@.len() {
                            items@[i].view()
                        } else {
                            Json::Null
                        },
                ),
            ),
            JsonValue::Object(members) => Json::Object(
                Seq::new(
                    members@.len(),
                    |i: int|
                        if 0 <= i < members@.len() {
                            (members@[i].0@, members@[i].1.view())
                        } else {
                            (Seq::empty(), Json::Null)
                        },
                ),
            ),
        }
    }
}

/// The view of an object, member by member.
pub proof fn lemma_object_view(value: JsonValue)
    requires
        value is Object,
    ensures
        value@ is Object,
        value@->Object_0.len() == value->Object_0@.len(),
        forall|i: int|
            0 <= i < value->Object_0@.len() ==> #[trigger] value@->Object_0[i] == (
                value->Object_0@[i].0@,
                value->Object_0@[i].1@,
            ),
{
    reveal_with_fuel(<JsonValue as View>::view, 2);
}

/// The view of an array, item by item.
pub proof fn lemma_array_view(value: JsonValue)
    requires
        value is Array,
    ensures
        value@ is Array,
        value@->Array_0.len() == value->Array_0@.len(),
        forall|i: int|
            0 <= i < value->Array_0@.len() ==> #[trigger] value@->Array_0[i]
                == value->Array_0@[i]@,
{
}

} // verus!
