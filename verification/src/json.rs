//! JSON values, held as their compact JSON text.

use vstd::prelude::*;

verus! {

/// The compact text that `serde_json` prints for the JSON document that it
/// reads from `text`, or `None` where `serde_json` does not read one: where
/// `text` is not a JSON document, nests arrays and objects more than 128
/// levels deep, or holds a number out of the range of `f64`.
pub uninterp spec fn json_reencoded(text: Seq<char>) -> Option<Seq<char>>;

/// Reads `text` with `serde_json::from_str` into a `serde_json::Value` and
/// prints that value back with `serde_json::to_string`. Trusted: the result
/// is the value of `json_reencoded` on the text, and nothing more is claimed
/// of it here.
#[verifier::external_body]
fn reencode_json(text: &str) -> (r: Option<String>)
    ensures
        r.deep_view() == json_reencoded(text@),
{
    match serde_json::from_str::<serde_json::Value>(text) {
        Ok(value) => serde_json::to_string(&value).ok(),
        Err(_) => None,
    }
}

/// The text of an empty JSON object.
pub open spec fn empty_object_text() -> Seq<char> {
    seq!['{', '}']
}

/// A JSON value, held as its compact JSON text.
#[derive(Debug)]
pub struct JsonValue {
    text: String,
}

impl DeepView for JsonValue {
    type V = Seq<char>;

    closed spec fn deep_view(&self) -> Seq<char> {
        self.text@
    }
}

impl Clone for JsonValue {
    fn clone(&self) -> (r: Self)
        ensures
            r.deep_view() == self.deep_view(),
    {
        JsonValue { text: self.text.clone() }
    }
}

impl JsonValue {
    /// Reads a JSON document; `None` where `text` is not one.
    pub fn parse(text: &str) -> (r: Option<JsonValue>)
        ensures
            r.deep_view() == json_reencoded(text@),
    {
        match reencode_json(text) {
            Some(t) => Some(JsonValue { text: t }),
            None => None,
        }
    }

    /// The empty JSON object `{}`.
    pub fn empty_object() -> (r: JsonValue)
        ensures
            r.deep_view() == empty_object_text(),
    {
        let mut text = String::new();
        crate::text::push_char(&mut text, '{');
        crate::text::push_char(&mut text, '}');
        assert(text@ =~= empty_object_text());
        JsonValue { text }
    }

    /// The JSON text of this value.
    pub fn as_str(&self) -> (r: &str)
        ensures
            r@ == self.deep_view(),
    {
        self.text.as_str()
    }

    /// The JSON text of this value, as a new string.
    pub fn to_json_string(&self) -> (r: String)
        ensures
            r@ == self.deep_view(),
    {
        self.text.clone()
    }
}

} // verus!
