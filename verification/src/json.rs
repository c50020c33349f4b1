//! JSON: values as they are read from bytes and written to them.

use serde_json::Value;
use vstd::prelude::*;

use crate::text::texts;

verus! {

/// `serde_json::Value`: a JSON value, handed on as it is.
#[verifier::external_type_specification]
#[verifier::external_body]
pub struct ExValue(serde_json::Value);

/// What a JSON value holds. Numbers that are kept as floating point are not told apart.
#[verifier::ext_equal]
pub enum JsonView {
    Null,
    Bool(bool),
    Int(int),
    Float,
    Text(Seq<char>),
    List(Seq<JsonView>),
    Object(Map<Seq<char>, JsonView>),
}

/// What the value holds.
pub uninterp spec fn contents(value: Value) -> JsonView;

/// What bytes are read as by `serde_json::from_slice`: a value, or the text of the error.
pub uninterp spec fn json_value(bytes: Seq<u8>) -> Result<Value, Seq<char>>;

/// The list of texts that bytes are read as by `serde_json::from_slice`; nothing where they
/// are none.
pub uninterp spec fn json_list(bytes: Seq<u8>) -> Option<Seq<Seq<char>>>;

/// The bytes that `serde_json::to_vec_pretty` writes for a value.
pub uninterp spec fn json_bytes(value: Value) -> Seq<u8>;

/// The value that `serde_json::Value::from` makes of a list of texts.
pub uninterp spec fn list_value(list: Seq<Seq<char>>) -> Value;

/// The text that `serde_json::to_string` writes for a value; nothing where it fails.
pub uninterp spec fn json_text(value: Value) -> Option<Seq<char>>;

/// What a list of texts holds.
pub open spec fn text_list(list: Seq<Seq<char>>) -> JsonView {
    JsonView::List(list.map_values(|text: Seq<char>| JsonView::Text(text)))
}

/// How deep lists and objects may be nested in what is read.
pub const MAX_NESTING: usize = 127;

/// Whether the key is one of those that `serde_json` keeps for itself.
pub open spec fn is_reserved(key: Seq<char>) -> bool {
    "$serde_json::private::"@.is_prefix_of(key)
}

/// Whether what is held reads back as it was written: it holds no number that is kept as
/// floating point, which may change in its last digit, no key that is reserved, and is nested
/// in no more than so many levels.
pub open spec fn is_plain(held: JsonView, levels: nat) -> bool
    decreases levels,
{
    match held {
        JsonView::Float => false,
        JsonView::List(items) => levels > 0 && forall|i: int|
            0 <= i < items.len() ==> is_plain(#[trigger] items[i], (levels - 1) as nat),
        JsonView::Object(fields) => levels > 0 && forall|key: Seq<char>| #[trigger]
            fields.contains_key(key) ==> !is_reserved(key) && is_plain(
                fields[key],
                (levels - 1) as nat,
            ),
        _ => true,
    }
}

/// `serde_json::Value::Object` with no fields.
#[verifier::external_body]
pub(crate) fn empty_object() -> (r: Value)
    ensures
        contents(r) == JsonView::Object(Map::empty()),
{
    Value::Object(serde_json::Map::new())
}

/// `serde_json::from_slice` into a `serde_json::Value`: the value that the bytes are read as,
/// or the text of the error. Which bytes are read as which value is left to the name
/// `json_value`.
#[verifier::external_body]
pub(crate) fn parse_value(bytes: &[u8]) -> (r: Result<Value, String>)
    ensures
        match r {
            Ok(value) => json_value(bytes@) == Ok::<Value, Seq<char>>(value),
            Err(why) => json_value(bytes@) == Err::<Value, Seq<char>>(why@),
        },
{
    serde_json::from_slice::<Value>(bytes).map_err(|e| e.to_string())
}

/// `serde_json::from_slice` into a list of texts, or nothing where it gives an error. Which
/// bytes are read as which list is left to the name `json_list`.
#[verifier::external_body]
pub(crate) fn parse_list(bytes: &[u8]) -> (r: Option<Vec<String>>)
    ensures
        match r {
            Some(list) => json_list(bytes@) == Some(texts(list@)),
            None => json_list(bytes@) is None,
        },
{
    serde_json::from_slice::<Vec<String>>(bytes).ok()
}

/// `serde_json::to_vec_pretty` of a `serde_json::Value`: the bytes that are written for it. It
/// does not fail on such values. What is written for a value reads back as that value, if it
/// holds no floating point and no reserved key, and is not nested too deep to be read; what is
/// written for a list of texts reads back as that list. Which bytes they are is left to the
/// name `json_bytes`, and what those of other values read back as is not stated: a number in
/// floating point may come back changed, and deeper nesting is refused.
#[verifier::external_body]
pub(crate) fn write_value(value: &Value) -> (r: Result<Vec<u8>, String>)
    ensures
        match r {
            Ok(bytes) => {
                &&& bytes@ == json_bytes(*value)
                &&& is_plain(contents(*value), MAX_NESTING as nat) ==> json_value(bytes@) == Ok::<
                    Value,
                    Seq<char>,
                >(*value)
                &&& forall|list: Seq<Seq<char>>|
                    contents(*value) == #[trigger] text_list(list) ==> json_list(bytes@) == Some(
                        list,
                    )
            },
            Err(_) => false,
        },
{
    serde_json::to_vec_pretty(value).map_err(|e| e.to_string())
}

/// `serde_json::Value::from` of a list of texts: the value that holds that list.
#[verifier::external_body]
pub(crate) fn value_of_list(list: Vec<String>) -> (r: Value)
    ensures
        r == list_value(texts(list@)),
        contents(r) == text_list(texts(list@)),
{
    Value::from(list)
}

/// `serde_json::to_string` of a `serde_json::Value`: the text that is written for it, or
/// nothing where it gives an error. Which text it is is left to the name `json_text`.
#[verifier::external_body]
pub(crate) fn write_text(value: &Value) -> (r: Option<String>)
    ensures
        match r {
            Some(text) => json_text(*value) == Some(text@),
            None => json_text(*value) is None,
        },
{
    serde_json::to_string(value).ok()
}

/// `serde_json::Value::clone`: a copy, which is the same value.
#[verifier::external_body]
pub(crate) fn copy_value(value: &Value) -> (r: Value)
    ensures
        r == *value,
{
    value.clone()
}

} // verus!
