//! The JSON document type and the three accessors the extractor reads it
//! through.
//!
//! Nothing in this file is proved: the contracts record what `serde_json`
//! does, and the rest of the library is verified against them.

use serde_json::Value;
use vstd::prelude::*;

verus! {

/// `serde_json::Value`, a parsed JSON document. The verifier does not look
/// inside it; what it holds is read through the accessors below.
#[verifier::external_type_specification]
#[verifier::external_body]
pub struct ExValue(serde_json::Value);

/// The member that `doc` stores under `key`: present exactly when `doc` is
/// an object with that key.
pub uninterp spec fn json_member(doc: Value, key: Seq<char>) -> Option<Value>;

/// The elements of `doc` in order: present exactly when `doc` is an array.
pub uninterp spec fn json_elements(doc: Value) -> Option<Seq<Value>>;

/// The characters of `doc`: present exactly when `doc` is a string.
pub uninterp spec fn json_text(doc: Value) -> Option<Seq<char>>;

/// Calls `serde_json::Value::get` with a string key. The contract only
/// names the outcome: the call returns the member `json_member(doc, key)`,
/// and nothing where there is none.
#[verifier::external_body]
pub(crate) fn member<'a>(doc: &'a Value, key: &str) -> (found: Option<&'a Value>)
    ensures
        match found {
            Some(m) => json_member(*doc, key@) == Some(*m),
            None => json_member(*doc, key@).is_none(),
        },
{
    doc.get(key)
}

/// Calls `serde_json::Value::as_array`. The contract only names the
/// outcome: the call returns the array behind `doc`, whose elements are
/// `json_elements(doc)`, and nothing where `doc` is no array.
#[verifier::external_body]
pub(crate) fn elements<'a>(doc: &'a Value) -> (found: Option<&'a Vec<Value>>)
    ensures
        match found {
            Some(items) => json_elements(*doc) == Some(items@),
            None => json_elements(*doc).is_none(),
        },
{
    doc.as_array()
}

/// Calls `serde_json::Value::as_str`. The contract only names the outcome:
/// the call returns the string behind `doc`, whose characters are
/// `json_text(doc)`, and nothing where `doc` is no string.
#[verifier::external_body]
pub(crate) fn text<'a>(doc: &'a Value) -> (found: Option<&'a str>)
    ensures
        match found {
            Some(s) => json_text(*doc) == Some(s@),
            None => json_text(*doc).is_none(),
        },
{
    doc.as_str()
}

} // verus!
