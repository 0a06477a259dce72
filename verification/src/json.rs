//! JSON documents, as `serde_json` reads, compares and writes them.
//!
//! A document is carried as a `serde_json::Value` whose inside the verifier
//! does not see. What the crate does with a document is given a name here,
//! and the contracts of this library speak of these names.

use serde_json::Value;
use vstd::prelude::*;

verus! {

/// Makes `serde_json::Value` known to the verifier as a type whose inside
/// it does not see.
#[verifier::external_type_specification]
#[verifier::external_body]
pub struct ExJsonValue(Value);

/// The document that `serde_json::from_str` reads from `text`, or `None`
/// where it reports an error.
pub uninterp spec fn json_parsed(text: Seq<char>) -> Option<Value>;

/// Whether `serde_json` holds two documents to be equal (`==` on `Value`).
pub uninterp spec fn json_same(a: Value, b: Value) -> bool;

/// The compact text that `serde_json` writes for a document (`to_string`).
pub uninterp spec fn json_rendered(v: Value) -> Seq<char>;

/// Calls `serde_json::from_str::<Value>`. Assumed: the outcome is a function
/// of the text alone, named `json_parsed`; an error becomes `None`.
#[verifier::external_body]
pub(crate) fn parse_json(text: &str) -> (v: Option<Value>)
    ensures
        v == json_parsed(text@),
{
    serde_json::from_str::<Value>(text).ok()
}

/// Calls `==` on two `Value`s. Assumed: the answer is a function of the two
/// documents alone, named `json_same`.
#[verifier::external_body]
pub(crate) fn json_equal(a: &Value, b: &Value) -> (same: bool)
    ensures
        same == json_same(*a, *b),
{
    a == b
}

/// Calls `to_string` on a `Value`. Assumed: the text is a function of the
/// document alone, named `json_rendered`.
#[verifier::external_body]
pub(crate) fn render_json(v: &Value) -> (text: String)
    ensures
        text@ == json_rendered(*v),
{
    v.to_string()
}

/// Calls `clone` on a `Value`. Assumed: the copy is the same document.
#[verifier::external_body]
pub(crate) fn clone_json(v: &Value) -> (c: Value)
    ensures
        c == *v,
{
    v.clone()
}

} // verus!
