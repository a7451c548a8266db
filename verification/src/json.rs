//! JSON text, as far as the log looks at it: whether a text is JSON, and how
//! a string is written in JSON.

use vstd::prelude::*;

verus! {

/// Whether a text is well-formed JSON.
pub uninterp spec fn json_well_formed(text: Seq<char>) -> bool;

/// The JSON text of a string: the string in quotes, with what JSON asks to
/// be escaped in escaped form.
pub uninterp spec fn json_string(text: Seq<char>) -> Seq<char>;

/// `serde_json::from_str`, reading any JSON value: whether the text is
/// well-formed JSON.
#[verifier::external_body]
pub(crate) fn is_json(text: &str) -> (valid: bool)
    ensures
        valid == json_well_formed(text@),
{
    serde_json::from_str::<serde_json::Value>(text).is_ok()
}

/// `serde_json::to_string` of a string: its JSON text.
#[verifier::external_body]
pub(crate) fn json_string_of(text: &str) -> (json: String)
    ensures
        json@ == json_string(text@),
{
    serde_json::to_string(text).unwrap_or_default()
}

} // verus!
