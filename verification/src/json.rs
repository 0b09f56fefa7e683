//! The one question the conversion asks of JSON text: does it parse.

use vstd::prelude::*;

verus! {

/// Whether `serde_json` parses `s` as a JSON value.
pub uninterp spec fn spec_is_json(s: Seq<char>) -> bool;

/// `serde_json::from_str::<serde_json::Value>`: whether `s` parses as JSON. Claims only that
/// the answer depends on the text of `s` alone.
#[verifier::external_body]
pub(crate) fn is_json(s: &str) -> (b: bool)
    ensures
        b == spec_is_json(s@),
{
    serde_json::from_str::<serde_json::Value>(s).is_ok()
}

} // verus!
