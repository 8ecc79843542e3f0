//! The JSON values that results carry through unchanged.
//!
//! Answers arrive as JSON and leave as JSON; the library never looks inside
//! them, so a value is opaque here.

use vstd::prelude::*;

verus! {

/// `serde_json::Value`, carried through opaque.
#[verifier::external_type_specification]
#[verifier::external_body]
pub struct ExJsonValue(serde_json::Value);

/// `serde_json::Value::Null`, the value of an item nothing answered. Nothing
/// about the value is stated: Verus sees no variant of an opaque type.
#[verifier::external_body]
pub(crate) fn json_null() -> serde_json::Value {
    serde_json::Value::Null
}

} // verus!
