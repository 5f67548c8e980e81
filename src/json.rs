//! The JSON values that the store holds. The library never looks inside a
//! value: it stores, copies and echoes it.

use vstd::prelude::*;

verus! {

/// Declares `serde_json::Value`, carried through the library unopened.
#[verifier::external_type_specification]
#[verifier::external_body]
pub struct ExValue(serde_json::Value);

/// Holds of exactly the values that `serde_json::Value::is_null` accepts.
pub uninterp spec fn is_json_null(v: serde_json::Value) -> bool;

/// Relies on `serde_json::Value::Null`, the value that `is_null` accepts.
#[verifier::external_body]
pub(crate) fn null_value() -> (r: serde_json::Value)
    ensures
        is_json_null(r),
{
    serde_json::Value::Null
}

/// Relies on the derived `Clone` of `serde_json::Value`: the copy equals the
/// original.
#[verifier::external_body]
pub(crate) fn copy_value(v: &serde_json::Value) -> (r: serde_json::Value)
    ensures
        r == *v,
{
    v.clone()
}

} // verus!
