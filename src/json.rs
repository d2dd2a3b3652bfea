//! The JSON values that requests carry and that responses hold.
use vstd::prelude::*;

verus! {

/// A JSON value.
///
/// A number that an `i64` holds is `Int`; any other number (a fraction, or
/// an integer out of range) is `Number`, kept as the decimal text that JSON
/// wrote for it. An object keeps its members in order.
#[derive(Debug, PartialEq)]
pub enum JsonValue {
    Null,
    Bool(bool),
    Int(i64),
    Number(String),
    String(String),
    Array(Vec<JsonValue>),
    Object(Vec<(String, JsonValue)>),
}

} // verus!
