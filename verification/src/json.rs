//! The untyped JSON value model that parameters and results travel
//! in.  A number is kept as its literal text, so any JSON number
//! round-trips through the model byte for byte; the typed reading of
//! a number is the business of the handler that receives it.

use vstd::prelude::*;

verus! {

/// An untyped JSON value.
#[derive(Debug)]
pub enum JsonValue {
    /// JSON `null`.
    Null,
    /// JSON `true` or `false`.
    Bool(bool),
    /// A JSON number, kept as its literal text (for example `-12`,
    /// `0.5`, `1e9`).
    Num(String),
    /// A JSON string (its decoded character content).
    Str(String),
    /// A JSON array.
    Array(Vec<JsonValue>),
    /// A JSON object: its members in order of appearance.
    Object(Vec<(String, JsonValue)>),
}

/// Whether `c` is a decimal digit.
pub open spec fn spec_is_digit(c: char) -> bool {
    '0' <= c && c <= '9'
}

} // verus!
