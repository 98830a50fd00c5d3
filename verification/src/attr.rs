//! Attribute values and their shorthand constructors, for extension code
//! that builds its own expressions.

use crate::dict::StrMap;
use vstd::prelude::*;

verus! {

/// A DynamoDB attribute value, one variant per wire type.
#[derive(Debug)]
pub enum AttributeValue {
    /// Binary (`B`).
    B(Vec<u8>),
    /// Boolean (`BOOL`).
    Bool(bool),
    /// Binary set (`BS`).
    Bs(Vec<Vec<u8>>),
    /// List (`L`).
    L(Vec<AttributeValue>),
    /// Map (`M`).
    M(StrMap<AttributeValue>),
    /// Number, in its decimal text (`N`).
    N(String),
    /// Number set (`NS`).
    Ns(Vec<String>),
    /// Null (`NULL`).
    Null(bool),
    /// String (`S`).
    S(String),
    /// String set (`SS`).
    Ss(Vec<String>),
}

/// A boolean attribute value (`BOOL`).
pub fn boolean(value: bool) -> (r: AttributeValue)
    ensures
        r == AttributeValue::Bool(value),
{
    AttributeValue::Bool(value)
}

/// A list attribute value (`L`).
pub fn list(values: Vec<AttributeValue>) -> (r: AttributeValue)
    ensures
        r == AttributeValue::L(values),
{
    AttributeValue::L(values)
}

/// A number attribute value (`N`), holding the displayed text of `value`.
pub fn n<T: std::fmt::Display>(value: T) -> (r: AttributeValue)
    ensures
        r matches AttributeValue::N(text) && vstd::string::to_string_from_display_ensures::<T>(
            &value,
            text,
        ),
{
    AttributeValue::N(value.to_string())
}

/// A string attribute value (`S`).
pub fn s(value: &str) -> (r: AttributeValue)
    ensures
        r matches AttributeValue::S(text) && text@ == value@,
{
    AttributeValue::S(value.to_owned())
}

} // verus!
