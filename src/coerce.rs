//! Coercion of upstream scalar values, sent either as strings or as numbers,
//! into integers.
use vstd::prelude::*;

use crate::number::{i64_value, parse_signed};
use crate::text::{chars_of, text_eq};

verus! {

/// An upstream scalar as decoded from its document.
pub enum RawValue {
    /// A string.
    Text(String),
    /// A number that is an integer within `i64`.
    Integer(i64),
    /// Any other number.
    OtherNumber,
    /// Null, a boolean, a container, or no value at all.
    Missing,
}

/// Why a value could not be coerced.
#[derive(Clone, Copy, Debug, PartialEq, Eq, Structural)]
pub enum CoerceError {
    /// A string that spells no integer of the target type.
    InvalidText,
    /// A number that is not an integer of the target type.
    NotAnInteger,
}

/// Whether a string stands for zero: empty, or the word `null`.
pub open spec fn blank_text(s: Seq<char>) -> bool {
    s.len() == 0 || s == "null"@
}

/// The `i64` that a raw value coerces to: blank strings and missing values give
/// zero, other strings must spell an `i64`, numbers must be `i64` integers.
pub open spec fn coerce_i64_spec(v: RawValue) -> Result<i64, CoerceError> {
    match v {
        RawValue::Text(s) => if blank_text(s@) {
            Ok(0)
        } else {
            match i64_value(s@) {
                Some(t) => Ok(t),
                None => Err(CoerceError::InvalidText),
            }
        },
        RawValue::Integer(i) => Ok(i),
        RawValue::OtherNumber => Err(CoerceError::NotAnInteger),
        RawValue::Missing => Ok(0),
    }
}

/// The `i32` that a raw value coerces to, by the same rule within `i32`.
pub open spec fn coerce_i32_spec(v: RawValue) -> Result<i32, CoerceError> {
    match coerce_i64_spec(v) {
        Ok(t) => if i32::MIN <= t <= i32::MAX {
            Ok(t as i32)
        } else {
            match v {
                RawValue::Text(_) => Err(CoerceError::InvalidText),
                _ => Err(CoerceError::NotAnInteger),
            }
        },
        Err(e) => Err(e),
    }
}

/// The end-of-range marker a raw value declares: none when it is missing or
/// does not coerce to an `i64`.
pub open spec fn end_marker_spec(v: RawValue) -> Option<i64> {
    match v {
        RawValue::Missing => None,
        _ => match coerce_i64_spec(v) {
            Ok(t) => Some(t),
            Err(_) => None,
        },
    }
}

/// Coerces a raw value to an `i64`.
pub fn coerce_i64(v: &RawValue) -> (r: Result<i64, CoerceError>)
    ensures
        r == coerce_i64_spec(*v),
{
    match v {
        RawValue::Text(s) => {
            if s.as_str().unicode_len() == 0 || text_eq(s.as_str(), "null") {
                Ok(0)
            } else {
                let cs = chars_of(s.as_str());
                proof {
                    assert(cs@.subrange(0, cs@.len() as int) =~= cs@);
                }
                match parse_signed(&cs, 0, cs.len()) {
                    Some(t) => Ok(t),
                    None => Err(CoerceError::InvalidText),
                }
            }
        },
        RawValue::Integer(i) => Ok(*i),
        RawValue::OtherNumber => Err(CoerceError::NotAnInteger),
        RawValue::Missing => Ok(0),
    }
}

/// Coerces a raw value to an `i32`.
pub fn coerce_i32(v: &RawValue) -> (r: Result<i32, CoerceError>)
    ensures
        r == coerce_i32_spec(*v),
{
    match coerce_i64(v) {
        Ok(t) => if i32::MIN as i64 <= t && t <= i32::MAX as i64 {
            Ok(t as i32)
        } else {
            match v {
                RawValue::Text(_) => Err(CoerceError::InvalidText),
                _ => Err(CoerceError::NotAnInteger),
            }
        },
        Err(e) => Err(e),
    }
}

/// Reads the end-of-range marker from a raw value.
pub fn end_marker(v: &RawValue) -> (r: Option<i64>)
    ensures
        r == end_marker_spec(*v),
{
    match v {
        RawValue::Missing => None,
        _ => match coerce_i64(v) {
            Ok(t) => Some(t),
            Err(_) => None,
        },
    }
}

} // verus!
