//! Numeric interpretation of a [`String64`]'s stored text.

use vstd::prelude::*;

verus! {

use vstd::pervasive::unreached;
use crate::string64::String64;

/// Error returned when stored text does not parse as a number.
#[derive(Clone, Copy, Debug, PartialEq, Eq, Structural)]
pub struct ParseNumError;

/// A decimal digit.
pub open spec fn is_digit(c: char) -> bool {
    48 <= c as u32 <= 57
}

/// The value of a decimal digit.
pub open spec fn digit_val(c: char) -> int {
    c as u32 - 48
}

/// The value of a nonempty string of decimal digits.
pub open spec fn digits_value(s: Seq<char>) -> int
    decreases s.len(),
{
    if s.len() == 0 {
        0
    } else {
        digits_value(s.drop_last()) * 10 + digit_val(s.last())
    }
}

/// One or more decimal digits.
pub open spec fn all_digits(s: Seq<char>) -> bool {
    s.len() > 0 && forall|i: int| 0 <= i < s.len() ==> is_digit(#[trigger] s[i])
}

/// What `i32` decimal parsing accepts and yields: an optional sign, then
/// one or more digits, with the signed value in range.
pub open spec fn spec_parse_i32(s: Seq<char>) -> Option<i32> {
    let signed = s.len() > 0 && (s[0] == '-' || s[0] == '+');
    let neg = s.len() > 0 && s[0] == '-';
    let digits = if signed {
        s.skip(1)
    } else {
        s
    };
    if !all_digits(digits) {
        None
    } else {
        let v = if neg {
            -digits_value(digits)
        } else {
            digits_value(digits)
        };
        if i32::MIN <= v <= i32::MAX {
            Some(v as i32)
        } else {
            None
        }
    }
}

/// Relies on str::parse::<i32> from std: it accepts an optional sign
/// followed by one or more decimal digits, when the value fits in an i32.
#[verifier::external_body]
fn parse_i32_str(s: &str) -> (r: Result<i32, ParseNumError>)
    ensures
        r is Ok <==> spec_parse_i32(s@) is Some,
        r matches Ok(v) ==> Some(v) == spec_parse_i32(s@),
{
    match s.parse::<i32>() {
        Ok(v) => Ok(v),
        Err(_) => Err(ParseNumError),
    }
}

impl String64 {
    /// The stored text read as an `i32`; only for cells already known to
    /// hold a decimal number in range.
    pub fn to_i32(&self) -> (r: i32)
        requires
            spec_parse_i32(self@) is Some,
        ensures
            Some(r) == spec_parse_i32(self@),
    {
        match parse_i32_str(self.as_str()) {
            Ok(v) => v,
            Err(_) => unreached(),
        }
    }

    /// The stored text read as an `i32`, or an error when it is not a
    /// decimal number in range.
    pub fn to_i32_checked(&self) -> (r: Result<i32, ParseNumError>)
        ensures
            r is Ok <==> spec_parse_i32(self@) is Some,
            r matches Ok(v) ==> Some(v) == spec_parse_i32(self@),
    {
        parse_i32_str(self.as_str())
    }
}

} // verus!
