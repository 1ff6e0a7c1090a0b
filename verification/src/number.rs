//! Decimal numerals, as the conversions read them.

use vstd::prelude::*;

verus! {

#[verifier::external_type_specification]
#[verifier::external_body]
pub struct ExParseIntError(core::num::ParseIntError);

/// `c` is one of the ten decimal digits.
pub open spec fn is_digit(c: char) -> bool {
    '0' <= c <= '9'
}

/// The number that a run of decimal digits denotes; leading zeros count for
/// nothing.
pub open spec fn digits_value(s: Seq<char>) -> int
    decreases s.len(),
{
    if s.len() == 0 {
        0
    } else {
        10 * digits_value(s.drop_last()) + (s.last() as int - '0' as int)
    }
}

/// `s` is one or more decimal digits and nothing else.
pub open spec fn all_digits(s: Seq<char>) -> bool {
    s.len() > 0 && forall|i: int| 0 <= i < s.len() ==> is_digit(#[trigger] s[i])
}

/// The integer that a decimal numeral denotes: an optional sign, then one or
/// more digits. The sign may be `+`, or `-` where `signed`. Anything else,
/// white space included, makes the text no numeral.
pub open spec fn decimal(s: Seq<char>, signed: bool) -> Option<int> {
    if s.len() > 0 && s[0] == '+' {
        if all_digits(s.skip(1)) {
            Some(digits_value(s.skip(1)))
        } else {
            None
        }
    } else if signed && s.len() > 0 && s[0] == '-' {
        if all_digits(s.skip(1)) {
            Some(-digits_value(s.skip(1)))
        } else {
            None
        }
    } else if all_digits(s) {
        Some(digits_value(s))
    } else {
        None
    }
}

/// The `u8` that `s` denotes, if it is an unsigned numeral of a number up to 255.
pub open spec fn decimal_u8(s: Seq<char>) -> Option<u8> {
    match decimal(s, false) {
        Some(v) => if v <= u8::MAX {
            Some(v as u8)
        } else {
            None
        },
        None => None,
    }
}

/// The `i32` that `s` denotes, if it is a numeral of a number in the range of `i32`.
pub open spec fn decimal_i32(s: Seq<char>) -> Option<i32> {
    match decimal(s, true) {
        Some(v) => if i32::MIN <= v <= i32::MAX {
            Some(v as i32)
        } else {
            None
        },
        None => None,
    }
}

/// `str::parse` at `u8`. The standard library documents that it accepts an
/// optional `+` followed by decimal digits only, and fails on an empty
/// string, on any other character and on a number that does not fit.
#[verifier::external_body]
fn str_parse_u8(s: &str) -> (r: Result<u8, core::num::ParseIntError>)
    ensures
        match r {
            Ok(v) => decimal_u8(s@) == Some(v),
            Err(_) => decimal_u8(s@) is None,
        },
{
    s.parse::<u8>()
}

/// `str::parse` at `i32`. The standard library documents that it accepts an
/// optional `+` or `-` followed by decimal digits only, and fails on an empty
/// string, on any other character and on a number that does not fit.
#[verifier::external_body]
fn str_parse_i32(s: &str) -> (r: Result<i32, core::num::ParseIntError>)
    ensures
        match r {
            Ok(v) => decimal_i32(s@) == Some(v),
            Err(_) => decimal_i32(s@) is None,
        },
{
    s.parse::<i32>()
}

/// Reads `s` as a `u8`.
pub fn parse_u8(s: &str) -> (r: Option<u8>)
    ensures
        r == decimal_u8(s@),
{
    str_parse_u8(s).ok()
}

/// Reads `s` as an `i32`.
pub fn parse_i32(s: &str) -> (r: Option<i32>)
    ensures
        r == decimal_i32(s@),
{
    str_parse_i32(s).ok()
}

} // verus!
