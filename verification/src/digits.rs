//! Decimal numbers written in ASCII.

use vstd::prelude::*;
use crate::bytes::{NINE, ZERO};

verus! {

/// Whether `b` is one of the ASCII digits `0` to `9`.
pub open spec fn is_digit(b: u8) -> bool {
    ZERO <= b <= NINE
}

/// Whether every byte of `s` is an ASCII digit.
pub open spec fn all_digits(s: Seq<u8>) -> bool {
    forall|i: int| 0 <= i < s.len() ==> is_digit(#[trigger] s[i])
}

/// The number that the digits of `s` denote in base ten.
pub open spec fn decimal_value(s: Seq<u8>) -> nat
    decreases s.len(),
{
    if s.len() == 0 {
        0
    } else {
        decimal_value(s.drop_last()) * 10 + (s.last() - ZERO) as nat
    }
}

/// The number below 256 that `s` spells out, if it spells one: `s` is a
/// non-empty run of digits, leading zeros allowed, and nothing else.
pub open spec fn decimal_u8(s: Seq<u8>) -> Option<u8> {
    if s.len() > 0 && all_digits(s) && decimal_value(s) <= 255 {
        Some(decimal_value(s) as u8)
    } else {
        None
    }
}

/// The error of `btoi::btou`.
#[verifier::external_type_specification]
#[verifier::external_body]
pub struct ExParseIntegerError(btoi::ParseIntegerError);

/// Calls `btoi::btou` for the type `u8`. It succeeds exactly on a non-empty
/// run of ASCII digits whose value fits a `u8`, and then returns that value;
/// an empty slice, any other byte and a value over 255 are errors.
#[verifier::external_body]
pub(crate) fn btou_u8(bytes: &[u8]) -> (r: Result<u8, btoi::ParseIntegerError>)
    ensures
        match r {
            Ok(v) => decimal_u8(bytes@) == Some(v),
            Err(_) => decimal_u8(bytes@).is_none(),
        },
{
    btoi::btou::<u8>(bytes)
}

} // verus!
