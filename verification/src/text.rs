//! Turning bytes into text.

use std::borrow::Cow;
use std::str::Utf8Error;
use std::string::FromUtf8Error;
use vstd::prelude::*;
use vstd::utf8::{decode_utf8, valid_utf8};

verus! {

/// The error of `std::str::from_utf8`.
#[verifier::external_type_specification]
#[verifier::external_body]
pub struct ExUtf8Error(Utf8Error);

/// The error of `String::from_utf8`.
#[verifier::external_type_specification]
#[verifier::external_body]
pub struct ExFromUtf8Error(FromUtf8Error);

/// The text that `String::from_utf8_lossy` makes of the bytes: what they
/// encode, with U+FFFD in place of each stretch that is not UTF-8.
pub uninterp spec fn utf8_lossy(bytes: Seq<u8>) -> Seq<char>;

/// `std::str::from_utf8` succeeds exactly on valid UTF-8, and then returns
/// the text that the bytes encode.
pub assume_specification<'a>[ std::str::from_utf8 ](v: &'a [u8]) -> (r: Result<
    &'a str,
    Utf8Error,
>)
    ensures
        r is Ok <==> valid_utf8(v@),
        r matches Ok(text) ==> text@ == decode_utf8(v@),
;

/// `String::from_utf8` succeeds exactly on valid UTF-8, and then returns the
/// text that the bytes encode.
pub assume_specification[ String::from_utf8 ](v: Vec<u8>) -> (r: Result<String, FromUtf8Error>)
    ensures
        r is Ok <==> valid_utf8(v@),
        r matches Ok(text) ==> text@ == decode_utf8(v@),
;

/// `FromUtf8Error::utf8_error` hands out the reason why the bytes were no
/// UTF-8; nothing is claimed of it.
pub assume_specification[ FromUtf8Error::utf8_error ](e: &FromUtf8Error) -> (r: Utf8Error)
;

/// `String::from_utf8_lossy` never fails. On valid UTF-8 it returns the text
/// that the bytes encode.
pub assume_specification<'a>[ String::from_utf8_lossy ](v: &'a [u8]) -> (r: Cow<'a, str>)
    ensures
        r@ == utf8_lossy(v@),
        valid_utf8(v@) ==> r@ == decode_utf8(v@),
;

/// Calls `Cow::into_owned` on text, which returns the same text, copied if
/// it was borrowed.
#[verifier::external_body]
pub(crate) fn into_owned_text(c: Cow<'_, str>) -> (r: String)
    ensures
        r@ == c@,
{
    c.into_owned()
}

} // verus!
