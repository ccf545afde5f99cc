//! Backslash escapes: a quote is written as a backslash and a quote, a
//! backslash as two backslashes.

use std::borrow::Cow;
use std::str::Utf8Error;
use vstd::prelude::*;
use vstd::slice::slice_subrange;
use vstd::utf8::{decode_utf8, valid_utf8};
use crate::bytes::{BACKSLASH, QUOTE};
use crate::search::{find_byte, lemma_next_of_bounds, lemma_next_of_skips};
use crate::text::{into_owned_text, utf8_lossy};

verus! {

/// Whether an escape starts at `i`: a backslash followed by a backslash or
/// by a quote.
pub open spec fn is_escape_at(s: Seq<u8>, i: int) -> bool {
    0 <= i && i + 1 < s.len() && s[i] == BACKSLASH && (s[i + 1] == BACKSLASH || s[i + 1] == QUOTE)
}

/// Whether `s` holds an escape.
pub open spec fn has_escape(s: Seq<u8>) -> bool {
    exists|i: int| is_escape_at(s, i)
}

/// The bytes of `s` from `i` on, each escape replaced by the byte it stands
/// for; escapes are taken from left to right.
pub open spec fn unescape_from(s: Seq<u8>, i: int) -> Seq<u8>
    decreases s.len() - i,
{
    if i < 0 || i >= s.len() {
        Seq::empty()
    } else if is_escape_at(s, i) {
        seq![s[i + 1]] + unescape_from(s, i + 2)
    } else {
        seq![s[i]] + unescape_from(s, i + 1)
    }
}

/// `s` with each escape replaced by the byte it stands for.
pub open spec fn unescape(s: Seq<u8>) -> Seq<u8> {
    unescape_from(s, 0)
}

/// A stretch without a backslash is taken over as it stands.
pub proof fn lemma_unescape_plain_run(s: Seq<u8>, i: int, j: int)
    requires
        0 <= i <= j <= s.len(),
        forall|k: int| i <= k < j ==> s[k] != BACKSLASH,
    ensures
        unescape_from(s, i) == s.subrange(i, j) + unescape_from(s, j),
    decreases j - i,
{
    if i < j {
        lemma_unescape_plain_run(s, i + 1, j);
    }
}

/// Without an escape, nothing changes.
pub proof fn lemma_unescape_without_escape(s: Seq<u8>, i: int)
    requires
        0 <= i <= s.len(),
        !has_escape(s),
    ensures
        unescape_from(s, i) == s.subrange(i, s.len() as int),
    decreases s.len() - i,
{
    if i < s.len() {
        lemma_unescape_without_escape(s, i + 1);
    }
}

/// Resolves the escapes of `raw`, copying only if there is one.
pub fn decode_escapes<'a>(raw: &'a [u8]) -> (r: Cow<'a, [u8]>)
    ensures
        r@ == unescape(raw@),
        r matches Cow::Borrowed(b) ==> b@ == raw@,
        r is Borrowed <==> !has_escape(raw@),
{
    let n = raw.len();
    let mut head: usize = 0;
    let mut from: usize = 0;
    let mut found = false;
    let mut decoded: Vec<u8> = Vec::new();
    while from < n
        invariant
            n == raw@.len(),
            head <= from <= n,
            unescape(raw@) == decoded@ + raw@.subrange(head as int, from as int) + unescape_from(
                raw@,
                from as int,
            ),
            !found ==> forall|i: int| 0 <= i < from ==> !is_escape_at(raw@, i),
            found ==> has_escape(raw@),
        decreases n - from,
    {
        let e = find_byte(raw, from, BACKSLASH);
        proof {
            lemma_next_of_bounds(raw@, from as int, BACKSLASH, BACKSLASH, BACKSLASH);
            lemma_next_of_skips(raw@, from as int, BACKSLASH, BACKSLASH, BACKSLASH);
            lemma_unescape_plain_run(raw@, from as int, e as int);
        }
        if e < n && n - e > 1 && (raw[e + 1] == BACKSLASH || raw[e + 1] == QUOTE) {
            decoded.extend_from_slice(slice_subrange(raw, head, e));
            found = true;
            head = e + 1;
            from = e + 2;
        } else if e < n {
            from = e + 1;
        } else {
            from = n;
        }
    }
    if found {
        decoded.extend_from_slice(slice_subrange(raw, head, n));
        Cow::Owned(decoded)
    } else {
        proof {
            lemma_unescape_without_escape(raw@, 0);
        }
        Cow::Borrowed(raw)
    }
}

/// Resolves the escapes of `raw` and reads the result as UTF-8.
pub fn decode_escapes_utf8<'a>(raw: &'a [u8]) -> (r: Result<Cow<'a, str>, Utf8Error>)
    ensures
        r is Ok <==> valid_utf8(unescape(raw@)),
        r matches Ok(text) ==> text@ == decode_utf8(unescape(raw@)),
{
    match decode_escapes(raw) {
        Cow::Borrowed(borrowed) => match std::str::from_utf8(borrowed) {
            Ok(text) => Ok(Cow::Borrowed(text)),
            Err(e) => Err(e),
        },
        Cow::Owned(owned) => match String::from_utf8(owned) {
            Ok(text) => Ok(Cow::Owned(text)),
            Err(e) => Err(e.utf8_error()),
        },
    }
}

/// Resolves the escapes of `raw` and reads the result as UTF-8, with U+FFFD
/// in place of whatever is not.
pub fn decode_escapes_utf8_lossy<'a>(raw: &'a [u8]) -> (r: Cow<'a, str>)
    ensures
        r@ == utf8_lossy(unescape(raw@)),
        valid_utf8(unescape(raw@)) ==> r@ == decode_utf8(unescape(raw@)),
{
    match decode_escapes(raw) {
        Cow::Borrowed(borrowed) => String::from_utf8_lossy(borrowed),
        Cow::Owned(owned) => Cow::Owned(
            into_owned_text(String::from_utf8_lossy(owned.as_slice())),
        ),
    }
}

} // verus!
