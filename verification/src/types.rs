//! The values that a reader hands to a visitor, and the directive it takes back.

use std::borrow::Cow;
use std::str::{FromStr, Utf8Error};
use vstd::prelude::*;
use vstd::slice::slice_subrange;
use vstd::string::StringSliceAdditionalSpecFns;
use vstd::utf8::{decode_utf8, valid_utf8};
use crate::bytes::{BANG, DOLLAR, LOWER_C, LOWER_K, LOWER_L, OPEN_BRACKET, PERCENT, QUESTION, SPACE};
use crate::digits::{btou_u8, decimal_u8};
use crate::escape::{
    decode_escapes, decode_escapes_utf8, decode_escapes_utf8_lossy, has_escape, unescape,
};
use crate::text::utf8_lossy;

verus! {

/// Tells the reader whether to pass over the rest of a game or a variation.
#[derive(Clone, Copy, Eq, PartialEq, Debug)]
#[must_use]
pub struct Skip(pub bool);

/// A numeric annotation glyph like `?`, `!!` or `$42`.
#[derive(Clone, Copy, Eq, PartialEq, Ord, PartialOrd, Hash, Debug)]
pub struct Nag(pub u8);

/// The error of parsing something that is no numeric annotation glyph.
#[derive(Clone, Copy, Eq, PartialEq, Debug)]
pub struct InvalidNag;

/// The glyph that `s` spells: one of the six symbols, or `$` and a number
/// below 256.
pub open spec fn nag_of(s: Seq<u8>) -> Option<u8> {
    if s =~= seq![QUESTION, BANG] {
        Some(Nag::DUBIOUS_MOVE)
    } else if s =~= seq![QUESTION] {
        Some(Nag::MISTAKE)
    } else if s =~= seq![QUESTION, QUESTION] {
        Some(Nag::BLUNDER)
    } else if s =~= seq![BANG] {
        Some(Nag::GOOD_MOVE)
    } else if s =~= seq![BANG, BANG] {
        Some(Nag::BRILLIANT_MOVE)
    } else if s =~= seq![BANG, QUESTION] {
        Some(Nag::SPECULATIVE_MOVE)
    } else if s.len() > 1 && s[0] == DOLLAR {
        decimal_u8(s.skip(1))
    } else {
        None
    }
}

impl Nag {
    /// A good move (`!`).
    pub const GOOD_MOVE: u8 = 1;

    /// A mistake (`?`).
    pub const MISTAKE: u8 = 2;

    /// A brilliant move (`!!`).
    pub const BRILLIANT_MOVE: u8 = 3;

    /// A blunder (`??`).
    pub const BLUNDER: u8 = 4;

    /// A speculative move (`!?`).
    pub const SPECULATIVE_MOVE: u8 = 5;

    /// A dubious move (`?!`).
    pub const DUBIOUS_MOVE: u8 = 6;

    /// Parses a glyph from ASCII: `!`, `?`, `!!`, `??`, `!?`, `?!`, or `$`
    /// followed by a decimal number from 0 to 255.
    pub fn from_ascii(s: &[u8]) -> (r: Result<Nag, InvalidNag>)
        ensures
            match r {
                Ok(nag) => nag_of(s@) == Some(nag.0),
                Err(_) => nag_of(s@).is_none(),
            },
    {
        let n = s.len();
        if n == 2 && s[0] == QUESTION && s[1] == BANG {
            Ok(Nag(Nag::DUBIOUS_MOVE))
        } else if n == 1 && s[0] == QUESTION {
            Ok(Nag(Nag::MISTAKE))
        } else if n == 2 && s[0] == QUESTION && s[1] == QUESTION {
            Ok(Nag(Nag::BLUNDER))
        } else if n == 1 && s[0] == BANG {
            Ok(Nag(Nag::GOOD_MOVE))
        } else if n == 2 && s[0] == BANG && s[1] == BANG {
            Ok(Nag(Nag::BRILLIANT_MOVE))
        } else if n == 2 && s[0] == BANG && s[1] == QUESTION {
            Ok(Nag(Nag::SPECULATIVE_MOVE))
        } else if n > 1 && s[0] == DOLLAR {
            let digits = slice_subrange(s, 1, n);
            match btou_u8(digits) {
                Ok(v) => Ok(Nag(v)),
                Err(_) => Err(InvalidNag),
            }
        } else {
            Err(InvalidNag)
        }
    }
}

impl From<u8> for Nag {
    fn from(nag: u8) -> (r: Nag) {
        Nag(nag)
    }
}

impl vstd::std_specs::convert::FromSpecImpl<u8> for Nag {
    open spec fn obeys_from_spec() -> bool {
        true
    }

    open spec fn from_spec(nag: u8) -> Nag {
        Nag(nag)
    }
}

impl FromStr for Nag {
    type Err = InvalidNag;

    fn from_str(s: &str) -> (r: Result<Nag, InvalidNag>)
        ensures
            match r {
                Ok(nag) => nag_of(s.spec_bytes()) == Some(nag.0),
                Err(_) => nag_of(s.spec_bytes()).is_none(),
            },
    {
        Nag::from_ascii(s.as_bytes())
    }
}

impl InvalidNag {
    /// What went wrong, in words.
    pub fn description(&self) -> (r: &'static str)
        ensures
            r@ == "invalid nag"@,
    {
        "invalid nag"
    }
}

/// A clock comment such as ` [%clk 0:01:00] `: the time left, in seconds.
#[derive(Clone, Copy, Eq, PartialEq, Ord, PartialOrd, Hash, Debug)]
pub struct Clock(pub u8);

/// The error of parsing something that is no clock comment.
#[derive(Clone, Copy, Eq, PartialEq, Debug)]
pub struct InvalidClock;

/// The seven bytes ` [%clk ` that open a clock comment.
pub open spec fn clock_prefix() -> Seq<u8> {
    seq![SPACE, OPEN_BRACKET, PERCENT, LOWER_C, LOWER_L, LOWER_K, SPACE]
}

/// The seconds that hours, minutes and seconds add up to.
pub open spec fn clock_seconds(h: u8, m: u8, s: u8) -> int {
    h * 3600 + m * 60 + s
}

/// The time that `s` spells. After the prefix come one digit of hours, two
/// of minutes and two of seconds, each pair of fields one byte apart; the
/// time counts only if it is at most 255 seconds.
pub open spec fn clock_of(s: Seq<u8>) -> Option<u8> {
    if s.len() >= 14 && s.subrange(0, 7) =~= clock_prefix() {
        match (
            decimal_u8(s.subrange(7, 8)),
            decimal_u8(s.subrange(9, 11)),
            decimal_u8(s.subrange(12, 14)),
        ) {
            (Some(h), Some(m), Some(sec)) => if clock_seconds(h, m, sec) <= 255 {
                Some(clock_seconds(h, m, sec) as u8)
            } else {
                None
            },
            _ => None,
        }
    } else {
        None
    }
}

impl Clock {
    /// No time left.
    pub const ZERO: u8 = 0;

    /// Parses the time of a clock comment from ASCII.
    pub fn from_ascii(s: &[u8]) -> (r: Result<Clock, InvalidClock>)
        ensures
            match r {
                Ok(clock) => clock_of(s@) == Some(clock.0),
                Err(_) => clock_of(s@).is_none(),
            },
    {
        if s.len() >= 14 && s[0] == SPACE && s[1] == OPEN_BRACKET && s[2] == PERCENT && s[3]
            == LOWER_C && s[4] == LOWER_L && s[5] == LOWER_K && s[6] == SPACE {
            let hours = btou_u8(slice_subrange(s, 7, 8));
            let minutes = btou_u8(slice_subrange(s, 9, 11));
            let seconds = btou_u8(slice_subrange(s, 12, 14));
            match (hours, minutes, seconds) {
                (Ok(h), Ok(m), Ok(sec)) => {
                    let total: u32 = (h as u32) * 3600 + (m as u32) * 60 + (sec as u32);
                    if total <= 255 {
                        Ok(Clock(total as u8))
                    } else {
                        Err(InvalidClock)
                    }
                },
                _ => Err(InvalidClock),
            }
        } else {
            Err(InvalidClock)
        }
    }
}

impl From<u8> for Clock {
    fn from(clk: u8) -> (r: Clock) {
        Clock(clk)
    }
}

impl vstd::std_specs::convert::FromSpecImpl<u8> for Clock {
    open spec fn obeys_from_spec() -> bool {
        true
    }

    open spec fn from_spec(clk: u8) -> Clock {
        Clock(clk)
    }
}

impl FromStr for Clock {
    type Err = InvalidClock;

    fn from_str(s: &str) -> (r: Result<Clock, InvalidClock>)
        ensures
            match r {
                Ok(clock) => clock_of(s.spec_bytes()) == Some(clock.0),
                Err(_) => clock_of(s.spec_bytes()).is_none(),
            },
    {
        Clock::from_ascii(s.as_bytes())
    }
}

impl InvalidClock {
    /// What went wrong, in words.
    pub fn description(&self) -> (r: &'static str)
        ensures
            r@ == "invalid clk"@,
    {
        "invalid clk"
    }
}

/// The side that won a game.
#[derive(Clone, Copy, Eq, PartialEq, Debug, Structural)]
pub enum Color {
    /// The side that moves first.
    White,
    /// The side that moves second.
    Black,
}

/// How a game ended.
#[derive(Clone, Copy, Eq, PartialEq, Debug, Structural)]
pub enum Outcome {
    /// One side won.
    Decisive { winner: Color },
    /// Neither side won.
    Draw,
}

impl Outcome {
    /// The side that won, if one did.
    pub fn winner(&self) -> (r: Option<Color>)
        ensures
            r == match *self {
                Outcome::Decisive { winner } => Some(winner),
                Outcome::Draw => None,
            },
    {
        match *self {
            Outcome::Decisive { winner } => Some(winner),
            Outcome::Draw => None,
        }
    }
}

/// A header value, as it stands between its quotes.
///
/// A quote inside a value is written as a backslash and a quote, a backslash
/// as two backslashes.
#[derive(Clone, Copy, Eq, PartialEq, Debug)]
pub struct RawHeader<'a>(pub &'a [u8]);

impl<'a> RawHeader<'a> {
    /// The bytes of the value, escapes and all.
    pub fn as_bytes(&self) -> (r: &[u8])
        ensures
            r@ == self.0@,
    {
        self.0
    }

    /// The value with its escapes resolved. Copies only if there is one.
    pub fn decode(&self) -> (r: Cow<'a, [u8]>)
        ensures
            r@ == unescape(self.0@),
            r is Borrowed <==> !has_escape(self.0@),
    {
        decode_escapes(self.0)
    }

    /// The value with its escapes resolved, as UTF-8 text. Fails exactly if
    /// the resolved bytes are no UTF-8.
    pub fn decode_utf8(&self) -> (r: Result<Cow<'a, str>, Utf8Error>)
        ensures
            r is Ok <==> valid_utf8(unescape(self.0@)),
            r matches Ok(text) ==> text@ == decode_utf8(unescape(self.0@)),
    {
        decode_escapes_utf8(self.0)
    }

    /// The value with its escapes resolved, as text, with U+FFFD in place of
    /// whatever is no UTF-8.
    pub fn decode_utf8_lossy(&self) -> (r: Cow<'a, str>)
        ensures
            r@ == utf8_lossy(unescape(self.0@)),
            valid_utf8(unescape(self.0@)) ==> r@ == decode_utf8(unescape(self.0@)),
    {
        decode_escapes_utf8_lossy(self.0)
    }
}

/// A comment, without its braces.
#[derive(Clone, Copy, Eq, PartialEq, Debug)]
pub struct RawComment<'a>(pub &'a [u8]);

impl<'a> RawComment<'a> {
    /// The bytes of the comment, escapes and all.
    pub fn as_bytes(&self) -> (r: &[u8])
        ensures
            r@ == self.0@,
    {
        self.0
    }

    /// The comment with its escapes resolved. Copies only if there is one.
    pub fn decode(&self) -> (r: Cow<'a, [u8]>)
        ensures
            r@ == unescape(self.0@),
            r is Borrowed <==> !has_escape(self.0@),
    {
        decode_escapes(self.0)
    }

    /// The comment with its escapes resolved, as UTF-8 text. Fails exactly
    /// if the resolved bytes are no UTF-8.
    pub fn decode_utf8(&self) -> (r: Result<Cow<'a, str>, Utf8Error>)
        ensures
            r is Ok <==> valid_utf8(unescape(self.0@)),
            r matches Ok(text) ==> text@ == decode_utf8(unescape(self.0@)),
    {
        decode_escapes_utf8(self.0)
    }

    /// The comment with its escapes resolved, as text, with U+FFFD in place
    /// of whatever is no UTF-8.
    pub fn decode_utf8_lossy(&self) -> (r: Cow<'a, str>)
        ensures
            r@ == utf8_lossy(unescape(self.0@)),
            valid_utf8(unescape(self.0@)) ==> r@ == decode_utf8(unescape(self.0@)),
    {
        decode_escapes_utf8_lossy(self.0)
    }
}

} // verus!
