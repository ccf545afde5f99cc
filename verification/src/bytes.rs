//! The bytes that mean something in the notation.

use vstd::prelude::*;

verus! {

/// A tab.
pub const TAB: u8 = 9;

/// A newline.
pub const NEWLINE: u8 = 10;

/// A carriage return.
pub const RETURN: u8 = 13;

/// A space.
pub const SPACE: u8 = 32;

/// `!`
pub const BANG: u8 = 33;

/// `"`
pub const QUOTE: u8 = 34;

/// `$`
pub const DOLLAR: u8 = 36;

/// `%`
pub const PERCENT: u8 = 37;

/// `(`
pub const OPEN_PAREN: u8 = 40;

/// `)`
pub const CLOSE_PAREN: u8 = 41;

/// `*`
pub const STAR: u8 = 42;

/// `-`
pub const DASH: u8 = 45;

/// `.`
pub const DOT: u8 = 46;

/// `/`
pub const SLASH: u8 = 47;

/// `0`
pub const ZERO: u8 = 48;

/// `1`
pub const ONE: u8 = 49;

/// `2`
pub const TWO: u8 = 50;

/// `9`
pub const NINE: u8 = 57;

/// `;`
pub const SEMICOLON: u8 = 59;

/// `?`
pub const QUESTION: u8 = 63;

/// `[`
pub const OPEN_BRACKET: u8 = 91;

/// `\`
pub const BACKSLASH: u8 = 92;

/// `]`
pub const CLOSE_BRACKET: u8 = 93;

/// `c`
pub const LOWER_C: u8 = 99;

/// `k`
pub const LOWER_K: u8 = 107;

/// `l`
pub const LOWER_L: u8 = 108;

/// `{`
pub const OPEN_BRACE: u8 = 123;

/// `}`
pub const CLOSE_BRACE: u8 = 125;

/// The first byte of a UTF-8 byte order mark.
pub const BOM_FIRST: u8 = 0xef;

/// The second byte of a UTF-8 byte order mark.
pub const BOM_SECOND: u8 = 0xbb;

/// The third byte of a UTF-8 byte order mark.
pub const BOM_THIRD: u8 = 0xbf;

} // verus!
