//! Scans over bytes: where a value or a token ends, what a newline means,
//! and what a token is.

use vstd::prelude::*;
use crate::bytes::{
    BACKSLASH, CLOSE_BRACE, CLOSE_PAREN, DASH, DOT, NEWLINE, NINE, ONE, OPEN_BRACE, OPEN_BRACKET,
    OPEN_PAREN, PERCENT, QUOTE, RETURN, SEMICOLON, SLASH, SPACE, STAR, TAB, TWO, ZERO,
};
use crate::digits::is_digit;
use crate::grammar::{
    after_newline, ends_movetext, is_move_number, is_token_byte, lemma_value_end_plain_run,
    movetext_stop, result_of, token_end, value_end,
};
use crate::search::{find_byte, find_byte3, lemma_next_of_bounds, lemma_next_of_skips};
use crate::types::{Color, Outcome};

verus! {

/// Finds where the quoted value ends that goes on at `from`.
pub fn find_value_end(bytes: &[u8], from: usize) -> (e: usize)
    requires
        from <= bytes@.len(),
    ensures
        e == value_end(bytes@, from as int),
        from <= e <= bytes@.len(),
{
    let n = bytes.len();
    let mut e = from;
    loop
        invariant
            n == bytes@.len(),
            from <= e <= n,
            value_end(bytes@, e as int) == value_end(bytes@, from as int),
        ensures
            from <= e <= n,
            e == value_end(bytes@, from as int),
        decreases n - e,
    {
        let d = find_byte3(bytes, e, BACKSLASH, QUOTE, NEWLINE);
        proof {
            lemma_next_of_bounds(bytes@, e as int, BACKSLASH, QUOTE, NEWLINE);
            lemma_next_of_skips(bytes@, e as int, BACKSLASH, QUOTE, NEWLINE);
            lemma_value_end_plain_run(bytes@, e as int, d as int);
        }
        if d < n && bytes[d] == BACKSLASH {
            e = if n - d >= 2 {
                d + 2
            } else {
                n
            };
        } else {
            e = d;
            break ;
        }
    }
    e
}

/// Tells what the newline at `i` means for the movetext: whether the
/// movetext ends with it, and where the reader then stands or goes on.
pub fn after_newline_at(bytes: &[u8], i: usize) -> (r: (bool, usize))
    requires
        i < bytes@.len(),
    ensures
        r.0 == ends_movetext(bytes@, i as int),
        r.1 == if r.0 {
            movetext_stop(bytes@, i as int)
        } else {
            after_newline(bytes@, i as int)
        },
        i < r.1 <= bytes@.len(),
{
    let n = bytes.len();
    if n - i < 2 {
        (false, i + 1)
    } else {
        let next = bytes[i + 1];
        if next == PERCENT {
            (false, find_byte(bytes, i + 1, NEWLINE))
        } else if next == NEWLINE || next == OPEN_BRACKET {
            (true, i + 1)
        } else if next == RETURN {
            (n - i > 2 && bytes[i + 2] == NEWLINE, i + 2)
        } else {
            (false, i + 1)
        }
    }
}

/// Whether `b` can be part of a token.
pub fn is_token(b: u8) -> (r: bool)
    ensures
        r == is_token_byte(b),
{
    !(b == SPACE || b == TAB || b == RETURN || b == NEWLINE || b == OPEN_PAREN || b == CLOSE_PAREN
        || b == OPEN_BRACE || b == CLOSE_BRACE || b == SEMICOLON)
}

/// Finds where the run of token bytes ends that goes on at `from`.
pub fn find_token_end(bytes: &[u8], from: usize) -> (e: usize)
    requires
        from <= bytes@.len(),
    ensures
        e == token_end(bytes@, from as int),
        from <= e <= bytes@.len(),
{
    let n = bytes.len();
    let mut e = from;
    while e < n && is_token(bytes[e])
        invariant
            n == bytes@.len(),
            from <= e <= n,
            token_end(bytes@, e as int) == token_end(bytes@, from as int),
        decreases n - e,
    {
        e = e + 1;
    }
    e
}

/// Reads the result of a game from its token.
pub fn parse_result(run: &[u8]) -> (r: Option<Option<Outcome>>)
    ensures
        r == result_of(run@),
{
    let n = run.len();
    if n == 3 && run[0] == ONE && run[1] == DASH && run[2] == ZERO {
        Some(Some(Outcome::Decisive { winner: Color::White }))
    } else if n == 3 && run[0] == ZERO && run[1] == DASH && run[2] == ONE {
        Some(Some(Outcome::Decisive { winner: Color::Black }))
    } else if n == 7 && run[0] == ONE && run[1] == SLASH && run[2] == TWO && run[3] == DASH
        && run[4] == ONE && run[5] == SLASH && run[6] == TWO {
        Some(Some(Outcome::Draw))
    } else if n == 1 && run[0] == STAR {
        Some(None)
    } else {
        None
    }
}

/// Whether `run` is made of digits and dots alone.
pub fn only_digits_and_dots(run: &[u8]) -> (r: bool)
    ensures
        r == is_move_number(run@),
{
    let n = run.len();
    let mut k: usize = 0;
    while k < n
        invariant
            n == run@.len(),
            k <= n,
            forall|j: int| 0 <= j < k ==> is_digit(#[trigger] run@[j]) || run@[j] == DOT,
        decreases n - k,
    {
        let b = run[k];
        if !((ZERO <= b && b <= NINE) || b == DOT) {
            return false;
        }
        k = k + 1;
    }
    true
}

} // verus!
