//! What the notation means: where each part of a game ends, and which calls
//! it gives rise to.

use vstd::prelude::*;
use crate::bytes::{
    BACKSLASH, BOM_FIRST, BOM_SECOND, BOM_THIRD, CLOSE_BRACE, CLOSE_BRACKET, CLOSE_PAREN, DASH, DOT,
    NEWLINE, ONE, OPEN_BRACE, OPEN_BRACKET, OPEN_PAREN, PERCENT, QUOTE, RETURN, SEMICOLON, SLASH,
    SPACE, STAR, TAB, TWO, ZERO,
};
use crate::digits::is_digit;
use crate::search::{lemma_next_of_bounds, next_byte, next_of};
use crate::types::{Color, Outcome, nag_of};
use crate::visitor::Event;

verus! {

/// Whether `b` is a space, a tab, a carriage return or a newline.
pub open spec fn is_blank(b: u8) -> bool {
    b == SPACE || b == TAB || b == RETURN || b == NEWLINE
}

/// The position just past the first newline at or after `i`, or the end of
/// the input if no newline follows.
pub open spec fn line_end(s: Seq<u8>, i: int) -> int {
    let j = next_byte(s, i, NEWLINE);
    if j < s.len() {
        j + 1
    } else {
        s.len() as int
    }
}

/// The first position at or after `i` that holds neither a blank nor a `%`;
/// a `%` hides the rest of its line.
pub open spec fn blank_end(s: Seq<u8>, i: int) -> int
    decreases s.len() - i,
{
    if i < 0 || i >= s.len() {
        s.len() as int
    } else if is_blank(s[i]) {
        blank_end(s, i + 1)
    } else if s[i] == PERCENT {
        proof {
            lemma_next_of_bounds(s, i + 1, NEWLINE, NEWLINE, NEWLINE);
        }
        blank_end(s, line_end(s, i + 1))
    } else {
        i
    }
}

/// Whether the three bytes of a UTF-8 byte order mark stand at `i`.
pub open spec fn has_bom_at(s: Seq<u8>, i: int) -> bool {
    0 <= i && i + 3 <= s.len() && s[i] == BOM_FIRST && s[i + 1] == BOM_SECOND && s[i + 2]
        == BOM_THIRD
}

/// Whether `b` may stand between a header's value and the end of its line.
pub open spec fn is_ket(b: u8) -> bool {
    b == SPACE || b == TAB || b == RETURN || b == CLOSE_BRACKET
}

/// Where a header record ends that has been read up to `i`: past spaces,
/// tabs, carriage returns and `]`, and then past one newline, or past a `%`
/// and the rest of its line.
pub open spec fn ket_end(s: Seq<u8>, i: int) -> int
    decreases s.len() - i,
{
    if i < 0 || i >= s.len() {
        s.len() as int
    } else if is_ket(s[i]) {
        ket_end(s, i + 1)
    } else if s[i] == PERCENT {
        line_end(s, i + 1)
    } else if s[i] == NEWLINE {
        i + 1
    } else {
        i
    }
}

/// Where a quoted value ends that goes on at `i`: at the first quote or
/// newline that no backslash stands before, or at the end of the input. A
/// backslash takes the byte after it along.
pub open spec fn value_end(s: Seq<u8>, i: int) -> int
    decreases s.len() - i,
{
    if i < 0 || i >= s.len() {
        s.len() as int
    } else if s[i] == QUOTE || s[i] == NEWLINE {
        i
    } else if s[i] == BACKSLASH {
        if i + 1 < s.len() {
            value_end(s, i + 2)
        } else {
            s.len() as int
        }
    } else {
        value_end(s, i + 1)
    }
}

/// The position of the quote that opens the value of the record whose `[`
/// stands at `i`, or of the newline that comes before any quote, or the
/// end of the input.
pub open spec fn quote_pos(s: Seq<u8>, i: int) -> int {
    next_of(s, i + 1, QUOTE, NEWLINE, NEWLINE)
}

/// The call that the record makes whose `[` stands at `i`. A record without
/// a quote on its line is reported with all of the line as its key and an
/// empty value; one that the input ends in before a quote or a newline is
/// not reported. One space before the quote is no part of the key. A value
/// whose closing quote is missing ends with its line.
pub open spec fn header_event(s: Seq<u8>, i: int) -> Option<Event> {
    let q = quote_pos(s, i);
    if q >= s.len() {
        None
    } else if s[q] == NEWLINE {
        Some(Event::Header { key: s.subrange(i + 1, q), value: Seq::empty() })
    } else {
        let k = if q > i + 1 && s[q - 1] == SPACE {
            q - 1
        } else {
            q
        };
        Some(
            Event::Header {
                key: s.subrange(i + 1, k),
                value: s.subrange(q + 1, value_end(s, q + 1)),
            },
        )
    }
}

/// Where the record ends whose `[` stands at `i`.
pub open spec fn header_next(s: Seq<u8>, i: int) -> int {
    let q = quote_pos(s, i);
    if q >= s.len() {
        s.len() as int
    } else if s[q] == NEWLINE {
        q + 1
    } else {
        let e = value_end(s, q + 1);
        ket_end(
            s,
            if e < s.len() && s[e] == QUOTE {
                e + 1
            } else {
                e
            },
        )
    }
}

/// The calls that the header block at `i` makes: one for each record, `%`
/// lines passed over, up to the first line that starts with neither.
pub open spec fn header_events(s: Seq<u8>, i: int) -> Seq<Event>
    decreases s.len() - i,
{
    if i < 0 || i >= s.len() {
        Seq::empty()
    } else if s[i] == OPEN_BRACKET {
        proof {
            lemma_header_next_advances(s, i);
        }
        match header_event(s, i) {
            Some(e) => seq![e] + header_events(s, header_next(s, i)),
            None => header_events(s, header_next(s, i)),
        }
    } else if s[i] == PERCENT {
        proof {
            lemma_next_of_bounds(s, i, NEWLINE, NEWLINE, NEWLINE);
        }
        header_events(s, line_end(s, i))
    } else {
        Seq::empty()
    }
}

/// Where the header block at `i` ends.
pub open spec fn headers_end(s: Seq<u8>, i: int) -> int
    decreases s.len() - i,
{
    if i < 0 || i >= s.len() {
        s.len() as int
    } else if s[i] == OPEN_BRACKET {
        proof {
            lemma_header_next_advances(s, i);
        }
        headers_end(s, header_next(s, i))
    } else if s[i] == PERCENT {
        proof {
            lemma_next_of_bounds(s, i, NEWLINE, NEWLINE, NEWLINE);
        }
        headers_end(s, line_end(s, i))
    } else {
        i
    }
}

/// Where reading goes on after the comment whose `{` stands at `i`: past
/// the first `}`, or at the end of the input.
pub open spec fn after_brace(s: Seq<u8>, i: int) -> int {
    let j = next_byte(s, i + 1, CLOSE_BRACE);
    if j < s.len() {
        j + 1
    } else {
        s.len() as int
    }
}

/// Whether the movetext ends with the newline at `i`: the next line is
/// empty or starts with `[`.
pub open spec fn ends_movetext(s: Seq<u8>, i: int) -> bool {
    i + 1 < s.len() && (s[i + 1] == NEWLINE || s[i + 1] == OPEN_BRACKET || (s[i + 1] == RETURN && i
        + 2 < s.len() && s[i + 2] == NEWLINE))
}

/// Where the reader stands once the movetext has ended with the newline at
/// `i`.
pub open spec fn movetext_stop(s: Seq<u8>, i: int) -> int {
    if s[i + 1] == RETURN {
        i + 2
    } else {
        i + 1
    }
}

/// Where reading goes on after a newline at `i` that does not end the
/// movetext. A `%` at the start of the next line hides that line.
pub open spec fn after_newline(s: Seq<u8>, i: int) -> int {
    if i + 1 < s.len() && s[i + 1] == PERCENT {
        next_byte(s, i + 1, NEWLINE)
    } else if i + 1 < s.len() && s[i + 1] == RETURN {
        i + 2
    } else {
        i + 1
    }
}

/// Where the movetext ends that goes on at `i`.
pub open spec fn movetext_end(s: Seq<u8>, i: int) -> int
    decreases s.len() - i,
{
    if i < 0 || i >= s.len() {
        s.len() as int
    } else if s[i] == OPEN_BRACE {
        proof {
            lemma_next_of_bounds(s, i + 1, CLOSE_BRACE, CLOSE_BRACE, CLOSE_BRACE);
        }
        movetext_end(s, after_brace(s, i))
    } else if s[i] == SEMICOLON {
        proof {
            lemma_next_of_bounds(s, i + 1, NEWLINE, NEWLINE, NEWLINE);
        }
        movetext_end(s, next_byte(s, i + 1, NEWLINE))
    } else if s[i] == NEWLINE {
        if ends_movetext(s, i) {
            movetext_stop(s, i)
        } else {
            proof {
                lemma_next_of_bounds(s, i + 1, NEWLINE, NEWLINE, NEWLINE);
            }
            movetext_end(s, after_newline(s, i))
        }
    } else {
        movetext_end(s, i + 1)
    }
}

/// Whether `b` can be part of a token: it is no blank, parenthesis, brace
/// or semicolon.
pub open spec fn is_token_byte(b: u8) -> bool {
    !is_blank(b) && b != OPEN_PAREN && b != CLOSE_PAREN && b != OPEN_BRACE && b != CLOSE_BRACE && b
        != SEMICOLON
}

/// Where the run of token bytes ends that goes on at `i`.
pub open spec fn token_end(s: Seq<u8>, i: int) -> int
    decreases s.len() - i,
{
    if 0 <= i < s.len() && is_token_byte(s[i]) {
        token_end(s, i + 1)
    } else {
        i
    }
}

/// Whether `run` is made of digits and dots alone, as a move number is.
pub open spec fn is_move_number(run: Seq<u8>) -> bool {
    forall|k: int| 0 <= k < run.len() ==> is_digit(#[trigger] run[k]) || run[k] == DOT
}

/// The result that `run` spells, if it spells one: `1-0`, `0-1`, `1/2-1/2`,
/// or `*` for a game without an outcome.
pub open spec fn result_of(run: Seq<u8>) -> Option<Option<Outcome>> {
    if run =~= seq![ONE, DASH, ZERO] {
        Some(Some(Outcome::Decisive { winner: Color::White }))
    } else if run =~= seq![ZERO, DASH, ONE] {
        Some(Some(Outcome::Decisive { winner: Color::Black }))
    } else if run =~= seq![ONE, SLASH, TWO, DASH, ONE, SLASH, TWO] {
        Some(Some(Outcome::Draw))
    } else if run =~= seq![STAR] {
        Some(None)
    } else {
        None
    }
}

/// The call that the token `run` makes, if it makes one: a glyph, a result,
/// nothing for a move number, and a move for anything else.
pub open spec fn token_event(run: Seq<u8>) -> Option<Event> {
    if nag_of(run) is Some {
        Some(Event::Nag { nag: nag_of(run).unwrap() })
    } else if result_of(run) is Some {
        Some(Event::Outcome { outcome: result_of(run).unwrap() })
    } else if is_move_number(run) {
        None
    } else {
        Some(Event::San { token: run })
    }
}

/// Where passing over a variation stops that goes on at `i`, `depth`
/// parentheses deep inside it: at the `)` that closes it, at the newline
/// that the movetext ends with, or at the end of the input. Comments hide
/// the parentheses in them.
pub open spec fn variation_end(s: Seq<u8>, i: int, depth: nat) -> int
    decreases s.len() - i,
{
    if i < 0 || i >= s.len() {
        s.len() as int
    } else if s[i] == OPEN_PAREN {
        variation_end(s, i + 1, depth + 1)
    } else if s[i] == CLOSE_PAREN {
        if depth == 0 {
            i
        } else {
            variation_end(s, i + 1, (depth - 1) as nat)
        }
    } else if s[i] == OPEN_BRACE {
        proof {
            lemma_next_of_bounds(s, i + 1, CLOSE_BRACE, CLOSE_BRACE, CLOSE_BRACE);
        }
        variation_end(s, after_brace(s, i), depth)
    } else if s[i] == SEMICOLON {
        proof {
            lemma_next_of_bounds(s, i + 1, NEWLINE, NEWLINE, NEWLINE);
        }
        variation_end(s, next_byte(s, i + 1, NEWLINE), depth)
    } else if s[i] == NEWLINE {
        if ends_movetext(s, i) {
            i
        } else {
            proof {
                lemma_next_of_bounds(s, i + 1, NEWLINE, NEWLINE, NEWLINE);
            }
            variation_end(s, after_newline(s, i), depth)
        }
    } else {
        variation_end(s, i + 1, depth)
    }
}

/// What reading the movetext reports at `i`, if anything, and where it
/// goes on, unless the movetext is over at `i`.
///
/// A `{` opens a comment that runs to the first `}`, a `;` one that runs to
/// the end of the line. Each parenthesis is reported; where one opens a
/// variation, `skip` is what the visitor answers, and reading goes on
/// after the variation if it is skipped. A run of token bytes is reported
/// as `token_event` says. Blanks and a stray `}` are passed over.
pub open spec fn movetext_step(s: Seq<u8>, i: int, skip: bool) -> (Option<Event>, int) {
    if s[i] == OPEN_BRACE {
        (
            Some(Event::Comment { text: s.subrange(i + 1, next_byte(s, i + 1, CLOSE_BRACE)) }),
            after_brace(s, i),
        )
    } else if s[i] == SEMICOLON {
        (
            Some(Event::Comment { text: s.subrange(i + 1, next_byte(s, i + 1, NEWLINE)) }),
            next_byte(s, i + 1, NEWLINE),
        )
    } else if s[i] == NEWLINE {
        (None, after_newline(s, i))
    } else if s[i] == OPEN_PAREN {
        (
            Some(Event::BeginVariation { skip }),
            if skip {
                variation_end(s, i + 1, 0)
            } else {
                i + 1
            },
        )
    } else if s[i] == CLOSE_PAREN {
        (Some(Event::EndVariation), i + 1)
    } else if !is_token_byte(s[i]) {
        (None, i + 1)
    } else {
        (token_event(s.subrange(i, token_end(s, i))), token_end(s, i))
    }
}

/// Whether the movetext is over at `i`: the input ends there, or a newline
/// stands there that ends the movetext.
pub open spec fn movetext_over(s: Seq<u8>, i: int) -> bool {
    i < 0 || i >= s.len() || (s[i] == NEWLINE && ends_movetext(s, i))
}

/// The calls `t` with `e` before them, if there is an `e`.
pub open spec fn with_first(e: Option<Event>, t: Seq<Event>) -> Seq<Event> {
    match e {
        Some(e) => seq![e] + t,
        None => t,
    }
}

/// Whether `t` is the calls that reading the movetext from `i` on makes,
/// given what the visitor answers where a variation opens: the answers are
/// those that `t` holds.
pub open spec fn movetext_trace(s: Seq<u8>, i: int, t: Seq<Event>) -> bool
    decreases s.len() - i,
{
    if movetext_over(s, i) {
        t.len() == 0
    } else {
        let skip = t.len() > 0 && t[0] == (Event::BeginVariation { skip: true });
        proof {
            lemma_movetext_step_advances(s, i, skip);
        }
        match movetext_step(s, i, skip).0 {
            Some(e) => t.len() > 0 && t[0] == e && movetext_trace(
                s,
                movetext_step(s, i, skip).1,
                t.skip(1),
            ),
            None => movetext_trace(s, movetext_step(s, i, skip).1, t),
        }
    }
}

/// A step of reading the movetext moves on, stays within the input, and
/// leaves the end of the movetext where it was.
pub proof fn lemma_movetext_step_advances(s: Seq<u8>, i: int, skip: bool)
    requires
        !movetext_over(s, i),
    ensures
        i < movetext_step(s, i, skip).1 <= s.len(),
        movetext_end(s, movetext_step(s, i, skip).1) == movetext_end(s, i),
{
    if s[i] == OPEN_BRACE {
        lemma_next_of_bounds(s, i + 1, CLOSE_BRACE, CLOSE_BRACE, CLOSE_BRACE);
    } else if s[i] == SEMICOLON {
        lemma_next_of_bounds(s, i + 1, NEWLINE, NEWLINE, NEWLINE);
    } else if s[i] == NEWLINE {
        lemma_next_of_bounds(s, i + 1, NEWLINE, NEWLINE, NEWLINE);
    } else if s[i] == OPEN_PAREN {
        lemma_variation_end_bounds(s, i + 1, 0);
        lemma_movetext_end_variation(s, i + 1, 0);
    } else if is_token_byte(s[i]) {
        lemma_token_end_bounds(s, i);
        lemma_movetext_end_token(s, i);
    }
}

/// The calls of the movetext from `i` on are the call of the step at `i`
/// and then the calls from where the step leads.
pub proof fn lemma_movetext_step(s: Seq<u8>, i: int, skip: bool, rest: Seq<Event>)
    requires
        !movetext_over(s, i),
        movetext_trace(s, movetext_step(s, i, skip).1, rest),
    ensures
        movetext_trace(s, i, with_first(movetext_step(s, i, skip).0, rest)),
{
    match movetext_step(s, i, skip).0 {
        Some(e) => {
            assert((seq![e] + rest).skip(1) =~= rest);
        },
        None => {},
    }
}

/// Where a reader at `i` starts on a game: past a byte order mark, if it
/// has not yet looked for one, and past blanks and `%` lines.
pub open spec fn game_start(s: Seq<u8>, i: int, started: bool) -> int {
    blank_end(
        s,
        if !started && has_bom_at(s, i) {
            i + 3
        } else {
            i
        },
    )
}

/// Whether a reader at `i` finds a game: something other than blanks and
/// `%` lines is left.
pub open spec fn has_game(s: Seq<u8>, i: int, started: bool) -> bool {
    game_start(s, i, started) < s.len()
}

/// Where a reader at `i` stands after reading one game, or after finding
/// none: past the headers, the movetext and the blanks after it.
pub open spec fn game_end(s: Seq<u8>, i: int, started: bool) -> int {
    let a = game_start(s, i, started);
    if a < s.len() {
        blank_end(s, movetext_end(s, headers_end(s, a)))
    } else {
        s.len() as int
    }
}

/// Whether `t` is the calls that reading the game that starts at `a`
/// makes, given the answers of the visitor that `t` holds: the start of
/// the game and of its headers, each header, the end of the headers, then
/// the calls of the movetext unless the visitor skips it, and the end of
/// the game.
pub open spec fn game_trace(s: Seq<u8>, a: int, t: Seq<Event>) -> bool {
    let h = header_events(s, a);
    let n = h.len() as int + 2;
    &&& t.len() >= n + 2
    &&& t.take(n) == seq![Event::BeginGame, Event::BeginHeaders] + h
    &&& t[n] is EndHeaders
    &&& t.last() == Event::EndGame
    &&& if t[n]->EndHeaders_skip {
        t.len() == n + 2
    } else {
        movetext_trace(s, headers_end(s, a), t.subrange(n + 1, t.len() - 1))
    }
}

/// The calls that reading the game that starts at `a` makes if the visitor
/// skips the movetext.
pub open spec fn skipped_game_trace(s: Seq<u8>, a: int) -> Seq<Event> {
    seq![Event::BeginGame, Event::BeginHeaders] + header_events(s, a) + seq![
        Event::EndHeaders { skip: true },
        Event::EndGame,
    ]
}

/// `line_end` stays within the input and moves past `i`.
pub proof fn lemma_line_end_bounds(s: Seq<u8>, i: int)
    requires
        0 <= i <= s.len(),
    ensures
        i <= line_end(s, i) <= s.len(),
        i < s.len() ==> i < line_end(s, i),
{
    lemma_next_of_bounds(s, i, NEWLINE, NEWLINE, NEWLINE);
}

/// `blank_end` stays within the input and does not move back.
pub proof fn lemma_blank_end_bounds(s: Seq<u8>, i: int)
    requires
        0 <= i <= s.len(),
    ensures
        i <= blank_end(s, i) <= s.len(),
    decreases s.len() - i,
{
    if i < s.len() {
        if is_blank(s[i]) {
            lemma_blank_end_bounds(s, i + 1);
        } else if s[i] == PERCENT {
            lemma_line_end_bounds(s, i + 1);
            lemma_blank_end_bounds(s, line_end(s, i + 1));
        }
    }
}

/// `ket_end` stays within the input and does not move back.
pub proof fn lemma_ket_end_bounds(s: Seq<u8>, i: int)
    requires
        0 <= i <= s.len(),
    ensures
        i <= ket_end(s, i) <= s.len(),
    decreases s.len() - i,
{
    if i < s.len() {
        if is_ket(s[i]) {
            lemma_ket_end_bounds(s, i + 1);
        } else if s[i] == PERCENT {
            lemma_line_end_bounds(s, i + 1);
        }
    }
}

/// `value_end` stays within the input and does not move back.
pub proof fn lemma_value_end_bounds(s: Seq<u8>, i: int)
    requires
        0 <= i,
    ensures
        i <= s.len() ==> i <= value_end(s, i),
        value_end(s, i) <= s.len(),
    decreases s.len() - i,
{
    if i < s.len() {
        if s[i] == QUOTE || s[i] == NEWLINE {
        } else if s[i] == BACKSLASH {
            if i + 1 < s.len() {
                lemma_value_end_bounds(s, i + 2);
            }
        } else {
            lemma_value_end_bounds(s, i + 1);
        }
    }
}

/// A stretch without a backslash, a quote or a newline is part of the
/// value.
pub proof fn lemma_value_end_plain_run(s: Seq<u8>, i: int, j: int)
    requires
        0 <= i <= j <= s.len(),
        forall|k: int| i <= k < j ==> s[k] != BACKSLASH && s[k] != QUOTE && s[k] != NEWLINE,
    ensures
        value_end(s, i) == value_end(s, j),
    decreases j - i,
{
    if i < j {
        lemma_value_end_plain_run(s, i + 1, j);
    }
}

/// A header record ends after its `[`, within the input.
pub proof fn lemma_header_next_advances(s: Seq<u8>, i: int)
    requires
        0 <= i < s.len(),
    ensures
        i < header_next(s, i) <= s.len(),
{
    lemma_next_of_bounds(s, i + 1, QUOTE, NEWLINE, NEWLINE);
    let q = quote_pos(s, i);
    if q < s.len() && s[q] != NEWLINE {
        lemma_value_end_bounds(s, q + 1);
        let e = value_end(s, q + 1);
        if e < s.len() && s[e] == QUOTE {
            lemma_ket_end_bounds(s, e + 1);
        } else {
            lemma_ket_end_bounds(s, e);
        }
    }
}

/// `token_end` stays within the input and moves past a token byte.
pub proof fn lemma_token_end_bounds(s: Seq<u8>, i: int)
    requires
        0 <= i <= s.len(),
    ensures
        i <= token_end(s, i) <= s.len(),
        i < s.len() && is_token_byte(s[i]) ==> i < token_end(s, i),
        forall|k: int| i <= k < token_end(s, i) ==> is_token_byte(#[trigger] s[k]),
        token_end(s, i) < s.len() ==> !is_token_byte(s[token_end(s, i)]),
    decreases s.len() - i,
{
    if i < s.len() && is_token_byte(s[i]) {
        lemma_token_end_bounds(s, i + 1);
    }
}

/// `variation_end` stays within the input and does not move back.
pub proof fn lemma_variation_end_bounds(s: Seq<u8>, i: int, depth: nat)
    requires
        0 <= i <= s.len(),
    ensures
        i <= variation_end(s, i, depth) <= s.len(),
    decreases s.len() - i,
{
    if i < s.len() {
        if s[i] == OPEN_PAREN {
            lemma_variation_end_bounds(s, i + 1, depth + 1);
        } else if s[i] == CLOSE_PAREN {
            if depth > 0 {
                lemma_variation_end_bounds(s, i + 1, (depth - 1) as nat);
            }
        } else if s[i] == OPEN_BRACE {
            lemma_next_of_bounds(s, i + 1, CLOSE_BRACE, CLOSE_BRACE, CLOSE_BRACE);
            lemma_variation_end_bounds(s, after_brace(s, i), depth);
        } else if s[i] == SEMICOLON {
            lemma_next_of_bounds(s, i + 1, NEWLINE, NEWLINE, NEWLINE);
            lemma_variation_end_bounds(s, next_byte(s, i + 1, NEWLINE), depth);
        } else if s[i] == NEWLINE {
            if !ends_movetext(s, i) {
                lemma_next_of_bounds(s, i + 1, NEWLINE, NEWLINE, NEWLINE);
                lemma_variation_end_bounds(s, after_newline(s, i), depth);
            }
        } else {
            lemma_variation_end_bounds(s, i + 1, depth);
        }
    }
}

/// `movetext_end` stays within the input and does not move back.
pub proof fn lemma_movetext_end_bounds(s: Seq<u8>, i: int)
    requires
        0 <= i <= s.len(),
    ensures
        i <= movetext_end(s, i) <= s.len(),
    decreases s.len() - i,
{
    if i < s.len() {
        if s[i] == OPEN_BRACE {
            lemma_next_of_bounds(s, i + 1, CLOSE_BRACE, CLOSE_BRACE, CLOSE_BRACE);
            lemma_movetext_end_bounds(s, after_brace(s, i));
        } else if s[i] == SEMICOLON {
            lemma_next_of_bounds(s, i + 1, NEWLINE, NEWLINE, NEWLINE);
            lemma_movetext_end_bounds(s, next_byte(s, i + 1, NEWLINE));
        } else if s[i] == NEWLINE {
            if !ends_movetext(s, i) {
                lemma_next_of_bounds(s, i + 1, NEWLINE, NEWLINE, NEWLINE);
                lemma_movetext_end_bounds(s, after_newline(s, i));
            }
        } else {
            lemma_movetext_end_bounds(s, i + 1);
        }
    }
}

/// A stretch without a newline, a `{` or a `;` does not end the movetext.
pub proof fn lemma_movetext_end_plain_run(s: Seq<u8>, i: int, j: int)
    requires
        0 <= i <= j <= s.len(),
        forall|k: int| i <= k < j ==> s[k] != NEWLINE && s[k] != OPEN_BRACE && s[k] != SEMICOLON,
    ensures
        movetext_end(s, i) == movetext_end(s, j),
    decreases j - i,
{
    if i < j {
        lemma_movetext_end_plain_run(s, i + 1, j);
    }
}

/// The movetext ends where it ends after the token at `i`.
pub proof fn lemma_movetext_end_token(s: Seq<u8>, i: int)
    requires
        0 <= i <= s.len(),
    ensures
        movetext_end(s, i) == movetext_end(s, token_end(s, i)),
{
    lemma_token_end_bounds(s, i);
    lemma_movetext_end_plain_run(s, i, token_end(s, i));
}

/// The movetext ends where it ends after a variation that is passed over.
pub proof fn lemma_movetext_end_variation(s: Seq<u8>, i: int, depth: nat)
    requires
        0 <= i <= s.len(),
    ensures
        movetext_end(s, i) == movetext_end(s, variation_end(s, i, depth)),
    decreases s.len() - i,
{
    if i < s.len() {
        if s[i] == OPEN_PAREN {
            lemma_movetext_end_variation(s, i + 1, depth + 1);
        } else if s[i] == CLOSE_PAREN {
            if depth > 0 {
                lemma_movetext_end_variation(s, i + 1, (depth - 1) as nat);
            }
        } else if s[i] == OPEN_BRACE {
            lemma_next_of_bounds(s, i + 1, CLOSE_BRACE, CLOSE_BRACE, CLOSE_BRACE);
            lemma_movetext_end_variation(s, after_brace(s, i), depth);
        } else if s[i] == SEMICOLON {
            lemma_next_of_bounds(s, i + 1, NEWLINE, NEWLINE, NEWLINE);
            lemma_movetext_end_variation(s, next_byte(s, i + 1, NEWLINE), depth);
        } else if s[i] == NEWLINE {
            if !ends_movetext(s, i) {
                lemma_next_of_bounds(s, i + 1, NEWLINE, NEWLINE, NEWLINE);
                lemma_movetext_end_variation(s, after_newline(s, i), depth);
            }
        } else {
            lemma_movetext_end_variation(s, i + 1, depth);
        }
    }
}

/// `game_end` stays within the input and does not move back.
pub proof fn lemma_game_end_bounds(s: Seq<u8>, i: int, started: bool)
    requires
        0 <= i <= s.len(),
    ensures
        i <= game_start(s, i, started) <= s.len(),
        game_start(s, i, started) <= game_end(s, i, started) <= s.len(),
{
    let a = game_start(s, i, started);
    if !started && has_bom_at(s, i) {
        lemma_blank_end_bounds(s, i + 3);
    } else {
        lemma_blank_end_bounds(s, i);
    }
    if a < s.len() {
        lemma_headers_end_bounds(s, a);
        lemma_movetext_end_bounds(s, headers_end(s, a));
        lemma_blank_end_bounds(s, movetext_end(s, headers_end(s, a)));
    }
}

/// `headers_end` stays within the input and does not move back.
pub proof fn lemma_headers_end_bounds(s: Seq<u8>, i: int)
    requires
        0 <= i <= s.len(),
    ensures
        i <= headers_end(s, i) <= s.len(),
    decreases s.len() - i,
{
    if i < s.len() {
        if s[i] == OPEN_BRACKET {
            lemma_header_next_advances(s, i);
            lemma_headers_end_bounds(s, header_next(s, i));
        } else if s[i] == PERCENT {
            lemma_line_end_bounds(s, i);
            lemma_headers_end_bounds(s, line_end(s, i));
        }
    }
}

} // verus!
