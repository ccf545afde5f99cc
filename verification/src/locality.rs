//! What a scan decides depends only on the bytes it passes.
//!
//! Two inputs are compared, the second moved by `d` against the first. They
//! hold the same bytes up to `hi`, counted in the first. A scan of the
//! first that stops before `hi` then scans the second alike, and so does
//! any scan if both inputs end at `hi`.

use vstd::prelude::*;
use crate::bytes::{
    BACKSLASH, BOM_FIRST, BOM_SECOND, CLOSE_BRACE, CLOSE_PAREN, NEWLINE, OPEN_BRACE, OPEN_BRACKET,
    OPEN_PAREN, PERCENT, QUOTE, SEMICOLON, SPACE,
};
use crate::grammar::{
    after_brace, after_newline, blank_end, ends_movetext, game_end, game_start, game_trace,
    has_bom_at, has_game, header_event, header_events, header_next, headers_end, is_blank, is_ket,
    is_token_byte, ket_end, lemma_blank_end_bounds, lemma_game_end_bounds,
    lemma_header_next_advances, lemma_headers_end_bounds, lemma_ket_end_bounds,
    lemma_line_end_bounds, lemma_movetext_end_bounds, lemma_movetext_step_advances,
    lemma_token_end_bounds, lemma_value_end_bounds, line_end, movetext_end, movetext_over,
    movetext_step, movetext_stop, movetext_trace, quote_pos, token_end, value_end, variation_end,
};
use crate::search::{lemma_next_of_bounds, next_byte, next_of};
use crate::visitor::Event;

verus! {

/// Whether the second input, moved by `d`, holds the bytes of the first up
/// to `hi`.
pub open spec fn agree(s1: Seq<u8>, s2: Seq<u8>, d: int, hi: int) -> bool {
    &&& hi <= s1.len()
    &&& hi + d <= s2.len()
    &&& forall|k: int| 0 <= k < hi && 0 <= k + d ==> #[trigger] s1[k] == s2[k + d]
}

/// Whether both inputs end at `hi`.
pub open spec fn whole(s1: Seq<u8>, s2: Seq<u8>, d: int, hi: int) -> bool {
    hi == s1.len() && hi + d == s2.len()
}

/// Whether a scan of the first input from `j` that stops at `r` is one
/// that the second input must repeat.
pub open spec fn local(s1: Seq<u8>, s2: Seq<u8>, d: int, hi: int, j: int, r: int) -> bool {
    &&& agree(s1, s2, d, hi)
    &&& 0 <= j <= hi
    &&& 0 <= j + d
    &&& (r < hi || whole(s1, s2, d, hi))
}

/// Stretches of the two inputs that lie below `hi` hold the same bytes.
pub proof fn lemma_same_stretch(s1: Seq<u8>, s2: Seq<u8>, d: int, hi: int, a: int, b: int)
    requires
        agree(s1, s2, d, hi),
        0 <= a <= b <= hi,
        0 <= a + d,
    ensures
        s2.subrange(a + d, b + d) == s1.subrange(a, b),
{
    assert(s2.subrange(a + d, b + d) =~= s1.subrange(a, b)) by {
        assert forall|k: int| 0 <= k < b - a implies #[trigger] s2.subrange(a + d, b + d)[k]
            == s1.subrange(a, b)[k] by {}
    }
}

/// A search finds in both inputs the same byte.
pub proof fn lemma_next_of_local(
    s1: Seq<u8>,
    s2: Seq<u8>,
    d: int,
    hi: int,
    j: int,
    a: u8,
    b: u8,
    c: u8,
)
    requires
        local(s1, s2, d, hi, j, next_of(s1, j, a, b, c)),
    ensures
        next_of(s2, j + d, a, b, c) == next_of(s1, j, a, b, c) + d,
    decreases hi - j,
{
    lemma_next_of_bounds(s1, j, a, b, c);
    if j < hi && !(s1[j] == a || s1[j] == b || s1[j] == c) {
        lemma_next_of_local(s1, s2, d, hi, j + 1, a, b, c);
    }
}

/// A line ends in both inputs at the same byte.
pub proof fn lemma_line_end_local(s1: Seq<u8>, s2: Seq<u8>, d: int, hi: int, j: int)
    requires
        local(s1, s2, d, hi, j, line_end(s1, j)),
    ensures
        line_end(s2, j + d) == line_end(s1, j) + d,
{
    lemma_next_of_local(s1, s2, d, hi, j, NEWLINE, NEWLINE, NEWLINE);
}

/// Blanks end in both inputs at the same byte.
pub proof fn lemma_blank_end_local(s1: Seq<u8>, s2: Seq<u8>, d: int, hi: int, j: int)
    requires
        local(s1, s2, d, hi, j, blank_end(s1, j)),
    ensures
        blank_end(s2, j + d) == blank_end(s1, j) + d,
    decreases s1.len() - j,
{
    lemma_blank_end_bounds(s1, j);
    if j < hi {
        if is_blank(s1[j]) {
            lemma_blank_end_local(s1, s2, d, hi, j + 1);
        } else if s1[j] == PERCENT {
            let m = line_end(s1, j + 1);
            lemma_line_end_bounds(s1, j + 1);
            lemma_blank_end_bounds(s1, m);
            lemma_line_end_local(s1, s2, d, hi, j + 1);
            lemma_blank_end_local(s1, s2, d, hi, m);
        }
    }
}

/// A header's line ends in both inputs at the same byte.
pub proof fn lemma_ket_end_local(s1: Seq<u8>, s2: Seq<u8>, d: int, hi: int, j: int)
    requires
        local(s1, s2, d, hi, j, ket_end(s1, j)),
    ensures
        ket_end(s2, j + d) == ket_end(s1, j) + d,
    decreases s1.len() - j,
{
    lemma_ket_end_bounds(s1, j);
    if j < hi {
        if is_ket(s1[j]) {
            lemma_ket_end_local(s1, s2, d, hi, j + 1);
        } else if s1[j] == PERCENT {
            lemma_line_end_local(s1, s2, d, hi, j + 1);
        }
    }
}

/// A quoted value ends in both inputs at the same byte.
pub proof fn lemma_value_end_local(s1: Seq<u8>, s2: Seq<u8>, d: int, hi: int, j: int)
    requires
        local(s1, s2, d, hi, j, value_end(s1, j)),
    ensures
        value_end(s2, j + d) == value_end(s1, j) + d,
    decreases s1.len() - j,
{
    lemma_value_end_bounds(s1, j);
    if j < hi && s1[j] != QUOTE && s1[j] != NEWLINE {
        if s1[j] != BACKSLASH {
            lemma_value_end_local(s1, s2, d, hi, j + 1);
        } else if j + 1 < s1.len() {
            lemma_value_end_bounds(s1, j + 2);
            lemma_value_end_local(s1, s2, d, hi, j + 2);
        }
    }
}

/// A header record is the same in both inputs, and ends at the same byte.
pub proof fn lemma_header_local(s1: Seq<u8>, s2: Seq<u8>, d: int, hi: int, j: int)
    requires
        local(s1, s2, d, hi, j, header_next(s1, j)),
        j < s1.len(),
    ensures
        header_next(s2, j + d) == header_next(s1, j) + d,
        header_event(s2, j + d) == header_event(s1, j),
{
    lemma_next_of_bounds(s1, j + 1, QUOTE, NEWLINE, NEWLINE);
    let q = quote_pos(s1, j);
    if q < s1.len() && s1[q] != NEWLINE {
        lemma_value_end_bounds(s1, q + 1);
        let e = value_end(s1, q + 1);
        lemma_ket_end_bounds(s1, e);
        if e < s1.len() {
            lemma_ket_end_bounds(s1, e + 1);
        }
    }
    lemma_next_of_local(s1, s2, d, hi, j + 1, QUOTE, NEWLINE, NEWLINE);
    if q < s1.len() {
        if s1[q] == NEWLINE {
            lemma_same_stretch(s1, s2, d, hi, j + 1, q);
        } else {
            let e = value_end(s1, q + 1);
            let c = if e < s1.len() && s1[e] == QUOTE {
                e + 1
            } else {
                e
            };
            lemma_value_end_local(s1, s2, d, hi, q + 1);
            lemma_ket_end_local(s1, s2, d, hi, c);
            let k = if q > j + 1 && s1[q - 1] == SPACE {
                q - 1
            } else {
                q
            };
            lemma_same_stretch(s1, s2, d, hi, j + 1, k);
            lemma_same_stretch(s1, s2, d, hi, q + 1, e);
        }
    }
}

/// The headers are the same in both inputs, and end at the same byte.
pub proof fn lemma_headers_local(s1: Seq<u8>, s2: Seq<u8>, d: int, hi: int, j: int)
    requires
        local(s1, s2, d, hi, j, headers_end(s1, j)),
    ensures
        headers_end(s2, j + d) == headers_end(s1, j) + d,
        header_events(s2, j + d) == header_events(s1, j),
    decreases s1.len() - j,
{
    lemma_headers_end_bounds(s1, j);
    if j < hi {
        if s1[j] == OPEN_BRACKET {
            lemma_header_next_advances(s1, j);
            lemma_headers_end_bounds(s1, header_next(s1, j));
            lemma_header_local(s1, s2, d, hi, j);
            lemma_headers_local(s1, s2, d, hi, header_next(s1, j));
        } else if s1[j] == PERCENT {
            lemma_line_end_bounds(s1, j);
            lemma_headers_end_bounds(s1, line_end(s1, j));
            lemma_line_end_local(s1, s2, d, hi, j);
            lemma_headers_local(s1, s2, d, hi, line_end(s1, j));
        }
    }
}

/// A comment in braces ends in both inputs at the same byte.
pub proof fn lemma_after_brace_local(s1: Seq<u8>, s2: Seq<u8>, d: int, hi: int, j: int)
    requires
        local(s1, s2, d, hi, j + 1, after_brace(s1, j)),
        0 <= j,
    ensures
        after_brace(s2, j + d) == after_brace(s1, j) + d,
        next_byte(s2, j + 1 + d, CLOSE_BRACE) == next_byte(s1, j + 1, CLOSE_BRACE) + d,
{
    lemma_next_of_local(s1, s2, d, hi, j + 1, CLOSE_BRACE, CLOSE_BRACE, CLOSE_BRACE);
}

/// The position at which reading stops or goes on after the newline at
/// `j`.
pub open spec fn newline_next(s: Seq<u8>, j: int) -> int {
    if ends_movetext(s, j) {
        movetext_stop(s, j)
    } else {
        after_newline(s, j)
    }
}

/// A newline in the movetext means the same in both inputs.
pub proof fn lemma_newline_local(s1: Seq<u8>, s2: Seq<u8>, d: int, hi: int, j: int)
    requires
        local(s1, s2, d, hi, j, newline_next(s1, j)),
        j < hi,
    ensures
        ends_movetext(s2, j + d) == ends_movetext(s1, j),
        newline_next(s2, j + d) == newline_next(s1, j) + d,
        j < newline_next(s1, j) <= s1.len(),
{
    if j + 1 < s1.len() && s1[j + 1] == PERCENT {
        lemma_next_of_bounds(s1, j + 1, NEWLINE, NEWLINE, NEWLINE);
    }
    if j + 1 < hi && s1[j + 1] == PERCENT {
        lemma_next_of_local(s1, s2, d, hi, j + 1, NEWLINE, NEWLINE, NEWLINE);
    }
}

/// The movetext ends in both inputs at the same byte.
pub proof fn lemma_movetext_end_local(s1: Seq<u8>, s2: Seq<u8>, d: int, hi: int, j: int)
    requires
        local(s1, s2, d, hi, j, movetext_end(s1, j)),
    ensures
        movetext_end(s2, j + d) == movetext_end(s1, j) + d,
    decreases s1.len() - j,
{
    lemma_movetext_end_bounds(s1, j);
    if j < hi {
        if s1[j] == OPEN_BRACE {
            lemma_next_of_bounds(s1, j + 1, CLOSE_BRACE, CLOSE_BRACE, CLOSE_BRACE);
            lemma_movetext_end_bounds(s1, after_brace(s1, j));
            lemma_after_brace_local(s1, s2, d, hi, j);
            lemma_movetext_end_local(s1, s2, d, hi, after_brace(s1, j));
        } else if s1[j] == SEMICOLON {
            let m = next_byte(s1, j + 1, NEWLINE);
            lemma_next_of_bounds(s1, j + 1, NEWLINE, NEWLINE, NEWLINE);
            lemma_movetext_end_bounds(s1, m);
            lemma_next_of_local(s1, s2, d, hi, j + 1, NEWLINE, NEWLINE, NEWLINE);
            lemma_movetext_end_local(s1, s2, d, hi, m);
        } else if s1[j] == NEWLINE {
            if !ends_movetext(s1, j) {
                if j + 1 < s1.len() && s1[j + 1] == PERCENT {
                    lemma_next_of_bounds(s1, j + 1, NEWLINE, NEWLINE, NEWLINE);
                }
                lemma_movetext_end_bounds(s1, after_newline(s1, j));
                lemma_newline_local(s1, s2, d, hi, j);
                lemma_movetext_end_local(s1, s2, d, hi, after_newline(s1, j));
            }
        } else {
            lemma_movetext_end_local(s1, s2, d, hi, j + 1);
        }
    }
}

/// A token ends in both inputs at the same byte.
pub proof fn lemma_token_end_local(s1: Seq<u8>, s2: Seq<u8>, d: int, hi: int, j: int)
    requires
        local(s1, s2, d, hi, j, token_end(s1, j)),
    ensures
        token_end(s2, j + d) == token_end(s1, j) + d,
    decreases s1.len() - j,
{
    lemma_token_end_bounds(s1, j);
    if j < hi && is_token_byte(s1[j]) {
        lemma_token_end_local(s1, s2, d, hi, j + 1);
    }
}

/// Passing over a variation stops in both inputs at the same byte.
pub proof fn lemma_variation_end_local(
    s1: Seq<u8>,
    s2: Seq<u8>,
    d: int,
    hi: int,
    j: int,
    depth: nat,
)
    requires
        local(s1, s2, d, hi, j, movetext_end(s1, j)),
    ensures
        variation_end(s2, j + d, depth) == variation_end(s1, j, depth) + d,
    decreases s1.len() - j,
{
    lemma_movetext_end_bounds(s1, j);
    if j < hi {
        if s1[j] == OPEN_PAREN {
            lemma_variation_end_local(s1, s2, d, hi, j + 1, depth + 1);
        } else if s1[j] == CLOSE_PAREN {
            if depth > 0 {
                lemma_variation_end_local(s1, s2, d, hi, j + 1, (depth - 1) as nat);
            }
        } else if s1[j] == OPEN_BRACE {
            lemma_next_of_bounds(s1, j + 1, CLOSE_BRACE, CLOSE_BRACE, CLOSE_BRACE);
            lemma_movetext_end_bounds(s1, after_brace(s1, j));
            lemma_after_brace_local(s1, s2, d, hi, j);
            lemma_variation_end_local(s1, s2, d, hi, after_brace(s1, j), depth);
        } else if s1[j] == SEMICOLON {
            let m = next_byte(s1, j + 1, NEWLINE);
            lemma_next_of_bounds(s1, j + 1, NEWLINE, NEWLINE, NEWLINE);
            lemma_movetext_end_bounds(s1, m);
            lemma_next_of_local(s1, s2, d, hi, j + 1, NEWLINE, NEWLINE, NEWLINE);
            lemma_variation_end_local(s1, s2, d, hi, m, depth);
        } else if s1[j] == NEWLINE {
            if !ends_movetext(s1, j) {
                if j + 1 < s1.len() && s1[j + 1] == PERCENT {
                    lemma_next_of_bounds(s1, j + 1, NEWLINE, NEWLINE, NEWLINE);
                }
                lemma_movetext_end_bounds(s1, after_newline(s1, j));
                lemma_newline_local(s1, s2, d, hi, j);
                lemma_variation_end_local(s1, s2, d, hi, after_newline(s1, j), depth);
            }
        } else {
            lemma_variation_end_local(s1, s2, d, hi, j + 1, depth);
        }
    }
}

/// A step of reading the movetext reports the same and leads to the same
/// byte in both inputs.
pub proof fn lemma_movetext_step_local(
    s1: Seq<u8>,
    s2: Seq<u8>,
    d: int,
    hi: int,
    j: int,
    skip: bool,
)
    requires
        local(s1, s2, d, hi, j, movetext_end(s1, j)),
    ensures
        movetext_over(s2, j + d) == movetext_over(s1, j),
        !movetext_over(s1, j) ==> {
            let next = movetext_step(s1, j, skip).1;
            &&& movetext_step(s2, j + d, skip).0 == movetext_step(s1, j, skip).0
            &&& movetext_step(s2, j + d, skip).1 == next + d
            &&& local(s1, s2, d, hi, next, movetext_end(s1, next))
        },
{
    lemma_movetext_end_bounds(s1, j);
    if j < hi {
        if s1[j] == NEWLINE {
            if !ends_movetext(s1, j) {
                lemma_movetext_step_advances(s1, j, skip);
                lemma_movetext_end_bounds(s1, after_newline(s1, j));
            }
            lemma_newline_local(s1, s2, d, hi, j);
        } else {
            lemma_movetext_step_advances(s1, j, skip);
            let next = movetext_step(s1, j, skip).1;
            lemma_movetext_end_bounds(s1, next);
            if s1[j] == OPEN_BRACE {
                lemma_next_of_bounds(s1, j + 1, CLOSE_BRACE, CLOSE_BRACE, CLOSE_BRACE);
                lemma_after_brace_local(s1, s2, d, hi, j);
                lemma_same_stretch(s1, s2, d, hi, j + 1, next_byte(s1, j + 1, CLOSE_BRACE));
            } else if s1[j] == SEMICOLON {
                lemma_next_of_local(s1, s2, d, hi, j + 1, NEWLINE, NEWLINE, NEWLINE);
                lemma_same_stretch(s1, s2, d, hi, j + 1, next);
            } else if s1[j] == OPEN_PAREN {
                lemma_variation_end_local(s1, s2, d, hi, j + 1, 0);
            } else if is_token_byte(s1[j]) {
                lemma_token_end_local(s1, s2, d, hi, j);
                lemma_same_stretch(s1, s2, d, hi, j, next);
            }
        }
    }
}

/// The movetext gives rise to the same calls in both inputs.
pub proof fn lemma_movetext_trace_local(
    s1: Seq<u8>,
    s2: Seq<u8>,
    d: int,
    hi: int,
    j: int,
    t: Seq<Event>,
)
    requires
        local(s1, s2, d, hi, j, movetext_end(s1, j)),
    ensures
        movetext_trace(s2, j + d, t) == movetext_trace(s1, j, t),
    decreases s1.len() - j,
{
    let skip = t.len() > 0 && t[0] == (Event::BeginVariation { skip: true });
    lemma_movetext_step_local(s1, s2, d, hi, j, skip);
    if !movetext_over(s1, j) {
        lemma_movetext_step_advances(s1, j, skip);
        let next = movetext_step(s1, j, skip).1;
        match movetext_step(s1, j, skip).0 {
            Some(e) => lemma_movetext_trace_local(s1, s2, d, hi, next, t.skip(1)),
            None => lemma_movetext_trace_local(s1, s2, d, hi, next, t),
        }
    }
}

/// A game is found at the same place in both inputs, and ends at the same
/// place.
pub proof fn lemma_game_end_local(
    s1: Seq<u8>,
    s2: Seq<u8>,
    d: int,
    hi: int,
    j: int,
    started: bool,
)
    requires
        local(s1, s2, d, hi, j, game_end(s1, j, started)),
    ensures
        game_start(s2, j + d, started) == game_start(s1, j, started) + d,
        has_game(s2, j + d, started) == has_game(s1, j, started),
        game_end(s2, j + d, started) == game_end(s1, j, started) + d,
        local(s1, s2, d, hi, game_start(s1, j, started), game_end(s1, j, started)),
{
    lemma_bom_local(s1, s2, d, hi, j, started);
    let b = if !started && has_bom_at(s1, j) {
        j + 3
    } else {
        j
    };
    lemma_blank_end_bounds(s1, b);
    let a = game_start(s1, j, started);
    if a < s1.len() {
        lemma_headers_end_bounds(s1, a);
        let h = headers_end(s1, a);
        lemma_movetext_end_bounds(s1, h);
        let m = movetext_end(s1, h);
        lemma_blank_end_bounds(s1, m);
        lemma_blank_end_local(s1, s2, d, hi, b);
        lemma_headers_local(s1, s2, d, hi, a);
        lemma_movetext_end_local(s1, s2, d, hi, h);
        lemma_blank_end_local(s1, s2, d, hi, m);
    } else {
        lemma_blank_end_local(s1, s2, d, hi, b);
    }
}

/// A byte order mark stands at `j` in both inputs or in neither.
pub proof fn lemma_bom_local(s1: Seq<u8>, s2: Seq<u8>, d: int, hi: int, j: int, started: bool)
    requires
        local(s1, s2, d, hi, j, game_end(s1, j, started)),
    ensures
        !started ==> has_bom_at(s2, j + d) == has_bom_at(s1, j),
        !started && has_bom_at(s1, j) ==> j + 3 <= hi,
{
    lemma_game_end_bounds(s1, j, started);
    if !started {
        if has_bom_at(s1, j) {
            lemma_blank_end_bounds(s1, j + 3);
        } else if has_bom_at(s2, j + d) {
            lemma_bom_is_passed(s1, j);
        }
    }
}

/// Whether `b` is the first or the second byte of a byte order mark.
pub open spec fn is_bom_byte(b: u8) -> bool {
    b == BOM_FIRST || b == BOM_SECOND
}

/// A game that starts with the first bytes of a byte order mark does not
/// end before them.
pub proof fn lemma_bom_is_passed(s: Seq<u8>, j: int)
    requires
        0 <= j <= s.len(),
        !has_bom_at(s, j),
    ensures
        j < s.len() && is_bom_byte(s[j]) ==> game_end(s, j, false) >= j + 1,
        j + 1 < s.len() && s[j] == BOM_FIRST && s[j + 1] == BOM_SECOND ==> game_end(s, j, false)
            >= j + 2,
{
    if j < s.len() && is_bom_byte(s[j]) {
        let a = game_start(s, j, false);
        lemma_movetext_end_bounds(s, j + 1);
        lemma_blank_end_bounds(s, movetext_end(s, j));
        if j + 1 < s.len() && s[j + 1] == BOM_SECOND {
            lemma_movetext_end_bounds(s, j + 2);
        }
    }
}

/// The calls of a game are the same for both inputs.
pub proof fn lemma_game_trace_local(
    s1: Seq<u8>,
    s2: Seq<u8>,
    d: int,
    hi: int,
    a: int,
    t: Seq<Event>,
)
    requires
        a < s1.len(),
        local(s1, s2, d, hi, a, blank_end(s1, movetext_end(s1, headers_end(s1, a)))),
    ensures
        game_trace(s2, a + d, t) == game_trace(s1, a, t),
{
    lemma_headers_end_bounds(s1, a);
    let h = headers_end(s1, a);
    lemma_movetext_end_bounds(s1, h);
    lemma_blank_end_bounds(s1, movetext_end(s1, h));
    lemma_headers_local(s1, s2, d, hi, a);
    let n = header_events(s1, a).len() as int + 2;
    if t.len() >= n + 2 {
        lemma_movetext_trace_local(s1, s2, d, hi, h, t.subrange(n + 1, t.len() - 1));
    }
}

} // verus!
