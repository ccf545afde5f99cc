//! What holds of the notation and of the readers for every input.

use vstd::prelude::*;
use crate::bytes::{
    BACKSLASH, CLOSE_BRACKET, NEWLINE, OPEN_BRACKET, OPEN_PAREN, PERCENT, QUOTE, SPACE,
};
use crate::grammar::{
    blank_end, game_end, game_start, game_trace, has_bom_at, has_game, header_event, header_events,
    header_next, headers_end, is_blank, lemma_blank_end_bounds, lemma_game_end_bounds,
    lemma_header_next_advances, lemma_headers_end_bounds, lemma_line_end_bounds,
    lemma_movetext_end_bounds, lemma_movetext_step_advances, lemma_value_end_bounds,
    lemma_value_end_plain_run, line_end, movetext_end, movetext_over, movetext_step, movetext_trace,
    quote_pos, skipped_game_trace, value_end,
};
use crate::locality::{agree, lemma_game_end_local, lemma_game_trace_local};
use crate::search::lemma_next_of_is_first;
use crate::escape::{has_escape, is_escape_at, lemma_unescape_without_escape, unescape};
use crate::types::{clock_of, clock_prefix};
use crate::visitor::Event;

verus! {

/// A header as it is written: `[`, the key, a space, and the value in
/// quotes, then `]`.
pub open spec fn written_header(key: Seq<u8>, value: Seq<u8>) -> Seq<u8> {
    seq![OPEN_BRACKET] + key + seq![SPACE, QUOTE] + value + seq![QUOTE, CLOSE_BRACKET]
}

/// A header that is written with a value free of backslashes is reported
/// with that key and that value, and decoding the value gives it back byte
/// for byte.
pub proof fn lemma_header_round_trip(s: Seq<u8>, i: int, key: Seq<u8>, value: Seq<u8>)
    requires
        0 <= i,
        i + written_header(key, value).len() <= s.len(),
        s.subrange(i, i + written_header(key, value).len()) == written_header(key, value),
        forall|k: int| 0 <= k < key.len() ==> key[k] != QUOTE && key[k] != NEWLINE,
        forall|k: int|
            0 <= k < value.len() ==> value[k] != BACKSLASH && value[k] != QUOTE && value[k]
                != NEWLINE,
    ensures
        header_event(s, i) == Some(Event::Header { key, value }),
        unescape(value) == value,
{
    let w = written_header(key, value);
    let kl = key.len() as int;
    let vl = value.len() as int;
    let q = i + 1 + kl;
    assert forall|k: int| 0 <= k < w.len() implies s[i + k] == w[k] by {}
    assert(w[1 + kl] == SPACE);
    assert(w[2 + kl] == QUOTE);
    assert forall|j: int| i + 1 <= j < q + 1 implies s[j] != QUOTE && s[j] != NEWLINE by {
        if j < q {
            assert(w[j - i] == key[j - i - 1]);
        }
    }
    lemma_next_of_is_first(s, i + 1, q + 1, QUOTE, NEWLINE, NEWLINE);
    let e = q + 2 + vl;
    assert forall|j: int| q + 2 <= j < e implies s[j] != BACKSLASH && s[j] != QUOTE && s[j]
        != NEWLINE by {
        assert(w[j - i] == value[j - q - 2]);
    }
    assert(w[3 + kl + vl] == QUOTE);
    lemma_value_end_plain_run(s, q + 2, e);
    assert(s.subrange(i + 1, q) =~= key) by {
        assert forall|k: int| 0 <= k < key.len() implies s[i + 1 + k] == key[k] by {
            assert(w[1 + k] == key[k]);
        }
    }
    assert(s.subrange(q + 2, e) =~= value) by {
        assert forall|k: int| 0 <= k < value.len() implies s[q + 2 + k] == value[k] by {
            assert(w[3 + kl + k] == value[k]);
        }
    }
    assert(!has_escape(value)) by {
        assert forall|k: int| !is_escape_at(value, k) by {}
    }
    lemma_unescape_without_escape(value, 0);
}

/// A header whose value lacks its closing quote ends with its line: the
/// value is what stands before the newline, and the headers go on with the
/// next line.
pub proof fn lemma_unclosed_header_ends_with_its_line(s: Seq<u8>, i: int)
    requires
        0 <= i < s.len(),
        s[i] == OPEN_BRACKET,
        quote_pos(s, i) < s.len(),
        s[quote_pos(s, i)] == QUOTE,
        value_end(s, quote_pos(s, i) + 1) < s.len(),
        s[value_end(s, quote_pos(s, i) + 1)] == NEWLINE,
    ensures
        header_event(s, i) is Some,
        header_event(s, i).unwrap()->Header_value == s.subrange(
            quote_pos(s, i) + 1,
            value_end(s, quote_pos(s, i) + 1),
        ),
        header_events(s, i) == seq![header_event(s, i).unwrap()] + header_events(
            s,
            value_end(s, quote_pos(s, i) + 1) + 1,
        ),
        headers_end(s, i) == headers_end(s, value_end(s, quote_pos(s, i) + 1) + 1),
{
    lemma_value_end_bounds(s, quote_pos(s, i) + 1);
}

/// Input that holds blanks alone holds no game, and a reader consumes all
/// of it.
pub proof fn lemma_blank_input_has_no_game(s: Seq<u8>, started: bool)
    requires
        forall|k: int| 0 <= k < s.len() ==> is_blank(#[trigger] s[k]),
    ensures
        !has_game(s, 0, started),
        game_end(s, 0, started) == s.len(),
{
    lemma_blank_run(s, 0);
}

/// A stretch of blanks that runs to the end of the input is passed over.
pub proof fn lemma_blank_run(s: Seq<u8>, i: int)
    requires
        0 <= i <= s.len(),
        forall|k: int| i <= k < s.len() ==> is_blank(#[trigger] s[k]),
    ensures
        blank_end(s, i) == s.len(),
    decreases s.len() - i,
{
    if i < s.len() {
        lemma_blank_run(s, i + 1);
    }
}

/// A game that is found is not empty: reading it moves the reader on, so
/// that reading game after game comes to an end.
pub proof fn lemma_game_moves_on(s: Seq<u8>, i: int, started: bool)
    requires
        0 <= i <= s.len(),
        has_game(s, i, started),
    ensures
        i < game_end(s, i, started) <= s.len(),
{
    lemma_game_end_bounds(s, i, started);
    let a = game_start(s, i, started);
    let h = headers_end(s, a);
    lemma_headers_end_bounds(s, a);
    lemma_movetext_end_bounds(s, h);
    lemma_blank_end_bounds(s, movetext_end(s, h));
    if h == a {
        lemma_blank_end_stops(
            s,
            if !started && has_bom_at(s, i) {
                i + 3
            } else {
                i
            },
        );
        lemma_movetext_step_advances(s, a, true);
        lemma_movetext_end_bounds(s, movetext_step(s, a, true).1);
    }
}

/// Where blanks end within the input, something else than a blank or a `%`
/// stands.
pub proof fn lemma_blank_end_stops(s: Seq<u8>, i: int)
    requires
        0 <= i <= s.len(),
    ensures
        blank_end(s, i) < s.len() ==> !is_blank(s[blank_end(s, i)]) && s[blank_end(s, i)]
            != PERCENT,
    decreases s.len() - i,
{
    if i < s.len() {
        if is_blank(s[i]) {
            lemma_blank_end_stops(s, i + 1);
        } else if s[i] == PERCENT {
            lemma_line_end_bounds(s, i + 1);
            lemma_blank_end_stops(s, line_end(s, i + 1));
        }
    }
}

/// A visitor that skips the movetext gets no call between the end of the
/// headers and the end of the game.
pub proof fn lemma_skipped_movetext_is_silent(s: Seq<u8>, a: int, t: Seq<Event>)
    requires
        game_trace(s, a, t),
        t[header_events(s, a).len() as int + 2]->EndHeaders_skip,
    ensures
        t == skipped_game_trace(s, a),
{
    let head = seq![Event::BeginGame, Event::BeginHeaders] + header_events(s, a);
    assert(t =~= skipped_game_trace(s, a)) by {
        assert forall|k: int| 0 <= k < head.len() implies t[k] == head[k] by {}
    }
}

/// Whatever does not start with the seven bytes ` [%clk ` is no clock
/// comment.
pub proof fn lemma_clock_needs_its_prefix(s: Seq<u8>)
    requires
        s.len() < 7 || s.subrange(0, 7) != clock_prefix(),
    ensures
        clock_of(s) is None,
{
}

/// A reader that holds a stretch `w` of a longer input reads the next game
/// from it as a reader of the whole input does, at the place `p` where the
/// stretch lies, if the game ends before the stretch does or the stretch
/// runs to the end of the input: the game is found or not, starts and ends
/// at the same bytes, and gives rise to the same calls.
pub proof fn lemma_stretch_reads_like_whole(
    input: Seq<u8>,
    p: int,
    w: Seq<u8>,
    started: bool,
    t: Seq<Event>,
)
    requires
        0 <= p,
        p + w.len() <= input.len(),
        w == input.subrange(p, p + w.len()),
        game_end(w, 0, started) < w.len() || p + w.len() == input.len(),
    ensures
        has_game(input, p, started) == has_game(w, 0, started),
        game_start(input, p, started) == p + game_start(w, 0, started),
        game_end(input, p, started) == p + game_end(w, 0, started),
        has_game(w, 0, started) ==> game_trace(input, game_start(input, p, started), t)
            == game_trace(w, game_start(w, 0, started), t),
{
    let hi = w.len() as int;
    assert(agree(w, input, p, hi)) by {
        assert forall|k: int| 0 <= k < hi && 0 <= k + p implies #[trigger] w[k] == input[k
            + p] by {}
    }
    lemma_game_end_local(w, input, p, hi, 0, started);
    if has_game(w, 0, started) {
        lemma_game_trace_local(w, input, p, hi, game_start(w, 0, started), t);
    }
}

/// What the visitor answered, in the order of the calls: whether to skip
/// the movetext, and whether to skip each variation that it was asked
/// about.
pub open spec fn answers(t: Seq<Event>) -> Seq<bool>
    decreases t.len(),
{
    if t.len() == 0 {
        Seq::empty()
    } else {
        match t[0] {
            Event::EndHeaders { skip } => seq![skip] + answers(t.skip(1)),
            Event::BeginVariation { skip } => seq![skip] + answers(t.skip(1)),
            _ => answers(t.skip(1)),
        }
    }
}

/// The answers in calls that follow one another follow one another.
pub proof fn lemma_answers_of_both(t: Seq<Event>, u: Seq<Event>)
    ensures
        answers(t + u) == answers(t) + answers(u),
    decreases t.len(),
{
    if t.len() > 0 {
        lemma_answers_of_both(t.skip(1), u);
        assert((t + u).skip(1) =~= t.skip(1) + u);
    }
}

/// Reporting the headers asks the visitor nothing.
pub proof fn lemma_headers_ask_nothing(s: Seq<u8>, i: int)
    ensures
        answers(header_events(s, i)) == Seq::<bool>::empty(),
    decreases s.len() - i,
{
    if 0 <= i < s.len() {
        if s[i] == OPEN_BRACKET {
            lemma_header_next_advances(s, i);
            lemma_headers_ask_nothing(s, header_next(s, i));
            match header_event(s, i) {
                Some(e) => {
                    let rest = header_events(s, header_next(s, i));
                    assert((seq![e] + rest).skip(1) =~= rest);
                },
                None => {},
            }
        } else if s[i] == PERCENT {
            lemma_line_end_bounds(s, i);
            lemma_headers_ask_nothing(s, line_end(s, i));
        }
    }
}

/// The movetext and the answers of the visitor leave one sequence of calls
/// only.
pub proof fn lemma_movetext_trace_is_determined(
    s: Seq<u8>,
    i: int,
    t: Seq<Event>,
    u: Seq<Event>,
)
    requires
        movetext_trace(s, i, t),
        movetext_trace(s, i, u),
        answers(t) == answers(u),
    ensures
        t == u,
    decreases s.len() - i,
{
    if !movetext_over(s, i) {
        let skip = t.len() > 0 && t[0] == (Event::BeginVariation { skip: true });
        if s[i] == OPEN_PAREN {
            assert(answers(t)[0] == t[0]->BeginVariation_skip);
        }
        lemma_movetext_step_advances(s, i, skip);
        let next = movetext_step(s, i, skip).1;
        match movetext_step(s, i, skip).0 {
            Some(e) => {
                assert(answers(t.skip(1)) =~= answers(u.skip(1))) by {
                    if s[i] == OPEN_PAREN {
                        assert(answers(t.skip(1)) =~= answers(t).skip(1));
                    }
                }
                lemma_movetext_trace_is_determined(s, next, t.skip(1), u.skip(1));
                assert(t =~= seq![e] + t.skip(1));
            },
            None => {
                lemma_movetext_trace_is_determined(s, next, t, u);
            },
        }
    }
}

/// A game and the answers of the visitor leave one sequence of calls only:
/// two readings of the game to which the visitor answers alike report
/// alike.
pub proof fn lemma_game_trace_is_determined(s: Seq<u8>, a: int, t: Seq<Event>, u: Seq<Event>)
    requires
        game_trace(s, a, t),
        game_trace(s, a, u),
        answers(t) == answers(u),
    ensures
        t == u,
{
    let h = header_events(s, a);
    let n = h.len() as int + 2;
    lemma_headers_ask_nothing(s, a);
    lemma_answers_of_both(seq![Event::BeginGame, Event::BeginHeaders], h);
    assert(answers(seq![Event::BeginGame, Event::BeginHeaders]) =~= Seq::<bool>::empty()) by {
        reveal_with_fuel(answers, 3);
    }
    lemma_split_game(t, n);
    lemma_split_game(u, n);
    let tm = t.subrange(n + 1, t.len() - 1);
    let um = u.subrange(n + 1, u.len() - 1);
    let x = answers(tm);
    let y = answers(um);
    assert((seq![t[n]->EndHeaders_skip] + x)[0] == (seq![u[n]->EndHeaders_skip] + y)[0]);
    assert(x =~= (seq![t[n]->EndHeaders_skip] + x).skip(1));
    assert(y =~= (seq![u[n]->EndHeaders_skip] + y).skip(1));
    if !t[n]->EndHeaders_skip {
        lemma_movetext_trace_is_determined(s, headers_end(s, a), tm, um);
    }
    assert(t =~= t.take(n) + seq![t[n]] + tm + seq![Event::EndGame]);
}

/// The answers in the calls of a game are the answer to the end of the
/// headers and then those in the calls of the movetext, if the calls
/// before the end of the headers hold none.
proof fn lemma_split_game(t: Seq<Event>, n: int)
    requires
        0 <= n,
        t.len() >= n + 2,
        t[n] is EndHeaders,
        t.last() == Event::EndGame,
        answers(t.take(n)) == Seq::<bool>::empty(),
    ensures
        answers(t) == seq![t[n]->EndHeaders_skip] + answers(t.subrange(n + 1, t.len() - 1)),
{
    let m = t.subrange(n + 1, t.len() - 1);
    let tail = seq![t[n]] + (m + seq![Event::EndGame]);
    assert(t =~= t.take(n) + tail);
    lemma_answers_of_both(t.take(n), tail);
    assert(tail.skip(1) =~= m + seq![Event::EndGame]);
    lemma_answers_of_both(m, seq![Event::EndGame]);
    assert(answers(seq![Event::EndGame]) =~= Seq::<bool>::empty()) by {
        reveal_with_fuel(answers, 2);
    }
}

} // verus!
