//! Reading games from bytes held in memory.

use vstd::prelude::*;
use vstd::slice::slice_subrange;
use crate::bytes::{
    BOM_FIRST, BOM_SECOND, BOM_THIRD, CLOSE_BRACE, CLOSE_BRACKET, CLOSE_PAREN, NEWLINE, OPEN_BRACE,
    OPEN_BRACKET, OPEN_PAREN, PERCENT, QUOTE, RETURN, SEMICOLON, SPACE, TAB,
};
use crate::grammar::{
    blank_end, game_end, game_start, game_trace, has_bom_at, has_game, header_events, headers_end,
    ket_end, lemma_header_next_advances, lemma_line_end_bounds, lemma_movetext_end_plain_run,
    lemma_movetext_step, lemma_movetext_step_advances, line_end, movetext_end, movetext_step,
    movetext_trace, skipped_game_trace, variation_end, with_first,
};
use crate::scan::{
    after_newline_at, find_token_end, find_value_end, is_token, only_digits_and_dots, parse_result,
};
use crate::search::{
    find_byte, find_byte2, find_byte3, lemma_next_of_bounds, lemma_next_of_skips, next_byte,
};
use crate::types::{Nag, Outcome, RawComment, RawHeader};
use crate::visitor::{Event, SkipVisitor, Visitor};

verus! {

/// A reader of the games in a slice of bytes.
///
/// The reader keeps a log of the calls that it makes to visitors. It calls
/// a visitor through its `report_` methods alone, each of which makes one
/// call and adds it to the log.
pub struct SliceReader<'a> {
    bytes: &'a [u8],
    pos: usize,
    started: bool,
    log: Ghost<Seq<Event>>,
}

impl<'a> SliceReader<'a> {
    /// The position lies within the input.
    #[verifier::type_invariant]
    spec fn in_bounds(&self) -> bool {
        self.pos <= self.bytes@.len()
    }

    /// The bytes that the reader was made for.
    pub closed spec fn input(&self) -> Seq<u8> {
        self.bytes@
    }

    /// How many bytes of the input the reader has consumed.
    pub closed spec fn position(&self) -> int {
        self.pos as int
    }

    /// Whether the reader has looked for a byte order mark.
    pub closed spec fn started(&self) -> bool {
        self.started
    }

    /// The calls that the reader has made to visitors, oldest first.
    pub closed spec fn log(&self) -> Seq<Event> {
        self.log@
    }

    /// Whether the reader differs from `before` in its position alone, which
    /// is `p`.
    pub open spec fn moved(&self, before: &Self, p: int) -> bool {
        &&& self.input() == before.input()
        &&& self.started() == before.started()
        &&& self.log() == before.log()
        &&& self.position() == p
    }

    /// Whether the reader has gone from `before` past one game, or has found
    /// that none is left: `found` tells which. The log has grown by the
    /// calls of the game.
    pub open spec fn has_read_game(&self, before: &Self, found: bool) -> bool {
        let s = before.input();
        let i = before.position();
        &&& self.input() == s
        &&& self.started()
        &&& self.position() == game_end(s, i, before.started())
        &&& found == has_game(s, i, before.started())
        &&& before.log().is_prefix_of(self.log())
        &&& if found {
            game_trace(
                s,
                game_start(s, i, before.started()),
                self.log().skip(before.log().len() as int),
            )
        } else {
            self.log() == before.log()
        }
    }

    /// A reader at the start of `bytes`.
    pub fn new(bytes: &'a [u8]) -> (r: SliceReader<'a>)
        ensures
            r.input() == bytes@,
            r.position() == 0,
            !r.started(),
            r.log() == Seq::<Event>::empty(),
    {
        SliceReader { bytes, pos: 0, started: false, log: Ghost(Seq::empty()) }
    }

    /// A reader at the start of `bytes` that goes on where another left
    /// off: it has looked for a byte order mark if `started` says so, and
    /// its log is `log`.
    pub(crate) fn resume(bytes: &'a [u8], started: bool, log: Ghost<Seq<Event>>) -> (r:
        SliceReader<'a>)
        ensures
            r.input() == bytes@,
            r.position() == 0,
            r.started() == started,
            r.log() == log@,
    {
        SliceReader { bytes, pos: 0, started, log }
    }

    /// The bytes that are left.
    pub fn buffer(&self) -> (r: &'a [u8])
        ensures
            0 <= self.position() <= self.input().len(),
            r@ == self.input().skip(self.position()),
    {
        proof {
            use_type_invariant(self);
        }
        slice_subrange(self.bytes, self.pos, self.bytes.len())
    }

    /// How many bytes are left.
    pub fn remaining(&self) -> (r: usize)
        ensures
            r == self.input().len() - self.position(),
    {
        proof {
            use_type_invariant(self);
        }
        self.bytes.len() - self.pos
    }

    /// Whether any byte is left.
    pub fn fill_buffer(&self) -> (r: bool)
        ensures
            r == (self.position() < self.input().len()),
    {
        self.pos < self.bytes.len()
    }

    /// Consumes `n` bytes.
    pub fn consume(&mut self, n: usize)
        requires
            n <= old(self).input().len() - old(self).position(),
        ensures
            final(self).moved(old(self), old(self).position() + n),
    {
        proof {
            use_type_invariant(&*self);
        }
        let end = self.bytes.len();
        assert(self.pos + n <= end);
        self.pos = self.pos + n;
    }

    /// Consumes all that is left.
    pub fn consume_all(&mut self)
        ensures
            final(self).moved(old(self), old(self).input().len() as int),
    {
        let n = self.remaining();
        self.consume(n);
    }

    /// The next byte, if one is left.
    pub open spec fn spec_peek(&self) -> Option<u8> {
        if 0 <= self.position() < self.input().len() {
            Some(self.input()[self.position()])
        } else {
            None
        }
    }

    /// The next byte, if one is left.
    #[verifier::when_used_as_spec(spec_peek)]
    pub fn peek(&self) -> (r: Option<u8>)
        ensures
            r == self.spec_peek(),
    {
        if self.pos < self.bytes.len() {
            Some(self.bytes[self.pos])
        } else {
            None
        }
    }

    /// Consumes the next byte, if one is left, and returns it.
    pub fn bump(&mut self) -> (r: Option<u8>)
        ensures
            r == old(self).peek(),
            final(self).moved(
                old(self),
                if r is Some {
                    old(self).position() + 1
                } else {
                    old(self).position()
                },
            ),
    {
        let head = self.peek();
        if head.is_some() {
            self.consume(1);
        }
        head
    }

    /// Whether the reader differs from `before` in its log alone, which has
    /// grown by the call `e`.
    pub open spec fn logged(&self, before: &Self, e: Event) -> bool {
        &&& self.input() == before.input()
        &&& self.started() == before.started()
        &&& self.position() == before.position()
        &&& self.log() == before.log().push(e)
    }

    /// Calls `begin_game` and logs the call.
    fn report_begin_game<V: Visitor>(&mut self, visitor: &mut V)
        ensures
            final(self).logged(old(self), Event::BeginGame),
    {
        visitor.begin_game();
        proof {
            use_type_invariant(&*self);
            self.log = Ghost(self.log@.push(Event::BeginGame));
        }
    }

    /// Calls `begin_headers` and logs the call.
    fn report_begin_headers<V: Visitor>(&mut self, visitor: &mut V)
        ensures
            final(self).logged(old(self), Event::BeginHeaders),
    {
        visitor.begin_headers();
        proof {
            use_type_invariant(&*self);
            self.log = Ghost(self.log@.push(Event::BeginHeaders));
        }
    }

    /// Calls `header` and logs the call.
    fn report_header<V: Visitor>(&mut self, visitor: &mut V, key: &[u8], value: &[u8])
        ensures
            final(self).logged(old(self), Event::Header { key: key@, value: value@ }),
    {
        visitor.header(key, RawHeader(value));
        proof {
            use_type_invariant(&*self);
            self.log = Ghost(self.log@.push(Event::Header { key: key@, value: value@ }));
        }
    }

    /// Calls `end_headers` and logs the call and its answer.
    fn report_end_headers<V: Visitor>(&mut self, visitor: &mut V) -> (skip: bool)
        ensures
            final(self).logged(old(self), Event::EndHeaders { skip }),
    {
        let skip = visitor.end_headers().0;
        proof {
            use_type_invariant(&*self);
            self.log = Ghost(self.log@.push(Event::EndHeaders { skip }));
        }
        skip
    }

    /// Calls `end_headers` of the visitor that skips, and logs the call and
    /// its answer.
    fn report_skipped_headers(&mut self, visitor: &mut SkipVisitor)
        ensures
            final(self).logged(old(self), Event::EndHeaders { skip: true }),
    {
        let skip = visitor.end_headers().0;
        proof {
            use_type_invariant(&*self);
            self.log = Ghost(self.log@.push(Event::EndHeaders { skip }));
        }
    }

    /// Calls `san` and logs the call.
    fn report_san<V: Visitor>(&mut self, visitor: &mut V, token: &[u8])
        ensures
            final(self).logged(old(self), Event::San { token: token@ }),
    {
        visitor.san(token);
        proof {
            use_type_invariant(&*self);
            self.log = Ghost(self.log@.push(Event::San { token: token@ }));
        }
    }

    /// Calls `nag` and logs the call.
    fn report_nag<V: Visitor>(&mut self, visitor: &mut V, nag: Nag)
        ensures
            final(self).logged(old(self), Event::Nag { nag: nag.0 }),
    {
        visitor.nag(nag);
        proof {
            use_type_invariant(&*self);
            self.log = Ghost(self.log@.push(Event::Nag { nag: nag.0 }));
        }
    }

    /// Calls `comment` and logs the call.
    fn report_comment<V: Visitor>(&mut self, visitor: &mut V, text: &[u8])
        ensures
            final(self).logged(old(self), Event::Comment { text: text@ }),
    {
        visitor.comment(RawComment(text));
        proof {
            use_type_invariant(&*self);
            self.log = Ghost(self.log@.push(Event::Comment { text: text@ }));
        }
    }

    /// Calls `begin_variation` and logs the call and its answer.
    fn report_begin_variation<V: Visitor>(&mut self, visitor: &mut V) -> (skip: bool)
        ensures
            final(self).logged(old(self), Event::BeginVariation { skip }),
    {
        let skip = visitor.begin_variation().0;
        proof {
            use_type_invariant(&*self);
            self.log = Ghost(self.log@.push(Event::BeginVariation { skip }));
        }
        skip
    }

    /// Calls `end_variation` and logs the call.
    fn report_end_variation<V: Visitor>(&mut self, visitor: &mut V)
        ensures
            final(self).logged(old(self), Event::EndVariation),
    {
        visitor.end_variation();
        proof {
            use_type_invariant(&*self);
            self.log = Ghost(self.log@.push(Event::EndVariation));
        }
    }

    /// Calls `outcome` and logs the call.
    fn report_outcome<V: Visitor>(&mut self, visitor: &mut V, outcome: Option<Outcome>)
        ensures
            final(self).logged(old(self), Event::Outcome { outcome }),
    {
        visitor.outcome(outcome);
        proof {
            use_type_invariant(&*self);
            self.log = Ghost(self.log@.push(Event::Outcome { outcome }));
        }
    }

    /// Calls `end_game` and logs the call.
    fn report_end_game<V: Visitor>(&mut self, visitor: &mut V) -> (r: V::Result)
        ensures
            final(self).logged(old(self), Event::EndGame),
    {
        let result = visitor.end_game();
        proof {
            use_type_invariant(&*self);
            self.log = Ghost(self.log@.push(Event::EndGame));
        }
        result
    }

    /// Consumes a byte order mark, if the reader has not looked for one yet
    /// and one comes next.
    pub fn skip_bom(&mut self)
        ensures
            final(self).input() == old(self).input(),
            final(self).log() == old(self).log(),
            final(self).started(),
            final(self).position() == if !old(self).started() && has_bom_at(
                old(self).input(),
                old(self).position(),
            ) {
                old(self).position() + 3
            } else {
                old(self).position()
            },
    {
        proof {
            use_type_invariant(&*self);
        }
        if !self.started {
            self.started = true;
            let bytes = self.bytes;
            let i = self.pos;
            if bytes.len() - i >= 3 && bytes[i] == BOM_FIRST && bytes[i + 1] == BOM_SECOND
                && bytes[i + 2] == BOM_THIRD {
                self.pos = i + 3;
            }
        }
    }

    /// Consumes up to the first `needle`, or all that is left if there is
    /// none.
    pub fn skip_until(&mut self, needle: u8)
        ensures
            final(self).moved(
                old(self),
                next_byte(old(self).input(), old(self).position(), needle),
            ),
            old(self).position() <= final(self).position() <= old(self).input().len(),
    {
        proof {
            use_type_invariant(&*self);
        }
        self.pos = find_byte(self.bytes, self.pos, needle);
    }

    /// Consumes the rest of the line and the newline that ends it.
    pub fn skip_line(&mut self)
        ensures
            final(self).moved(old(self), line_end(old(self).input(), old(self).position())),
    {
        self.skip_until(NEWLINE);
        self.bump();
    }

    /// Consumes blanks and the lines that a `%` hides.
    pub fn skip_whitespace(&mut self)
        ensures
            final(self).moved(old(self), blank_end(old(self).input(), old(self).position())),
    {
        proof {
            use_type_invariant(&*self);
        }
        let n = self.bytes.len();
        let ghost start = *self;
        loop
            invariant
                n == self.bytes@.len(),
                self.pos <= n,
                self.moved(&start, self.pos as int),
                blank_end(self.bytes@, self.pos as int) == blank_end(
                    start.input(),
                    start.position(),
                ),
            ensures
                self.moved(&start, blank_end(start.input(), start.position())),
            decreases n - self.pos,
        {
            if self.pos >= n {
                break ;
            }
            let ch = self.bytes[self.pos];
            if ch == SPACE || ch == TAB || ch == RETURN || ch == NEWLINE {
                self.pos = self.pos + 1;
            } else if ch == PERCENT {
                self.pos = self.pos + 1;
                proof {
                    lemma_line_end_bounds(self.bytes@, self.pos as int);
                }
                self.skip_line();
            } else {
                break ;
            }
        }
    }

    /// Consumes what may follow a header's value on its line, and the
    /// newline.
    pub fn skip_ket(&mut self)
        ensures
            final(self).moved(old(self), ket_end(old(self).input(), old(self).position())),
    {
        proof {
            use_type_invariant(&*self);
        }
        let n = self.bytes.len();
        let ghost start = *self;
        loop
            invariant_except_break
                ket_end(self.bytes@, self.pos as int) == ket_end(start.input(), start.position()),
            invariant
                n == self.bytes@.len(),
                self.pos <= n,
                self.moved(&start, self.pos as int),
            ensures
                self.moved(&start, ket_end(start.input(), start.position())),
            decreases n - self.pos,
        {
            if self.pos >= n {
                break ;
            }
            let ch = self.bytes[self.pos];
            if ch == SPACE || ch == TAB || ch == RETURN || ch == CLOSE_BRACKET {
                self.pos = self.pos + 1;
            } else if ch == PERCENT {
                self.pos = self.pos + 1;
                self.skip_line();
                break ;
            } else if ch == NEWLINE {
                self.pos = self.pos + 1;
                break ;
            } else {
                break ;
            }
        }
    }

    /// Reads the headers and reports each to the visitor.
    pub fn read_headers<V: Visitor>(&mut self, visitor: &mut V)
        ensures
            final(self).input() == old(self).input(),
            final(self).started() == old(self).started(),
            final(self).position() == headers_end(old(self).input(), old(self).position()),
            final(self).log() == old(self).log() + header_events(
                old(self).input(),
                old(self).position(),
            ),
    {
        proof {
            use_type_invariant(&*self);
        }
        let bytes = self.bytes;
        let n = bytes.len();
        let ghost s = bytes@;
        let ghost start = *self;
        loop
            invariant
                self.bytes == bytes,
                s == bytes@,
                n == s.len(),
                self.pos <= n,
                self.started == start.started,
                headers_end(s, self.pos as int) == headers_end(s, start.pos as int),
                self.log@ + header_events(s, self.pos as int) == start.log@ + header_events(
                    s,
                    start.pos as int,
                ),
            ensures
                self.bytes == bytes,
                self.started == start.started,
                self.pos == headers_end(s, start.pos as int),
                self.log@ == start.log@ + header_events(s, start.pos as int),
            decreases n - self.pos,
        {
            if self.pos >= n {
                break ;
            }
            let i = self.pos;
            let ch = bytes[i];
            if ch == OPEN_BRACKET {
                let q = find_byte2(bytes, i + 1, QUOTE, NEWLINE);
                proof {
                    lemma_header_next_advances(s, i as int);
                }
                if q >= n {
                    self.pos = n;
                } else if bytes[q] == NEWLINE {
                    let key = slice_subrange(bytes, i + 1, q);
                    let value = slice_subrange(bytes, q, q);
                    self.report_header(visitor, key, value);
                    proof {
                        use_type_invariant(&*self);
                        assert(value@ =~= Seq::<u8>::empty());
                    }
                    self.pos = q + 1;
                } else {
                    let k = if q > i + 1 && bytes[q - 1] == SPACE {
                        (q - 1) as usize
                    } else {
                        q
                    };
                    let e = find_value_end(bytes, q + 1);
                    let key = slice_subrange(bytes, i + 1, k);
                    let value = slice_subrange(bytes, q + 1, e);
                    self.report_header(visitor, key, value);
                    proof {
                        use_type_invariant(&*self);
                    }
                    self.pos = if e < n && bytes[e] == QUOTE {
                        e + 1
                    } else {
                        e
                    };
                    self.skip_ket();
                    proof {
                        use_type_invariant(&*self);
                    }
                }
            } else if ch == PERCENT {
                proof {
                    lemma_line_end_bounds(s, i as int);
                }
                self.skip_line();
                proof {
                    use_type_invariant(&*self);
                }
            } else {
                break ;
            }
        }
    }

    /// Consumes the movetext without reporting anything from it.
    pub fn skip_movetext(&mut self)
        ensures
            final(self).moved(old(self), movetext_end(old(self).input(), old(self).position())),
    {
        proof {
            use_type_invariant(&*self);
        }
        let bytes = self.bytes;
        let n = bytes.len();
        let ghost s = bytes@;
        let ghost start = *self;
        loop
            invariant_except_break
                movetext_end(s, self.pos as int) == movetext_end(s, start.pos as int),
            invariant
                self.bytes == bytes,
                s == bytes@,
                n == s.len(),
                self.pos <= n,
                self.moved(&start, self.pos as int),
            ensures
                self.moved(&start, movetext_end(s, start.pos as int)),
            decreases n - self.pos,
        {
            if self.pos >= n {
                break ;
            }
            let i = self.pos;
            let ch = bytes[i];
            if ch == OPEN_BRACE {
                let close = find_byte(bytes, i + 1, CLOSE_BRACE);
                self.pos = if close < n {
                    close + 1
                } else {
                    n
                };
            } else if ch == SEMICOLON {
                self.pos = find_byte(bytes, i + 1, NEWLINE);
            } else if ch == NEWLINE {
                let (ends, next) = after_newline_at(bytes, i);
                self.pos = next;
                if ends {
                    break ;
                }
            } else {
                let next = find_byte3(bytes, i + 1, NEWLINE, OPEN_BRACE, SEMICOLON);
                proof {
                    lemma_next_of_skips(s, i + 1, NEWLINE, OPEN_BRACE, SEMICOLON);
                    lemma_movetext_end_plain_run(s, i as int, next as int);
                }
                self.pos = next;
            }
        }
    }

    /// Consumes the rest of a variation, up to the parenthesis that closes
    /// it, without reporting anything from it.
    pub fn skip_variation(&mut self)
        ensures
            final(self).moved(
                old(self),
                variation_end(old(self).input(), old(self).position(), 0),
            ),
    {
        proof {
            use_type_invariant(&*self);
        }
        let bytes = self.bytes;
        let n = bytes.len();
        let ghost s = bytes@;
        let ghost start = *self;
        let mut depth: usize = 0;
        loop
            invariant_except_break
                variation_end(s, self.pos as int, depth as nat) == variation_end(
                    s,
                    start.pos as int,
                    0,
                ),
            invariant
                self.bytes == bytes,
                s == bytes@,
                n == s.len(),
                self.pos <= n,
                depth <= self.pos,
                self.moved(&start, self.pos as int),
            ensures
                self.moved(&start, variation_end(s, start.pos as int, 0)),
            decreases n - self.pos,
        {
            if self.pos >= n {
                break ;
            }
            let i = self.pos;
            let ch = bytes[i];
            if ch == OPEN_PAREN {
                depth = depth + 1;
                self.pos = i + 1;
            } else if ch == CLOSE_PAREN {
                if depth == 0 {
                    break ;
                }
                depth = depth - 1;
                self.pos = i + 1;
            } else if ch == OPEN_BRACE {
                let close = find_byte(bytes, i + 1, CLOSE_BRACE);
                self.pos = if close < n {
                    close + 1
                } else {
                    n
                };
            } else if ch == SEMICOLON {
                self.pos = find_byte(bytes, i + 1, NEWLINE);
            } else if ch == NEWLINE {
                let (ends, next) = after_newline_at(bytes, i);
                if ends {
                    break ;
                }
                self.pos = next;
            } else {
                self.pos = i + 1;
            }
        }
    }

    /// Reads the movetext and reports what it holds to the visitor.
    pub fn read_movetext<V: Visitor>(&mut self, visitor: &mut V)
        ensures
            final(self).input() == old(self).input(),
            final(self).started() == old(self).started(),
            final(self).position() == movetext_end(old(self).input(), old(self).position()),
            old(self).log().is_prefix_of(final(self).log()),
            movetext_trace(
                old(self).input(),
                old(self).position(),
                final(self).log().skip(old(self).log().len() as int),
            ),
    {
        proof {
            use_type_invariant(&*self);
        }
        let bytes = self.bytes;
        let n = bytes.len();
        let ghost s = bytes@;
        let ghost start = *self;
        let ghost from = self.pos as int;
        let ghost seen = Seq::<Event>::empty();
        proof {
            assert forall|rest: Seq<Event>| #[trigger]
                movetext_trace(s, from, rest) implies movetext_trace(s, from, seen + rest) by {}
        }
        loop
            invariant_except_break
                movetext_end(s, self.pos as int) == movetext_end(s, from),
                forall|rest: Seq<Event>| #[trigger]
                    movetext_trace(s, self.pos as int, rest) ==> movetext_trace(
                        s,
                        from,
                        seen + rest,
                    ),
            invariant
                self.bytes == bytes,
                s == bytes@,
                n == s.len(),
                self.pos <= n,
                from == start.pos,
                self.started == start.started,
                self.log@ == start.log@ + seen,
            ensures
                self.pos == movetext_end(s, from),
                movetext_trace(s, from, seen),
            decreases n - self.pos,
        {
            let i = self.pos;
            if i >= n {
                proof {
                    assert(movetext_trace(s, i as int, Seq::<Event>::empty()));
                }
                break ;
            }
            let ch = bytes[i];
            let next: usize;
            let ghost answer = false;
            let ghost call: Option<Event>;
            if ch == OPEN_BRACE || ch == SEMICOLON {
                let close = if ch == OPEN_BRACE {
                    find_byte(bytes, i + 1, CLOSE_BRACE)
                } else {
                    find_byte(bytes, i + 1, NEWLINE)
                };
                let text = slice_subrange(bytes, i + 1, close);
                self.report_comment(visitor, text);
                proof {
                    call = Some(Event::Comment { text: text@ });
                }
                next = if ch == OPEN_BRACE && close < n {
                    close + 1
                } else {
                    close
                };
            } else if ch == NEWLINE {
                let (ends, after) = after_newline_at(bytes, i);
                if ends {
                    proof {
                        assert(movetext_trace(s, i as int, Seq::<Event>::empty()));
                    }
                    self.pos = after;
                    break ;
                }
                proof {
                    call = None;
                }
                next = after;
            } else if ch == OPEN_PAREN {
                let skip = self.report_begin_variation(visitor);
                proof {
                    use_type_invariant(&*self);
                    answer = skip;
                    call = Some(Event::BeginVariation { skip });
                }
                self.pos = i + 1;
                if skip {
                    self.skip_variation();
                    proof {
                        use_type_invariant(&*self);
                    }
                }
                next = self.pos;
            } else if ch == CLOSE_PAREN {
                self.report_end_variation(visitor);
                proof {
                    call = Some(Event::EndVariation);
                }
                next = i + 1;
            } else if !is_token(ch) {
                proof {
                    call = None;
                }
                next = i + 1;
            } else {
                next = find_token_end(bytes, i);
                let token = slice_subrange(bytes, i, next);
                match Nag::from_ascii(token) {
                    Ok(nag) => {
                        self.report_nag(visitor, nag);
                        proof {
                            call = Some(Event::Nag { nag: nag.0 });
                        }
                    },
                    Err(_) => match parse_result(token) {
                        Some(outcome) => {
                            self.report_outcome(visitor, outcome);
                            proof {
                                call = Some(Event::Outcome { outcome });
                            }
                        },
                        None => {
                            if only_digits_and_dots(token) {
                                proof {
                                    call = None;
                                }
                            } else {
                                self.report_san(visitor, token);
                                proof {
                                    call = Some(Event::San { token: token@ });
                                }
                            }
                        },
                    },
                }
            }
            proof {
                use_type_invariant(&*self);
                lemma_movetext_step_advances(s, i as int, answer);
                let before = seen;
                seen = before + with_first(call, Seq::empty());
                assert(self.log@ =~= start.log@ + seen);
                assert forall|rest: Seq<Event>| #[trigger]
                    movetext_trace(s, next as int, rest) implies movetext_trace(
                    s,
                    from,
                    seen + rest,
                ) by {
                    lemma_movetext_step(s, i as int, answer, rest);
                    assert(before + with_first(call, rest) =~= seen + rest);
                }
            }
            self.pos = next;
        }
        proof {
            assert((start.log@ + seen).skip(start.log@.len() as int) =~= seen);
        }
    }

    /// Reads one game and reports it to the visitor. Returns what the
    /// visitor makes of the game, or `None` if no game is left.
    ///
    /// The reader ends up past the game whatever the visitor skips.
    pub fn read_game<V: Visitor>(&mut self, visitor: &mut V) -> (r: Option<V::Result>)
        ensures
            final(self).has_read_game(old(self), r is Some),
    {
        let ghost s = self.bytes@;
        let ghost log0 = self.log@;
        self.skip_bom();
        self.skip_whitespace();
        if !self.fill_buffer() {
            proof {
                use_type_invariant(&*self);
            }
            return None;
        }
        let ghost h = header_events(s, self.pos as int);
        self.report_begin_game(visitor);
        self.report_begin_headers(visitor);
        self.read_headers(visitor);
        let skip = self.report_end_headers(visitor);
        let ghost log1 = self.log@;
        if skip {
            self.skip_movetext();
        } else {
            self.read_movetext(visitor);
        }
        let ghost m = self.log@.skip(log1.len() as int);
        self.skip_whitespace();
        let result = self.report_end_game(visitor);
        proof {
            use_type_invariant(&*self);
            let t = self.log@.skip(log0.len() as int);
            let n = h.len() as int + 2;
            assert(self.log@ =~= log1 + m.push(Event::EndGame));
            assert(t.take(n) =~= seq![Event::BeginGame, Event::BeginHeaders] + h);
            assert(t.subrange(n + 1, t.len() - 1) =~= m);
        }
        Some(result)
    }

    /// Passes over one game. Returns whether there was one.
    ///
    /// The game goes to a visitor that skips the movetext.
    pub fn skip_game(&mut self) -> (r: bool)
        ensures
            final(self).has_read_game(old(self), r),
            r ==> final(self).log() == old(self).log() + skipped_game_trace(
                old(self).input(),
                game_start(old(self).input(), old(self).position(), old(self).started()),
            ),
    {
        let ghost s = self.bytes@;
        let ghost log0 = self.log@;
        self.skip_bom();
        self.skip_whitespace();
        if !self.fill_buffer() {
            proof {
                use_type_invariant(&*self);
            }
            return false;
        }
        let ghost h = header_events(s, self.pos as int);
        let mut visitor = SkipVisitor;
        self.report_begin_game(&mut visitor);
        self.report_begin_headers(&mut visitor);
        self.read_headers(&mut visitor);
        self.report_skipped_headers(&mut visitor);
        self.skip_movetext();
        self.skip_whitespace();
        self.report_end_game(&mut visitor);
        proof {
            use_type_invariant(&*self);
            let t = self.log@.skip(log0.len() as int);
            let n = h.len() as int + 2;
            assert(t.take(n) =~= seq![Event::BeginGame, Event::BeginHeaders] + h);
        }
        true
    }
}

} // verus!
