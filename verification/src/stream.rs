//! Reading games from bytes that arrive piece by piece.

use slice_deque::SliceDeque;
use vstd::prelude::*;
use crate::deque::{
    deque_as_slice, deque_bytes, deque_extend, deque_len, deque_truncate_front, deque_with_capacity,
};
use crate::grammar::{
    game_end, game_start, game_trace, has_game, lemma_game_end_bounds, skipped_game_trace,
};
use crate::reader::SliceReader;
use crate::visitor::{Event, Visitor};

verus! {

/// How many bytes a reader wants to hold before it starts on a game.
pub const MIN_BUFFER_SIZE: usize = 8192;

/// What became of an attempt to read a game.
pub enum Progress<T> {
    /// The bytes held so far may not hold all of the game: nothing was
    /// done, and more bytes are wanted.
    Starved,
    /// No game is left.
    Finished,
    /// A game was read; this is what the visitor made of it.
    Game(T),
}

/// How many bytes a reader wants that holds `n` and could not tell where
/// the next game ends: twice as many, but no fewer than `MIN_BUFFER_SIZE`
/// and no more than there can be.
pub open spec fn doubled(n: int) -> int {
    if 2 * n > usize::MAX {
        usize::MAX as int
    } else if 2 * n < MIN_BUFFER_SIZE {
        MIN_BUFFER_SIZE as int
    } else {
        2 * n
    }
}

/// A reader of the games that a source of bytes delivers piece by piece.
///
/// The reader keeps the source but never calls it. Whoever drives the
/// reader reads from the source and hands the bytes to `fill_buffer`. The
/// reader reads a game once the bytes that it holds are sure to hold all of
/// it, through a `SliceReader` on those bytes, whose log it takes over.
pub struct PgnReader<R> {
    inner: R,
    buffer: SliceDeque<u8>,
    started: bool,
    ended: bool,
    threshold: usize,
    log: Ghost<Seq<Event>>,
}

impl<R> PgnReader<R> {
    /// The source of the bytes.
    pub closed spec fn source(&self) -> R {
        self.inner
    }

    /// The bytes that were handed in and not yet consumed.
    pub closed spec fn buffered(&self) -> Seq<u8> {
        deque_bytes(self.buffer)
    }

    /// Whether the reader has looked for a byte order mark.
    pub closed spec fn started(&self) -> bool {
        self.started
    }

    /// Whether the source has reported its end.
    pub closed spec fn ended(&self) -> bool {
        self.ended
    }

    /// How many bytes the reader wants to hold before it tries to read a
    /// game.
    pub closed spec fn threshold(&self) -> int {
        self.threshold as int
    }

    /// The calls that the reader has made to visitors, oldest first.
    pub closed spec fn log(&self) -> Seq<Event> {
        self.log@
    }

    /// Whether the reader asks for more bytes: the source has not ended and
    /// fewer bytes are held than wanted.
    pub open spec fn hungry(&self) -> bool {
        !self.ended() && self.buffered().len() < self.threshold()
    }

    /// Whether the bytes held are sure to hold all of the next game: the
    /// source has ended, or enough bytes are held and the game ends before
    /// the last of them.
    pub open spec fn settled(&self) -> bool {
        self.ended() || (!self.hungry() && game_end(self.buffered(), 0, self.started())
            < self.buffered().len())
    }

    /// Whether the reader differs from `before` in the bytes that it holds
    /// at most.
    pub open spec fn same_but_bytes(&self, before: &Self) -> bool {
        &&& self.source() == before.source()
        &&& self.started() == before.started()
        &&& self.ended() == before.ended()
        &&& self.threshold() == before.threshold()
        &&& self.log() == before.log()
    }

    /// Whether the reader has come from `before` by an attempt to read a
    /// game. If the bytes held were not sure to hold all of the game, the
    /// reader was `starved` and differs in the bytes that it wants alone.
    /// Otherwise it has gone past one game, or has found that none is left:
    /// `found` tells which, and the log has grown by the calls of the game.
    pub open spec fn has_progressed(&self, before: &Self, starved: bool, found: bool) -> bool {
        let w = before.buffered();
        let started = before.started();
        &&& self.source() == before.source()
        &&& self.ended() == before.ended()
        &&& starved == !before.settled()
        &&& before.log().is_prefix_of(self.log())
        &&& if starved {
            &&& !found
            &&& self.hungry() || w.len() == usize::MAX
            &&& self.buffered() == w
            &&& self.started() == started
            &&& self.log() == before.log()
            &&& self.threshold() == if before.hungry() {
                before.threshold()
            } else {
                doubled(w.len() as int)
            }
        } else {
            &&& found == has_game(w, 0, started)
            &&& self.buffered() == w.skip(game_end(w, 0, started))
            &&& self.started()
            &&& self.threshold() == MIN_BUFFER_SIZE
            &&& if found {
                game_trace(
                    w,
                    game_start(w, 0, started),
                    self.log().skip(before.log().len() as int),
                )
            } else {
                self.log() == before.log()
            }
        }
    }

    /// A reader for the bytes of `inner`.
    pub fn new(inner: R) -> (r: PgnReader<R>)
        ensures
            r.source() == inner,
            r.buffered() == Seq::<u8>::empty(),
            !r.started(),
            !r.ended(),
            r.threshold() == MIN_BUFFER_SIZE,
            r.log() == Seq::<Event>::empty(),
    {
        PgnReader {
            inner,
            buffer: deque_with_capacity(MIN_BUFFER_SIZE * 2),
            started: false,
            ended: false,
            threshold: MIN_BUFFER_SIZE,
            log: Ghost(Seq::empty()),
        }
    }

    /// Gives the source back.
    pub fn into_inner(self) -> (r: R)
        ensures
            r == self.source(),
    {
        self.inner
    }

    /// Lends the source, to read from it.
    pub fn get_mut(&mut self) -> (r: &mut R)
        ensures
            *r == old(self).source(),
            final(self).source() == *final(r),
            final(self).buffered() == old(self).buffered(),
            final(self).started() == old(self).started(),
            final(self).ended() == old(self).ended(),
            final(self).threshold() == old(self).threshold(),
            final(self).log() == old(self).log(),
    {
        &mut self.inner
    }

    /// The bytes that are held.
    pub fn buffer(&self) -> (r: &[u8])
        ensures
            r@ == self.buffered(),
    {
        deque_as_slice(&self.buffer)
    }

    /// Consumes `n` of the bytes that are held.
    pub fn consume(&mut self, n: usize)
        requires
            n <= old(self).buffered().len(),
        ensures
            final(self).same_but_bytes(old(self)),
            final(self).buffered() == old(self).buffered().skip(n as int),
    {
        let len = deque_len(&self.buffer);
        deque_truncate_front(&mut self.buffer, len - n);
    }

    /// Takes what a read from the source returned: some bytes, or none at
    /// the end of the source. Returns whether to read again before trying
    /// to read a game.
    pub fn fill_buffer(&mut self, read: &[u8]) -> (again: bool)
        requires
            old(self).buffered().len() + read@.len() <= usize::MAX,
        ensures
            final(self).source() == old(self).source(),
            final(self).buffered() == old(self).buffered() + read@,
            final(self).ended() == (old(self).ended() || read@.len() == 0),
            final(self).started() == old(self).started(),
            final(self).threshold() == old(self).threshold(),
            final(self).log() == old(self).log(),
            again == final(self).hungry(),
    {
        if read.len() == 0 {
            self.ended = true;
        } else {
            deque_extend(&mut self.buffer, read);
        }
        !self.ended && deque_len(&self.buffer) < self.threshold
    }

    /// Passes over the next game in the bytes held without consuming it.
    /// Returns whether there is a game, and how many bytes are left after
    /// it.
    fn probe(&self) -> (r: (bool, usize))
        ensures
            r.0 == has_game(self.buffered(), 0, self.started()),
            r.1 == self.buffered().len() - game_end(self.buffered(), 0, self.started()),
    {
        let mut probe = SliceReader::resume(
            deque_as_slice(&self.buffer),
            self.started,
            Ghost(Seq::empty()),
        );
        let found = probe.skip_game();
        (found, probe.remaining())
    }

    /// Makes the reader want twice the bytes that it holds.
    fn starve(&mut self)
        ensures
            final(self).source() == old(self).source(),
            final(self).buffered() == old(self).buffered(),
            final(self).started() == old(self).started(),
            final(self).ended() == old(self).ended(),
            final(self).log() == old(self).log(),
            final(self).threshold() == doubled(old(self).buffered().len() as int),
    {
        let len = deque_len(&self.buffer);
        self.threshold = if len > usize::MAX / 2 {
            usize::MAX
        } else if 2 * len < MIN_BUFFER_SIZE {
            MIN_BUFFER_SIZE
        } else {
            2 * len
        };
    }

    /// Reads one game and reports it to the visitor, if the bytes held are
    /// sure to hold all of it. Otherwise nothing is done, and the reader
    /// wants more bytes than it holds.
    pub fn read_game<V: Visitor>(&mut self, visitor: &mut V) -> (r: Progress<V::Result>)
        ensures
            final(self).has_progressed(old(self), r is Starved, r is Game),
    {
        let len = deque_len(&self.buffer);
        if !self.ended {
            if len < self.threshold {
                return Progress::Starved;
            }
            if self.probe().1 == 0 {
                self.starve();
                return Progress::Starved;
            }
        }
        let mut reader = SliceReader::resume(deque_as_slice(&self.buffer), self.started, self.log);
        let result = reader.read_game(visitor);
        let left = reader.remaining();
        proof {
            self.log = Ghost(reader.log());
            lemma_game_end_bounds(old(self).buffered(), 0, old(self).started());
        }
        self.consume(len - left);
        self.started = true;
        self.threshold = MIN_BUFFER_SIZE;
        match result {
            Some(x) => Progress::Game(x),
            None => Progress::Finished,
        }
    }

    /// Passes over one game, if the bytes held are sure to hold all of it.
    /// Otherwise nothing is done, and the reader wants more bytes than it
    /// holds.
    ///
    /// The game goes to a visitor that skips the movetext.
    pub fn skip_game(&mut self) -> (r: Progress<()>)
        ensures
            final(self).has_progressed(old(self), r is Starved, r is Game),
            r is Game ==> final(self).log() == old(self).log() + skipped_game_trace(
                old(self).buffered(),
                game_start(old(self).buffered(), 0, old(self).started()),
            ),
    {
        let len = deque_len(&self.buffer);
        if !self.ended && len < self.threshold {
            return Progress::Starved;
        }
        let mut reader = SliceReader::resume(deque_as_slice(&self.buffer), self.started, self.log);
        let found = reader.skip_game();
        let left = reader.remaining();
        if !self.ended && left == 0 {
            self.starve();
            return Progress::Starved;
        }
        proof {
            self.log = Ghost(reader.log());
            lemma_game_end_bounds(old(self).buffered(), 0, old(self).started());
        }
        self.consume(len - left);
        self.started = true;
        self.threshold = MIN_BUFFER_SIZE;
        if found {
            Progress::Game(())
        } else {
            Progress::Finished
        }
    }
}

} // verus!
