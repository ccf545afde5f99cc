//! The callbacks through which a reader reports what it finds.

use vstd::prelude::*;
use crate::types::{Nag, Outcome, RawComment, RawHeader, Skip};

verus! {

/// Receives what a reader finds in one game after another.
///
/// Every method but `end_game` has a default that does nothing and skips
/// nothing.
pub trait Visitor {
    /// What `end_game` makes of a game.
    type Result;

    /// Called at the start of a game.
    fn begin_game(&mut self) {
    }

    /// Called before the headers of a game.
    fn begin_headers(&mut self) {
    }

    /// Called for each header, with its key and its value.
    fn header(&mut self, _key: &[u8], _value: RawHeader<'_>) {
    }

    /// Called after the headers. With `Skip(true)` the reader passes over the
    /// movetext without reporting anything from it.
    ///
    /// A visitor that does not say otherwise skips nothing.
    fn end_headers(&mut self) -> (r: Skip)
        default_ensures
            r == Skip(false),
    {
        Skip(false)
    }

    /// Called for each move, with its token as written.
    fn san(&mut self, _san: &[u8]) {
    }

    /// Called for each numeric annotation glyph.
    fn nag(&mut self, _nag: Nag) {
    }

    /// Called for each comment.
    fn comment(&mut self, _comment: RawComment<'_>) {
    }

    /// Called where a variation opens. With `Skip(true)` the reader passes
    /// over the variation without reporting anything from it.
    ///
    /// A visitor that does not say otherwise skips nothing.
    fn begin_variation(&mut self) -> (r: Skip)
        default_ensures
            r == Skip(false),
    {
        Skip(false)
    }

    /// Called where a variation closes.
    fn end_variation(&mut self) {
    }

    /// Called for the result of the game: the outcome, or `None` for a game
    /// without one.
    fn outcome(&mut self, _outcome: Option<Outcome>) {
    }

    /// Called at the end of a game.
    fn end_game(&mut self) -> Self::Result;
}

/// The visitor that skips whatever can be skipped.
pub(crate) struct SkipVisitor;

impl Visitor for SkipVisitor {
    type Result = ();

    fn end_headers(&mut self) -> (r: Skip)
        ensures
            r.0,
    {
        Skip(true)
    }

    fn begin_variation(&mut self) -> (r: Skip)
        ensures
            r.0,
    {
        Skip(true)
    }

    fn end_game(&mut self) {
    }
}

/// A call that a reader made to its visitor, with what it passed and what
/// it was told.
pub enum Event {
    /// A call of `begin_game`.
    BeginGame,
    /// A call of `begin_headers`.
    BeginHeaders,
    /// A call of `header` with this key and this value.
    Header { key: Seq<u8>, value: Seq<u8> },
    /// A call of `end_headers`, which the visitor answered with `Skip(skip)`.
    EndHeaders { skip: bool },
    /// A call of `san` with this token.
    San { token: Seq<u8> },
    /// A call of `nag` with the glyph of this code.
    Nag { nag: u8 },
    /// A call of `comment` with this text.
    Comment { text: Seq<u8> },
    /// A call of `begin_variation`, which the visitor answered with
    /// `Skip(skip)`.
    BeginVariation { skip: bool },
    /// A call of `end_variation`.
    EndVariation,
    /// A call of `outcome` with this outcome.
    Outcome { outcome: Option<Outcome> },
    /// A call of `end_game`.
    EndGame,
}

} // verus!
