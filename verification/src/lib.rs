//! A reader for chess games in Portable Game Notation.
//!
//! A reader goes through the headers and the movetext of one game after
//! another and reports what it finds to a [`Visitor`]. The visitor can ask
//! it to skip the movetext of a game or a variation in it; the reader then
//! passes over the bytes without reporting anything.
//!
//! [`SliceReader`] reads from bytes in memory. [`PgnReader`] reads from
//! bytes that are handed to it piece by piece, and leaves the reading of
//! the source to its caller.
//!
//! The module `grammar` says what the notation means. Each reader keeps a
//! log of the calls that it has made to visitors, and its contracts say
//! that the log and the position of the reader are what the grammar
//! prescribes. The modules `laws` and `locality` hold what follows from
//! the grammar for every input.

pub mod bytes;
pub mod deque;
pub mod digits;
pub mod escape;
pub mod grammar;
pub mod laws;
pub mod locality;
pub mod reader;
pub mod scan;
pub mod search;
pub mod stream;
pub mod text;
pub mod types;
pub mod visitor;

pub use crate::reader::SliceReader;
pub use crate::stream::{MIN_BUFFER_SIZE, PgnReader, Progress};
pub use crate::types::{
    Clock, Color, InvalidClock, InvalidNag, Nag, Outcome, RawComment, RawHeader, Skip,
};
pub use crate::visitor::Visitor;
