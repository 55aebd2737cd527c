//! A rewindable-input layer for backtracking parsers.
//!
//! A reader wraps a byte source and lets its caller mark a position
//! (a checkpoint), consume speculatively past it, and later restore the
//! stream to that position, while each byte is pulled from the source at
//! most once.  A sliding buffer retains exactly the byte range still
//! reachable from some active checkpoint and drops bytes as soon as no
//! checkpoint can reach them.

mod error;
mod laws;
mod ledger;
mod reader;
mod seek;
mod source;

pub use error::ParseError;
pub use laws::{
    lemma_bounded_retention, lemma_peer_equivalence, lemma_peer_mark, lemma_peer_read,
    lemma_peer_rewind, lemma_refcount_two_marks, lemma_replay_fidelity, lemma_single_fetch,
};
pub use ledger::Buffer;
pub use reader::BufferInput;
pub use seek::SeekInput;
pub use source::MemSource;
