use vstd::prelude::*;
use core::ops::Range;

verus! {

/// The error type of std's I/O layer, declared so that a read failure can
/// carry the source's own error value.  Nothing is assumed about it.
#[verifier::external_type_specification]
#[verifier::external_body]
pub struct ExIoError(std::io::Error);

/// A parse error.
#[derive(Debug)]
pub enum ParseError {
    /// Expected something at the position.
    Expected { position: Range<usize>, expected: String },
    /// An error while reading from the underlying byte source.
    ReadError { inner: std::io::Error },
}

} // verus!
