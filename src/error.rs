//! Why a package's structure could not be read.
use vstd::prelude::*;

verus! {

/// The ways in which reading a package's structure can fail.
#[derive(Clone, Copy, Debug, PartialEq, Eq, Structural)]
pub enum ParseError {
    /// A record's signature or magic marker is absent.
    NotFound,
    /// A declared size or length does not fit the bytes that hold it.
    InvalidData,
    /// Fewer bytes remain than a fixed-size structure needs.
    Truncated,
}

} // verus!
