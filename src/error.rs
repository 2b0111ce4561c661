//! What can go wrong while reading a stream.
use vstd::prelude::*;

use crate::stream::Codec;

verus! {

/// Why a traversal stopped.
#[derive(Clone, Copy, Debug, PartialEq, Eq, Structural)]
pub enum ReadError {
    /// A layer carried the signature of this codec but did not decode.
    Decompress(Codec),
    /// An archive header or entry could not be read.
    MalformedEntry,
    /// An entry's path is absolute or has a `..` component.
    UnsafePath,
    /// Every compression layer was peeled and what is left is plain data.
    NotAnArchive,
    /// More layers than the traversal was allowed to enter.
    TooDeep,
}

} // verus!
