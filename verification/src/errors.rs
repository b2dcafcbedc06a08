//! The error taxonomy shared by every graph operation and by the text codec.

use vstd::prelude::*;

verus! {

/// Everything that can go wrong while mutating a graph or parsing its text
/// form. I/O failures around the codec are the caller's concern: the library
/// itself only computes.
#[derive(Debug)]
pub enum GraphError {
    /// `add_vertex` was handed an identifier that is already a key.
    VertexAlreadyExist(u32),
    /// An operation referenced a vertex identifier that is not present.
    VertexNotFound(u32),
    /// A line of the text format has no identifier token where one is needed.
    ParseVertexId(String),
    /// An identifier token of the text format is not an unsigned integer.
    WrongVertexIdType(String),
}

} // verus!
