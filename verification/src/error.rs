//! The error taxonomy of the copy engine.
use vstd::prelude::*;

verus! {

/// Everything that can abort a listing or copy operation.
#[derive(Clone, Copy, PartialEq, Eq, Structural, Debug)]
pub enum CopyError {
    /// A malformed path expression, or a wildcard where none is allowed.
    ParseError,
    /// The source entry does not exist.
    NotFound,
    /// The destination is hidden, or its parent is not a creatable folder.
    InvalidDestination,
    /// An opaque backend failure, such as a name clash between a file and a
    /// folder while descending.
    BackendError,
    /// A device or storage name matched more than one candidate.
    AmbiguousMatch,
}

} // verus!
