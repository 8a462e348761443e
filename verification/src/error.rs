//! Why the processing of a book stops.

use vstd::prelude::*;

verus! {

/// The two ways in which a book can fail. Either one ends the work on the
/// book: nothing is retried and no partial row is written.
#[derive(Debug, Clone, Copy, PartialEq, Eq, Structural)]
pub enum ErrorKind {
    /// A page or an image could not be retrieved.
    Fetch,
    /// The local store could not be written.
    Io,
}

} // verus!
