//! Errors of the library.
use vstd::prelude::*;

use crate::stack::AllocError;

verus! {

/// Everything that can go wrong.
#[derive(Debug)]
pub enum JlrsError {
    /// No room in a page for a frame, a root or an output.
    Alloc(AllocError),
    /// A bounded mailbox has no free place.
    ChannelFull,
    /// The receiving side of a mailbox is gone.
    ChannelClosed,
    /// A mailbox asked for with more places than a channel can have.
    ChannelCapacity(usize),
    /// A file to include that does not exist, by its path.
    IncludeNotFound(String),
    /// Including a file raised an exception: the path and the exception's type.
    IncludeError(String, String),
    /// A field was indexed by a multidimensional index.
    FieldNeedsSimpleIndex,
    /// An array was indexed by something else than a numerical index.
    ArrayNeedsNumericalIndex,
    /// A field index past the last field of a type.
    OutOfBounds { idx: usize, n_fields: usize },
    /// A multidimensional index outside the array's dimensions.
    InvalidIndex,
    /// An index with another number of dimensions than the array.
    IllegalNumberOfDimensions { expected: usize, found: usize },
    /// A field name that the type does not have.
    NoSuchField,
    /// A name that is not valid UTF-8.
    NotUtf8,
    /// A failure of a task's own logic, with its description.
    Other(String),
}

} // verus!
