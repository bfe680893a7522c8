//! Error taxonomy of the variable access layer.

use vstd::prelude::*;

verus! {

/// A failure reported by a variable store.
///
/// `NotFound` and `BufferTooSmall` are protocol signals: the first marks an
/// absent variable, the second an undersized read buffer. The remaining
/// variants wrap the store's own failure modes.
#[derive(Clone, Copy, Debug, PartialEq, Eq, Structural)]
pub enum StoreError {
    /// The variable does not exist.
    NotFound,
    /// The read buffer is smaller than the stored payload.
    BufferTooSmall,
    /// The caller may not access the variable.
    PermissionDenied,
    /// The variable name is not acceptable to the store.
    MalformedName,
    /// Any other input/output failure.
    Io,
}

/// A failure of one of the library's operations, annotated with the name of
/// the acting variable where one is involved.
#[derive(Debug)]
pub enum Error {
    /// The payload is larger than the hard ceiling; holds the byte size of
    /// the last buffer that was attempted.
    SizeExceeded { name: String, attempted_bytes: usize },
    /// The stored attribute bits differ from the expected combination.
    AttributeMismatch { actual: u32, expected: u32 },
    /// The payload is not valid UTF-16; holds a lossy rendering of the
    /// offending code units for diagnostics.
    Decode { name: String, lossy: String },
    /// The store failed; wraps the store's error with the variable name.
    Store { name: String, error: StoreError },
    /// A variable that the operation needs is not set.
    NotSet { name: String },
}

} // verus!
