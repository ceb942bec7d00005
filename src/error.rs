use vstd::prelude::*;

verus! {

/// The kinds of failure that the object store reports to its caller.
#[derive(Debug, Clone, Copy, PartialEq, Eq, Structural)]
pub enum StoreError {
    /// No stored object exists for the requested digest.
    ObjectNotFound,
    /// A stored object does not inflate, or its header or length is malformed.
    CorruptObject,
    /// A digest is not exactly forty hexadecimal characters.
    InvalidDigest,
    /// The payload source could not be opened or read.
    SourceUnreadable,
    /// The object directory or file could not be created or written.
    DestinationUnwritable,
}

} // verus!
