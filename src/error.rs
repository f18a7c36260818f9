//! What can go wrong in the store and the index.
use vstd::prelude::*;

verus! {

/// Every failure is terminal for the operation that raised it; the variants
/// that concern one object or one file carry its address or path.
#[derive(Debug)]
pub enum RepoError {
    /// The repository root, or the part of it the operation needs, is absent.
    RepositoryNotInitialized,
    /// The text given as an address is not exactly 40 hexadecimal characters.
    InvalidAddress(String),
    /// No object is stored under this address.
    ObjectNotFound(String),
    /// A stored object could not be decompressed or its layout read.
    CorruptObject,
    /// The index file does not hold a well-formed index record.
    CorruptIndex,
    /// A tree or parent address does not name a stored object.
    InvalidReference(String),
    /// Writing bytes failed; the text names what was being written.
    IoFailure(String),
}

} // verus!
