//! The failures that the storage engine reports.
use vstd::prelude::*;

verus! {

/// Why a storage operation did not succeed.
#[derive(Clone, Copy, Debug, PartialEq, Eq, Structural)]
pub enum StorageError {
    /// Some bytes of a fixed-width record are there, but fewer than its width.
    TruncatedRecord,
    /// A needle header declares more payload bytes than the volume holds
    /// behind it.
    CorruptRecord,
    /// No live object has the key, or no record starts at the position.
    NotFound,
    /// The volume already holds as many needles as there are keys.
    KeySpaceExhausted,
    /// The file system refused an operation. No function of this library
    /// returns it: it is for the caller that moves the bytes to and from disk.
    IoFailure,
}

/// The words for each failure.
pub open spec fn message_of(error: StorageError) -> &'static str {
    match error {
        StorageError::TruncatedRecord => "Truncated Record",
        StorageError::CorruptRecord => "Corrupt Record",
        StorageError::NotFound => "No Such File",
        StorageError::KeySpaceExhausted => "Key Space Exhausted",
        StorageError::IoFailure => "I/O Failure",
    }
}

impl StorageError {
    /// A few words that say what went wrong.
    pub fn message(&self) -> (text: &'static str)
        ensures
            text == message_of(*self),
    {
        match self {
            StorageError::TruncatedRecord => "Truncated Record",
            StorageError::CorruptRecord => "Corrupt Record",
            StorageError::NotFound => "No Such File",
            StorageError::KeySpaceExhausted => "Key Space Exhausted",
            StorageError::IoFailure => "I/O Failure",
        }
    }
}

} // verus!
