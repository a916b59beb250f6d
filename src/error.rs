//! The ways a volume operation can fail.
use vstd::prelude::*;

verus! {

/// Why an operation on a volume did not succeed.
#[derive(Debug, Clone, PartialEq, Eq)]
pub enum FsError {
    /// The boot sector does not end with the 0x55, 0xAA signature.
    FormatError,
    /// No entry with this name: a path segment or a file name.
    NotFound(String),
    /// The entry exists but is a file where a directory was asked for.
    NotADirectory,
    /// The entry exists but is a directory where a file was asked for.
    IsADirectory,
    /// The File Allocation Table has no free entry.
    OutOfSpace,
    /// The directory has no free slot within the slots searched.
    DirectoryFull,
    /// The content does not fit in one cluster.
    FileTooLarge,
    /// A computed offset or length reaches past the end of the image.
    OutOfRange,
}

} // verus!
