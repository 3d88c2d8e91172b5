//! The error kinds that the object store distinguishes.

use vstd::prelude::*;

verus! {

/// Why an operation on the object store failed.
#[derive(Clone, Copy, Debug, PartialEq, Eq, Structural)]
pub enum GitError {
    /// The object, or a path that was referred to, is missing.
    NotFound,
    /// A framed object or a tree payload does not follow its format.
    Malformed,
    /// Stored bytes do not decompress, or do not belong under their identifier.
    Corrupt,
    /// A textual identifier is not forty hexadecimal digits.
    BadOid,
    /// A directory entry is neither a regular file, a symbolic link nor a directory.
    Unsupported,
    /// The repository skeleton is already present.
    AlreadyExists,
}

} // verus!
