//! The one failure of the library: the file system refused a read.

use vstd::prelude::*;

verus! {

/// Why the file system refused.
#[derive(Debug, Clone, Copy, PartialEq, Eq, Structural)]
pub enum FilesystemErrorKind {
    /// The path does not exist.
    NotFound,
    /// The caller may not read the path.
    PermissionDenied,
    /// The path exists and is no directory.
    NotADirectory,
    /// Any other refusal.
    Other,
}

/// A read that the file system refused: the kind of refusal and the message
/// that came with it.
#[derive(Debug, Clone)]
pub struct FilesystemError {
    pub kind: FilesystemErrorKind,
    pub message: String,
}

} // verus!
