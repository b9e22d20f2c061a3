//! The error taxonomy of the filesystem core, mapped to POSIX-style numeric
//! codes at the boundary where a kernel bridge consumes them.

use vstd::prelude::*;

verus! {

pub const ENOENT: i32 = 2;

pub const EIO: i32 = 5;

pub const EEXIST: i32 = 17;

pub const ENOTDIR: i32 = 20;

pub const EISDIR: i32 = 21;

pub const EINVAL: i32 = 22;

pub const ENOSYS: i32 = 38;

pub const ENOTEMPTY: i32 = 39;

/// The internal cause of an error; several causes share one numeric code,
/// so the cause is kept alongside it.
#[derive(Debug, Clone, Copy, PartialEq, Eq, Structural)]
pub enum ErrorKind {
    NotFound,
    NotDir,
    IsDir,
    NotEmpty,
    AlreadyExists,
    InvalidName,
    InvalidArg,
    Busy,
    Unsupported,
    IoError,
    IntegrityError,
}

/// An error of the filesystem service: a POSIX-style code plus the
/// distinguishable internal cause.
#[derive(Debug, Clone, Copy, PartialEq, Eq, Structural)]
pub struct SqlFileSystemError {
    pub code: i32,
    pub kind: ErrorKind,
}

/// Build the failing side of a service result.
pub fn error<T>(code: i32, kind: ErrorKind) -> (r: Result<T, SqlFileSystemError>)
    ensures
        r matches Err(e) && e.code == code && e.kind == kind,
{
    Err(SqlFileSystemError { code, kind })
}

} // verus!
