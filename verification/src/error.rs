//! The errors of the file system.

use vstd::prelude::*;

verus! {

/// What an operation of the file system can fail with.
#[derive(Debug, Clone, Copy, PartialEq, Eq, Structural)]
pub enum FsError {
    IoError,
    InvalidMagic,
    OutOfSpace,
    OutOfInodes,
    OutOfBounds,
    CacheMiss,
    /// The cache is full; the payload is the block to evict first.
    CacheEvict(u32),
    PermissionDenied,
    InvalidSuperBlock,
    InvalidBlockId,
    InvalidPath,
    InvalidFileType,
    InvalidArgument,
    FileTooLarge,
    PathTooLong,
    InvalidFileName,
    ReadError,
    WriteError,
    NotFound,
    AlreadyExists,
    DirNotEmpty,
    NotDirectory,
    NotRegular,
    NotSymlink,
    NotReadable,
    NotWritable,
    NotEmpty,
}

} // verus!
